//! The configuration: the pools to follow, and the protocol that each one speaks.

use crate::hex_codec::{decode, is_hex_text};
use crate::sink::common::text_eq;
use vstd::prelude::*;

verus! {

/// The default of a pool's `enable` switch: a pool that does not say otherwise is enabled.
pub fn default_as_true() -> (enabled: bool)
    ensures
        enabled,
{
    true
}

/// The interpreter of WingRiders pools.
#[derive(Debug, PartialEq, Eq, Structural)]
pub struct WingRiders;

/// The interpreter of MinSwap pools of the first version.
#[derive(Debug, PartialEq, Eq, Structural)]
pub struct MinSwapV1;

/// The name of MinSwap pools of the second version, which have no interpreter.
#[derive(Debug, PartialEq, Eq, Structural)]
pub struct MinSwapV2;

/// The interpreter of SundaeSwap pools.
#[derive(Debug, PartialEq, Eq, Structural)]
pub struct SundaeSwap;

/// The interpreter that sees nothing: no mean value and no swap in any transaction.
#[derive(Debug, PartialEq, Eq, Structural)]
pub struct Empty;

/// The protocol that a pool is configured with.
#[derive(Debug, Clone, Copy, PartialEq, Eq, Structural)]
pub enum PoolType {
    WingRiders,
    SundaeSwap,
    MinSwapV1,
    MinSwapV2,
    /// Any protocol that a configuration names and this library does not know.
    Other,
}

/// The interpreter that stands behind a pool.
#[derive(Debug, Clone, Copy, PartialEq, Eq, Structural)]
pub enum DexKind {
    WingRidersV1,
    MinSwapV1,
    SundaeSwapV1,
    Inert,
}

/// One pool: whether it is followed, the hashes of its validators in hexadecimal, its
/// address, and its protocol.
#[derive(Debug)]
pub struct PoolConfig {
    pub enable: bool,
    pub script_hash: String,
    pub request_hash: String,
    pub vesting_hash: String,
    pub address: String,
    pub pool_type: PoolType,
}

/// The whole configuration.
#[derive(Debug)]
pub struct Config {
    pub pools: Vec<PoolConfig>,
}

/// What is wrong with a configuration.
#[derive(Debug, Clone, Copy, PartialEq, Eq, Structural)]
pub enum ConfigError {
    /// A hash of the pool at this position is no hexadecimal text.
    InvalidHash(usize),
}

/// The interpreter of each protocol; a protocol without one is inert.
pub open spec fn kind_of(pool_type: PoolType) -> DexKind {
    match pool_type {
        PoolType::WingRiders => DexKind::WingRidersV1,
        PoolType::MinSwapV1 => DexKind::MinSwapV1,
        PoolType::SundaeSwap => DexKind::SundaeSwapV1,
        PoolType::MinSwapV2 => DexKind::Inert,
        PoolType::Other => DexKind::Inert,
    }
}

/// The protocol that a name stands for in a configuration.
pub open spec fn pool_type_of(name: Seq<char>) -> PoolType {
    if name == "WingRiders"@ {
        PoolType::WingRiders
    } else if name == "SundaeSwap"@ {
        PoolType::SundaeSwap
    } else if name == "MinSwapV1"@ {
        PoolType::MinSwapV1
    } else if name == "MinSwapV2"@ {
        PoolType::MinSwapV2
    } else {
        PoolType::Other
    }
}

impl PoolType {
    /// The protocol that a name stands for in a configuration. A name that stands for none
    /// is tolerated: its pools are followed by no interpreter.
    pub fn named(name: &str) -> (pool_type: PoolType)
        ensures
            pool_type == pool_type_of(name@),
    {
        if text_eq(name, "WingRiders") {
            PoolType::WingRiders
        } else if text_eq(name, "SundaeSwap") {
            PoolType::SundaeSwap
        } else if text_eq(name, "MinSwapV1") {
            PoolType::MinSwapV1
        } else if text_eq(name, "MinSwapV2") {
            PoolType::MinSwapV2
        } else {
            PoolType::Other
        }
    }
}

impl PoolConfig {
    /// Whether the three hashes are hexadecimal text.
    pub open spec fn has_valid_hashes(&self) -> bool {
        &&& is_hex_text(self.script_hash@)
        &&& is_hex_text(self.request_hash@)
        &&& is_hex_text(self.vesting_hash@)
    }

    /// The interpreter that reads this pool's transactions.
    pub fn as_trait(&self) -> (kind: DexKind)
        ensures
            kind == kind_of(self.pool_type),
    {
        match self.pool_type {
            PoolType::WingRiders => DexKind::WingRidersV1,
            PoolType::MinSwapV1 => DexKind::MinSwapV1,
            PoolType::SundaeSwap => DexKind::SundaeSwapV1,
            PoolType::MinSwapV2 => DexKind::Inert,
            PoolType::Other => DexKind::Inert,
        }
    }

    /// Whether the three hashes are hexadecimal text.
    pub fn check_hashes(&self) -> (valid: bool)
        ensures
            valid == self.has_valid_hashes(),
    {
        decode(self.script_hash.as_str()).is_some() && decode(
            self.request_hash.as_str(),
        ).is_some() && decode(self.vesting_hash.as_str()).is_some()
    }
}

impl Config {
    /// Whether every pool has valid hashes.
    pub open spec fn is_valid(&self) -> bool {
        forall|i: int| 0 <= i < self.pools@.len() ==> (#[trigger] self.pools@[i]).has_valid_hashes()
    }

    /// Accepts a configuration whose pools all have valid hashes, and names the first pool
    /// that has not.
    pub fn validate(&self) -> (checked: Result<(), ConfigError>)
        ensures
            checked.is_ok() == self.is_valid(),
            checked matches Err(ConfigError::InvalidHash(at)) ==> {
                &&& at < self.pools@.len()
                &&& !self.pools@[at as int].has_valid_hashes()
                &&& forall|i: int| 0 <= i < at ==> (#[trigger] self.pools@[i]).has_valid_hashes()
            },
    {
        let mut i: usize = 0;
        while i < self.pools.len()
            invariant
                i <= self.pools@.len(),
                forall|k: int| 0 <= k < i ==> (#[trigger] self.pools@[k]).has_valid_hashes(),
            decreases self.pools@.len() - i,
        {
            if !self.pools[i].check_hashes() {
                return Err(ConfigError::InvalidHash(i));
            }
            i = i + 1;
        }
        Ok(())
    }
}

} // verus!

//! What the follower of the chain is started with: where to connect, and from which block
//! to read. Arguments are taken as bytes.

use crate::search::{
    first_where, is_first_where, lemma_first_where_found, lemma_first_where_missing,
};
use crate::text::{copy_range, find_byte, parse_unsigned, unsigned_number};
use vstd::prelude::*;

verus! {

/// How the node is reached.
#[derive(Debug, Clone, Copy, PartialEq, Eq, Structural)]
pub enum BearerKind {
    Tcp,
    Unix,
}

/// Why the follower cannot be started.
#[derive(Debug, Clone, Copy, PartialEq, Eq, Structural)]
pub enum SetupError {
    /// The start is not a slot, a colon and a hash.
    InvalidStart,
}

/// The block to read from: its slot and its hash as it was given.
#[derive(Debug)]
pub struct StartPoint {
    pub slot: u64,
    pub hash: Vec<u8>,
}

/// What the follower is started with.
#[derive(Debug)]
pub struct Bootstrap {
    pub bearer: BearerKind,
    pub intersect: Option<StartPoint>,
}

/// Whether a byte is `:`.
pub open spec fn is_colon() -> spec_fn(u8) -> bool {
    |byte: u8| byte == (':' as u8)
}

/// How the node at `socket` is reached: over TCP where the text holds a colon, as in a host
/// with a port; else through a socket of the file system.
pub open spec fn bearer_of(socket: Seq<u8>) -> BearerKind {
    if first_where(socket, is_colon()) is Some {
        BearerKind::Tcp
    } else {
        BearerKind::Unix
    }
}

/// The start that a text names: the number before the first colon is the slot, what follows
/// the colon is the hash.
pub open spec fn start_of(text: Seq<u8>) -> Option<(u64, Seq<u8>)> {
    match first_where(text, is_colon()) {
        None => None,
        Some(at) => match unsigned_number(text.take(at)) {
            Some(slot) => Some((slot, text.skip(at + 1))),
            None => None,
        },
    }
}

fn find_colon(text: &[u8]) -> (found: Option<usize>)
    ensures
        found.is_some() == first_where(text@, is_colon()).is_some(),
        found matches Some(at) ==> Some(at as int) == first_where(text@, is_colon()) && at
            < text@.len(),
{
    match find_byte(text, 0, ':' as u8) {
        Some(at) => {
            proof {
                assert(is_first_where(text@, is_colon(), at as int));
                lemma_first_where_found(text@, is_colon(), at as int);
            }
            Some(at)
        },
        None => {
            proof {
                lemma_first_where_missing(text@, is_colon());
            }
            None
        },
    }
}

/// How the node at `socket` is reached.
pub fn bearer(socket: &[u8]) -> (kind: BearerKind)
    ensures
        kind == bearer_of(socket@),
{
    match find_colon(socket) {
        Some(_) => BearerKind::Tcp,
        None => BearerKind::Unix,
    }
}

/// The start that a text names.
pub fn parse_start(text: &[u8]) -> (start: Option<StartPoint>)
    ensures
        start.is_some() == start_of(text@).is_some(),
        start matches Some(point) ==> Some((point.slot, point.hash@)) == start_of(text@),
{
    let at = match find_colon(text) {
        Some(at) => at,
        None => {
            return None;
        },
    };
    let len = text.len();
    let number = copy_range(text, 0, at);
    assert(text@.subrange(0, at as int) =~= text@.take(at as int));
    let slot = match parse_unsigned(number.as_slice()) {
        Some(slot) => slot,
        None => {
            return None;
        },
    };
    let hash = copy_range(text, at + 1, len);
    assert(text@.subrange(at as int + 1, len as int) =~= text@.skip(at as int + 1));
    Some(StartPoint { slot, hash })
}

/// What the follower is started with, given the start that was asked for, if any, and the
/// socket of the node.
pub fn oura_bootstrap(start_block: Option<&[u8]>, socket: &[u8]) -> (plan: Result<
    Bootstrap,
    SetupError,
>)
    ensures
        plan is Err <==> (start_block matches Some(text) && start_of(text@) is None),
        plan matches Ok(bootstrap) ==> bootstrap.bearer == bearer_of(socket@) && match start_block {
            Some(text) => bootstrap.intersect matches Some(point) && Some((point.slot, point.hash@))
                == start_of(text@),
            None => bootstrap.intersect is None,
        },
{
    let intersect = match start_block {
        Some(text) => match parse_start(text) {
            Some(point) => Some(point),
            None => {
                return Err(SetupError::InvalidStart);
            },
        },
        None => None,
    };
    Ok(Bootstrap { bearer: bearer(socket), intersect })
}

} // verus!

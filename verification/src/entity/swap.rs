//! The rows of the `swap` table.

use vstd::prelude::*;

verus! {

/// One swap that a transaction executed against a pool. `direction` is `true` for a buy.
#[derive(Debug, Clone)]
pub struct Model {
    pub id: i64,
    pub tx_id: i64,
    pub script_hash: Vec<u8>,
    pub token1_id: i64,
    pub token2_id: i64,
    pub amount1: i64,
    pub amount2: i64,
    pub direction: bool,
}

/// What a row is.
pub struct Row {
    pub id: i64,
    pub tx_id: i64,
    pub script_hash: Seq<u8>,
    pub token1_id: i64,
    pub token2_id: i64,
    pub amount1: i64,
    pub amount2: i64,
    pub direction: bool,
}

impl View for Model {
    type V = Row;

    open spec fn view(&self) -> Row {
        Row {
            id: self.id,
            tx_id: self.tx_id,
            script_hash: self.script_hash@,
            token1_id: self.token1_id,
            token2_id: self.token2_id,
            amount1: self.amount1,
            amount2: self.amount2,
            direction: self.direction,
        }
    }
}

impl DeepView for Model {
    type V = Row;

    open spec fn deep_view(&self) -> Row {
        self@
    }
}

} // verus!

//! The rows of the `block` table.

use vstd::prelude::*;

verus! {

/// One block of the chain.
#[derive(Debug, Clone)]
pub struct Model {
    pub id: i64,
    pub hash: Vec<u8>,
    pub height: i64,
    pub epoch: i64,
    pub slot: i64,
    pub previous_block_id: Option<i64>,
}

/// What a row is.
pub struct Row {
    pub id: i64,
    pub hash: Seq<u8>,
    pub height: i64,
    pub epoch: i64,
    pub slot: i64,
    pub previous_block_id: Option<i64>,
}

impl View for Model {
    type V = Row;

    open spec fn view(&self) -> Row {
        Row {
            id: self.id,
            hash: self.hash@,
            height: self.height,
            epoch: self.epoch,
            slot: self.slot,
            previous_block_id: self.previous_block_id,
        }
    }
}

impl DeepView for Model {
    type V = Row;

    open spec fn deep_view(&self) -> Row {
        self@
    }
}

} // verus!

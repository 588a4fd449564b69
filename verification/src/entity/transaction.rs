//! The rows of the `transaction` table.

use vstd::prelude::*;

verus! {

/// One transaction, in the block that holds it.
#[derive(Debug, Clone)]
pub struct Model {
    pub id: i64,
    pub hash: Vec<u8>,
    pub block_id: i64,
}

/// What a row is.
pub struct Row {
    pub id: i64,
    pub hash: Seq<u8>,
    pub block_id: i64,
}

impl View for Model {
    type V = Row;

    open spec fn view(&self) -> Row {
        Row {
            id: self.id,
            hash: self.hash@,
            block_id: self.block_id,
        }
    }
}

impl DeepView for Model {
    type V = Row;

    open spec fn deep_view(&self) -> Row {
        self@
    }
}

} // verus!

//! The rows of the `token_transfer` table.

use vstd::prelude::*;

verus! {

/// A quantity of one token on one output.
#[derive(Debug, Clone)]
pub struct Model {
    pub id: i64,
    pub output_id: i64,
    pub token_id: i64,
    pub amount: u64,
}

/// What a row is.
pub struct Row {
    pub id: i64,
    pub output_id: i64,
    pub token_id: i64,
    pub amount: u64,
}

impl View for Model {
    type V = Row;

    open spec fn view(&self) -> Row {
        Row {
            id: self.id,
            output_id: self.output_id,
            token_id: self.token_id,
            amount: self.amount,
        }
    }
}

impl DeepView for Model {
    type V = Row;

    open spec fn deep_view(&self) -> Row {
        self@
    }
}

} // verus!

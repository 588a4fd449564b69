//! The rows of the `address` table.

use vstd::prelude::*;

verus! {

/// One address, by its bech32 text.
#[derive(Debug, Clone)]
pub struct Model {
    pub id: i64,
    pub payload: String,
}

/// What a row is.
pub struct Row {
    pub id: i64,
    pub payload: Seq<char>,
}

impl View for Model {
    type V = Row;

    open spec fn view(&self) -> Row {
        Row {
            id: self.id,
            payload: self.payload@,
        }
    }
}

impl DeepView for Model {
    type V = Row;

    open spec fn deep_view(&self) -> Row {
        self@
    }
}

} // verus!

//! The rows of the `token` table.

use vstd::prelude::*;

verus! {

/// One token, by its policy and name. The token without policy and name is ADA.
#[derive(Debug, Clone)]
pub struct Model {
    pub id: i64,
    pub policy_id: Vec<u8>,
    pub name: Vec<u8>,
}

/// What a row is.
pub struct Row {
    pub id: i64,
    pub policy_id: Seq<u8>,
    pub name: Seq<u8>,
}

impl View for Model {
    type V = Row;

    open spec fn view(&self) -> Row {
        Row {
            id: self.id,
            policy_id: self.policy_id@,
            name: self.name@,
        }
    }
}

impl DeepView for Model {
    type V = Row;

    open spec fn deep_view(&self) -> Row {
        self@
    }
}

} // verus!

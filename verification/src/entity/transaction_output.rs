//! The rows of the `transaction_output` table.

use crate::model::text_of;
use vstd::prelude::*;

verus! {

/// One output of a transaction, at its position among the outputs.
#[derive(Debug, Clone)]
pub struct Model {
    pub id: i64,
    pub tx_id: i64,
    pub index: u32,
    pub address_id: i64,
    pub datum_hash: Option<String>,
}

/// What a row is.
pub struct Row {
    pub id: i64,
    pub tx_id: i64,
    pub index: u32,
    pub address_id: i64,
    pub datum_hash: Option<Seq<char>>,
}

impl View for Model {
    type V = Row;

    open spec fn view(&self) -> Row {
        Row {
            id: self.id,
            tx_id: self.tx_id,
            index: self.index,
            address_id: self.address_id,
            datum_hash: text_of(self.datum_hash),
        }
    }
}

impl DeepView for Model {
    type V = Row;

    open spec fn deep_view(&self) -> Row {
        self@
    }
}

} // verus!

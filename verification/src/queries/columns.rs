//! Single columns of the tables.

use crate::entity::{
    address, block, price_update, swap, token, token_transfer, transaction, transaction_output,
};
use crate::queries::rows::contains_id;
use crate::queries::state::ids_ascend;
use vstd::prelude::*;

verus! {

pub(crate) fn block_ids(rows: &Vec<block::Model>) -> (column: Vec<i64>)
    ensures
        column@ == Seq::new(rows@.len(), |i: int| rows@[i].id),
{
    let mut column: Vec<i64> = Vec::new();
    let mut i: usize = 0;
    while i < rows.len()
        invariant
            i <= rows@.len(),
            column@ == Seq::new(i as nat, |k: int| rows@[k].id),
        decreases rows@.len() - i,
    {
        column.push(rows[i].id);
        assert(column@ =~= Seq::new((i + 1) as nat, |k: int| rows@[k].id));
        i = i + 1;
    }
    column
}

pub(crate) fn transaction_ids(rows: &Vec<transaction::Model>) -> (column: Vec<i64>)
    ensures
        column@ == Seq::new(rows@.len(), |i: int| rows@[i].id),
{
    let mut column: Vec<i64> = Vec::new();
    let mut i: usize = 0;
    while i < rows.len()
        invariant
            i <= rows@.len(),
            column@ == Seq::new(i as nat, |k: int| rows@[k].id),
        decreases rows@.len() - i,
    {
        column.push(rows[i].id);
        assert(column@ =~= Seq::new((i + 1) as nat, |k: int| rows@[k].id));
        i = i + 1;
    }
    column
}

pub(crate) fn transaction_blocks(rows: &Vec<transaction::Model>) -> (column: Vec<i64>)
    ensures
        column@ == Seq::new(rows@.len(), |i: int| rows@[i].block_id),
{
    let mut column: Vec<i64> = Vec::new();
    let mut i: usize = 0;
    while i < rows.len()
        invariant
            i <= rows@.len(),
            column@ == Seq::new(i as nat, |k: int| rows@[k].block_id),
        decreases rows@.len() - i,
    {
        column.push(rows[i].block_id);
        assert(column@ =~= Seq::new((i + 1) as nat, |k: int| rows@[k].block_id));
        i = i + 1;
    }
    column
}

pub(crate) fn address_ids(rows: &Vec<address::Model>) -> (column: Vec<i64>)
    ensures
        column@ == Seq::new(rows@.len(), |i: int| rows@[i].id),
{
    let mut column: Vec<i64> = Vec::new();
    let mut i: usize = 0;
    while i < rows.len()
        invariant
            i <= rows@.len(),
            column@ == Seq::new(i as nat, |k: int| rows@[k].id),
        decreases rows@.len() - i,
    {
        column.push(rows[i].id);
        assert(column@ =~= Seq::new((i + 1) as nat, |k: int| rows@[k].id));
        i = i + 1;
    }
    column
}

pub(crate) fn token_ids(rows: &Vec<token::Model>) -> (column: Vec<i64>)
    ensures
        column@ == Seq::new(rows@.len(), |i: int| rows@[i].id),
{
    let mut column: Vec<i64> = Vec::new();
    let mut i: usize = 0;
    while i < rows.len()
        invariant
            i <= rows@.len(),
            column@ == Seq::new(i as nat, |k: int| rows@[k].id),
        decreases rows@.len() - i,
    {
        column.push(rows[i].id);
        assert(column@ =~= Seq::new((i + 1) as nat, |k: int| rows@[k].id));
        i = i + 1;
    }
    column
}

pub(crate) fn output_ids(rows: &Vec<transaction_output::Model>) -> (column: Vec<i64>)
    ensures
        column@ == Seq::new(rows@.len(), |i: int| rows@[i].id),
{
    let mut column: Vec<i64> = Vec::new();
    let mut i: usize = 0;
    while i < rows.len()
        invariant
            i <= rows@.len(),
            column@ == Seq::new(i as nat, |k: int| rows@[k].id),
        decreases rows@.len() - i,
    {
        column.push(rows[i].id);
        assert(column@ =~= Seq::new((i + 1) as nat, |k: int| rows@[k].id));
        i = i + 1;
    }
    column
}

pub(crate) fn output_transactions(rows: &Vec<transaction_output::Model>) -> (column: Vec<i64>)
    ensures
        column@ == Seq::new(rows@.len(), |i: int| rows@[i].tx_id),
{
    let mut column: Vec<i64> = Vec::new();
    let mut i: usize = 0;
    while i < rows.len()
        invariant
            i <= rows@.len(),
            column@ == Seq::new(i as nat, |k: int| rows@[k].tx_id),
        decreases rows@.len() - i,
    {
        column.push(rows[i].tx_id);
        assert(column@ =~= Seq::new((i + 1) as nat, |k: int| rows@[k].tx_id));
        i = i + 1;
    }
    column
}

pub(crate) fn output_addresses(rows: &Vec<transaction_output::Model>) -> (column: Vec<i64>)
    ensures
        column@ == Seq::new(rows@.len(), |i: int| rows@[i].address_id),
{
    let mut column: Vec<i64> = Vec::new();
    let mut i: usize = 0;
    while i < rows.len()
        invariant
            i <= rows@.len(),
            column@ == Seq::new(i as nat, |k: int| rows@[k].address_id),
        decreases rows@.len() - i,
    {
        column.push(rows[i].address_id);
        assert(column@ =~= Seq::new((i + 1) as nat, |k: int| rows@[k].address_id));
        i = i + 1;
    }
    column
}

pub(crate) fn transfer_ids(rows: &Vec<token_transfer::Model>) -> (column: Vec<i64>)
    ensures
        column@ == Seq::new(rows@.len(), |i: int| rows@[i].id),
{
    let mut column: Vec<i64> = Vec::new();
    let mut i: usize = 0;
    while i < rows.len()
        invariant
            i <= rows@.len(),
            column@ == Seq::new(i as nat, |k: int| rows@[k].id),
        decreases rows@.len() - i,
    {
        column.push(rows[i].id);
        assert(column@ =~= Seq::new((i + 1) as nat, |k: int| rows@[k].id));
        i = i + 1;
    }
    column
}

pub(crate) fn transfer_outputs(rows: &Vec<token_transfer::Model>) -> (column: Vec<i64>)
    ensures
        column@ == Seq::new(rows@.len(), |i: int| rows@[i].output_id),
{
    let mut column: Vec<i64> = Vec::new();
    let mut i: usize = 0;
    while i < rows.len()
        invariant
            i <= rows@.len(),
            column@ == Seq::new(i as nat, |k: int| rows@[k].output_id),
        decreases rows@.len() - i,
    {
        column.push(rows[i].output_id);
        assert(column@ =~= Seq::new((i + 1) as nat, |k: int| rows@[k].output_id));
        i = i + 1;
    }
    column
}

pub(crate) fn transfer_tokens(rows: &Vec<token_transfer::Model>) -> (column: Vec<i64>)
    ensures
        column@ == Seq::new(rows@.len(), |i: int| rows@[i].token_id),
{
    let mut column: Vec<i64> = Vec::new();
    let mut i: usize = 0;
    while i < rows.len()
        invariant
            i <= rows@.len(),
            column@ == Seq::new(i as nat, |k: int| rows@[k].token_id),
        decreases rows@.len() - i,
    {
        column.push(rows[i].token_id);
        assert(column@ =~= Seq::new((i + 1) as nat, |k: int| rows@[k].token_id));
        i = i + 1;
    }
    column
}

pub(crate) fn price_update_ids(rows: &Vec<price_update::Model>) -> (column: Vec<i64>)
    ensures
        column@ == Seq::new(rows@.len(), |i: int| rows@[i].id),
{
    let mut column: Vec<i64> = Vec::new();
    let mut i: usize = 0;
    while i < rows.len()
        invariant
            i <= rows@.len(),
            column@ == Seq::new(i as nat, |k: int| rows@[k].id),
        decreases rows@.len() - i,
    {
        column.push(rows[i].id);
        assert(column@ =~= Seq::new((i + 1) as nat, |k: int| rows@[k].id));
        i = i + 1;
    }
    column
}

pub(crate) fn price_transactions(rows: &Vec<price_update::Model>) -> (column: Vec<i64>)
    ensures
        column@ == Seq::new(rows@.len(), |i: int| rows@[i].tx_id),
{
    let mut column: Vec<i64> = Vec::new();
    let mut i: usize = 0;
    while i < rows.len()
        invariant
            i <= rows@.len(),
            column@ == Seq::new(i as nat, |k: int| rows@[k].tx_id),
        decreases rows@.len() - i,
    {
        column.push(rows[i].tx_id);
        assert(column@ =~= Seq::new((i + 1) as nat, |k: int| rows@[k].tx_id));
        i = i + 1;
    }
    column
}

pub(crate) fn price_first_tokens(rows: &Vec<price_update::Model>) -> (column: Vec<i64>)
    ensures
        column@ == Seq::new(rows@.len(), |i: int| rows@[i].token1_id),
{
    let mut column: Vec<i64> = Vec::new();
    let mut i: usize = 0;
    while i < rows.len()
        invariant
            i <= rows@.len(),
            column@ == Seq::new(i as nat, |k: int| rows@[k].token1_id),
        decreases rows@.len() - i,
    {
        column.push(rows[i].token1_id);
        assert(column@ =~= Seq::new((i + 1) as nat, |k: int| rows@[k].token1_id));
        i = i + 1;
    }
    column
}

pub(crate) fn price_second_tokens(rows: &Vec<price_update::Model>) -> (column: Vec<i64>)
    ensures
        column@ == Seq::new(rows@.len(), |i: int| rows@[i].token2_id),
{
    let mut column: Vec<i64> = Vec::new();
    let mut i: usize = 0;
    while i < rows.len()
        invariant
            i <= rows@.len(),
            column@ == Seq::new(i as nat, |k: int| rows@[k].token2_id),
        decreases rows@.len() - i,
    {
        column.push(rows[i].token2_id);
        assert(column@ =~= Seq::new((i + 1) as nat, |k: int| rows@[k].token2_id));
        i = i + 1;
    }
    column
}

pub(crate) fn swap_ids(rows: &Vec<swap::Model>) -> (column: Vec<i64>)
    ensures
        column@ == Seq::new(rows@.len(), |i: int| rows@[i].id),
{
    let mut column: Vec<i64> = Vec::new();
    let mut i: usize = 0;
    while i < rows.len()
        invariant
            i <= rows@.len(),
            column@ == Seq::new(i as nat, |k: int| rows@[k].id),
        decreases rows@.len() - i,
    {
        column.push(rows[i].id);
        assert(column@ =~= Seq::new((i + 1) as nat, |k: int| rows@[k].id));
        i = i + 1;
    }
    column
}

pub(crate) fn swap_transactions(rows: &Vec<swap::Model>) -> (column: Vec<i64>)
    ensures
        column@ == Seq::new(rows@.len(), |i: int| rows@[i].tx_id),
{
    let mut column: Vec<i64> = Vec::new();
    let mut i: usize = 0;
    while i < rows.len()
        invariant
            i <= rows@.len(),
            column@ == Seq::new(i as nat, |k: int| rows@[k].tx_id),
        decreases rows@.len() - i,
    {
        column.push(rows[i].tx_id);
        assert(column@ =~= Seq::new((i + 1) as nat, |k: int| rows@[k].tx_id));
        i = i + 1;
    }
    column
}

pub(crate) fn swap_first_tokens(rows: &Vec<swap::Model>) -> (column: Vec<i64>)
    ensures
        column@ == Seq::new(rows@.len(), |i: int| rows@[i].token1_id),
{
    let mut column: Vec<i64> = Vec::new();
    let mut i: usize = 0;
    while i < rows.len()
        invariant
            i <= rows@.len(),
            column@ == Seq::new(i as nat, |k: int| rows@[k].token1_id),
        decreases rows@.len() - i,
    {
        column.push(rows[i].token1_id);
        assert(column@ =~= Seq::new((i + 1) as nat, |k: int| rows@[k].token1_id));
        i = i + 1;
    }
    column
}

pub(crate) fn swap_second_tokens(rows: &Vec<swap::Model>) -> (column: Vec<i64>)
    ensures
        column@ == Seq::new(rows@.len(), |i: int| rows@[i].token2_id),
{
    let mut column: Vec<i64> = Vec::new();
    let mut i: usize = 0;
    while i < rows.len()
        invariant
            i <= rows@.len(),
            column@ == Seq::new(i as nat, |k: int| rows@[k].token2_id),
        decreases rows@.len() - i,
    {
        column.push(rows[i].token2_id);
        assert(column@ =~= Seq::new((i + 1) as nat, |k: int| rows@[k].token2_id));
        i = i + 1;
    }
    column
}

/// For each reference, whether it is among the identifiers.
pub(crate) fn marks_of(references: &Vec<i64>, ids: &Vec<i64>) -> (keep: Vec<bool>)
    ensures
        keep@ == Seq::new(references@.len(), |i: int| ids@.contains(references@[i])),
{
    let mut keep: Vec<bool> = Vec::new();
    let mut i: usize = 0;
    while i < references.len()
        invariant
            i <= references@.len(),
            keep@ == Seq::new(i as nat, |k: int| ids@.contains(references@[k])),
        decreases references@.len() - i,
    {
        keep.push(contains_id(ids, references[i]));
        assert(keep@ =~= Seq::new((i + 1) as nat, |k: int| ids@.contains(references@[k])));
        i = i + 1;
    }
    keep
}

/// Whether every reference is among the identifiers.
pub(crate) fn all_among(references: &Vec<i64>, ids: &Vec<i64>) -> (yes: bool)
    ensures
        yes == forall|i: int| 0 <= i < references@.len() ==> ids@.contains(#[trigger] references@[i]),
{
    let mut i: usize = 0;
    while i < references.len()
        invariant
            i <= references@.len(),
            forall|k: int| 0 <= k < i ==> ids@.contains(#[trigger] references@[k]),
        decreases references@.len() - i,
    {
        if !contains_id(ids, references[i]) {
            return false;
        }
        i = i + 1;
    }
    true
}

/// The identifier after the last of these, if they are as a table hands them out.
pub(crate) fn next_after(ids: &Vec<i64>) -> (next: Option<i64>)
    ensures
        next matches Some(n) ==> ids_ascend(ids@, n) && n == (if ids@.len()
            == 0 {
            1
        } else {
            ids@.last() + 1
        }),
        next is None ==> forall|n: i64| !ids_ascend(ids@, n),
{
    let mut last: i64 = 0;
    let mut i: usize = 0;
    while i < ids.len()
        invariant
            i <= ids@.len(),
            0 <= last,
            i == 0 ==> last == 0,
            i > 0 ==> last == ids@[i - 1],
            forall|k: int| 0 <= k < i ==> 1 <= #[trigger] ids@[k] <= last,
            forall|a: int, b: int| 0 <= a < b < i ==> #[trigger] ids@[a] < #[trigger] ids@[b],
        decreases ids@.len() - i,
    {
        if ids[i] <= last {
            proof {
                assert forall|n: i64| !ids_ascend(ids@, n) by {
                    if ids_ascend(ids@, n) {
                        assert(1 <= ids@[i as int] < n);
                        if i > 0 {
                            assert(ids@[i - 1] < ids@[i as int]);
                        }
                    }
                }
            }
            return None;
        }
        last = ids[i];
        i = i + 1;
    }
    if last == i64::MAX {
        proof {
            assert forall|n: i64| !ids_ascend(ids@, n) by {
                if ids_ascend(ids@, n) {
                    assert(1 <= ids@[ids@.len() - 1] < n);
                }
            }
        }
        return None;
    }
    Some(last + 1)
}

} // verus!

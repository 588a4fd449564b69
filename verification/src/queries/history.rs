//! Histories: the most recent rows of a pair, most recent first.
//!
//! Rows are ordered by the transaction that they belong to, later transactions first; of two
//! rows of one transaction the one that was written later comes first.

use crate::entity::{price_update, swap};
use crate::queries::state::Store;
use crate::types::{direction_name, direction_text, ExchangeHistory, SwapHistory, SwapHistoryView};
use vstd::prelude::*;

verus! {

/// Whether the row at `a` comes before the row at `b` in a history, given the transaction of
/// each row.
pub open spec fn comes_before(keys: Seq<i64>, a: int, b: int) -> bool {
    keys[a] > keys[b] || (keys[a] == keys[b] && a > b)
}

/// Whether `picked` names the history of at most `count` rows among the wanted rows: wanted
/// rows only, each before the next, and no wanted row left out unless `count` rows are named
/// and the row comes after all of them.
pub open spec fn is_history(
    keys: Seq<i64>,
    wanted: Seq<bool>,
    count: int,
    picked: Seq<int>,
) -> bool {
    &&& picked.len() <= count
    &&& forall|i: int|
        0 <= i < picked.len() ==> 0 <= #[trigger] picked[i] < keys.len() && wanted[picked[i]]
    &&& forall|i: int, j: int|
        0 <= i < j < picked.len() ==> comes_before(keys, #[trigger] picked[i], #[trigger] picked[j])
    &&& forall|row: int|
        0 <= row < keys.len() && #[trigger] wanted[row] && !picked.contains(row) ==> picked.len()
            == count && (picked.len() > 0 ==> comes_before(keys, picked.last(), row))
}

/// Whether the row at `row` may follow the rows picked so far.
pub open spec fn may_follow(keys: Seq<i64>, wanted: Seq<bool>, picked: Seq<int>, row: int) -> bool {
    wanted[row] && (picked.len() > 0 ==> comes_before(keys, picked.last(), row))
}

/// What holds of the rows picked so far: wanted rows only, each before the next, and every
/// wanted row that is not among them may follow them.
pub open spec fn is_history_so_far(keys: Seq<i64>, wanted: Seq<bool>, picked: Seq<int>) -> bool {
    &&& forall|i: int|
        0 <= i < picked.len() ==> 0 <= #[trigger] picked[i] < keys.len() && wanted[picked[i]]
    &&& forall|i: int, j: int|
        0 <= i < j < picked.len() ==> comes_before(keys, #[trigger] picked[i], #[trigger] picked[j])
    &&& forall|row: int|
        0 <= row < keys.len() && #[trigger] wanted[row] && !picked.contains(row) ==> may_follow(
            keys,
            wanted,
            picked,
            row,
        )
}

/// What the positions are as a sequence of integers.
pub open spec fn positions(picked: Seq<usize>) -> Seq<int> {
    Seq::new(picked.len(), |i: int| picked[i] as int)
}

/// The row that follows the rows picked so far: among the rows that may follow, the one that
/// comes before all others.
fn next_of_history(keys: &Vec<i64>, wanted: &Vec<bool>, last: Option<usize>, Ghost(picked): Ghost<
    Seq<int>,
>) -> (next: Option<usize>)
    requires
        keys@.len() == wanted@.len(),
        last matches Some(at) ==> picked.len() > 0 && picked.last() == at && at < keys@.len(),
        last is None ==> picked.len() == 0,
    ensures
        next matches Some(at) ==> at < keys@.len() && may_follow(keys@, wanted@, picked, at as int)
            && forall|row: int|
            0 <= row < keys@.len() && row != at && #[trigger] may_follow(
                keys@,
                wanted@,
                picked,
                row,
            ) ==> comes_before(keys@, at as int, row),
        next is None ==> forall|row: int|
            0 <= row < keys@.len() ==> !#[trigger] may_follow(keys@, wanted@, picked, row),
{
    let mut best: Option<usize> = None;
    let mut i: usize = 0;
    while i < keys.len()
        invariant
            i <= keys@.len(),
            keys@.len() == wanted@.len(),
            last matches Some(at) ==> picked.len() > 0 && picked.last() == at && at < keys@.len(),
            last is None ==> picked.len() == 0,
            best matches Some(at) ==> at < i && may_follow(keys@, wanted@, picked, at as int)
                && forall|row: int|
                0 <= row < i && row != at && #[trigger] may_follow(keys@, wanted@, picked, row)
                    ==> comes_before(keys@, at as int, row),
            best is None ==> forall|row: int|
                0 <= row < i ==> !#[trigger] may_follow(keys@, wanted@, picked, row),
        decreases keys@.len() - i,
    {
        let follows = wanted[i] && match last {
            Some(at) => keys[at] > keys[i] || (keys[at] == keys[i] && at > i),
            None => true,
        };
        assert(follows == may_follow(keys@, wanted@, picked, i as int));
        let ghost old_best = best;
        if follows {
            let better = match best {
                Some(at) => keys[i] >= keys[at],
                None => true,
            };
            if better {
                best = Some(i);
                proof {
                    assert forall|row: int|
                        0 <= row < i && #[trigger] may_follow(
                            keys@,
                            wanted@,
                            picked,
                            row,
                        ) implies comes_before(keys@, i as int, row) by {
                        if let Some(at) = old_best {
                            if row != at {
                                assert(comes_before(keys@, at as int, row));
                            }
                        }
                    }
                }
            }
        }
        i = i + 1;
    }
    best
}

/// The positions of the history of at most `count` rows among the wanted rows, given the
/// transaction of each row.
pub fn history_positions(keys: &Vec<i64>, wanted: &Vec<bool>, count: u64) -> (picked: Vec<usize>)
    requires
        keys@.len() == wanted@.len(),
    ensures
        is_history(keys@, wanted@, count as int, positions(picked@)),
{
    let mut picked: Vec<usize> = Vec::new();
    let mut last: Option<usize> = None;
    let mut taken: u64 = 0;
    assert(positions(picked@) =~= Seq::<int>::empty());
    while taken < count
        invariant
            taken <= count,
            taken == picked@.len(),
            keys@.len() == wanted@.len(),
            is_history_so_far(keys@, wanted@, positions(picked@)),
            last matches Some(at) ==> picked@.len() > 0 && positions(picked@).last() == at && at
                < keys@.len(),
            last is None ==> picked@.len() == 0,
        decreases count - taken,
    {
        let ghost before = positions(picked@);
        match next_of_history(keys, wanted, last, Ghost(before)) {
            None => {
                proof {
                    assert forall|row: int|
                        0 <= row < keys@.len() && #[trigger] wanted@[row] implies before.contains(
                        row,
                    ) by {
                        if !before.contains(row) {
                            assert(may_follow(keys@, wanted@, before, row));
                        }
                    }
                }
                return picked;
            },
            Some(at) => {
                picked.push(at);
                last = Some(at);
                taken = taken + 1;
                proof {
                    let after = positions(picked@);
                    assert(after =~= before.push(at as int));
                    assert forall|i: int, j: int| 0 <= i < j < after.len() implies comes_before(
                        keys@,
                        #[trigger] after[i],
                        #[trigger] after[j],
                    ) by {
                        if j == after.len() - 1 {
                            if i < before.len() - 1 {
                                assert(comes_before(keys@, before[i], before[before.len() - 1]));
                            }
                        } else {
                            assert(comes_before(keys@, before[i], before[j]));
                        }
                    }
                    assert forall|row: int|
                        0 <= row < keys@.len() && #[trigger] wanted@[row] && !after.contains(
                            row,
                        ) implies may_follow(keys@, wanted@, after, row) by {
                        assert(after[after.len() - 1] == at);
                        if before.contains(row) {
                            let k = choose|k: int| 0 <= k < before.len() && before[k] == row;
                            assert(after[k] == row);
                        }
                        assert(may_follow(keys@, wanted@, before, row));
                    }
                }
            },
        }
    }
    picked
}

/// Two histories of the same rows are the same: the conditions leave no choice.
pub proof fn lemma_history_is_unique(
    keys: Seq<i64>,
    wanted: Seq<bool>,
    count: int,
    one: Seq<int>,
    other: Seq<int>,
)
    requires
        keys.len() == wanted.len(),
        is_history(keys, wanted, count, one),
        is_history(keys, wanted, count, other),
    ensures
        one == other,
{
    lemma_history_agrees(keys, wanted, count, one, other, one.len() as int);
    lemma_history_agrees(keys, wanted, count, other, one, other.len() as int);
    lemma_history_is_no_longer(keys, wanted, count, one, other);
    lemma_history_is_no_longer(keys, wanted, count, other, one);
    assert(one =~= other);
}

/// Of two histories that agree as far as both reach, the second is no longer than the first.
proof fn lemma_history_is_no_longer(
    keys: Seq<i64>,
    wanted: Seq<bool>,
    count: int,
    one: Seq<int>,
    other: Seq<int>,
)
    requires
        keys.len() == wanted.len(),
        is_history(keys, wanted, count, one),
        is_history(keys, wanted, count, other),
        forall|i: int| 0 <= i < one.len() && i < other.len() ==> one[i] == other[i],
    ensures
        other.len() <= one.len(),
{
    if one.len() < other.len() {
        let row = other[one.len() as int];
        assert(wanted[row]);
        if one.contains(row) {
            let k = choose|k: int| 0 <= k < one.len() && one[k] == row;
            assert(comes_before(keys, other[k], other[one.len() as int]));
        }
    }
}

/// Two histories have the same rows as far as both reach.
proof fn lemma_history_agrees(
    keys: Seq<i64>,
    wanted: Seq<bool>,
    count: int,
    one: Seq<int>,
    other: Seq<int>,
    upto: int,
)
    requires
        keys.len() == wanted.len(),
        is_history(keys, wanted, count, one),
        is_history(keys, wanted, count, other),
        0 <= upto <= one.len(),
    ensures
        forall|i: int| 0 <= i < upto && i < other.len() ==> one[i] == other[i],
    decreases upto,
{
    if upto > 0 {
        lemma_history_agrees(keys, wanted, count, one, other, upto - 1);
        let at = upto - 1;
        if at < other.len() {
            assert forall|i: int| 0 <= i < at implies other[i] == one[i] by {
                assert(one[i] == other[i]);
            }
            lemma_history_is_not_later(keys, wanted, count, one, other, at);
            lemma_history_is_not_later(keys, wanted, count, other, one, at);
        }
    }
}

/// Where two histories agree before `at`, the row of the first at `at` does not come before
/// the row of the second there.
proof fn lemma_history_is_not_later(
    keys: Seq<i64>,
    wanted: Seq<bool>,
    count: int,
    one: Seq<int>,
    other: Seq<int>,
    at: int,
)
    requires
        keys.len() == wanted.len(),
        is_history(keys, wanted, count, one),
        is_history(keys, wanted, count, other),
        0 <= at < one.len(),
        at < other.len(),
        forall|i: int| 0 <= i < at ==> one[i] == other[i],
    ensures
        !comes_before(keys, one[at], other[at]),
{
    let a = one[at];
    assert(wanted[a]);
    if comes_before(keys, a, other[at]) {
        if other.contains(a) {
            let k = choose|k: int| 0 <= k < other.len() && other[k] == a;
            if k < at {
                assert(comes_before(keys, one[k], one[at]));
            } else if k > at {
                assert(comes_before(keys, other[at], other[k]));
            }
        } else {
            assert(comes_before(keys, other.last(), a));
            if at < other.len() - 1 {
                assert(comes_before(keys, other[at], other[other.len() - 1]));
            }
        }
    }
}

/// The transaction of each price update.
pub open spec fn price_keys(rows: Seq<price_update::Row>) -> Seq<i64> {
    Seq::new(rows.len(), |i: int| rows[i].tx_id)
}

/// For each price update, whether it is one of this pair of tokens.
pub open spec fn price_wanted(rows: Seq<price_update::Row>, token1_id: i64, token2_id: i64) -> Seq<
    bool,
> {
    Seq::new(rows.len(), |i: int| rows[i].token1_id == token1_id && rows[i].token2_id == token2_id)
}

/// The entry of a history that a price update makes.
pub open spec fn price_entry(row: price_update::Row) -> ExchangeHistory {
    ExchangeHistory { amount1: row.amount1, amount2: row.amount2, tx_id: row.tx_id }
}

/// The entries of the price updates at these positions.
pub open spec fn price_entries(
    rows: Seq<price_update::Row>,
    picked: Seq<int>,
) -> Seq<ExchangeHistory> {
    Seq::new(picked.len(), |i: int| price_entry(rows[picked[i]]))
}

/// Whether `entries` is the history of at most `count` price updates of a pair of tokens.
pub open spec fn is_price_history(
    rows: Seq<price_update::Row>,
    token1_id: i64,
    token2_id: i64,
    count: int,
    entries: Seq<ExchangeHistory>,
) -> bool {
    exists|picked: Seq<int>|
        is_history(price_keys(rows), price_wanted(rows, token1_id, token2_id), count, picked)
            && entries == price_entries(rows, picked)
}

/// The transaction of each swap.
pub open spec fn swap_keys(rows: Seq<swap::Row>) -> Seq<i64> {
    Seq::new(rows.len(), |i: int| rows[i].tx_id)
}

/// For each swap, whether it is one of this pair of tokens.
pub open spec fn swap_wanted(rows: Seq<swap::Row>, token1_id: i64, token2_id: i64) -> Seq<bool> {
    Seq::new(rows.len(), |i: int| rows[i].token1_id == token1_id && rows[i].token2_id == token2_id)
}

/// The entry of a history that a swap makes: its direction is `"Buy"` for `true` and `"Sell"`
/// for `false`.
pub open spec fn swap_entry(row: swap::Row) -> SwapHistoryView {
    SwapHistoryView {
        amount1: row.amount1,
        amount2: row.amount2,
        tx_id: row.tx_id,
        direction: direction_text(row.direction),
    }
}

/// The entries of the swaps at these positions.
pub open spec fn swap_entries(rows: Seq<swap::Row>, picked: Seq<int>) -> Seq<SwapHistoryView> {
    Seq::new(picked.len(), |i: int| swap_entry(rows[picked[i]]))
}

/// Whether `entries` is the history of at most `count` swaps of a pair of tokens.
pub open spec fn is_swap_history(
    rows: Seq<swap::Row>,
    token1_id: i64,
    token2_id: i64,
    count: int,
    entries: Seq<SwapHistoryView>,
) -> bool {
    exists|picked: Seq<int>|
        is_history(swap_keys(rows), swap_wanted(rows, token1_id, token2_id), count, picked)
            && entries == swap_entries(rows, picked)
}

/// In a history the transactions descend, the first row is the most recent of all wanted
/// rows, and no row stands twice.
pub proof fn lemma_history_descends(keys: Seq<i64>, wanted: Seq<bool>, count: int, picked: Seq<int>)
    requires
        keys.len() == wanted.len(),
        is_history(keys, wanted, count, picked),
    ensures
        forall|i: int, j: int|
            0 <= i < j < picked.len() ==> keys[#[trigger] picked[i]] >= keys[#[trigger] picked[j]]
                && picked[i] != picked[j],
        forall|row: int|
            0 <= row < keys.len() && #[trigger] wanted[row] && picked.len() > 0 ==> keys[row]
                <= keys[picked[0]],
        forall|row: int|
            0 <= row < keys.len() && #[trigger] wanted[row] && count > 0 ==> picked.len() > 0,
{
    assert forall|i: int, j: int| 0 <= i < j < picked.len() implies keys[#[trigger] picked[i]]
        >= keys[#[trigger] picked[j]] && picked[i] != picked[j] by {
        assert(comes_before(keys, picked[i], picked[j]));
    }
    assert forall|row: int|
        0 <= row < keys.len() && #[trigger] wanted[row] && picked.len() > 0 implies keys[row]
        <= keys[picked[0]] by {
        if picked.contains(row) {
            let k = choose|k: int| 0 <= k < picked.len() && picked[k] == row;
            if k > 0 {
                assert(comes_before(keys, picked[0], picked[k]));
            }
        } else {
            assert(comes_before(keys, picked.last(), row));
            if picked.len() > 1 {
                assert(comes_before(keys, picked[0], picked[picked.len() - 1]));
            }
        }
    }
    assert forall|row: int|
        0 <= row < keys.len() && #[trigger] wanted[row] && count > 0 implies picked.len() > 0 by {
        if picked.len() == 0 {
            assert(!picked.contains(row));
        }
    }
}

/// Where no two wanted rows belong to one transaction, the transactions of a history descend
/// strictly.
pub proof fn lemma_history_descends_strictly(
    keys: Seq<i64>,
    wanted: Seq<bool>,
    count: int,
    picked: Seq<int>,
)
    requires
        keys.len() == wanted.len(),
        is_history(keys, wanted, count, picked),
        forall|a: int, b: int|
            0 <= a < b < keys.len() && #[trigger] wanted[a] && #[trigger] wanted[b] ==> keys[a]
                != keys[b],
    ensures
        forall|i: int, j: int|
            0 <= i < j < picked.len() ==> keys[#[trigger] picked[i]] > keys[#[trigger] picked[j]],
{
    assert forall|i: int, j: int| 0 <= i < j < picked.len() implies keys[#[trigger] picked[i]]
        > keys[#[trigger] picked[j]] by {
        assert(comes_before(keys, picked[i], picked[j]));
        assert(wanted[picked[i]] && wanted[picked[j]]);
    }
}

fn price_columns(rows: &Vec<price_update::Model>, token1_id: i64, token2_id: i64) -> (columns: (
    Vec<i64>,
    Vec<bool>,
))
    ensures
        columns.0@ == price_keys(rows.deep_view()),
        columns.1@ == price_wanted(rows.deep_view(), token1_id, token2_id),
{
    let mut keys: Vec<i64> = Vec::new();
    let mut wanted: Vec<bool> = Vec::new();
    let mut i: usize = 0;
    while i < rows.len()
        invariant
            i <= rows@.len(),
            keys@ == price_keys(rows.deep_view().take(i as int)),
            wanted@ == price_wanted(rows.deep_view().take(i as int), token1_id, token2_id),
        decreases rows@.len() - i,
    {
        keys.push(rows[i].tx_id);
        wanted.push(rows[i].token1_id == token1_id && rows[i].token2_id == token2_id);
        assert(keys@ =~= price_keys(rows.deep_view().take(i as int + 1)));
        assert(wanted@ =~= price_wanted(rows.deep_view().take(i as int + 1), token1_id, token2_id));
        i = i + 1;
    }
    assert(rows.deep_view().take(rows@.len() as int) =~= rows.deep_view());
    (keys, wanted)
}

fn swap_columns(rows: &Vec<swap::Model>, token1_id: i64, token2_id: i64) -> (columns: (
    Vec<i64>,
    Vec<bool>,
))
    ensures
        columns.0@ == swap_keys(rows.deep_view()),
        columns.1@ == swap_wanted(rows.deep_view(), token1_id, token2_id),
{
    let mut keys: Vec<i64> = Vec::new();
    let mut wanted: Vec<bool> = Vec::new();
    let mut i: usize = 0;
    while i < rows.len()
        invariant
            i <= rows@.len(),
            keys@ == swap_keys(rows.deep_view().take(i as int)),
            wanted@ == swap_wanted(rows.deep_view().take(i as int), token1_id, token2_id),
        decreases rows@.len() - i,
    {
        keys.push(rows[i].tx_id);
        wanted.push(rows[i].token1_id == token1_id && rows[i].token2_id == token2_id);
        assert(keys@ =~= swap_keys(rows.deep_view().take(i as int + 1)));
        assert(wanted@ =~= swap_wanted(rows.deep_view().take(i as int + 1), token1_id, token2_id));
        i = i + 1;
    }
    assert(rows.deep_view().take(rows@.len() as int) =~= rows.deep_view());
    (keys, wanted)
}

/// The last `count` price updates of a pair of tokens, the most recent first. The
/// transactions of the entries descend, and the first entry is of the most recent transaction
/// that updated the pair.
pub fn get_token_price_history(asset_id1: i64, asset_id2: i64, count: u64, db: &Store) -> (entries:
    Vec<ExchangeHistory>)
    ensures
        is_price_history(db@.price_updates, asset_id1, asset_id2, count as int, entries@),
        entries@.len() <= count,
        forall|i: int, j: int|
            0 <= i < j < entries@.len() ==> (#[trigger] entries@[i]).tx_id
                >= (#[trigger] entries@[j]).tx_id,
        forall|k: int|
            0 <= k < db@.price_updates.len() && (#[trigger] db@.price_updates[k]).token1_id
                == asset_id1 && db@.price_updates[k].token2_id == asset_id2 && count > 0
                ==> entries@.len() > 0 && db@.price_updates[k].tx_id <= entries@[0].tx_id,
{
    proof {
        db.lemma_view();
    }
    let (keys, wanted) = price_columns(&db.price_updates, asset_id1, asset_id2);
    let picked = history_positions(&keys, &wanted, count);
    let ghost rows = db.price_updates.deep_view();
    proof {
        assert forall|k: int| 0 <= k < picked@.len() implies 0 <= #[trigger] picked@[k]
            < rows.len() by {
            assert(positions(picked@)[k] == picked@[k]);
        }
    }
    let mut entries: Vec<ExchangeHistory> = Vec::new();
    let mut i: usize = 0;
    while i < picked.len()
        invariant
            i <= picked@.len(),
            rows == db.price_updates.deep_view(),
            forall|k: int| 0 <= k < picked@.len() ==> 0 <= #[trigger] picked@[k] < rows.len(),
            entries@ == price_entries(rows, positions(picked@).take(i as int)),
        decreases picked@.len() - i,
    {
        let row = &db.price_updates[picked[i]];
        entries.push(ExchangeHistory { amount1: row.amount1, amount2: row.amount2, tx_id: row.tx_id });
        assert(entries@ =~= price_entries(rows, positions(picked@).take(i as int + 1))) by {
            assert(positions(picked@).take(i as int + 1)[i as int] == picked@[i as int]);
        }
        i = i + 1;
    }
    proof {
        assert(positions(picked@).take(picked@.len() as int) =~= positions(picked@));
        lemma_history_descends(keys@, wanted@, count as int, positions(picked@));
        assert forall|k: int|
            0 <= k < rows.len() && (#[trigger] rows[k]).token1_id == asset_id1
                && rows[k].token2_id == asset_id2 && count > 0 implies entries@.len() > 0
            && rows[k].tx_id <= entries@[0].tx_id by {
            assert(wanted@[k]);
            assert(keys@[k] <= keys@[positions(picked@)[0]]);
        }
        assert forall|i: int, j: int| 0 <= i < j < entries@.len() implies (
        #[trigger] entries@[i]).tx_id >= (#[trigger] entries@[j]).tx_id by {
            assert(keys@[positions(picked@)[i]] >= keys@[positions(picked@)[j]]);
        }
    }
    entries
}

/// The last `count` swaps of a pair of tokens, the most recent first, each with its direction
/// as `"Buy"` or `"Sell"`.
pub fn get_swap_history(asset_id1: i64, asset_id2: i64, count: u64, db: &Store) -> (entries: Vec<
    SwapHistory,
>)
    ensures
        is_swap_history(db@.swaps, asset_id1, asset_id2, count as int, entries.deep_view()),
        entries@.len() <= count,
        forall|i: int, j: int|
            0 <= i < j < entries@.len() ==> (#[trigger] entries@[i]).tx_id
                >= (#[trigger] entries@[j]).tx_id,
{
    proof {
        db.lemma_view();
    }
    let (keys, wanted) = swap_columns(&db.swaps, asset_id1, asset_id2);
    let picked = history_positions(&keys, &wanted, count);
    let ghost rows = db.swaps.deep_view();
    proof {
        assert forall|k: int| 0 <= k < picked@.len() implies 0 <= #[trigger] picked@[k]
            < rows.len() by {
            assert(positions(picked@)[k] == picked@[k]);
        }
    }
    let mut entries: Vec<SwapHistory> = Vec::new();
    let mut i: usize = 0;
    assert(entries.deep_view() =~= swap_entries(rows, positions(picked@).take(0)));
    while i < picked.len()
        invariant
            i <= picked@.len(),
            rows == db.swaps.deep_view(),
            forall|k: int| 0 <= k < picked@.len() ==> 0 <= #[trigger] picked@[k] < rows.len(),
            entries@.len() == i,
            entries.deep_view() == swap_entries(rows, positions(picked@).take(i as int)),
        decreases picked@.len() - i,
    {
        let row = &db.swaps[picked[i]];
        let ghost before = entries.deep_view();
        assert(rows[picked@[i as int] as int] == row@);
        entries.push(
            SwapHistory {
                amount1: row.amount1,
                amount2: row.amount2,
                tx_id: row.tx_id,
                direction: direction_name(row.direction),
            },
        );
        assert(entries.deep_view() =~= before.push(swap_entry(row@)));
        assert(entries.deep_view() =~= swap_entries(rows, positions(picked@).take(i as int + 1))) by {
            assert(positions(picked@).take(i as int + 1)[i as int] == picked@[i as int]);
        }
        i = i + 1;
    }
    proof {
        assert(positions(picked@).take(picked@.len() as int) =~= positions(picked@));
        lemma_history_descends(keys@, wanted@, count as int, positions(picked@));
        assert forall|i: int, j: int| 0 <= i < j < entries@.len() implies (
        #[trigger] entries@[i]).tx_id >= (#[trigger] entries@[j]).tx_id by {
            assert(entries.deep_view()[i].tx_id == entries@[i].tx_id);
            assert(entries.deep_view()[j].tx_id == entries@[j].tx_id);
            assert(keys@[positions(picked@)[i]] >= keys@[positions(picked@)[j]]);
        }
    }
    entries
}

} // verus!

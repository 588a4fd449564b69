//! What the tables share: the search for an identifier, and the removal of rows.

use vstd::prelude::*;

verus! {

/// Whether `id` is among `ids`.
pub fn contains_id(ids: &Vec<i64>, id: i64) -> (found: bool)
    ensures
        found == ids@.contains(id),
{
    let mut i: usize = 0;
    while i < ids.len()
        invariant
            i <= ids@.len(),
            forall|k: int| 0 <= k < i ==> ids@[k] != id,
        decreases ids@.len() - i,
    {
        if ids[i] == id {
            return true;
        }
        i = i + 1;
    }
    false
}

/// The rows that are marked to be kept, in their order.
pub open spec fn marked<T>(rows: Seq<T>, keep: Seq<bool>) -> Seq<T>
    decreases rows.len(),
{
    if rows.len() == 0 {
        rows
    } else if keep.last() {
        marked(rows.drop_last(), keep.drop_last()).push(rows.last())
    } else {
        marked(rows.drop_last(), keep.drop_last())
    }
}

/// The values of the marked rows are the values of all rows, filtered, where a row is marked
/// exactly if its value passes the filter.
pub proof fn lemma_marked_is_filter<T: DeepView>(
    rows: Seq<T>,
    keep: Seq<bool>,
    wanted: spec_fn(T::V) -> bool,
)
    requires
        rows.len() == keep.len(),
        forall|i: int| 0 <= i < rows.len() ==> keep[i] == wanted(#[trigger] rows[i].deep_view()),
    ensures
        Seq::new(marked(rows, keep).len(), |i: int| marked(rows, keep)[i].deep_view())
            == Seq::new(rows.len(), |i: int| rows[i].deep_view()).filter(wanted),
    decreases rows.len(),
{
    reveal(Seq::filter);
    let values = Seq::new(rows.len(), |i: int| rows[i].deep_view());
    let kept = marked(rows, keep);
    if rows.len() == 0 {
        assert(Seq::new(kept.len(), |i: int| kept[i].deep_view()) =~= values.filter(wanted));
    } else {
        lemma_marked_is_filter(rows.drop_last(), keep.drop_last(), wanted);
        let before = marked(rows.drop_last(), keep.drop_last());
        let before_values = Seq::new(
            rows.drop_last().len(),
            |i: int| rows.drop_last()[i].deep_view(),
        );
        assert(values.drop_last() =~= before_values);
        assert(values.last() == rows.last().deep_view());
        if keep.last() {
            assert(Seq::new(kept.len(), |i: int| kept[i].deep_view()) =~= Seq::new(
                before.len(),
                |i: int| before[i].deep_view(),
            ).push(rows.last().deep_view()));
        }
    }
}

/// Removes the rows that are not marked to be kept.
pub fn retain_marked<T>(rows: &mut Vec<T>, keep: &Vec<bool>)
    requires
        old(rows)@.len() == keep@.len(),
    ensures
        final(rows)@ == marked(old(rows)@, keep@),
{
    let ghost all = rows@;
    let mut i: usize = rows.len();
    proof {
        assert(all.skip(i as int) =~= Seq::<T>::empty());
        assert(rows@ =~= all.take(i as int) + marked(all.skip(i as int), keep@.skip(i as int)));
    }
    while i > 0
        invariant
            i <= all.len(),
            all.len() == keep@.len(),
            rows@ == all.take(i as int) + marked(all.skip(i as int), keep@.skip(i as int)),
        decreases i,
    {
        i = i - 1;
        let ghost tail = marked(all.skip(i as int + 1), keep@.skip(i as int + 1));
        proof {
            lemma_marked_prepend(
                all.skip(i as int + 1),
                keep@.skip(i as int + 1),
                all[i as int],
                keep@[i as int],
            );
            assert(all.skip(i as int) =~= seq![all[i as int]] + all.skip(i as int + 1));
            assert(keep@.skip(i as int) =~= seq![keep@[i as int]] + keep@.skip(i as int + 1));
            assert(all.take(i as int + 1) =~= all.take(i as int).push(all[i as int]));
        }
        if !keep[i] {
            rows.remove(i);
            assert(rows@ =~= all.take(i as int) + tail);
        } else {
            assert(rows@ =~= all.take(i as int) + (seq![all[i as int]] + tail));
        }
    }
    proof {
        assert(all.skip(0) =~= all);
        assert(keep@.skip(0) =~= keep@);
        assert(all.take(0) + marked(all, keep@) =~= marked(all, keep@));
    }
}

/// Keeping the marked rows of a table with one more row in front.
pub proof fn lemma_marked_prepend<T>(rows: Seq<T>, keep: Seq<bool>, row: T, kept: bool)
    requires
        rows.len() == keep.len(),
    ensures
        marked(seq![row] + rows, seq![kept] + keep) == if kept {
            seq![row] + marked(rows, keep)
        } else {
            marked(rows, keep)
        },
    decreases rows.len(),
{
    let all = seq![row] + rows;
    let marks = seq![kept] + keep;
    if rows.len() == 0 {
        assert(all.drop_last() =~= Seq::<T>::empty());
        assert(marks.drop_last() =~= Seq::<bool>::empty());
        assert(marks.last() == kept);
        assert(all.last() == row);
        assert(marked(all.drop_last(), marks.drop_last()) =~= Seq::<T>::empty());
        assert(marked(rows, keep) =~= Seq::<T>::empty());
        if kept {
            assert(Seq::<T>::empty().push(row) =~= seq![row] + Seq::<T>::empty());
        }
    } else {
        lemma_marked_prepend(rows.drop_last(), keep.drop_last(), row, kept);
        assert(all.drop_last() =~= seq![row] + rows.drop_last());
        assert(marks.drop_last() =~= seq![kept] + keep.drop_last());
        assert(all.last() == rows.last());
        assert(marks.last() == keep.last());
        let inner = marked(rows.drop_last(), keep.drop_last());
        if keep.last() {
            if kept {
                assert((seq![row] + inner).push(rows.last()) =~= seq![row] + inner.push(
                    rows.last(),
                ));
            }
        }
    }
}

/// The position, among all rows, of the row that stands at `at` after filtering.
pub open spec fn kept_from<T>(rows: Seq<T>, wanted: spec_fn(T) -> bool, at: int) -> int
    decreases rows.len(),
{
    if rows.len() == 0 {
        0
    } else if at < rows.drop_last().filter(wanted).len() {
        kept_from(rows.drop_last(), wanted, at)
    } else {
        rows.len() - 1
    }
}

/// Filtering keeps rows in their order: the row at `at` afterwards is a row that passes the
/// filter, and rows further on afterwards stood further on before.
pub proof fn lemma_kept_from<T>(rows: Seq<T>, wanted: spec_fn(T) -> bool, at: int)
    requires
        0 <= at < rows.filter(wanted).len(),
    ensures
        0 <= kept_from(rows, wanted, at) < rows.len(),
        rows[kept_from(rows, wanted, at)] == rows.filter(wanted)[at],
        wanted(rows.filter(wanted)[at]),
        forall|earlier: int|
            0 <= earlier < at ==> kept_from(rows, wanted, earlier) < kept_from(rows, wanted, at),
    decreases rows.len(),
{
    reveal(Seq::filter);
    if rows.len() == 0 {
    } else {
        let before = rows.drop_last().filter(wanted);
        if at < before.len() {
            lemma_kept_from(rows.drop_last(), wanted, at);
            assert forall|earlier: int| 0 <= earlier < at implies kept_from(
                rows,
                wanted,
                earlier,
            ) < kept_from(rows, wanted, at) by {
                assert(kept_from(rows, wanted, earlier) == kept_from(
                    rows.drop_last(),
                    wanted,
                    earlier,
                ));
            }
        } else {
            assert(wanted(rows.last()));
            assert forall|earlier: int| 0 <= earlier < at implies kept_from(
                rows,
                wanted,
                earlier,
            ) < kept_from(rows, wanted, at) by {
                lemma_kept_from(rows.drop_last(), wanted, earlier);
            }
        }
    }
}

/// A row that passes the filter stands among the filtered rows.
pub proof fn lemma_kept<T>(rows: Seq<T>, wanted: spec_fn(T) -> bool, at: int)
    requires
        0 <= at < rows.len(),
        wanted(rows[at]),
    ensures
        exists|k: int| 0 <= k < rows.filter(wanted).len() && rows.filter(wanted)[k] == rows[at],
    decreases rows.len(),
{
    reveal(Seq::filter);
    let before = rows.drop_last().filter(wanted);
    if at == rows.len() - 1 {
        assert(rows.filter(wanted)[before.len() as int] == rows[at]);
    } else {
        lemma_kept(rows.drop_last(), wanted, at);
        let k = choose|k: int| 0 <= k < before.len() && before[k] == rows.drop_last()[at];
        assert(rows.filter(wanted)[k] == rows[at]);
    }
}

} // verus!

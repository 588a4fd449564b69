//! Decoded Plutus data and the reads that descend fixed paths in it.
//!
//! A path is a list of field positions: each step enters a constructor node and takes the
//! field at that position. A read follows the path and then takes a terminal of the node it
//! reaches. Every read that does not find what it asks for fails with the path it was given.

use vstd::prelude::*;

verus! {

/// A node of decoded Plutus data.
#[derive(Debug)]
pub enum PlutusData {
    /// A constructor with its tag and its fields.
    Constr { constructor: i64, fields: Vec<PlutusData> },
    /// An integer that fits in 64 bits.
    Int(i64),
    /// A byte string, in hexadecimal.
    Bytes(String),
    /// A list.
    List(Vec<PlutusData>),
    /// Any other node: a map, or an integer beyond 64 bits. No read succeeds on it.
    Other,
}

/// Why an interpreter gave a transaction up.
#[derive(Debug)]
pub enum InterpretError {
    /// The datum has no node of the expected kind at this path.
    DatumShape(Vec<usize>),
    /// A position read from a datum or a redeemer points outside the list it indexes.
    IndexOutOfBounds,
    /// An amount on an output is smaller than what must be subtracted from it, or a sum of
    /// amounts does not fit in 64 bits.
    Amount,
}

/// What an `InterpretError` is.
pub enum InterpretErrorView {
    DatumShape(Seq<usize>),
    IndexOutOfBounds,
    Amount,
}

impl View for InterpretError {
    type V = InterpretErrorView;

    open spec fn view(&self) -> InterpretErrorView {
        match self {
            InterpretError::DatumShape(path) => InterpretErrorView::DatumShape(path@),
            InterpretError::IndexOutOfBounds => InterpretErrorView::IndexOutOfBounds,
            InterpretError::Amount => InterpretErrorView::Amount,
        }
    }
}

/// The fields of a node: those of a constructor, none for any other node.
pub open spec fn fields_of(node: PlutusData) -> Seq<PlutusData> {
    match node {
        PlutusData::Constr { constructor, fields } => fields@,
        _ => Seq::empty(),
    }
}

/// The node that `path` leads to from `node`, if every step finds its field.
pub open spec fn node_at(node: PlutusData, path: Seq<usize>) -> Option<PlutusData>
    decreases path.len(),
{
    if path.len() == 0 {
        Some(node)
    } else if path[0] < fields_of(node).len() {
        node_at(fields_of(node)[path[0] as int], path.drop_first())
    } else {
        None
    }
}

/// The integer at the end of `path`.
pub open spec fn int_at(node: PlutusData, path: Seq<usize>) -> Option<i64> {
    match node_at(node, path) {
        Some(PlutusData::Int(value)) => Some(value),
        _ => None,
    }
}

/// The quantity at the end of `path`: an integer that is not negative.
pub open spec fn quantity_at(node: PlutusData, path: Seq<usize>) -> Option<u64> {
    match int_at(node, path) {
        Some(value) => if value >= 0 {
            Some(value as u64)
        } else {
            None
        },
        None => None,
    }
}

/// The byte string, in hexadecimal, at the end of `path`.
pub open spec fn bytes_at(node: PlutusData, path: Seq<usize>) -> Option<Seq<char>> {
    match node_at(node, path) {
        Some(PlutusData::Bytes(text)) => Some(text@),
        _ => None,
    }
}

/// The tag of the constructor at the end of `path`.
pub open spec fn constructor_at(node: PlutusData, path: Seq<usize>) -> Option<i64> {
    match node_at(node, path) {
        Some(PlutusData::Constr { constructor, fields }) => Some(constructor),
        _ => None,
    }
}

/// Whether every item is an integer.
pub open spec fn all_ints(items: Seq<PlutusData>) -> bool {
    forall|i: int| 0 <= i < items.len() ==> (#[trigger] items[i]) is Int
}

/// The integers that the items hold, for items that are all integers.
pub open spec fn ints_of(items: Seq<PlutusData>) -> Seq<i64> {
    Seq::new(items.len(), |i: int| items[i]->Int_0)
}

/// The list of integers at the end of `path`.
pub open spec fn int_list_at(node: PlutusData, path: Seq<usize>) -> Option<Seq<i64>> {
    match node_at(node, path) {
        Some(PlutusData::List(items)) => if all_ints(items@) {
            Some(ints_of(items@))
        } else {
            None
        },
        _ => None,
    }
}

/// A path followed by one more step.
pub proof fn lemma_node_at_push(node: PlutusData, path: Seq<usize>, step: usize)
    ensures
        node_at(node, path.push(step)) == match node_at(node, path) {
            Some(reached) => if step < fields_of(reached).len() {
                Some(fields_of(reached)[step as int])
            } else {
                None
            },
            None => None,
        },
    decreases path.len(),
{
    if path.len() == 0 {
        assert(path.push(step).drop_first() =~= Seq::<usize>::empty());
        assert(path.push(step)[0] == step);
        if step < fields_of(node).len() {
            assert(node_at(fields_of(node)[step as int], Seq::<usize>::empty()) == Some(
                fields_of(node)[step as int],
            ));
        }
    } else {
        assert(path.push(step).drop_first() =~= path.drop_first().push(step));
        assert(path.push(step)[0] == path[0]);
        if path[0] < fields_of(node).len() {
            lemma_node_at_push(fields_of(node)[path[0] as int], path.drop_first(), step);
        }
    }
}

fn copy_path(path: &[usize]) -> (copy: Vec<usize>)
    ensures
        copy@ == path@,
{
    let mut copy: Vec<usize> = Vec::new();
    let mut i: usize = 0;
    while i < path.len()
        invariant
            i <= path.len(),
            copy@ == path@.take(i as int),
        decreases path.len() - i,
    {
        copy.push(path[i]);
        assert(path@.take(i as int + 1) =~= path@.take(i as int).push(path@[i as int]));
        i = i + 1;
    }
    assert(path@.take(path@.len() as int) =~= path@);
    copy
}

impl PlutusData {
    /// The node at the end of `path`.
    pub fn descend(&self, path: &[usize]) -> (reached: Result<&PlutusData, InterpretError>)
        ensures
            reached.is_ok() == node_at(*self, path@).is_some(),
            reached matches Ok(node) ==> Some(*node) == node_at(*self, path@),
            reached matches Err(error) ==> error@ == InterpretErrorView::DatumShape(path@),
    {
        let mut node: &PlutusData = self;
        let mut i: usize = 0;
        while i < path.len()
            invariant
                i <= path.len(),
                node_at(*self, path@.take(i as int)) == Some(*node),
            decreases path.len() - i,
        {
            let step = path[i];
            proof {
                lemma_node_at_push(*self, path@.take(i as int), step);
                assert(path@.take(i as int + 1) =~= path@.take(i as int).push(step));
                lemma_node_at_prefix(*self, path@, i as int + 1);
            }
            match node {
                PlutusData::Constr { constructor, fields } => {
                    if step < fields.len() {
                        node = &fields[step];
                    } else {
                        return Err(InterpretError::DatumShape(copy_path(path)));
                    }
                },
                _ => {
                    return Err(InterpretError::DatumShape(copy_path(path)));
                },
            }
            i = i + 1;
        }
        assert(path@.take(path@.len() as int) =~= path@);
        Ok(node)
    }

    /// The integer at the end of `path`.
    pub fn int_at(&self, path: &[usize]) -> (value: Result<i64, InterpretError>)
        ensures
            value.is_ok() == int_at(*self, path@).is_some(),
            value matches Ok(v) ==> Some(v) == int_at(*self, path@),
            value matches Err(error) ==> error@ == InterpretErrorView::DatumShape(path@),
    {
        match self.descend(path) {
            Ok(PlutusData::Int(value)) => Ok(*value),
            _ => Err(InterpretError::DatumShape(copy_path(path))),
        }
    }

    /// The quantity at the end of `path`: an integer that is not negative.
    pub fn quantity_at(&self, path: &[usize]) -> (value: Result<u64, InterpretError>)
        ensures
            value.is_ok() == quantity_at(*self, path@).is_some(),
            value matches Ok(v) ==> Some(v) == quantity_at(*self, path@),
            value matches Err(error) ==> error@ == InterpretErrorView::DatumShape(path@),
    {
        match self.descend(path) {
            Ok(PlutusData::Int(value)) => {
                if *value >= 0 {
                    Ok(*value as u64)
                } else {
                    Err(InterpretError::DatumShape(copy_path(path)))
                }
            },
            _ => Err(InterpretError::DatumShape(copy_path(path))),
        }
    }

    /// The byte string, in hexadecimal, at the end of `path`.
    pub fn bytes_at(&self, path: &[usize]) -> (text: Result<String, InterpretError>)
        ensures
            text.is_ok() == bytes_at(*self, path@).is_some(),
            text matches Ok(t) ==> Some(t@) == bytes_at(*self, path@),
            text matches Err(error) ==> error@ == InterpretErrorView::DatumShape(path@),
    {
        match self.descend(path) {
            Ok(PlutusData::Bytes(text)) => Ok(text.clone()),
            _ => Err(InterpretError::DatumShape(copy_path(path))),
        }
    }

    /// The tag of the constructor at the end of `path`.
    pub fn constructor_at(&self, path: &[usize]) -> (tag: Result<i64, InterpretError>)
        ensures
            tag.is_ok() == constructor_at(*self, path@).is_some(),
            tag matches Ok(t) ==> Some(t) == constructor_at(*self, path@),
            tag matches Err(error) ==> error@ == InterpretErrorView::DatumShape(path@),
    {
        match self.descend(path) {
            Ok(PlutusData::Constr { constructor, fields }) => Ok(*constructor),
            _ => Err(InterpretError::DatumShape(copy_path(path))),
        }
    }

    /// The list of integers at the end of `path`.
    pub fn int_list_at(&self, path: &[usize]) -> (values: Result<Vec<i64>, InterpretError>)
        ensures
            values.is_ok() == int_list_at(*self, path@).is_some(),
            values matches Ok(v) ==> Some(v@) == int_list_at(*self, path@),
            values matches Err(error) ==> error@ == InterpretErrorView::DatumShape(path@),
    {
        match self.descend(path) {
            Ok(PlutusData::List(items)) => {
                let mut values: Vec<i64> = Vec::new();
                let mut i: usize = 0;
                while i < items.len()
                    invariant
                        i <= items.len(),
                        node_at(*self, path@) == Some(PlutusData::List(*items)),
                        all_ints(items@.take(i as int)),
                        values@ == ints_of(items@.take(i as int)),
                    decreases items.len() - i,
                {
                    match &items[i] {
                        PlutusData::Int(value) => {
                            values.push(*value);
                        },
                        _ => {
                            assert(!(items@[i as int] is Int));
                            return Err(InterpretError::DatumShape(copy_path(path)));
                        },
                    }
                    assert(items@.take(i as int + 1) =~= items@.take(i as int).push(
                        items@[i as int],
                    ));
                    assert(values@ =~= ints_of(items@.take(i as int + 1)));
                    i = i + 1;
                }
                assert(items@.take(items@.len() as int) =~= items@);
                Ok(values)
            },
            _ => Err(InterpretError::DatumShape(copy_path(path))),
        }
    }
}

/// A path leads somewhere only if each of its beginnings does.
pub proof fn lemma_node_at_prefix(node: PlutusData, path: Seq<usize>, len: int)
    requires
        0 <= len <= path.len(),
    ensures
        node_at(node, path.take(len)).is_none() ==> node_at(node, path).is_none(),
    decreases path.len(),
{
    if len == 0 {
    } else {
        assert(path.take(len)[0] == path[0]);
        assert(path.take(len).drop_first() =~= path.drop_first().take(len - 1));
        if path[0] < fields_of(node).len() {
            lemma_node_at_prefix(fields_of(node)[path[0] as int], path.drop_first(), len - 1);
        }
    }
}

} // verus!

//! The shape of a tensor written as nested JSON arrays.
use vstd::prelude::*;
use crate::text::{concat, decimal, decimal_string};

verus! {

/// A JSON value as far as its shape goes: an array of values, or anything else.
pub enum JsonNode {
    Array(Vec<JsonNode>),
    Scalar,
}

/// Why nested arrays have no shape.
#[derive(Debug, PartialEq, Eq, Structural, Clone, Copy)]
pub enum ShapeError {
    /// A value at this depth is not an array.
    NotArray(usize),
    /// Two arrays at one depth differ in length.
    Inconsistent,
}

/// Walks `v`, found at depth `level`, with `shape` the lengths recorded so far, one per
/// depth. An empty array records nothing. A non-empty one records its length at its depth,
/// or must match the length recorded there; its items are walked in turn, one level
/// deeper, where its first item is itself an array.
pub open spec fn walk(v: JsonNode, shape: Seq<usize>, level: int) -> Result<Seq<usize>, ShapeError>
    decreases v,
{
    match v {
        JsonNode::Scalar => Err(ShapeError::NotArray(level as usize)),
        JsonNode::Array(items) => if items.len() == 0 {
            Ok(shape)
        } else {
            let recorded = if shape.len() == level {
                Some(shape.push(items.len() as usize))
            } else if shape[level] == items.len() {
                Some(shape)
            } else {
                None
            };
            match recorded {
                None => Err(ShapeError::Inconsistent),
                Some(s) => if items@[0] is Array {
                    walk_items(items@, s, level + 1)
                } else {
                    Ok(s)
                },
            }
        },
    }
}

/// Walks `items` in order, each at depth `level`, stopping at the first refusal.
pub open spec fn walk_items(items: Seq<JsonNode>, shape: Seq<usize>, level: int) -> Result<
    Seq<usize>,
    ShapeError,
>
    decreases items,
{
    if items.len() == 0 {
        Ok(shape)
    } else {
        match walk_items(items.drop_last(), shape, level) {
            Err(e) => Err(e),
            Ok(s) => walk(items.last(), s, level),
        }
    }
}

/// The shape of `v`: the length at each depth, or why it has none.
pub open spec fn json_shape(v: JsonNode) -> Result<Seq<usize>, ShapeError> {
    walk(v, Seq::empty(), 0)
}

/// A walk keeps what was recorded and only adds to it.
proof fn lemma_walk_grows(v: JsonNode, shape: Seq<usize>, level: int)
    requires
        0 <= level <= shape.len(),
    ensures
        walk(v, shape, level) matches Ok(s) ==> shape.len() <= s.len() && s.subrange(0, shape.len() as int) == shape,
    decreases v,
{
    match v {
        JsonNode::Scalar => {},
        JsonNode::Array(items) => {
            if items.len() > 0 {
                let s = if shape.len() == level {
                    shape.push(items.len() as usize)
                } else {
                    shape
                };
                if items@[0] is Array && (shape.len() == level || shape[level] == items.len()) {
                    assert(decreases_to!(v => items));
                    lemma_walk_items_grows(items@, s, level + 1);
                    if let Ok(t) = walk_items(items@, s, level + 1) {
                        assert(t.subrange(0, shape.len() as int) =~= t.subrange(0, s.len() as int).subrange(
                            0,
                            shape.len() as int,
                        ));
                    }
                }
                if shape.len() == level {
                    assert(s.subrange(0, shape.len() as int) =~= shape);
                } else {
                    assert(shape.subrange(0, shape.len() as int) =~= shape);
                }
            } else {
                assert(shape.subrange(0, shape.len() as int) =~= shape);
            }
        },
    }
}

proof fn lemma_walk_items_grows(items: Seq<JsonNode>, shape: Seq<usize>, level: int)
    requires
        0 <= level <= shape.len(),
    ensures
        walk_items(items, shape, level) matches Ok(s) ==> shape.len() <= s.len() && s.subrange(0, shape.len() as int)
            == shape,
    decreases items,
{
    if items.len() == 0 {
        assert(shape.subrange(0, shape.len() as int) =~= shape);
    } else {
        lemma_walk_items_grows(items.drop_last(), shape, level);
        if let Ok(s) = walk_items(items.drop_last(), shape, level) {
            lemma_walk_grows(items.last(), s, level);
            if let Ok(t) = walk(items.last(), s, level) {
                assert(t.subrange(0, shape.len() as int) =~= t.subrange(0, s.len() as int).subrange(
                    0,
                    shape.len() as int,
                ));
            }
        }
    }
}

/// Every non-empty array in `v`, taken as found at depth `d`, holds `s[d]` items; the items
/// of an array are looked into when its first item is an array.
pub open spec fn lengths_agree(v: JsonNode, s: Seq<usize>, d: int) -> bool
    decreases v,
{
    match v {
        JsonNode::Scalar => true,
        JsonNode::Array(items) => items.len() == 0 || {
            &&& 0 <= d < s.len()
            &&& s[d] == items.len()
            &&& (items@[0] is Array ==> forall|i: int|
                0 <= i < items.len() ==> lengths_agree(#[trigger] items@[i], s, d + 1))
        },
    }
}

/// Agreement of lengths with `s` holds as well with any extension of `s`.
proof fn lemma_agree_extends(v: JsonNode, s: Seq<usize>, t: Seq<usize>, d: int)
    requires
        lengths_agree(v, s, d),
        s.len() <= t.len(),
        t.subrange(0, s.len() as int) == s,
    ensures
        lengths_agree(v, t, d),
    decreases v,
{
    match v {
        JsonNode::Scalar => {},
        JsonNode::Array(items) => {
            if items.len() > 0 {
                assert(t[d] == t.subrange(0, s.len() as int)[d]);
                if items@[0] is Array {
                    assert forall|i: int| 0 <= i < items.len() implies lengths_agree(#[trigger] items@[i], t, d + 1) by {
                        assert(decreases_to!(v => items));
                        lemma_agree_extends(items@[i], s, t, d + 1);
                    }
                }
            }
        },
    }
}

proof fn lemma_walk_agrees(v: JsonNode, shape: Seq<usize>, level: int)
    requires
        0 <= level <= shape.len(),
    ensures
        walk(v, shape, level) matches Ok(t) ==> lengths_agree(v, t, level),
    decreases v,
{
    lemma_walk_grows(v, shape, level);
    match v {
        JsonNode::Scalar => {},
        JsonNode::Array(items) => {
            if items.len() > 0 && (shape.len() == level || shape[level] == items.len()) {
                let r = if shape.len() == level {
                    shape.push(items.len() as usize)
                } else {
                    shape
                };
                if items@[0] is Array {
                    assert(decreases_to!(v => items));
                    lemma_walk_items_agree(items@, r, level + 1);
                    lemma_walk_items_grows(items@, r, level + 1);
                    if let Ok(t) = walk_items(items@, r, level + 1) {
                        assert(t[level] == t.subrange(0, r.len() as int)[level]);
                    }
                }
            }
        },
    }
}

proof fn lemma_walk_items_agree(items: Seq<JsonNode>, shape: Seq<usize>, level: int)
    requires
        0 <= level <= shape.len(),
    ensures
        walk_items(items, shape, level) matches Ok(t) ==> forall|i: int|
            0 <= i < items.len() ==> lengths_agree(#[trigger] items[i], t, level),
    decreases items,
{
    if items.len() > 0 {
        let front = items.drop_last();
        lemma_walk_items_agree(front, shape, level);
        lemma_walk_items_grows(front, shape, level);
        if let Ok(s) = walk_items(front, shape, level) {
            lemma_walk_agrees(items.last(), s, level);
            lemma_walk_grows(items.last(), s, level);
            if let Ok(t) = walk(items.last(), s, level) {
                assert forall|i: int| 0 <= i < items.len() implies lengths_agree(#[trigger] items[i], t, level) by {
                    if i < items.len() - 1 {
                        assert(items[i] == front[i]);
                        lemma_agree_extends(front[i], s, t, level);
                    }
                }
            }
        }
    }
}

/// A shape read from nested arrays fits them: every non-empty array that the reading looks
/// into holds, at its depth `d`, exactly `s[d]` items. So two such arrays of different
/// lengths at one depth are refused.
pub proof fn law_shape_fits_every_array(v: JsonNode)
    ensures
        json_shape(v) matches Ok(s) ==> lengths_agree(v, s, 0),
{
    lemma_walk_agrees(v, Seq::empty(), 0);
}

fn check_node(v: &JsonNode, shape: &mut Vec<usize>, level: usize) -> (r: Result<(), ShapeError>)
    requires
        level <= old(shape)@.len(),
    ensures
        match walk(*v, old(shape)@, level as int) {
            Ok(s) => r is Ok && final(shape)@ == s,
            Err(e) => r == Err::<(), ShapeError>(e),
        },
    decreases v,
{
    match v {
        JsonNode::Scalar => Err(ShapeError::NotArray(level)),
        JsonNode::Array(items) => {
            if items.len() == 0 {
                return Ok(());
            }
            if shape.len() == level {
                shape.push(items.len());
            } else if shape[level] != items.len() {
                return Err(ShapeError::Inconsistent);
            }
            let ghost recorded = shape@;
            let first_is_array = match &items[0] {
                JsonNode::Array(_) => true,
                JsonNode::Scalar => false,
            };
            if !first_is_array {
                return Ok(());
            }
            assert(walk(*v, old(shape)@, level as int) == walk_items(items@, recorded, level + 1));
            let depth = shape.len();
            assert(level < depth);
            let next = level + 1;
            let mut i: usize = 0;
            while i < items.len()
                invariant
                    i <= items@.len(),
                    v is Array,
                    v->Array_0 == *items,
                    next == level + 1,
                    level < recorded.len(),
                    walk(*v, old(shape)@, level as int) == walk_items(items@, recorded, next as int),
                    walk_items(items@.take(i as int), recorded, next as int) == Ok::<Seq<usize>, ShapeError>(shape@),
                decreases items@.len() - i,
            {
                proof {
                    assert(items@.take(i + 1).drop_last() =~= items@.take(i as int));
                    assert(items@.take(i + 1).last() == items@[i as int]);
                    lemma_walk_items_grows(items@.take(i as int), recorded, next as int);
                    assert(decreases_to!(*v => v->Array_0));
                    assert(decreases_to!(*items => items@));
                }
                let ghost before = shape@;
                match check_node(&items[i], shape, next) {
                    Ok(()) => {},
                    Err(e) => {
                        proof {
                            assert(walk_items(items@.take(i + 1), recorded, next as int) == walk(items@[i as int], before, next as int));
                            lemma_walk_items_stops(items@, recorded, next as int, i + 1);
                            assert(items@.take(items@.len() as int) =~= items@);
                        }
                        return Err(e);
                    },
                }
                i = i + 1;
            }
            proof {
                assert(items@.take(items@.len() as int) =~= items@);
            }
            Ok(())
        },
    }
}

/// Once a walk over a prefix of `items` is refused, so is the walk over all of them, for
/// the same reason.
proof fn lemma_walk_items_stops(items: Seq<JsonNode>, shape: Seq<usize>, level: int, k: int)
    requires
        0 <= k <= items.len(),
        walk_items(items.take(k), shape, level) is Err,
    ensures
        walk_items(items, shape, level) == walk_items(items.take(k), shape, level),
    decreases items.len() - k,
{
    if k < items.len() {
        assert(items.take(k + 1).drop_last() =~= items.take(k));
        lemma_walk_items_stops(items, shape, level, k + 1);
    } else {
        assert(items.take(k) =~= items);
    }
}

/// The shape of nested arrays: the length at each depth, or why they have none.
pub fn infer_shape(v: &JsonNode) -> (r: Result<Vec<usize>, ShapeError>)
    ensures
        match json_shape(*v) {
            Ok(s) => r matches Ok(shape) && shape@ == s,
            Err(e) => r == Err::<Vec<usize>, ShapeError>(e),
        },
{
    let mut shape: Vec<usize> = Vec::new();
    match check_node(v, &mut shape, 0) {
        Ok(()) => Ok(shape),
        Err(e) => Err(e),
    }
}

pub open spec fn shape_error_text(e: ShapeError) -> Seq<char> {
    match e {
        ShapeError::NotArray(level) => "Invalid JSON: not an array at level "@ + decimal(level as nat),
        ShapeError::Inconsistent => "Inconsistent array dimensions."@,
    }
}

impl ShapeError {
    /// The error's text.
    pub fn message(&self) -> (s: String)
        ensures
            s@ == shape_error_text(*self),
    {
        match self {
            ShapeError::NotArray(level) => {
                let digits = decimal_string(*level as u64);
                concat("Invalid JSON: not an array at level ", digits.as_str())
            },
            ShapeError::Inconsistent => "Inconsistent array dimensions.".to_string(),
        }
    }
}

} // verus!

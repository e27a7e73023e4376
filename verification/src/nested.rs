//! The values of a tensor written out as nested lists, one level per dimension.
use vstd::prelude::*;
use crate::json_shape::{json_shape, walk, walk_items, JsonNode, ShapeError};
use crate::ops::{checked_numel, shape_product};

verus! {

/// Values nested in lists.
pub enum Nested<T> {
    Leaf(T),
    List(Vec<Nested<T>>),
}

/// A `Nested` with its lists taken as sequences.
pub enum NestedView<T> {
    Leaf(T),
    List(Seq<NestedView<T>>),
}

pub open spec fn nested_view<T>(n: Nested<T>) -> NestedView<T>
    decreases n,
{
    match n {
        Nested::Leaf(x) => NestedView::Leaf(x),
        Nested::List(v) => NestedView::List(nested_views(v@)),
    }
}

pub open spec fn nested_views<T>(s: Seq<Nested<T>>) -> Seq<NestedView<T>>
    decreases s,
{
    if s.len() == 0 {
        Seq::empty()
    } else {
        nested_views(s.drop_last()).push(nested_view(s.last()))
    }
}

/// `data` written out with shape `shape`. A shape without dimensions, or with a dimension
/// of size zero, gives the first value (or `zero` when there is none). One dimension gives
/// every value as a list. More dimensions cut the values into runs as long as the product
/// of the remaining dimensions (the last run may be shorter) and write each run out with
/// those dimensions.
pub open spec fn nest_spec<T>(data: Seq<T>, shape: Seq<usize>, zero: T) -> NestedView<T>
    decreases shape.len(), data.len() + 1,
{
    if shape.len() == 0 || shape_product(shape) == 0 {
        NestedView::Leaf(
            if data.len() > 0 {
                data[0]
            } else {
                zero
            },
        )
    } else if shape.len() == 1 {
        NestedView::List(data.map_values(|x: T| NestedView::Leaf(x)))
    } else {
        NestedView::List(nest_chunks(data, shape_product(shape.drop_first()), shape.drop_first(), zero))
    }
}

/// The runs of `stride` values of `data`, each written out with shape `rest`.
pub open spec fn nest_chunks<T>(data: Seq<T>, stride: int, rest: Seq<usize>, zero: T) -> Seq<NestedView<T>>
    decreases rest.len() + 1, data.len(),
{
    if data.len() == 0 || stride <= 0 {
        Seq::empty()
    } else {
        let k = if stride < data.len() {
            stride
        } else {
            data.len() as int
        };
        seq![nest_spec(data.take(k), rest, zero)] + nest_chunks(data.skip(k), stride, rest, zero)
    }
}

proof fn lemma_views_push<T>(s: Seq<Nested<T>>, x: Nested<T>)
    ensures
        nested_views(s.push(x)) == nested_views(s).push(nested_view(x)),
{
    assert(s.push(x).drop_last() =~= s);
}

proof fn lemma_product_first(s: Seq<usize>)
    requires
        s.len() > 0,
    ensures
        shape_product(s) == s[0] * shape_product(s.drop_first()),
    decreases s.len(),
{
    if s.len() == 1 {
        assert(s.drop_first().len() == 0);
        assert(s.drop_last().len() == 0);
        assert(shape_product(s) == shape_product(s.drop_last()) * s.last());
        assert(s.last() == s[0]);
    } else {
        let t = s.drop_last();
        lemma_product_first(t);
        assert(t.drop_first() =~= s.drop_first().drop_last());
        assert(t[0] == s[0]);
        assert(s.drop_first().last() == s.last());
        let a = s[0] as int;
        let p = shape_product(s.drop_first().drop_last());
        let l = s.last() as int;
        assert(shape_product(t) == a * p);
        assert(shape_product(s) == shape_product(t) * l);
        assert(shape_product(s.drop_first()) == p * l);
        assert(a * p * l == a * (p * l)) by (nonlinear_arith);
    }
}

/// A non-zero product is at least the product of all but the first dimension.
proof fn lemma_product_rest_bound(s: Seq<usize>)
    requires
        s.len() > 0,
        shape_product(s) != 0,
    ensures
        0 < shape_product(s.drop_first()) <= shape_product(s),
{
    lemma_product_first(s);
    crate::ops::lemma_product_nonneg(s.drop_first());
    let a = s[0] as int;
    let p = shape_product(s.drop_first());
    assert(a >= 1 && p >= 1 && p <= a * p) by (nonlinear_arith)
        requires
            a >= 0,
            p >= 0,
            a * p != 0,
    ;
}

/// `shape[from..]`.
fn suffix(shape: &Vec<usize>, from: usize) -> (r: Vec<usize>)
    requires
        from <= shape.len(),
    ensures
        r@ == shape@.skip(from as int),
{
    let mut r: Vec<usize> = Vec::new();
    let mut i = from;
    while i < shape.len()
        invariant
            from <= i <= shape.len(),
            r@ == shape@.subrange(from as int, i as int),
        decreases shape.len() - i,
    {
        r.push(shape[i]);
        i = i + 1;
    }
    r
}

fn nest_range<T: Copy>(data: &Vec<T>, lo: usize, hi: usize, shape: &Vec<usize>, from: usize, zero: T) -> (r:
    Nested<T>)
    requires
        lo <= hi <= data.len(),
        from <= shape.len(),
        shape_product(shape@.skip(from as int)) <= usize::MAX,
    ensures
        nested_view(r) == nest_spec(data@.subrange(lo as int, hi as int), shape@.skip(from as int), zero),
    decreases shape.len() - from,
{
    let rest = suffix(shape, from);
    let part = Ghost(data@.subrange(lo as int, hi as int));
    let whole = checked_numel(&rest);
    if rest.len() == 0 || whole == Some(0usize) {
        let x = if lo < hi {
            data[lo]
        } else {
            zero
        };
        return Nested::Leaf(x);
    }
    if rest.len() == 1 {
        let mut v: Vec<Nested<T>> = Vec::new();
        let mut i = lo;
        while i < hi
            invariant
                lo <= i <= hi <= data.len(),
                nested_views(v@) == data@.subrange(lo as int, i as int).map_values(|x: T| NestedView::Leaf(x)),
            decreases hi - i,
        {
            let ghost before = v@;
            v.push(Nested::Leaf(data[i]));
            proof {
                lemma_views_push(before, Nested::Leaf(data@[i as int]));
                assert(data@.subrange(lo as int, i + 1).map_values(|x: T| NestedView::Leaf(x)) =~= data@.subrange(
                    lo as int,
                    i as int,
                ).map_values(|x: T| NestedView::Leaf(x)).push(NestedView::Leaf(data@[i as int])));
            }
            i = i + 1;
        }
        return Nested::List(v);
    }
    proof {
        lemma_product_rest_bound(rest@);
        assert(rest@.drop_first() =~= shape@.skip(from + 1));
    }
    let next = from + 1;
    let inner = suffix(shape, next);
    let stride = checked_numel(&inner).unwrap();
    let ghost srest = shape@.skip(next as int);
    let mut v: Vec<Nested<T>> = Vec::new();
    let mut p = lo;
    while p < hi
        invariant
            lo <= p <= hi <= data.len(),
            next == from + 1,
            next <= shape.len(),
            srest == shape@.skip(next as int),
            stride == shape_product(srest),
            stride > 0,
            shape_product(srest) <= usize::MAX,
            nested_views(v@) + nest_chunks(data@.subrange(p as int, hi as int), stride as int, srest, zero)
                == nest_chunks(data@.subrange(lo as int, hi as int), stride as int, srest, zero),
        decreases hi - p,
    {
        let k = if stride < hi - p {
            stride
        } else {
            hi - p
        };
        let child = nest_range(data, p, p + k, shape, next, zero);
        let ghost before = v@;
        v.push(child);
        proof {
            let d = data@.subrange(p as int, hi as int);
            assert(d.take(k as int) =~= data@.subrange(p as int, p + k));
            assert(d.skip(k as int) =~= data@.subrange(p + k, hi as int));
            lemma_views_push(before, child);
            let tail = nest_chunks(data@.subrange(p + k, hi as int), stride as int, srest, zero);
            assert(nest_chunks(d, stride as int, srest, zero) == seq![nested_view(child)] + tail);
            assert(nested_views(v@) + tail =~= nested_views(before) + (seq![nested_view(child)] + tail));
        }
        p = p + k;
    }
    proof {
        assert(nest_chunks(data@.subrange(hi as int, hi as int), stride as int, srest, zero) =~= Seq::empty());
        assert(nested_views(v@) + Seq::<NestedView<T>>::empty() =~= nested_views(v@));
    }
    Nested::List(v)
}

/// `data` written out with shape `shape`, as `nest_spec` says.
pub fn nest<T: Copy>(data: &Vec<T>, shape: &Vec<usize>, zero: T) -> (r: Nested<T>)
    requires
        shape_product(shape@) <= usize::MAX,
    ensures
        nested_view(r) == nest_spec(data@, shape@, zero),
{
    proof {
        assert(shape@.skip(0) =~= shape@);
        assert(data@.subrange(0, data@.len() as int) =~= data@);
    }
    nest_range(data, 0, data.len(), shape, 0, zero)
}

/// `j` is `n` written as JSON: a leaf is a value that is not an array, a list an array of
/// its items, each written in turn.
pub open spec fn written_as<T>(j: JsonNode, n: NestedView<T>) -> bool
    decreases j,
{
    match j {
        JsonNode::Scalar => n is Leaf,
        JsonNode::Array(items) => match n {
            NestedView::List(ns) => items@.len() == ns.len() && forall|i: int|
                0 <= i < ns.len() ==> written_as(#[trigger] items@[i], ns[i]),
            NestedView::Leaf(_) => false,
        },
    }
}

proof fn lemma_product_pos(s: Seq<usize>)
    requires
        forall|i: int| 0 <= i < s.len() ==> s[i] > 0,
    ensures
        shape_product(s) > 0,
    decreases s.len(),
{
    if s.len() > 0 {
        let t = s.drop_last();
        assert forall|i: int| 0 <= i < t.len() implies t[i] > 0 by {
            assert(t[i] == s[i]);
        }
        lemma_product_pos(t);
        let p = shape_product(t);
        let l = s.last() as int;
        assert(p * l > 0) by (nonlinear_arith)
            requires
                p > 0,
                l > 0,
        ;
    }
}

/// Values whose number is a multiple of `stride` are cut into that many runs of exactly
/// `stride` values.
proof fn lemma_chunks_exact<T>(data: Seq<T>, stride: int, rest: Seq<usize>, zero: T, c: int)
    requires
        stride > 0,
        c >= 0,
        data.len() == c * stride,
    ensures
        nest_chunks(data, stride, rest, zero).len() == c,
        forall|i: int|
            0 <= i < c ==> #[trigger] nest_chunks(data, stride, rest, zero)[i] == nest_spec(
                data.subrange(i * stride, (i + 1) * stride),
                rest,
                zero,
            ),
    decreases c,
{
    if c == 0 {
        assert(data.len() == 0) by (nonlinear_arith)
            requires
                data.len() == c * stride,
                c == 0,
        ;
    } else {
        assert(data.len() >= stride && data.skip(stride).len() == (c - 1) * stride) by (nonlinear_arith)
            requires
                data.len() == c * stride,
                c >= 1,
                stride > 0,
        ;
        let tail = data.skip(stride);
        lemma_chunks_exact(tail, stride, rest, zero, c - 1);
        let cs = nest_chunks(data, stride, rest, zero);
        assert(cs == seq![nest_spec(data.take(stride), rest, zero)] + nest_chunks(tail, stride, rest, zero));
        assert forall|i: int| 0 <= i < c implies #[trigger] cs[i] == nest_spec(
            data.subrange(i * stride, (i + 1) * stride),
            rest,
            zero,
        ) by {
            if i == 0 {
                assert(i * stride == 0 && (i + 1) * stride == stride) by (nonlinear_arith)
                    requires
                        i == 0,
                ;
                assert(data.take(stride) =~= data.subrange(0, stride));
                assert(cs[0] == nest_spec(data.take(stride), rest, zero));
            } else {
                assert((i - 1) * stride + stride == i * stride && i * stride + stride == (i + 1) * stride
                    && 0 <= (i - 1) * stride && i * stride <= (c - 1) * stride && (i + 1) * stride <= c
                    * stride) by (nonlinear_arith)
                    requires
                        1 <= i < c,
                        stride > 0,
                ;
                assert(cs[i] == nest_chunks(tail, stride, rest, zero)[i - 1]);
                assert(tail.subrange((i - 1) * stride, i * stride) =~= data.subrange(i * stride, (i + 1) * stride));
            }
        }
    }
}

/// Walking the nested arrays that write out a tensor of shape `shape`, found at depth
/// `level` with nothing recorded below it or with `shape` already recorded there, records
/// `shape` there.
proof fn lemma_walk_written<T>(j: JsonNode, data: Seq<T>, shape: Seq<usize>, zero: T, s: Seq<usize>, level: int)
    requires
        shape.len() > 0,
        forall|i: int| 0 <= i < shape.len() ==> shape[i] > 0,
        data.len() == shape_product(shape),
        written_as(j, nest_spec(data, shape, zero)),
        0 <= level <= s.len(),
        s.len() == level || s.skip(level) == shape,
    ensures
        walk(j, s, level) == Ok::<Seq<usize>, ShapeError>(s.take(level) + shape),
    decreases shape.len(), 0int,
{
    lemma_product_pos(shape);
    let d = shape[0];
    let recorded = if s.len() == level {
        s.push(d)
    } else {
        s
    };
    assert(recorded == s.take(level) + seq![d] || recorded == s.take(level) + shape) by {
        if s.len() == level {
            assert(s.take(level) =~= s);
        } else {
            assert(s =~= s.take(level) + s.skip(level));
        }
    }
    if s.len() != level {
        assert(s[level] == s.skip(level)[0]);
        assert(s =~= s.take(level) + shape) by {
            assert(s =~= s.take(level) + s.skip(level));
        }
    }
    if shape.len() == 1 {
        assert(shape_product(shape) == d) by {
            lemma_product_first(shape);
            assert(shape.drop_first().len() == 0);
        }
        assert(shape =~= seq![d]);
        match j {
            JsonNode::Scalar => {},
            JsonNode::Array(items) => {
                assert(items@.len() == d);
                assert(written_as(items@[0], NestedView::Leaf(data[0])));
                assert(items@[0] is Scalar);
                if s.len() == level {
                    assert(s.push(d) =~= s.take(level) + shape);
                }
            },
        }
    } else {
        let rest = shape.drop_first();
        let stride = shape_product(rest);
        assert forall|i: int| 0 <= i < rest.len() implies rest[i] > 0 by {
            assert(rest[i] == shape[i + 1]);
        }
        lemma_product_pos(rest);
        lemma_product_first(shape);
        assert(data.len() == d * stride);
        lemma_chunks_exact(data, stride, rest, zero, d as int);
        let cs = nest_chunks(data, stride, rest, zero);
        match j {
            JsonNode::Scalar => {},
            JsonNode::Array(items) => {
                assert(items@.len() == d);
                assert(0 * stride == 0 && (0 + 1) * stride == stride);
                assert(cs[0] == nest_spec(data.subrange(0, stride), rest, zero));
                assert(data.subrange(0, stride).len() == stride) by {
                    assert(stride <= data.len()) by (nonlinear_arith)
                        requires
                            data.len() == d * stride,
                            d >= 1,
                            stride > 0,
                    ;
                }
                assert(written_as(items@[0], cs[0]));
                assert(cs[0] is List);
                assert(items@[0] is Array);
                let r0 = if s.len() == level {
                    s.push(d)
                } else {
                    s
                };
                assert(r0.take(level + 1) + rest =~= s.take(level) + shape) by {
                    if s.len() == level {
                        assert(r0.take(level + 1) =~= s.take(level) + seq![d]);
                    } else {
                        assert(r0.take(level + 1) =~= s.take(level) + seq![d]);
                    }
                    assert(shape =~= seq![d] + rest);
                }
                assert(r0.len() == level + 1 || r0.skip(level + 1) == rest) by {
                    if s.len() != level {
                        assert(s.skip(level + 1) =~= s.skip(level).drop_first());
                    }
                }
                assert forall|i: int| 0 <= i < items@.len() implies written_as(
                    #[trigger] items@[i],
                    nest_spec(data.subrange(i * stride, (i + 1) * stride), rest, zero),
                ) by {
                    assert(written_as(items@[i], cs[i]));
                }
                lemma_walk_rows(items@, data, rest, zero, stride, r0, level + 1, s.take(level) + shape, d as int);
                assert(items@.take(d as int) =~= items@);
            },
        }
    }
}

/// Walking the first `m` runs of a written tensor, each of shape `rest`, at depth `level`,
/// records `rest` there, giving `full`.
proof fn lemma_walk_rows<T>(
    items: Seq<JsonNode>,
    data: Seq<T>,
    rest: Seq<usize>,
    zero: T,
    stride: int,
    r0: Seq<usize>,
    level: int,
    full: Seq<usize>,
    m: int,
)
    requires
        rest.len() > 0,
        forall|i: int| 0 <= i < rest.len() ==> rest[i] > 0,
        stride == shape_product(rest),
        stride > 0,
        0 < m <= items.len(),
        data.len() == items.len() * stride,
        forall|i: int|
            0 <= i < items.len() ==> written_as(
                #[trigger] items[i],
                nest_spec(data.subrange(i * stride, (i + 1) * stride), rest, zero),
            ),
        0 <= level <= r0.len(),
        r0.len() == level || r0.skip(level) == rest,
        full == r0.take(level) + rest,
    ensures
        walk_items(items.take(m), r0, level) == Ok::<Seq<usize>, ShapeError>(full),
    decreases rest.len(), m,
{
    let i = m - 1;
    assert(0 <= i * stride && (i + 1) * stride <= data.len() && i * stride <= (i + 1) * stride) by (nonlinear_arith)
        requires
            0 <= i < items.len(),
            stride > 0,
            data.len() == items.len() * stride,
    ;
    let chunk = data.subrange(i * stride, (i + 1) * stride);
    assert(chunk.len() == stride) by (nonlinear_arith)
        requires
            chunk.len() == (i + 1) * stride - i * stride,
    ;
    assert(items.take(m).drop_last() =~= items.take(i));
    assert(items.take(m).last() == items[i]);
    if m == 1 {
        assert(items.take(0) =~= Seq::<JsonNode>::empty());
        lemma_walk_written(items[0], chunk, rest, zero, r0, level);
    } else {
        lemma_walk_rows(items, data, rest, zero, stride, r0, level, full, m - 1);
        assert(r0.take(level).len() == level);
        assert(full.skip(level) =~= rest);
        lemma_walk_written(items[i], chunk, rest, zero, full, level);
        assert(full.take(level) + rest =~= full);
    }
}

/// A tensor whose dimensions are all at least one, written out as nested arrays, reads
/// back with its shape.
pub proof fn law_written_tensor_reads_back<T>(data: Seq<T>, shape: Seq<usize>, zero: T, j: JsonNode)
    requires
        shape.len() > 0,
        forall|i: int| 0 <= i < shape.len() ==> shape[i] > 0,
        data.len() == shape_product(shape),
        written_as(j, nest_spec(data, shape, zero)),
    ensures
        json_shape(j) == Ok::<Seq<usize>, ShapeError>(shape),
{
    lemma_walk_written(j, data, shape, zero, Seq::empty(), 0);
    assert(Seq::<usize>::empty().take(0) + shape =~= shape);
}

} // verus!

//! The operations a model graph is made of, and the shape rules that decide what each
//! produces. The arithmetic on the values lives with the tensors themselves.
use vstd::prelude::*;

verus! {

/// Element-wise sum; a 2-D left operand also takes a 1-D right operand as a row added to
/// each of its rows.
#[derive(Debug)]
pub struct AddOp;

/// Element-wise difference.
#[derive(Debug)]
pub struct SubOp;

/// Element-wise product.
#[derive(Debug)]
pub struct MulOp;

/// Product of two matrices.
#[derive(Debug)]
pub struct MatMulOp;

#[derive(Debug)]
pub struct ReLUOp;

#[derive(Debug)]
pub struct SigmoidOp;

#[derive(Debug)]
pub struct TanhOp;

/// Same values, read with another shape.
#[derive(Debug)]
pub struct ReshapeOp {
    pub new_shape: Vec<usize>,
}

/// Transpose of a matrix.
#[derive(Debug)]
pub struct TransposeOp;

/// Sum of all values, as a tensor of shape `[1]`.
#[derive(Debug)]
pub struct SumOp;

/// Softmax over the last dimension.
#[derive(Debug)]
pub struct SoftmaxOp;

#[derive(Debug)]
pub struct GeluOp;

/// Layer normalisation over the last dimension, scaled by `gamma` and shifted by `beta`.
#[derive(Debug)]
pub struct LayerNormOp;

/// Number of values a tensor of shape `s` holds.
pub open spec fn shape_product(s: Seq<usize>) -> int
    decreases s.len(),
{
    if s.len() == 0 {
        1
    } else {
        shape_product(s.drop_last()) * s.last()
    }
}

proof fn lemma_product_step(s: Seq<usize>, i: int)
    requires
        0 <= i < s.len(),
    ensures
        shape_product(s.take(i + 1)) == shape_product(s.take(i)) * s[i],
{
    assert(s.take(i + 1).drop_last() =~= s.take(i));
}

pub(crate) proof fn lemma_product_nonneg(s: Seq<usize>)
    ensures
        shape_product(s) >= 0,
    decreases s.len(),
{
    if s.len() > 0 {
        lemma_product_nonneg(s.drop_last());
        let p = shape_product(s.drop_last());
        let l = s.last() as int;
        assert(p * l >= 0) by (nonlinear_arith)
            requires
                p >= 0,
                l >= 0,
        ;
    }
}

/// The product of the dimensions of `shape`, or `None` when it does not fit a `usize`.
pub fn checked_numel(shape: &Vec<usize>) -> (r: Option<usize>)
    ensures
        match r {
            Some(n) => n == shape_product(shape@),
            None => shape_product(shape@) > usize::MAX,
        },
{
    let mut z: usize = 0;
    while z < shape.len()
        invariant
            z <= shape.len(),
            forall|k: int| 0 <= k < z ==> shape@[k] != 0,
        decreases shape.len() - z,
    {
        if shape[z] == 0 {
            proof {
                lemma_product_zero(shape@, z as int);
            }
            return Some(0);
        }
        z = z + 1;
    }
    let mut acc: usize = 1;
    let mut i: usize = 0;
    while i < shape.len()
        invariant
            i <= shape.len(),
            forall|k: int| 0 <= k < shape.len() ==> shape@[k] != 0,
            acc == shape_product(shape@.take(i as int)),
        decreases shape.len() - i,
    {
        proof {
            lemma_product_step(shape@, i as int);
        }
        match acc.checked_mul(shape[i]) {
            Some(m) => {
                acc = m;
            },
            None => {
                proof {
                    lemma_product_stays_large(shape@, i + 1);
                }
                return None;
            },
        }
        i = i + 1;
    }
    proof {
        assert(shape@.take(shape.len() as int) =~= shape@);
    }
    Some(acc)
}

proof fn lemma_product_zero(s: Seq<usize>, z: int)
    requires
        0 <= z < s.len(),
        s[z] == 0,
    ensures
        shape_product(s) == 0,
    decreases s.len(),
{
    if z == s.len() - 1 {
        assert(shape_product(s) == shape_product(s.drop_last()) * 0);
    } else {
        let t = s.drop_last();
        assert(t[z] == 0);
        lemma_product_zero(t, z);
        assert(shape_product(s) == 0 * s.last());
    }
}

/// Once a prefix of the dimensions multiplies past `usize::MAX`, the whole product does too,
/// unless a later dimension is zero.
proof fn lemma_product_stays_large(s: Seq<usize>, i: int)
    requires
        0 <= i <= s.len(),
        shape_product(s.take(i)) > usize::MAX,
    ensures
        shape_product(s) > usize::MAX || exists|k: int| i <= k < s.len() && s[k] == 0,
    decreases s.len() - i,
{
    if i == s.len() {
        assert(s.take(i) =~= s);
    } else {
        lemma_product_step(s, i);
        let p = shape_product(s.take(i));
        let d = s[i] as int;
        if d == 0 {
        } else {
            assert(p * d >= p) by (nonlinear_arith)
                requires
                    p >= 0,
                    d >= 1,
            ;
            lemma_product_stays_large(s, i + 1);
        }
    }
}

/// `Tensor::size`: the number of values of a tensor of shape `shape`.
pub fn numel(shape: &Vec<usize>) -> (n: usize)
    requires
        forall|k: int| 0 <= k <= shape.len() ==> shape_product(#[trigger] shape@.take(k)) <= usize::MAX,
    ensures
        n == shape_product(shape@),
{
    let mut acc: usize = 1;
    let mut i: usize = 0;
    while i < shape.len()
        invariant
            i <= shape.len(),
            forall|k: int| 0 <= k <= shape.len() ==> shape_product(#[trigger] shape@.take(k)) <= usize::MAX,
            acc == shape_product(shape@.take(i as int)),
        decreases shape.len() - i,
    {
        proof {
            lemma_product_step(shape@, i as int);
            assert(shape_product(shape@.take(i + 1)) <= usize::MAX);
        }
        acc = acc * shape[i];
        i = i + 1;
    }
    proof {
        assert(shape@.take(shape.len() as int) =~= shape@);
    }
    acc
}

/// Whether `len` values can be read with shape `shape`: an empty shape takes any number of
/// values, any other shape exactly the product of its dimensions.
pub fn shape_accepts(len: usize, shape: &Vec<usize>) -> (r: bool)
    ensures
        r == (shape.len() == 0 || shape_product(shape@) == len),
{
    if shape.len() == 0 {
        return true;
    }
    match checked_numel(shape) {
        Some(n) => n == len,
        None => false,
    }
}

impl AddOp {
    /// The shape of `a + b`: `a`'s shape when the shapes are equal, or when `a` is a matrix
    /// and `b` a row as wide as it; `None` for any other pair, which the operation refuses.
    pub fn output_shape(a: &Vec<usize>, b: &Vec<usize>) -> (r: Option<Vec<usize>>)
        ensures
            match r {
                Some(s) => s@ == a@ && (a@ == b@ || (a.len() == 2 && b.len() == 1 && a@[1] == b@[0])),
                None => !(a@ == b@ || (a.len() == 2 && b.len() == 1 && a@[1] == b@[0])),
            },
    {
        let mut same = a.len() == b.len();
        let mut i: usize = 0;
        while same && i < a.len()
            invariant
                same ==> a.len() == b.len(),
                i <= a.len(),
                same ==> forall|k: int| 0 <= k < i ==> a@[k] == b@[k],
                !same ==> a@ != b@,
            decreases a.len() - i,
        {
            if a[i] != b[i] {
                same = false;
            }
            i = i + 1;
        }
        if same {
            assert(a@ =~= b@);
            return Some(a.clone());
        }
        if a.len() == 2 && b.len() == 1 && a[1] == b[0] {
            return Some(a.clone());
        }
        None
    }
}

impl MatMulOp {
    /// The shape of the product of an `m x k` and a `k x n` matrix, `[m, n]`; `None` when
    /// either operand is not a matrix or the inner dimensions differ.
    pub fn output_shape(a: &Vec<usize>, b: &Vec<usize>) -> (r: Option<Vec<usize>>)
        ensures
            match r {
                Some(s) => a.len() == 2 && b.len() == 2 && a@[1] == b@[0] && s@ == seq![a@[0], b@[1]],
                None => !(a.len() == 2 && b.len() == 2 && a@[1] == b@[0]),
            },
    {
        if a.len() == 2 && b.len() == 2 && a[1] == b[0] {
            let mut s: Vec<usize> = Vec::new();
            s.push(a[0]);
            s.push(b[1]);
            assert(s@ =~= seq![a@[0], b@[1]]);
            Some(s)
        } else {
            None
        }
    }
}

impl TransposeOp {
    /// The shape of the transpose of a matrix; `None` when the operand is not a matrix.
    pub fn output_shape(a: &Vec<usize>) -> (r: Option<Vec<usize>>)
        ensures
            match r {
                Some(s) => a.len() == 2 && s@ == seq![a@[1], a@[0]],
                None => a.len() != 2,
            },
    {
        if a.len() == 2 {
            let mut s: Vec<usize> = Vec::new();
            s.push(a[1]);
            s.push(a[0]);
            assert(s@ =~= seq![a@[1], a@[0]]);
            Some(s)
        } else {
            None
        }
    }
}

/// The values of a `rows x cols` matrix stored row by row, rearranged into its `cols x rows`
/// transpose.
pub open spec fn transposed<T>(data: Seq<T>, rows: int, cols: int) -> Seq<T> {
    Seq::new((rows * cols) as nat, |p: int| data[(p % rows) * cols + p / rows])
}

proof fn lemma_index_bound(i: int, j: int, rows: int, cols: int)
    requires
        0 <= i < rows,
        0 <= j < cols,
    ensures
        0 <= i * cols + j < rows * cols,
        0 <= j * rows + i < rows * cols,
        (j * rows + i) % rows == i,
        (j * rows + i) / rows == j,
{
    assert(0 <= i * cols + j < rows * cols) by (nonlinear_arith)
        requires
            0 <= i < rows,
            0 <= j < cols,
    ;
    assert(0 <= j * rows + i < rows * cols) by (nonlinear_arith)
        requires
            0 <= i < rows,
            0 <= j < cols,
    ;
    assert((j * rows + i) % rows == i && (j * rows + i) / rows == j) by (nonlinear_arith)
        requires
            0 <= i < rows,
            0 <= j,
    ;
}

impl TransposeOp {
    /// The transpose of the `rows x cols` matrix whose values `data` holds row by row:
    /// the value at row `i`, column `j` moves to row `j`, column `i`.
    pub fn transpose_data<T: Copy>(data: &Vec<T>, rows: usize, cols: usize) -> (out: Vec<T>)
        requires
            rows * cols <= usize::MAX,
            data.len() >= rows * cols,
        ensures
            out@ == transposed(data@, rows as int, cols as int),
            forall|i: int, j: int|
                0 <= i < rows && 0 <= j < cols ==> #[trigger] out@[j * rows + i] == data@[i * cols + j],
    {
        let total = rows * cols;
        let mut out: Vec<T> = Vec::new();
        let mut p: usize = 0;
        while p < total
            invariant
                total == rows * cols,
                total <= usize::MAX,
                data.len() >= total,
                p <= total,
                out.len() == p,
                forall|q: int| 0 <= q < p ==> #[trigger] out@[q] == data@[(q % rows as int) * cols + q / rows as int],
            decreases total - p,
        {
            let i = p % rows;
            let j = p / rows;
            proof {
                assert(rows > 0) by (nonlinear_arith)
                    requires
                        p < rows * cols,
                ;
                assert(i < rows && j < cols && j * rows + i == p) by (nonlinear_arith)
                    requires
                        rows > 0,
                        p < rows * cols,
                        i == p % rows,
                        j == p / rows,
                ;
                lemma_index_bound(i as int, j as int, rows as int, cols as int);
            }
            out.push(data[i * cols + j]);
            p = p + 1;
        }
        proof {
            assert(out@ =~= transposed(data@, rows as int, cols as int));
            assert forall|i: int, j: int| 0 <= i < rows && 0 <= j < cols implies #[trigger] out@[j * rows
                + i] == data@[i * cols + j] by {
                lemma_index_bound(i, j, rows as int, cols as int);
            }
        }
        out
    }
}

/// Transposing a matrix twice gives back the matrix.
pub proof fn law_transpose_involution<T>(data: Seq<T>, rows: int, cols: int)
    requires
        rows >= 0,
        cols >= 0,
        data.len() == rows * cols,
    ensures
        transposed(transposed(data, rows, cols), cols, rows) == data,
{
    let t = transposed(data, rows, cols);
    let tt = transposed(t, cols, rows);
    assert(cols * rows == rows * cols) by (nonlinear_arith);
    assert forall|p: int| 0 <= p < data.len() implies #[trigger] tt[p] == data[p] by {
        assert(cols > 0 && rows > 0) by (nonlinear_arith)
            requires
                0 <= p < rows * cols,
                rows >= 0,
                cols >= 0,
        ;
        let i = p / cols;
        let j = p % cols;
        assert(0 <= i < rows && 0 <= j < cols && p == i * cols + j) by (nonlinear_arith)
            requires
                rows > 0,
                cols > 0,
                0 <= p < rows * cols,
                i == p / cols,
                j == p % cols,
        ;
        // tt[p] = t[(p % cols) * rows + p / cols] = t[j * rows + i]
        lemma_index_bound(i, j, rows, cols);
        assert(tt[p] == t[j * rows + i]);
        assert(t[j * rows + i] == data[((j * rows + i) % rows) * cols + (j * rows + i) / rows]);
    }
    assert(tt =~= data);
}

impl ReshapeOp {
    pub fn new(new_shape: Vec<usize>) -> (r: Self)
        ensures
            r.new_shape@ == new_shape@,
    {
        Self { new_shape }
    }

    /// Whether a tensor of `len` values can be reshaped to `new_shape`.
    pub fn accepts(&self, len: usize) -> (r: bool)
        ensures
            r == (self.new_shape.len() == 0 || shape_product(self.new_shape@) == len),
    {
        shape_accepts(len, &self.new_shape)
    }
}

impl SumOp {
    /// The sum of a tensor is a tensor of shape `[1]`.
    pub fn output_shape() -> (r: Vec<usize>)
        ensures
            r@ == seq![1usize],
    {
        let mut s: Vec<usize> = Vec::new();
        s.push(1);
        assert(s@ =~= seq![1usize]);
        s
    }
}

/// The width of the rows that softmax and layer normalisation work on: the last dimension
/// of `shape`. `None` when the shape is empty or the last dimension is zero, which those
/// operations refuse.
pub fn row_width(shape: &Vec<usize>) -> (r: Option<usize>)
    ensures
        match r {
            Some(w) => shape.len() > 0 && w == shape@.last() && w > 0,
            None => shape.len() == 0 || shape@.last() == 0,
        },
{
    if shape.len() == 0 {
        return None;
    }
    let w = shape[shape.len() - 1];
    if w == 0 {
        None
    } else {
        Some(w)
    }
}

} // verus!

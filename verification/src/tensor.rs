//! The raw model-output tensor: a flat buffer of fixed-point values with an
//! explicit shape, validated once at the pipeline boundary.

use vstd::prelude::*;
use crate::params::{PipelineError, VAL_LIMIT};

verus! {

/// Largest accepted tensor dimension.
pub const MAX_TENSOR_DIM: u64 = 32768;

/// Product of a shape's dimensions.
pub open spec fn dims_product(dims: Seq<u64>) -> int
    decreases dims.len(),
{
    if dims.len() == 0 {
        1
    } else {
        dims[0] * dims_product(dims.drop_first())
    }
}

/// A raw output tensor: row-major values of shape `dims`.
///
/// Values are fixed-point integers as produced by the caller's conversion of
/// the engine output; every accepted value has magnitude at most
/// [`VAL_LIMIT`], which keeps all decoding arithmetic exact in `i64`.
#[derive(Debug)]
pub struct Tensor {
    pub dims: Vec<u64>,
    pub data: Vec<i64>,
}

impl Tensor {
    /// Shape and contents are consistent and within the accepted bounds.
    pub open spec fn wf(self) -> bool {
        &&& 1 <= self.dims@.len() <= 4
        &&& forall|i: int| 0 <= i < self.dims@.len() ==> 1 <= #[trigger] self.dims@[i] <= MAX_TENSOR_DIM
        &&& self.data@.len() == dims_product(self.dims@)
        &&& forall|i: int|
            0 <= i < self.data@.len() ==> -VAL_LIMIT <= #[trigger] self.data@[i] <= VAL_LIMIT
    }

    /// Number of dimensions.
    pub fn rank(&self) -> (r: usize)
        ensures
            r == self.dims@.len(),
    {
        self.dims.len()
    }

    /// One dimension.
    pub fn dim(&self, i: usize) -> (r: u64)
        requires
            i < self.dims@.len(),
        ensures
            r == self.dims@[i as int],
    {
        self.dims[i]
    }

    /// Validates a shape and buffer pair into a tensor. Returns `ShapeError`
    /// when the rank, a dimension, the buffer length or a value is out of
    /// bounds.
    pub fn new(dims: Vec<u64>, data: Vec<i64>) -> (r: Result<Tensor, PipelineError>)
        ensures
            match r {
                Ok(t) => {
                    &&& t.wf()
                    &&& t.dims@ == dims@
                    &&& t.data@ == data@
                },
                Err(e) => {
                    &&& e == PipelineError::ShapeError
                    &&& !(Tensor { dims, data }).wf()
                },
            },
    {
        let rank = dims.len();
        if rank < 1 || rank > 4 {
            return Err(PipelineError::ShapeError);
        }
        let mut i: usize = 0;
        while i < rank
            invariant
                rank == dims@.len(),
                i <= rank,
                forall|j: int| 0 <= j < i ==> 1 <= #[trigger] dims@[j] <= MAX_TENSOR_DIM,
            decreases rank - i,
        {
            let d = dims[i];
            if d < 1 || d > MAX_TENSOR_DIM {
                return Err(PipelineError::ShapeError);
            }
            i += 1;
        }
        let product: u64 = Self::shape_product(&dims);
        if (data.len() as u64) != product {
            proof {
                assert(dims_product(dims@) == product);
            }
            return Err(PipelineError::ShapeError);
        }
        let mut k: usize = 0;
        let n = data.len();
        while k < n
            invariant
                n == data@.len(),
                k <= n,
                forall|j: int| 0 <= j < k ==> -VAL_LIMIT <= #[trigger] data@[j] <= VAL_LIMIT,
            decreases n - k,
        {
            let v = data[k];
            if v < -VAL_LIMIT || v > VAL_LIMIT {
                return Err(PipelineError::ShapeError);
            }
            k += 1;
        }
        Ok(Tensor { dims, data })
    }

    /// Product of an already bounds-checked shape.
    fn shape_product(dims: &Vec<u64>) -> (r: u64)
        requires
            1 <= dims@.len() <= 4,
            forall|j: int| 0 <= j < dims@.len() ==> 1 <= #[trigger] dims@[j] <= MAX_TENSOR_DIM,
        ensures
            r == dims_product(dims@),
            r <= 0x1000_0000_0000_0000,
    {
        proof {
            lemma_small_shape_product(dims@);
            if dims@.len() >= 2 {
                assert(dims@[0] as int * dims@[1] as int <= 32768 * 32768
                    && (dims@.len() >= 3 ==> (dims@[0] as int * dims@[1] as int)
                        * dims@[2] as int <= 32768 * 32768 * 32768)) by (nonlinear_arith)
                    requires
                        2 <= dims@.len(),
                        1 <= dims@[0] as int <= 32768,
                        1 <= dims@[1] as int <= 32768,
                        dims@.len() >= 3 ==> 1 <= dims@[2] as int <= 32768,
                ;
            }
        }
        if dims.len() == 1 {
            dims[0]
        } else if dims.len() == 2 {
            dims[0] * dims[1]
        } else if dims.len() == 3 {
            dims[0] * dims[1] * dims[2]
        } else {
            dims[0] * dims[1] * dims[2] * dims[3]
        }
    }

    /// The value at `(i, j)` of a rank-2 tensor.
    pub open spec fn val2(self, i: int, j: int) -> int {
        self.data@[i * self.dims@[1] + j] as int
    }

    /// Reads the value at `(i, j)` of a rank-2 tensor.
    pub fn at2(&self, i: usize, j: usize) -> (r: i64)
        requires
            self.wf(),
            self.dims@.len() == 2,
            i < self.dims@[0],
            j < self.dims@[1],
        ensures
            r == self.val2(i as int, j as int),
            -VAL_LIMIT <= r <= VAL_LIMIT,
    {
        proof {
            lemma_small_shape_product(self.dims@);
            lemma_index3_bound(0, i as int, j as int, 1, self.dims@[0] as int,
                self.dims@[1] as int);
        }
        let idx: u64 = (i as u64) * self.dims[1] + (j as u64);
        let n = self.data.len();
        proof {
            assert((0 * self.dims@[0] as int + i) == i as int);
            assert(idx < n as u64);
        }
        self.data[idx as usize]
    }

    /// The value at `(i, j, k)` of a rank-3 tensor.
    pub open spec fn val3(self, i: int, j: int, k: int) -> int {
        self.data@[(i * self.dims@[1] + j) * self.dims@[2] + k] as int
    }

    /// Reads the value at `(i, j, k)` of a rank-3 tensor.
    pub fn at3(&self, i: usize, j: usize, k: usize) -> (r: i64)
        requires
            self.wf(),
            self.dims@.len() == 3,
            i < self.dims@[0],
            j < self.dims@[1],
            k < self.dims@[2],
        ensures
            r == self.val3(i as int, j as int, k as int),
            -VAL_LIMIT <= r <= VAL_LIMIT,
    {
        proof {
            lemma_small_shape_product(self.dims@);
            lemma_index3_bound(i as int, j as int, k as int, self.dims@[0] as int,
                self.dims@[1] as int, self.dims@[2] as int);
        }
        let idx: u64 = ((i as u64) * self.dims[1] + (j as u64)) * self.dims[2] + (k as u64);
        let n = self.data.len();
        proof {
            assert(idx < n as u64);
        }
        self.data[idx as usize]
    }

    /// The value at `(i, j, p)` of a rank-4 tensor whose last two dimensions
    /// are flattened: `p` indexes row-major over `dims[2] * dims[3]`.
    pub open spec fn val4_flat(self, i: int, j: int, p: int) -> int {
        self.data@[(i * self.dims@[1] + j) * (self.dims@[2] * self.dims@[3]) + p] as int
    }

    /// Reads the value at `(i, j, p)` of a rank-4 tensor, `p` flat over the
    /// last two dimensions.
    pub fn at4_flat(&self, i: usize, j: usize, p: usize) -> (r: i64)
        requires
            self.wf(),
            self.dims@.len() == 4,
            i < self.dims@[0],
            j < self.dims@[1],
            p < self.dims@[2] * self.dims@[3],
        ensures
            r == self.val4_flat(i as int, j as int, p as int),
            -VAL_LIMIT <= r <= VAL_LIMIT,
    {
        proof {
            lemma_small_shape_product(self.dims@);
            assert(1 <= self.dims@[2] as int * self.dims@[3] as int <= 32768 * 32768)
                by (nonlinear_arith)
                requires
                    1 <= self.dims@[2] as int <= 32768,
                    1 <= self.dims@[3] as int <= 32768,
            ;
            lemma_index3_bound(i as int, j as int, p as int, self.dims@[0] as int,
                self.dims@[1] as int, self.dims@[2] as int * self.dims@[3] as int);
        }
        let plane: u64 = self.dims[2] * self.dims[3];
        let idx: u64 = ((i as u64) * self.dims[1] + (j as u64)) * plane + (p as u64);
        let n = self.data.len();
        proof {
            assert(((self.dims@[0] as int * self.dims@[1] as int)
                * (self.dims@[2] as int * self.dims@[3] as int))
                == ((self.dims@[0] as int * self.dims@[1] as int) * self.dims@[2] as int)
                    * self.dims@[3] as int) by (nonlinear_arith);
            assert(idx < n as u64);
        }
        self.data[idx as usize]
    }
}

/// A shape of rank at most 4 with sides at most `MAX_TENSOR_DIM` has a small
/// product, and the product is the plain product of the sides.
proof fn lemma_small_shape_product(dims: Seq<u64>)
    requires
        1 <= dims.len() <= 4,
        forall|i: int| 0 <= i < dims.len() ==> 1 <= #[trigger] dims[i] <= MAX_TENSOR_DIM,
    ensures
        dims.len() == 1 ==> dims_product(dims) == dims[0],
        dims.len() == 2 ==> dims_product(dims) == dims[0] * dims[1],
        dims.len() == 3 ==> dims_product(dims) == (dims[0] * dims[1]) * dims[2],
        dims.len() == 4 ==> dims_product(dims) == ((dims[0] * dims[1]) * dims[2]) * dims[3],
        1 <= dims_product(dims) <= 0x1000_0000_0000_0000,
{
    reveal_with_fuel(dims_product, 5);
    if dims.len() == 1 {
        assert(dims_product(dims.drop_first()) == 1);
    } else if dims.len() == 2 {
        let t = dims.drop_first();
        assert(dims_product(t) == t[0] * dims_product(t.drop_first()));
        assert(dims_product(t.drop_first()) == 1);
        assert(dims_product(dims) == dims[0] * (dims[1] * 1));
        assert(dims[0] * (dims[1] * 1) == (dims[0] * dims[1]))
            by (nonlinear_arith);
    } else if dims.len() == 3 {
        let t = dims.drop_first();
        let u = t.drop_first();
        assert(dims_product(u.drop_first()) == 1);
        assert(dims_product(dims) == dims[0] * (dims[1] * (dims[2] * 1)));
        assert(dims[0] as int * (dims[1] as int * (dims[2] as int * 1))
            == (dims[0] as int * dims[1] as int) * dims[2] as int) by (nonlinear_arith);
    } else {
        let t = dims.drop_first();
        let u = t.drop_first();
        let v = u.drop_first();
        assert(dims_product(v.drop_first()) == 1);
        assert(dims_product(dims) == dims[0] * (dims[1] * (dims[2] * (dims[3] * 1))));
        assert(dims[0] as int * (dims[1] as int * (dims[2] as int * (dims[3] as int * 1)))
            == ((dims[0] as int * dims[1] as int) * dims[2] as int) * dims[3] as int)
            by (nonlinear_arith);
    }
    assert(1 <= dims_product(dims) <= 0x1000_0000_0000_0000) by (nonlinear_arith)
        requires
            1 <= dims.len() <= 4,
            forall|i: int| 0 <= i < dims.len() ==> 1 <= #[trigger] dims[i] <= 32768,
            dims.len() == 1 ==> dims_product(dims) == dims[0],
            dims.len() == 2 ==> dims_product(dims) == dims[0] * dims[1],
            dims.len() == 3 ==> dims_product(dims) == (dims[0] * dims[1]) * dims[2],
            dims.len() == 4 ==> dims_product(dims) == ((dims[0] * dims[1]) * dims[2]) * dims[3],
    ;
}

/// Row-major rank-3 index arithmetic stays inside the buffer and inside
/// `u64`.
proof fn lemma_index3_bound(i: int, j: int, k: int, d0: int, d1: int, d2: int)
    requires
        0 <= i < d0,
        0 <= j < d1,
        0 <= k < d2,
        1 <= d0 <= 32768,
        1 <= d1 <= 32768,
        1 <= d2 <= 32768 * 32768,
    ensures
        0 <= i * d1 && i * d1 + j < d0 * d1,
        d0 * d1 <= 0x4000_0000,
        0 <= (i * d1 + j) * d2 && (i * d1 + j) * d2 + k < (d0 * d1) * d2,
        (d0 * d1) * d2 <= 0x1000_0000_0000_0000,
{
    assert(0 <= i * d1 && i * d1 + j < d0 * d1 && d0 * d1 <= 0x4000_0000
        && 0 <= (i * d1 + j) * d2 && (i * d1 + j) * d2 + k < (d0 * d1) * d2
        && (d0 * d1) * d2 <= 0x1000_0000_0000_0000) by (nonlinear_arith)
        requires
            0 <= i < d0,
            0 <= j < d1,
            0 <= k < d2,
            1 <= d0 <= 32768,
            1 <= d1 <= 32768,
            1 <= d2 <= 32768 * 32768,
    ;
}

} // verus!

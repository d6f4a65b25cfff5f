//! Integer tensors: a shape together with a flat row-major value vector.
//!
//! A tensor is the unit of data exchanged between layers.  Its element type
//! is `i64`, and the arithmetic performed on tensors elsewhere in the crate
//! wraps modulo `2^64`, mirrored exactly in the contracts through
//! `vstd::wrapping`.

use vstd::prelude::*;

verus! {

use vstd::wrapping::i64_specs;

/// Wrapping addition on scalars, the spec-level mirror of `i64::wrapping_add`.
pub open spec fn wrap_add(x: i64, y: i64) -> i64 {
    i64_specs::wrapping_add(x, y)
}

/// Wrapping subtraction on scalars, the spec-level mirror of `i64::wrapping_sub`.
pub open spec fn wrap_sub(x: i64, y: i64) -> i64 {
    i64_specs::wrapping_sub(x, y)
}

/// Wrapping multiplication on scalars, the spec-level mirror of `i64::wrapping_mul`.
pub open spec fn wrap_mul(x: i64, y: i64) -> i64 {
    i64_specs::wrapping_mul(x, y)
}

/// Number of elements a shape describes: the product of its extents.
/// An empty shape describes a single scalar element.
pub open spec fn shape_count(s: Seq<usize>) -> nat
    decreases s.len(),
{
    if s.len() == 0 {
        1
    } else {
        shape_count(s.drop_last()) * (s.last() as nat)
    }
}

/// Every prefix product of the shape fits in `usize`.  This is the exact
/// condition under which the running product in [`count_of_shape`] never
/// overflows, and hence under which a tensor of this shape can be allocated.
pub open spec fn shape_fits(s: Seq<usize>) -> bool {
    forall|i: int| 0 <= i <= s.len() ==> shape_count(#[trigger] s.take(i)) <= usize::MAX
}

/// Computes the element count of a shape, or `None` when a running product
/// leaves the `usize` range.
pub fn count_of_shape(shape: &Vec<usize>) -> (r: Option<usize>)
    ensures
        match r {
            Some(n) => n == shape_count(shape@) && shape_fits(shape@),
            None => !shape_fits(shape@),
        },
{
    let mut acc: usize = 1;
    let mut i: usize = 0;
    while i < shape.len()
        invariant
            i <= shape.len(),
            acc == shape_count(shape@.take(i as int)),
            forall|j: int| 0 <= j <= i ==> shape_count(#[trigger] shape@.take(j)) <= usize::MAX,
        decreases shape.len() - i,
    {
        proof {
            assert(shape@.take(i + 1).drop_last() =~= shape@.take(i as int));
            assert(shape@.take(i + 1).last() == shape@[i as int]);
        }
        match acc.checked_mul(shape[i]) {
            Some(v) => {
                acc = v;
            }
            None => {
                proof {
                    assert(shape_count(shape@.take(i + 1)) > usize::MAX);
                }
                return None;
            }
        }
        i = i + 1;
    }
    proof {
        assert(shape@.take(shape@.len() as int) =~= shape@);
        assert forall|j: int| 0 <= j <= shape@.len() implies shape_count(
            #[trigger] shape@.take(j),
        ) <= usize::MAX by {}
    }
    Some(acc)
}

/// A named-less numeric buffer: a shape and one `i64` value per element,
/// stored row-major.
pub struct Tensor {
    /// Extent of each dimension.
    pub shape: Vec<usize>,
    /// The elements, row-major; its length is always the product of `shape`.
    pub data: Vec<i64>,
}

impl Tensor {
    /// The length of `data` matches the shape's element count.
    pub open spec fn wf(&self) -> bool {
        self.data@.len() == shape_count(self.shape@)
    }

    /// Allocates a zero-filled tensor of the given shape, or `None` when the
    /// shape's element count cannot be computed within `usize`.
    pub fn new(shape: &Vec<usize>) -> (r: Option<Tensor>)
        ensures
            match r {
                Some(t) => t.wf() && shape_fits(shape@) && t.shape@ == shape@ && t.data@
                    == Seq::new(shape_count(shape@), |i: int| 0i64),
                None => !shape_fits(shape@),
            },
    {
        match count_of_shape(shape) {
            Some(n) => {
                let t = Tensor { shape: copy_usize_vec(shape), data: vec![0i64; n] };
                proof {
                    assert forall|i: int| 0 <= i < n implies t.data@[i] == 0i64 by {}
                    assert(t.data@ =~= Seq::new(shape_count(shape@), |i: int| 0i64));
                }
                Some(t)
            }
            None => None,
        }
    }

    /// Builds a tensor from explicit values, or `None` when the shape cannot
    /// be measured or the value count does not match it.
    pub fn from_values(shape: &Vec<usize>, values: Vec<i64>) -> (r: Option<Tensor>)
        ensures
            match r {
                Some(t) => t.wf() && shape_fits(shape@) && t.shape@ == shape@ && t.data@ == values@,
                None => !shape_fits(shape@) || values@.len() != shape_count(shape@),
            },
    {
        match count_of_shape(shape) {
            Some(n) => {
                if values.len() == n {
                    Some(Tensor { shape: copy_usize_vec(shape), data: values })
                } else {
                    None
                }
            }
            None => None,
        }
    }

    /// Element count of the tensor.
    pub fn size(&self) -> (n: usize)
        ensures
            n == self.data@.len(),
    {
        self.data.len()
    }

    /// Reads the element at flat index `i`.
    pub fn get(&self, i: usize) -> (v: i64)
        requires
            i < self.data@.len(),
        ensures
            v == self.data@[i as int],
    {
        self.data[i]
    }

    /// Writes the element at flat index `i`.
    pub fn put(&mut self, i: usize, v: i64)
        requires
            i < old(self).data@.len(),
        ensures
            final(self).shape@ == old(self).shape@,
            final(self).data@ == old(self).data@.update(i as int, v),
    {
        self.data[i] = v;
    }

    /// Overwrites every element with `value`; the shape is unchanged.
    pub fn fill(&mut self, value: i64)
        ensures
            final(self).shape@ == old(self).shape@,
            final(self).data@ == Seq::new(old(self).data@.len(), |i: int| value),
    {
        let n = self.data.len();
        let mut i: usize = 0;
        while i < n
            invariant
                i <= n,
                n == self.data@.len(),
                n == old(self).data@.len(),
                self.shape@ == old(self).shape@,
                forall|j: int| 0 <= j < i ==> self.data@[j] == value,
        decreases n - i,
        {
            self.data[i] = value;
            i = i + 1;
        }
        proof {
            assert(self.data@ =~= Seq::new(old(self).data@.len(), |j: int| value));
        }
    }

    /// An exact copy: same shape, same elements.
    pub fn duplicate(&self) -> (t: Tensor)
        ensures
            t.shape@ == self.shape@,
            t.data@ == self.data@,
    {
        Tensor { shape: copy_usize_vec(&self.shape), data: copy_i64_vec(&self.data) }
    }
}

/// An element-for-element copy of a `usize` vector.
pub fn copy_usize_vec(v: &Vec<usize>) -> (r: Vec<usize>)
    ensures
        r@ == v@,
{
    let mut r: Vec<usize> = Vec::new();
    let mut i: usize = 0;
    while i < v.len()
        invariant
            i <= v.len(),
            r@ == v@.take(i as int),
        decreases v.len() - i,
    {
        r.push(v[i]);
        proof {
            assert(r@ =~= v@.take(i + 1));
        }
        i = i + 1;
    }
    proof {
        assert(v@.take(v@.len() as int) =~= v@);
    }
    r
}

/// An element-for-element copy of an `i64` vector.
pub fn copy_i64_vec(v: &Vec<i64>) -> (r: Vec<i64>)
    ensures
        r@ == v@,
{
    let mut r: Vec<i64> = Vec::new();
    let mut i: usize = 0;
    while i < v.len()
        invariant
            i <= v.len(),
            r@ == v@.take(i as int),
        decreases v.len() - i,
    {
        r.push(v[i]);
        proof {
            assert(r@ =~= v@.take(i + 1));
        }
        i = i + 1;
    }
    proof {
        assert(v@.take(v@.len() as int) =~= v@);
    }
    r
}

/// The element count of a one-extent shape is that extent.
pub proof fn lemma_shape_count_one(a: usize)
    ensures
        shape_count(seq![a]) == a,
{
    assert(shape_count(Seq::<usize>::empty()) == 1);
    assert(seq![a].drop_last() =~= Seq::<usize>::empty());
    assert(seq![a].last() == a);
    assert(shape_count(seq![a]) == shape_count(seq![a].drop_last()) * (seq![a].last() as nat));
}

/// The element count of a two-extent shape is the product of the extents.
pub proof fn lemma_shape_count_two(a: usize, b: usize)
    ensures
        shape_count(seq![a, b]) == a * b,
{
    assert(seq![a, b].drop_last() =~= seq![a]);
    assert(seq![a, b].last() == b);
    lemma_shape_count_one(a);
    assert(shape_count(seq![a, b]) == shape_count(seq![a, b].drop_last()) * (seq![a, b].last()
        as nat));
}

} // verus!

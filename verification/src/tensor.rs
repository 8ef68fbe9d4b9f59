//! Tensors as the scheduler sees them: how elements are laid out in memory, and what
//! stands for that memory.
use ndarray_layout::{ArrayLayout, Endian};
use vstd::prelude::*;

verus! {

/// Where the elements of an array stand: element `(i0, i1, ..)` is `offset` bytes and
/// `strides[k]` bytes for each step along axis `k` behind the start.
pub struct Layout {
    pub shape: Vec<usize>,
    pub strides: Vec<isize>,
    pub offset: isize,
}

/// An array of elements of `elem` bytes each, laid out as `layout` says in what `item`
/// stands for.
pub struct Tensor<T> {
    pub elem: usize,
    pub layout: Layout,
    pub item: T,
}

/// The product of some dimensions.
pub open spec fn product(shape: Seq<usize>) -> nat
    decreases shape.len(),
{
    if shape.len() == 0 {
        1
    } else {
        shape[0] as nat * product(shape.drop_first())
    }
}

/// The stride of axis `i` where the last axis runs fastest and nothing is left out.
pub open spec fn dense_stride(shape: Seq<usize>, elem: usize, i: int) -> nat {
    elem as nat * product(shape.skip(i + 1))
}

/// Every stride of a dense array of that shape, and its size, can be written as `isize`.
pub open spec fn dense_fits(shape: Seq<usize>, elem: usize) -> bool {
    forall|i: int|
        -1 <= i < shape.len() ==> #[trigger] dense_stride(shape, elem, i) <= isize::MAX
}

/// How many entries of `perm` are below `i`.
pub open spec fn count_below(perm: Seq<usize>, i: int) -> nat
    decreases perm.len(),
{
    if perm.len() == 0 {
        0
    } else {
        count_below(perm.drop_last(), i) + if perm.last() < i {
            1nat
        } else {
            0
        }
    }
}

/// The axis that a transposition by `perm` puts in the place of axis `i`. The axes that
/// `perm` names are dealt out in its order over the places that they have; the others stay.
pub open spec fn moved_axis(perm: Seq<usize>, i: int) -> int {
    if exists|k: int| 0 <= k < perm.len() && #[trigger] perm[k] == i {
        perm[count_below(perm, i) as int] as int
    } else {
        i
    }
}

/// What axes `start..end` come to when they are merged into one, the last running fastest:
/// how long that axis is and its stride. `None` where no one stride reaches them all. Axes
/// of length 1 have no say.
pub open spec fn merged_axis(
    shape: Seq<usize>,
    strides: Seq<isize>,
    start: int,
    end: int,
) -> Option<(nat, int)>
    decreases end - start,
{
    if start >= end {
        Some((1, 0))
    } else {
        match merged_axis(shape, strides, start + 1, end) {
            None => None,
            Some((len, stride)) => if shape[start] == 1 {
                Some((len, stride))
            } else if len == 1 {
                Some((shape[start] as nat, strides[start] as int))
            } else if strides[start] == stride * len {
                Some((len * shape[start] as nat, stride))
            } else {
                None
            },
        }
    }
}

impl Layout {
    /// Each axis has a stride.
    pub open spec fn wf(&self) -> bool {
        self.shape@.len() == self.strides@.len()
    }

    /// The same layout, written down twice.
    pub open spec fn same(&self, other: &Layout) -> bool {
        &&& self.shape@ == other.shape@
        &&& self.strides@ == other.strides@
        &&& self.offset == other.offset
    }

    /// A copy of the layout.
    pub fn duplicate(&self) -> (layout: Layout)
        ensures
            layout.same(self),
    {
        let shape = self.shape.clone();
        let strides = self.strides.clone();
        assert(shape@ =~= self.shape@);
        assert(strides@ =~= self.strides@);
        Layout { shape, strides, offset: self.offset }
    }

    /// `ArrayLayout::new_contiguous`, big endian: a dense array of that shape, the last
    /// axis running fastest, from offset 0 on.
    #[verifier::external_body]
    fn dense(shape: &[usize], elem: usize) -> (layout: Layout)
        requires
            dense_fits(shape@, elem),
        ensures
            layout.wf(),
            layout.shape@ == shape@,
            forall|i: int|
                0 <= i < shape@.len() ==> #[trigger] layout.strides@[i] == dense_stride(
                    shape@,
                    elem,
                    i,
                ),
            layout.offset == 0,
    {
        let layout = ArrayLayout::<2>::new_contiguous(shape, Endian::BigEndian, elem);
        Layout {
            shape: layout.shape().to_vec(),
            strides: layout.strides().to_vec(),
            offset: layout.offset(),
        }
    }

    /// `ArrayLayout::transpose`: the same elements with the axes in another order, as
    /// `moved_axis` says.
    #[verifier::external_body]
    pub(crate) fn transpose(&self, perm: &[usize]) -> (layout: Layout)
        requires
            self.wf(),
            perm@.no_duplicates(),
            forall|k: int| 0 <= k < perm@.len() ==> perm@[k] < self.shape@.len(),
        ensures
            layout.wf(),
            layout.shape@.len() == self.shape@.len(),
            forall|i: int|
                0 <= i < self.shape@.len() ==> {
                    &&& #[trigger] layout.shape@[i] == self.shape@[moved_axis(perm@, i)]
                    &&& layout.strides@[i] == self.strides@[moved_axis(perm@, i)]
                },
            layout.offset == self.offset,
    {
        let layout = ArrayLayout::<2>::new(&self.shape, &self.strides, self.offset);
        let layout = layout.transpose(perm);
        Layout {
            shape: layout.shape().to_vec(),
            strides: layout.strides().to_vec(),
            offset: layout.offset(),
        }
    }

    /// `ArrayLayout::index`: the elements at `index` of one axis, which is gone after that.
    #[verifier::external_body]
    pub(crate) fn index(&self, axis: usize, index: usize) -> (layout: Layout)
        requires
            self.wf(),
            axis < self.shape@.len(),
            index < self.shape@[axis as int],
            index <= isize::MAX,
            isize::MIN <= index * self.strides@[axis as int] <= isize::MAX,
            isize::MIN <= self.offset + index * self.strides@[axis as int] <= isize::MAX,
        ensures
            layout.wf(),
            layout.shape@ == self.shape@.remove(axis as int),
            layout.strides@ == self.strides@.remove(axis as int),
            layout.offset == self.offset + index * self.strides@[axis as int],
    {
        let layout = ArrayLayout::<2>::new(&self.shape, &self.strides, self.offset);
        let layout = layout.index(axis, index);
        Layout {
            shape: layout.shape().to_vec(),
            strides: layout.strides().to_vec(),
            offset: layout.offset(),
        }
    }

    /// `ArrayLayout::merge_be`: `len` axes from `start` on as one, as `merged_axis` says.
    #[verifier::external_body]
    pub(crate) fn merge_be(&self, start: usize, len: usize) -> (layout: Option<Layout>)
        requires
            self.wf(),
            2 <= len,
            start + len <= self.shape@.len(),
            forall|i: int| start <= i < start + len ==> #[trigger] self.shape@[i] > 0,
            forall|i: int|
                start <= i < start + len ==> (#[trigger] merged_axis(
                    self.shape@,
                    self.strides@,
                    i,
                    start + len,
                ) matches Some((n, s)) ==> n <= isize::MAX && isize::MIN <= s * n <= isize::MAX),
        ensures
            layout is None <==> merged_axis(
                self.shape@,
                self.strides@,
                start as int,
                start + len,
            ) is None,
            layout matches Some(layout) ==> {
                let (n, s) = merged_axis(
                    self.shape@,
                    self.strides@,
                    start as int,
                    start + len,
                )->0;
                &&& layout.wf()
                &&& layout.shape@ == self.shape@.take(start as int).push(n as usize)
                    + self.shape@.skip(start + len)
                &&& layout.strides@ == self.strides@.take(start as int).push(s as isize)
                    + self.strides@.skip(start + len)
                &&& layout.offset == self.offset
            },
    {
        let layout = ArrayLayout::<2>::new(&self.shape, &self.strides, self.offset);
        layout.merge_be(start, len).map(
            |layout| Layout {
                shape: layout.shape().to_vec(),
                strides: layout.strides().to_vec(),
                offset: layout.offset(),
            },
        )
    }
}

/// The size in bytes of a dense array.
pub open spec fn dense_bytes(shape: Seq<usize>, elem: usize) -> nat {
    dense_stride(shape, elem, -1)
}

/// Whether every stride of a dense array of that shape, and its size, can be written as
/// `isize`.
pub fn fits(elem: usize, shape: &Vec<usize>) -> (fits: bool)
    ensures
        fits == dense_fits(shape@, elem),
{
    let ghost dims = shape@;
    let mut bytes: usize = elem;
    let mut i: usize = shape.len();
    assert(dims.skip(dims.len() as int) =~= Seq::<usize>::empty());
    assert(bytes == dense_stride(dims, elem, i - 1)) by {
        assert(elem as nat * 1 == elem as nat);
    }
    if bytes > isize::MAX as usize {
        assert(dense_stride(dims, elem, dims.len() - 1) > isize::MAX);
        return false;
    }
    while i > 0
        invariant
            dims == shape@,
            i <= dims.len(),
            bytes == dense_stride(dims, elem, i - 1),
            forall|k: int|
                i - 1 <= k < dims.len() ==> #[trigger] dense_stride(dims, elem, k) <= isize::MAX,
        decreases i,
    {
        i = i - 1;
        proof {
            assert(dims.skip(i as int).drop_first() =~= dims.skip(i + 1));
            assert(elem as nat * (dims[i as int] as nat * product(dims.skip(i + 1))) == (elem as nat
                * product(dims.skip(i + 1))) * dims[i as int] as nat) by (nonlinear_arith);
            assert(dense_stride(dims, elem, i as int) <= isize::MAX);
            assert(dense_stride(dims, elem, i - 1) == bytes * dims[i as int]);
            assert(bytes * dims[i as int] <= u64::MAX * u64::MAX) by (nonlinear_arith)
                requires
                    bytes <= u64::MAX,
                    dims[i as int] <= u64::MAX,
            ;
        }
        let next: u128 = bytes as u128 * shape[i] as u128;
        if next > isize::MAX as u128 {
            assert(dense_stride(dims, elem, i - 1) > isize::MAX);
            return false;
        }
        bytes = next as usize;
    }
    true
}

impl Tensor<usize> {
    /// A dense array of that shape. What stands for its memory is the size of it, in bytes.
    pub fn new(elem: usize, shape: Vec<usize>) -> (tensor: Tensor<usize>)
        requires
            dense_fits(shape@, elem),
        ensures
            tensor.is_dense(shape@, elem),
            tensor.item == dense_bytes(shape@, elem),
    {
        let ghost dims = shape@;
        let mut bytes: usize = elem;
        let mut i: usize = shape.len();
        assert(dims.skip(dims.len() as int) =~= Seq::<usize>::empty());
        assert(bytes == dense_stride(dims, elem, i - 1)) by {
            assert(elem as nat * 1 == elem as nat);
        }
        while i > 0
            invariant
                dims == shape@,
                i <= dims.len(),
                dense_fits(dims, elem),
                bytes == dense_stride(dims, elem, i - 1),
            decreases i,
        {
            i = i - 1;
            proof {
                assert(dims.skip(i as int).drop_first() =~= dims.skip(i + 1));
                assert(dense_stride(dims, elem, i - 1) == elem as nat * (dims[i as int] as nat
                    * product(dims.skip(i + 1))));
                assert(dense_stride(dims, elem, i - 1) <= isize::MAX);
                assert(elem as nat * (dims[i as int] as nat * product(dims.skip(i + 1))) == (
                elem as nat * product(dims.skip(i + 1))) * dims[i as int] as nat)
                    by (nonlinear_arith);
            }
            bytes = bytes * shape[i];
        }
        let layout = Layout::dense(shape.as_slice(), elem);
        Tensor { elem, layout, item: bytes }
    }
}

impl<T> Tensor<T> {
    /// The array is dense, of that shape and element size.
    pub open spec fn is_dense(&self, shape: Seq<usize>, elem: usize) -> bool {
        &&& self.elem == elem
        &&& self.layout.wf()
        &&& self.layout.shape@ == shape
        &&& forall|i: int|
            0 <= i < shape.len() ==> #[trigger] self.layout.strides@[i] == dense_stride(
                shape,
                elem,
                i,
            )
        &&& self.layout.offset == 0
    }

    /// A copy of the array, in the same memory.
    pub fn duplicate(&self) -> (tensor: Tensor<T>) where T: Copy
        ensures
            tensor.elem == self.elem,
            tensor.layout.same(&self.layout),
            tensor.item == self.item,
    {
        Tensor { elem: self.elem, layout: self.layout.duplicate(), item: self.item }
    }

    /// The same array with something else that stands for its memory.
    pub fn with<U>(self, item: U) -> (tensor: Tensor<U>)
        ensures
            tensor.elem == self.elem,
            tensor.layout == self.layout,
            tensor.item == item,
    {
        Tensor { elem: self.elem, layout: self.layout, item }
    }
}

/// An array of several axes has as many elements as its last axis has, times those of an array
/// of the others. One of a single axis has as many as that.
pub proof fn law_elements_multiply(shape: Seq<usize>, n: usize)
    ensures
        product(Seq::<usize>::empty()) == 1,
        product(seq![n]) == n,
        product(shape.push(n)) == product(shape) * n,
    decreases shape.len(),
{
    reveal_with_fuel(product, 2);
    assert(seq![n].drop_first() =~= Seq::<usize>::empty());
    if shape.len() == 0 {
        assert(shape.push(n) =~= seq![n]);
        assert(product(seq![n]) == n as nat * 1);
        assert(product(shape) * n == 1 * n);
    } else {
        let rest = shape.drop_first();
        law_elements_multiply(rest, n);
        assert(shape.push(n).drop_first() =~= rest.push(n));
        assert(shape.push(n)[0] == shape[0]);
        assert(product(shape.push(n)) == shape[0] as nat * product(rest.push(n)));
        assert(shape[0] as nat * (product(rest) * n as nat) == (shape[0] as nat * product(rest))
            * n as nat) by (nonlinear_arith);
    }
    assert(product(seq![n]) == n as nat * 1);
}

/// In a dense array the last axis takes a step of one element, and every other axis a step over
/// all of the next one. All of the first axis is all of the array.
pub proof fn law_dense_steps_leave_no_gaps(shape: Seq<usize>, elem: usize, i: int)
    requires
        0 <= i < shape.len(),
    ensures
        dense_stride(shape, elem, shape.len() - 1) == elem,
        i + 1 < shape.len() ==> dense_stride(shape, elem, i) == dense_stride(shape, elem, i + 1)
            * shape[i + 1],
        dense_bytes(shape, elem) == dense_stride(shape, elem, 0) * shape[0],
{
    let n = shape.len() as int;
    assert(shape.skip(n) =~= Seq::<usize>::empty());
    assert(elem as nat * 1 == elem as nat);
    let e = elem as nat;
    if i + 1 < n {
        let p = product(shape.skip(i + 2));
        let m = shape[i + 1] as nat;
        assert(shape.skip(i + 1).drop_first() =~= shape.skip(i + 2));
        assert(e * (m * p) == (e * p) * m) by (nonlinear_arith);
    }
    let p = product(shape.skip(1));
    let m = shape[0] as nat;
    assert(shape.skip(0).drop_first() =~= shape.skip(1));
    assert(e * (m * p) == (e * p) * m) by (nonlinear_arith);
}

/// A dense array begins at its start, its last axis takes steps of one element, and every other
/// axis steps over all of the next one.
pub proof fn law_dense_arrays_leave_no_gaps<T>(tensor: Tensor<T>, shape: Seq<usize>, elem: usize)
    requires
        tensor.is_dense(shape, elem),
    ensures
        tensor.elem == elem,
        tensor.layout.shape@ == shape,
        tensor.layout.strides@.len() == shape.len(),
        tensor.layout.offset == 0,
        shape.len() > 0 ==> tensor.layout.strides@[shape.len() - 1] == elem,
        forall|i: int|
            #![trigger tensor.layout.strides@[i]]
            0 <= i && i + 1 < shape.len() ==> tensor.layout.strides@[i]
                == tensor.layout.strides@[i + 1] * shape[i + 1],
{
    if shape.len() > 0 {
        law_dense_steps_leave_no_gaps(shape, elem, shape.len() - 1);
        assert forall|i: int|
            #![trigger tensor.layout.strides@[i]]
            0 <= i && i + 1 < shape.len() implies tensor.layout.strides@[i]
            == tensor.layout.strides@[i + 1] * shape[i + 1] by {
            law_dense_steps_leave_no_gaps(shape, elem, i);
            assert(tensor.layout.strides@[i + 1] == dense_stride(shape, elem, i + 1));
        }
    }
}

/// Two axes that are merged into one reach the same elements as before, in the same order.
pub proof fn law_merged_axes_reach_the_same(
    shape: Seq<usize>,
    strides: Seq<isize>,
    start: int,
    i: int,
    j: int,
)
    requires
        0 <= start,
        start + 1 < shape.len() == strides.len(),
        merged_axis(shape, strides, start, start + 2) is Some,
        0 <= i < shape[start],
        0 <= j < shape[start + 1],
    ensures
        ({
            let (n, s) = merged_axis(shape, strides, start, start + 2)->0;
            &&& n == shape[start] * shape[start + 1]
            &&& i * shape[start + 1] + j < n
            &&& (i * shape[start + 1] + j) * s == i * strides[start] + j * strides[start + 1]
        }),
{
    reveal_with_fuel(merged_axis, 3);
    let (n, s) = merged_axis(shape, strides, start, start + 2)->0;
    let a = shape[start] as int;
    let b = shape[start + 1] as int;
    let sa = strides[start] as int;
    let sb = strides[start + 1] as int;
    assert(i * b + j < a * b) by (nonlinear_arith)
        requires
            0 <= i < a,
            0 <= j < b,
    ;
    if a == 1 {
        assert(1 * b == b);
        if b == 1 {
            assert((i * b + j) * s == 0 && i * sa == 0 && j * sb == 0) by (nonlinear_arith)
                requires
                    i == 0,
                    j == 0,
            ;
        } else {
            assert((i * b + j) * s == j * sb && i * sa == 0) by (nonlinear_arith)
                requires
                    i == 0,
                    s == sb,
            ;
        }
    } else if b == 1 {
        assert(a * 1 == a);
        assert((i * b + j) * s == i * sa && j * sb == 0) by (nonlinear_arith)
            requires
                b == 1,
                j == 0,
                s == sa,
        ;
    } else {
        assert(b * a == a * b) by (nonlinear_arith);
        assert((i * b + j) * s == i * sa + j * sb) by (nonlinear_arith)
            requires
                s == sb,
                sa == sb * b,
        ;
    }
}

/// Axes that a transposition does not name stay, and it puts no two axes in one place.
pub proof fn law_transpositions_keep_every_axis(perm: Seq<usize>, i: int, j: int)
    requires
        perm.no_duplicates(),
        i != j,
    ensures
        !perm.contains(i as usize) && 0 <= i <= usize::MAX ==> moved_axis(perm, i) == i,
        moved_axis(perm, i) != moved_axis(perm, j),
{
    let a = exists|k: int| 0 <= k < perm.len() && #[trigger] perm[k] == i;
    let b = exists|k: int| 0 <= k < perm.len() && #[trigger] perm[k] == j;
    if a {
        let k = choose|k: int| 0 <= k < perm.len() && #[trigger] perm[k] == i;
        lemma_count_is_below(perm, i, k);
    }
    if b {
        let k = choose|k: int| 0 <= k < perm.len() && #[trigger] perm[k] == j;
        lemma_count_is_below(perm, j, k);
    }
    if a && b {
        let k = choose|k: int| 0 <= k < perm.len() && #[trigger] perm[k] == i;
        let l = choose|k: int| 0 <= k < perm.len() && #[trigger] perm[k] == j;
        if i < j {
            lemma_count_grows(perm, i, j, k);
        } else {
            lemma_count_grows(perm, j, i, l);
        }
    }
    if a && !b {
        let at = count_below(perm, i) as int;
        assert(perm[at] == moved_axis(perm, i));
    }
    if b && !a {
        let at = count_below(perm, j) as int;
        assert(perm[at] == moved_axis(perm, j));
    }
    if !perm.contains(i as usize) && 0 <= i <= usize::MAX && a {
        let k = choose|k: int| 0 <= k < perm.len() && #[trigger] perm[k] == i;
        assert(perm[k] == i as usize);
    }
}

proof fn lemma_count_is_below(perm: Seq<usize>, i: int, k: int)
    requires
        0 <= k < perm.len(),
        perm[k] == i,
    ensures
        count_below(perm, i) < perm.len(),
    decreases perm.len(),
{
    lemma_count_at_most(perm.drop_last(), i);
    if k < perm.len() - 1 {
        lemma_count_is_below(perm.drop_last(), i, k);
    }
}

proof fn lemma_count_at_most(perm: Seq<usize>, i: int)
    ensures
        count_below(perm, i) <= perm.len(),
    decreases perm.len(),
{
    if perm.len() > 0 {
        lemma_count_at_most(perm.drop_last(), i);
    }
}

proof fn lemma_count_grows(perm: Seq<usize>, i: int, j: int, k: int)
    requires
        i < j,
        0 <= k < perm.len(),
        perm[k] == i,
    ensures
        count_below(perm, i) < count_below(perm, j),
    decreases perm.len(),
{
    lemma_count_is_monotone(perm.drop_last(), i, j);
    if k < perm.len() - 1 {
        lemma_count_grows(perm.drop_last(), i, j, k);
    }
}

proof fn lemma_count_is_monotone(perm: Seq<usize>, i: int, j: int)
    requires
        i <= j,
    ensures
        count_below(perm, i) <= count_below(perm, j),
    decreases perm.len(),
{
    if perm.len() > 0 {
        lemma_count_is_monotone(perm.drop_last(), i, j);
    }
}

/// Two axes can be merged exactly when one of them has a single place or the first steps over
/// all of the second.
pub proof fn law_even_axes_are_merged(shape: Seq<usize>, strides: Seq<isize>, start: int)
    requires
        0 <= start,
        start + 1 < shape.len() == strides.len(),
    ensures
        merged_axis(shape, strides, start, start + 2) is Some <==> {
            ||| shape[start] == 1
            ||| shape[start + 1] == 1
            ||| strides[start] == strides[start + 1] * shape[start + 1]
        },
{
    reveal_with_fuel(merged_axis, 3);
}

/// A dense array fits when all of it does, if no axis is empty; and none fits whose size does not.
pub proof fn law_what_fits(shape: Seq<usize>, elem: usize)
    requires
        forall|i: int| 0 <= i < shape.len() ==> #[trigger] shape[i] > 0,
    ensures
        dense_fits(shape, elem) <==> elem * product(shape) <= isize::MAX,
{
    assert(shape.skip(0) =~= shape);
    if elem * product(shape) <= isize::MAX {
        assert forall|i: int| -1 <= i < shape.len() implies #[trigger] dense_stride(
            shape,
            elem,
            i,
        ) <= isize::MAX by {
            lemma_product_shrinks(shape, i + 1);
            assert(elem * product(shape.skip(i + 1)) <= elem * product(shape)) by (nonlinear_arith)
                requires
                    product(shape.skip(i + 1)) <= product(shape),
            ;
        }
    } else {
        assert(dense_stride(shape, elem, -1) > isize::MAX);
    }
}

proof fn lemma_product_shrinks(shape: Seq<usize>, n: int)
    requires
        0 <= n <= shape.len(),
        forall|i: int| 0 <= i < shape.len() ==> #[trigger] shape[i] > 0,
    ensures
        product(shape.skip(n)) <= product(shape),
    decreases n,
{
    assert(shape.skip(0) =~= shape);
    if n > 0 {
        lemma_product_shrinks(shape, n - 1);
        let rest = shape.skip(n - 1);
        assert(rest.drop_first() =~= shape.skip(n));
        let a = shape[n - 1] as nat;
        let p = product(shape.skip(n));
        assert(p <= a * p) by (nonlinear_arith)
            requires
                a >= 1,
        ;
    }
}

/// Layouts that are the same have the same axes, steps and start.
pub proof fn law_same_layouts_place_the_same(a: Layout, b: Layout)
    ensures
        a.same(&b) <==> a.shape@ == b.shape@ && a.strides@ == b.strides@ && a.offset == b.offset,
{
}

} // verus!

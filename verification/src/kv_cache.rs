//! Key-value caches on paged memory.
use crate::tensor;
use crate::tensor::Tensor;
use crate::text;
use crate::text::div_ceil;
use vstd::prelude::*;

verus! {

/// What has to be done to the pages of a cache, counted from its start.
#[derive(Clone, Copy, PartialEq, Eq, Structural, Debug)]
pub enum PageChange {
    /// Give physical pages to `start..end`.
    Grow { start: usize, end: usize },
    /// Take the physical pages of `start..end` back.
    Shrink { start: usize, end: usize },
    /// Leave the pages as they are.
    Keep,
}

/// The pages that have memory behind them when the first `mapped` of them do.
pub open spec fn first_pages(mapped: nat) -> Set<int> {
    Set::new(|page: int| 0 <= page < mapped)
}

/// The pages that have memory behind them after a change.
pub open spec fn changed_pages(pages: Set<int>, change: PageChange) -> Set<int> {
    match change {
        PageChange::Grow { start, end } => pages.union(
            Set::new(|page: int| start <= page < end),
        ),
        PageChange::Shrink { start, end } => pages.difference(
            Set::new(|page: int| start <= page < end),
        ),
        PageChange::Keep => pages,
    }
}

/// The pages that `len` tokens of `size_per_token` bytes take.
pub open spec fn pages_for(len: nat, size_per_token: nat, page_size: nat) -> nat {
    text::ceil_div(len * size_per_token, page_size)
}

/// The change that turns `mapped` pages at the start into `target` of them.
pub open spec fn page_change(mapped: usize, target: usize) -> PageChange {
    if mapped < target {
        PageChange::Grow { start: mapped, end: target }
    } else if mapped > target {
        PageChange::Shrink { start: target, end: mapped }
    } else {
        PageChange::Keep
    }
}

/// A key-value cache in virtual memory, whose pages get physical memory as they are needed.
pub struct KVCache<M> {
    /// The cache as an array in virtual memory.
    pub tensor: Tensor<M>,
    /// The bytes that one token takes.
    pub size_per_token: usize,
    /// How many pages have physical memory behind them.
    pub mapped: usize,
}

/// The shape of one device's part of a cache: `len` of `total` shares of its heads.
pub open spec fn share_shape(shape: Seq<usize>, len: usize, total: usize) -> Seq<usize> {
    shape.update(3, ((shape[3] / total) * len) as usize)
}

/// The axes in the order in which attention reads them, with the heads and the tokens
/// having changed places.
pub open spec fn heads_first(axis: int) -> int {
    if axis == 0 {
        3
    } else if axis == 3 {
        0
    } else {
        axis
    }
}

impl KVCache<usize> {
    /// The cache is a dense array of that shape, read with the heads first, and its memory
    /// is the size of that array.
    pub open spec fn is_part(&self, shape: Seq<usize>, elem: usize) -> bool {
        &&& self.tensor.item == tensor::dense_bytes(shape, elem)
        &&& self.size_per_token == self.tensor.item / shape[0]
        &&& self.tensor.elem == elem
        &&& self.tensor.layout.offset == 0
        &&& self.tensor.layout.shape@.len() == shape.len()
        &&& forall|i: int|
            0 <= i < shape.len() ==> #[trigger] self.tensor.layout.shape@[i] == shape[heads_first(
                i,
            )]
        &&& forall|i: int|
            0 <= i < shape.len() ==> #[trigger] self.tensor.layout.strides@[i]
                == tensor::dense_stride(shape, elem, heads_first(i))
    }

    /// The cache of a device that has `len` of `total` shares, for a whole cache of the
    /// shape `[nctx, nblk, 2, nkvh, dh]` as `template` has it. What stands for its memory
    /// is how many bytes of virtual memory it needs.
    pub fn new(template: &Tensor<usize>, len: usize, total: usize) -> (cache: KVCache<usize>)
        requires
            template.layout.shape@.len() >= 4,
            template.layout.shape@[0] > 0,
            total > 0,
            (template.layout.shape@[3] / total) * len <= usize::MAX,
            tensor::dense_fits(
                share_shape(template.layout.shape@, len, total),
                template.elem,
            ),
        ensures
            cache.wf(),
            cache.mapped == 0,
            cache.is_part(share_shape(template.layout.shape@, len, total), template.elem),
    {
        let mut shape: Vec<usize> = template.layout.shape.clone();
        assert(shape@ =~= template.layout.shape@);
        let heads: usize = shape[3] / total * len;
        shape.set(3, heads);
        let ghost dims = shape@;
        assert(dims == share_shape(template.layout.shape@, len, total));
        let nctx: usize = shape[0];
        let part = Tensor::new(template.elem, shape);
        let size_per_token: usize = part.item / nctx;
        let perm: Vec<usize> = vec![3, 0];
        let layout = part.layout.transpose(perm.as_slice());
        proof {
            assert forall|i: int| 0 <= i < dims.len() implies #[trigger] tensor::moved_axis(
                perm@,
                i,
            ) == heads_first(i) by {
                reveal_with_fuel(tensor::count_below, 3);
                assert(perm@.drop_last().drop_last() =~= Seq::<usize>::empty());
                assert(perm@[0] == 3 && perm@[1] == 0);
            }
        }
        proof {
            assert forall|i: int| 0 <= i < dims.len() implies #[trigger] layout.strides@[i]
                == tensor::dense_stride(dims, template.elem, heads_first(i)) by {
                assert(layout.shape@[i] == part.layout.shape@[tensor::moved_axis(perm@, i)]);
                assert(part.layout.strides@[heads_first(i)] == tensor::dense_stride(
                    dims,
                    template.elem,
                    heads_first(i),
                ));
            }
        }
        KVCache {
            tensor: Tensor { elem: part.elem, layout, item: part.item },
            size_per_token,
            mapped: 0,
        }
    }
}

impl<M> KVCache<M> {
    /// The array has the axes that attention reads.
    pub open spec fn wf(&self) -> bool {
        self.tensor.layout.wf() && self.tensor.layout.shape@.len() >= 4
    }

    /// How many tokens there is virtual memory for.
    pub open spec fn capacity(&self) -> usize {
        self.tensor.layout.shape@[3]
    }

    /// The same cache with `mem` for its memory.
    pub fn with<N>(self, mem: N) -> (cache: KVCache<N>)
        ensures
            cache.tensor.elem == self.tensor.elem,
            cache.tensor.layout == self.tensor.layout,
            cache.tensor.item == mem,
            cache.size_per_token == self.size_per_token,
            cache.mapped == self.mapped,
    {
        KVCache {
            tensor: self.tensor.with(mem),
            size_per_token: self.size_per_token,
            mapped: self.mapped,
        }
    }

    /// Makes the cache hold `len` tokens: it has exactly the pages that they take, more or
    /// fewer than before. What has to be done to the pages is handed out.
    pub fn update(&mut self, len: usize, page_size: usize) -> (change: PageChange)
        requires
            old(self).wf(),
            len <= old(self).capacity(),
            page_size > 0,
            len * old(self).size_per_token <= usize::MAX,
        ensures
            final(self).mapped == pages_for(
                len as nat,
                old(self).size_per_token as nat,
                page_size as nat,
            ),
            change == page_change(old(self).mapped, final(self).mapped),
            final(self).tensor == old(self).tensor,
            final(self).size_per_token == old(self).size_per_token,
    {
        let target: usize = div_ceil(len * self.size_per_token, page_size);
        let change = if self.mapped < target {
            PageChange::Grow { start: self.mapped, end: target }
        } else if self.mapped > target {
            PageChange::Shrink { start: target, end: self.mapped }
        } else {
            PageChange::Keep
        };
        self.mapped = target;
        change
    }

    /// The cache as an array.
    pub fn as_tensor(&self) -> (tensor: &Tensor<M>)
        ensures
            *tensor == self.tensor,
    {
        &self.tensor
    }

    /// How many tokens there is virtual memory for.
    pub fn buf_len(&self) -> (len: usize)
        requires
            self.wf(),
        ensures
            len == self.capacity(),
    {
        self.tensor.layout.shape[3]
    }
}

/// Doing what an update asks for leaves memory behind exactly the pages that it counts:
/// none is given twice, none is lost.
pub proof fn law_pages_are_the_first(mapped: usize, target: usize)
    ensures
        changed_pages(first_pages(mapped as nat), page_change(mapped, target)) == first_pages(
            target as nat,
        ),
        page_change(mapped, target) matches PageChange::Grow { start, end } ==> forall|page: int|
            start <= page < end ==> !first_pages(mapped as nat).contains(page),
        page_change(mapped, target) matches PageChange::Shrink { start, end } ==> forall|page: int|
            start <= page < end ==> first_pages(mapped as nat).contains(page),
{
    assert(changed_pages(first_pages(mapped as nat), page_change(mapped, target)) =~= first_pages(
        target as nat,
    ));
}

/// The pages of some tokens hold them, and one page fewer would not.
pub proof fn law_pages_hold_the_tokens(len: nat, size_per_token: nat, page_size: nat)
    requires
        page_size > 0,
    ensures
        pages_for(len, size_per_token, page_size) * page_size >= len * size_per_token,
        pages_for(len, size_per_token, page_size) > 0 ==> (pages_for(
            len,
            size_per_token,
            page_size,
        ) - 1) * page_size < len * size_per_token,
{
    lemma_ceil_div_bounds(len * size_per_token, page_size);
}

/// More tokens never take fewer pages.
pub proof fn law_pages_grow_with_tokens(
    fewer: nat,
    more: nat,
    size_per_token: nat,
    page_size: nat,
)
    requires
        page_size > 0,
        fewer <= more,
    ensures
        pages_for(fewer, size_per_token, page_size) <= pages_for(more, size_per_token, page_size),
{
    let p = pages_for(fewer, size_per_token, page_size) as int;
    let q = pages_for(more, size_per_token, page_size) as int;
    law_pages_hold_the_tokens(fewer, size_per_token, page_size);
    law_pages_hold_the_tokens(more, size_per_token, page_size);
    assert(fewer * size_per_token <= more * size_per_token) by (nonlinear_arith)
        requires
            fewer <= more,
    ;
    if p > q {
        assert((p - 1) * page_size >= q * page_size) by (nonlinear_arith)
            requires
                p - 1 >= q,
                page_size > 0,
        ;
    }
}

/// A part of a cache has room for each of its tokens: the bytes per token, times the
/// tokens, are its size and nothing is left over.
pub proof fn law_tokens_fill_the_cache(shape: Seq<usize>, elem: usize)
    requires
        shape.len() > 0,
        shape[0] > 0,
    ensures
        (tensor::dense_bytes(shape, elem) / shape[0] as nat) * shape[0] as nat
            == tensor::dense_bytes(shape, elem),
{
    let rest = tensor::product(shape.drop_first());
    assert(shape.skip(0) =~= shape);
    let n = shape[0] as nat;
    assert(elem as nat * (n * rest) == (elem as nat * rest) * n) by (nonlinear_arith);
    vstd::arithmetic::div_mod::lemma_div_by_multiple((elem as nat * rest) as int, n as int);
}

proof fn lemma_ceil_div_bounds(a: nat, b: nat)
    requires
        b > 0,
    ensures
        text::ceil_div(a, b) * b >= a,
        text::ceil_div(a, b) > 0 ==> (text::ceil_div(a, b) - 1) * b < a,
{
    let q = a / b;
    let r = a % b;
    vstd::arithmetic::div_mod::lemma_fundamental_div_mod(a as int, b as int);
    assert((q + 1) * b == b * q + b) by (nonlinear_arith);
    assert(q * b == b * q) by (nonlinear_arith);
    assert((q - 1) * b == b * q - b) by (nonlinear_arith);
}

/// Of a cache that is shared out, a device has as many heads as its shares come to, and all the
/// rest of the shape.
pub proof fn law_shares_of_the_heads(shape: Seq<usize>, len: usize, total: usize, each: int)
    requires
        shape.len() >= 4,
        total > 0,
        each * total <= shape[3] < (each + 1) * total,
        0 <= each * len <= usize::MAX,
    ensures
        share_shape(shape, len, total).len() == shape.len(),
        share_shape(shape, len, total)[3] == each * len,
        forall|i: int|
            0 <= i < shape.len() && i != 3 ==> #[trigger] share_shape(shape, len, total)[i]
                == shape[i],
{
    let r = shape[3] - each * total;
    assert((each + 1) * total == each * total + total) by (nonlinear_arith);
    vstd::arithmetic::div_mod::lemma_fundamental_div_mod_converse(
        shape[3] as int,
        total as int,
        each,
        r,
    );
}

/// The shares make up the whole: where they come out even, the heads of a part, and the bytes
/// that a token takes in it, are to those of the whole cache as its shares are to all of them.
pub proof fn law_shares_make_up_the_cache(
    shape: Seq<usize>,
    elem: usize,
    len: usize,
    total: usize,
)
    requires
        shape.len() >= 4,
        shape[0] > 0,
        total > 0,
        len <= total,
        shape[3] as int % total as int == 0,
    ensures
        ({
            let part = share_shape(shape, len, total);
            let whole_token = tensor::dense_bytes(shape, elem) / shape[0] as nat;
            let part_token = tensor::dense_bytes(part, elem) / shape[0] as nat;
            &&& part[3] * total == shape[3] * len
            &&& part_token * total == whole_token * len
        }),
{
    let each = shape[3] as int / total as int;
    vstd::arithmetic::div_mod::lemma_fundamental_div_mod(shape[3] as int, total as int);
    assert(each * total == shape[3] && (each + 1) * total == each * total + total)
        by (nonlinear_arith)
        requires
            shape[3] == total * each,
    ;
    assert(each >= 0) by (nonlinear_arith)
        requires
            each * total >= 0,
            total > 0,
    ;
    assert(0 <= each * len <= each * total) by (nonlinear_arith)
        requires
            0 <= each,
            0 <= len <= total,
    ;
    law_shares_of_the_heads(shape, len, total, each);
    let part = share_shape(shape, len, total);
    assert((each * len) * total == shape[3] * len) by (nonlinear_arith)
        requires
            shape[3] == each * total,
    ;
    lemma_bytes_of_a_token(shape, elem);
    lemma_bytes_of_a_token(part, elem);
    assert(part.skip(4) =~= shape.skip(4));
    let rest = tensor::product(shape.skip(4)) as int;
    let e = elem as int;
    let b = shape[1] as int;
    let c = shape[2] as int;
    assert((e * (b * (c * ((each * len) * rest)))) * total == (e * (b * (c * ((each * total)
        * rest)))) * len) by (nonlinear_arith);
}

proof fn lemma_bytes_of_a_token(shape: Seq<usize>, elem: usize)
    requires
        shape.len() >= 4,
        shape[0] > 0,
    ensures
        tensor::dense_bytes(shape, elem) / shape[0] as nat == elem * (shape[1] * (shape[2] * (
        shape[3] * tensor::product(shape.skip(4))))),
        tensor::dense_bytes(shape, elem) / shape[0] as nat == tensor::dense_stride(shape, elem, 0),
{
    let e = elem as nat;
    let n = shape[0] as nat;
    assert(shape.skip(0) =~= shape);
    assert(shape.drop_first() =~= shape.skip(1));
    assert(shape.skip(1).drop_first() =~= shape.skip(2));
    assert(shape.skip(2).drop_first() =~= shape.skip(3));
    assert(shape.skip(3).drop_first() =~= shape.skip(4));
    let rest = tensor::product(shape.skip(1));
    assert(tensor::product(shape.skip(3)) == shape[3] as nat * tensor::product(shape.skip(4)));
    assert(tensor::product(shape.skip(2)) == shape[2] as nat * tensor::product(shape.skip(3)));
    assert(rest == shape[1] as nat * tensor::product(shape.skip(2)));
    assert(rest == shape[1] as nat * (shape[2] as nat * (shape[3] as nat * tensor::product(
        shape.skip(4),
    ))));
    assert(e * (n * rest) == (e * rest) * n) by (nonlinear_arith);
    vstd::arithmetic::div_mod::lemma_div_by_multiple((e * rest) as int, n as int);
}

/// What a device reserves for its part of a cache: room for every token, each of which takes its
/// share of the bytes, and an array that is read with the heads first.
pub proof fn law_parts_are_read_heads_first(
    cache: KVCache<usize>,
    template: Seq<usize>,
    elem: usize,
    len: usize,
    total: usize,
)
    requires
        template.len() >= 4,
        template[0] > 0,
        total > 0,
        len <= total,
        template[3] as int % total as int == 0,
        cache.is_part(share_shape(template, len, total), elem),
    ensures
        cache.tensor.elem == elem,
        cache.tensor.layout.offset == 0,
        cache.tensor.layout.shape@.len() == template.len(),
        cache.tensor.layout.shape@[0] * total == template[3] * len,
        cache.tensor.layout.shape@[1] == template[1],
        cache.tensor.layout.shape@[2] == template[2],
        cache.tensor.layout.shape@[3] == template[0],
        forall|i: int|
            4 <= i < template.len() ==> #[trigger] cache.tensor.layout.shape@[i] == template[i],
        cache.size_per_token * template[0] == cache.tensor.item,
        cache.size_per_token * total == elem * (template[1] * (template[2] * (template[3]
            * tensor::product(template.skip(4))))) * len,
        cache.tensor.layout.strides@[3] == cache.size_per_token,
        cache.capacity() == template[0],
{
    let part = share_shape(template, len, total);
    let each = template[3] as int / total as int;
    vstd::arithmetic::div_mod::lemma_fundamental_div_mod(template[3] as int, total as int);
    assert(each * total == template[3] && (each + 1) * total == each * total + total)
        by (nonlinear_arith)
        requires
            template[3] == total * each,
    ;
    assert(each >= 0) by (nonlinear_arith)
        requires
            each * total >= 0,
            total > 0,
    ;
    assert(0 <= each * len <= each * total) by (nonlinear_arith)
        requires
            0 <= each,
            0 <= len <= total,
    ;
    law_shares_of_the_heads(template, len, total, each);
    law_shares_make_up_the_cache(template, elem, len, total);
    law_tokens_fill_the_cache(part, elem);
    lemma_bytes_of_a_token(template, elem);
    lemma_bytes_of_a_token(part, elem);
    assert(heads_first(0) == 3 && heads_first(3) == 0);
    assert(cache.tensor.layout.shape@[0] == part[3]);
    assert(cache.tensor.layout.shape@[3] == part[0]);
    assert(cache.tensor.layout.strides@[3] == tensor::dense_stride(part, elem, 0));
}

/// Whatever pages a cache has before and after an update, the change says which ones: a page has
/// memory afterwards exactly when it had it and is not taken back, or is given. No page is given
/// that has memory, and none taken back that has not.
pub proof fn law_changes_say_which_pages(mapped: usize, target: usize, page: int)
    ensures
        ({
            let had = 0 <= page < mapped;
            let given = page_change(mapped, target) matches PageChange::Grow { start, end } && start
                <= page < end;
            let taken = page_change(mapped, target) matches PageChange::Shrink { start, end }
                && start <= page < end;
            &&& (0 <= page < target) == ((had && !taken) || given)
            &&& given ==> !had
            &&& taken ==> had
        }),
{
}

/// A cache has the fewest pages that hold its tokens.
pub proof fn law_no_page_too_many(len: nat, size_per_token: nat, page_size: nat, pages: int)
    requires
        page_size > 0,
    ensures
        pages_for(len, size_per_token, page_size) * page_size >= len * size_per_token,
        pages * page_size >= len * size_per_token ==> pages_for(len, size_per_token, page_size)
            <= pages,
{
    text::law_rounding_up(len * size_per_token, page_size);
}

} // verus!

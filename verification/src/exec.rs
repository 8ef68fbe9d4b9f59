//! A model compiled for a fixed number of tokens: what goes into it, what it does with the
//! key-value cache, and what comes out.
use crate::kv_cache::KVCache;
use crate::tensor;
use crate::tensor::{Layout, Tensor};
use vstd::prelude::*;

verus! {

/// A step of a compiled model: something recorded that only has to be started, or attention
/// in one of the blocks.
pub enum Exec<G, A> {
    Graph(G),
    Attention(usize, A),
}

/// What the step of a compiled model needs in a round.
pub enum Step {
    /// Nothing but to be started.
    Graph,
    /// The parts of the cache with the keys and with the values of the block, and how many
    /// tokens the cache holds already.
    Attention { k_cache: Layout, v_cache: Layout, pos: usize },
}

/// A model compiled for `n_tok` tokens.
pub struct ModelExec<G, A, P> {
    pub n_tok: usize,
    pub execs: Vec<Exec<G, A>>,
    /// The bytes of virtual memory that its intermediate results take.
    pub workspace: usize,
    pub inputs: Vec<Tensor<P>>,
    pub outputs: Vec<Tensor<P>>,
}

/// What samples the next token: the indices of the vocabulary, and room for the result on
/// the device and outside it.
pub struct OutputHead<M> {
    pub indices: Tensor<M>,
    pub kv_pair: M,
    pub kv_pair_host: M,
}

/// What is done to run a compiled model in a round, in this order.
pub struct Launch<P, M> {
    /// The bytes of the workspace, which get physical pages first.
    pub map: usize,
    /// The numbers for each of its inputs.
    pub inputs: Vec<(P, Vec<u32>)>,
    /// What each of its steps needs.
    pub steps: Vec<Step>,
    /// Where the logits stand that the next token is sampled from.
    pub logits: Tensor<P>,
    /// What that token is sampled with: the indices of the vocabulary, and the room for the
    /// result on the device, from which it is copied out.
    pub head: OutputHead<M>,
}

/// A step in making a compiled model.
#[derive(Clone, Copy, PartialEq, Eq, Structural, Debug)]
pub enum BuildStep {
    /// Reserve so many bytes of virtual memory for the workspace.
    Reserve(usize),
    /// Give the workspace physical pages.
    MapPages,
    /// Record what the model does; the workspace needs physical pages meanwhile.
    Record,
    /// Take the physical pages of the workspace back.
    UnmapPages,
}

/// The workspace of a model while it is made: its bytes once they are reserved, whether it
/// has physical pages, and whether the model was recorded.
pub struct Workspace {
    pub reserved: Option<usize>,
    pub mapped: bool,
    pub recorded: bool,
}

/// The workspace after a step; none where the step cannot be done.
pub open spec fn after_step(workspace: Workspace, step: BuildStep) -> Option<Workspace> {
    match step {
        BuildStep::Reserve(bytes) => if workspace.reserved is None {
            Some(Workspace { reserved: Some(bytes), ..workspace })
        } else {
            None
        },
        BuildStep::MapPages => if workspace.reserved is Some && !workspace.mapped {
            Some(Workspace { mapped: true, ..workspace })
        } else {
            None
        },
        BuildStep::Record => if workspace.mapped && !workspace.recorded {
            Some(Workspace { recorded: true, ..workspace })
        } else {
            None
        },
        BuildStep::UnmapPages => if workspace.mapped {
            Some(Workspace { mapped: false, ..workspace })
        } else {
            None
        },
    }
}

/// The workspace after some steps.
pub open spec fn after_steps(steps: Seq<BuildStep>) -> Option<Workspace>
    decreases steps.len(),
{
    if steps.len() == 0 {
        Some(Workspace { reserved: None, mapped: false, recorded: false })
    } else {
        match after_steps(steps.drop_last()) {
            Some(workspace) => after_step(workspace, steps.last()),
            None => None,
        }
    }
}

/// The steps in making a compiled model with a workspace of so many bytes.
pub open spec fn build_steps(workspace: usize) -> Seq<BuildStep> {
    seq![BuildStep::Reserve(workspace), BuildStep::MapPages, BuildStep::Record, BuildStep::UnmapPages]
}

/// The steps in making a compiled model with a workspace of so many bytes.
pub fn building(workspace: usize) -> (steps: Vec<BuildStep>)
    ensures
        steps@ == build_steps(workspace),
{
    let steps: Vec<BuildStep> = vec![
        BuildStep::Reserve(workspace),
        BuildStep::MapPages,
        BuildStep::Record,
        BuildStep::UnmapPages,
    ];
    assert(steps@ =~= build_steps(workspace));
    steps
}

/// A new model was recorded while its workspace had physical pages; it has reserved its
/// workspace once, and holds no physical page.
pub proof fn law_new_models_hold_no_pages(workspace: usize)
    ensures
        after_steps(build_steps(workspace)) == Some(
            Workspace { reserved: Some(workspace), mapped: false, recorded: true },
        ),
{
    reveal_with_fuel(after_steps, 5);
    let steps = build_steps(workspace);
    assert(steps.drop_last() =~= seq![
        BuildStep::Reserve(workspace),
        BuildStep::MapPages,
        BuildStep::Record,
    ]);
    assert(steps.drop_last().drop_last() =~= seq![BuildStep::Reserve(workspace), BuildStep::MapPages]);
    assert(steps.drop_last().drop_last().drop_last() =~= seq![BuildStep::Reserve(workspace)]);
    assert(steps.drop_last().drop_last().drop_last().drop_last() =~= Seq::<BuildStep>::empty());
}

/// Tensors are copies of some others, picked by position.
pub open spec fn picked<P>(some: Seq<Tensor<P>>, all: Seq<Tensor<P>>, at: Seq<usize>) -> bool {
    &&& some.len() == at.len()
    &&& forall|i: int|
        0 <= i < at.len() ==> {
            &&& (#[trigger] some[i]).elem == all[at[i] as int].elem
            &&& some[i].layout.same(&all[at[i] as int].layout)
            &&& some[i].item == all[at[i] as int].item
        }
}

fn pick<P: Copy>(all: &Vec<Tensor<P>>, at: &Vec<usize>) -> (some: Vec<Tensor<P>>)
    requires
        forall|i: int| 0 <= i < at.len() ==> #[trigger] at@[i] < all.len(),
    ensures
        picked(some@, all@, at@),
{
    let mut some: Vec<Tensor<P>> = Vec::new();
    let mut i: usize = 0;
    while i < at.len()
        invariant
            i <= at.len(),
            forall|i: int| 0 <= i < at.len() ==> #[trigger] at@[i] < all.len(),
            picked(some@, all@, at@.take(i as int)),
        decreases at.len() - i,
    {
        assert(at@[i as int] < all.len());
        some.push(all[at[i]].duplicate());
        assert(at@.take(i as int + 1) =~= at@.take(i as int).push(at@[i as int]));
        assert forall|j: int| 0 <= j < i implies {
            &&& (#[trigger] some@[j]).elem == all@[at@.take(i as int + 1)[j] as int].elem
            &&& some@[j].layout.same(&all@[at@.take(i as int + 1)[j] as int].layout)
            &&& some@[j].item == all@[at@.take(i as int + 1)[j] as int].item
        } by {
            assert(at@.take(i as int)[j] == at@[j]);
        }
        i = i + 1;
    }
    assert(at@.take(at.len() as int) =~= at@);
    some
}

/// The tokens of a round with zeros behind them, as many as the model is compiled for.
pub open spec fn padded(tokens: Seq<u32>, n_tok: usize) -> Seq<u32> {
    Seq::new(
        n_tok as nat,
        |i: int|
            if i < tokens.len() {
                tokens[i]
            } else {
                0
            },
    )
}

/// The positions of the tokens of a round.
pub open spec fn positions(pos: usize, n_tok: usize) -> Seq<u32> {
    Seq::new(n_tok as nat, |i: int| (pos as u32 + i) as u32)
}

/// What each input of a compiled model gets: the tokens, their positions, and the place of
/// the token whose successor is asked for, which is the last one.
pub open spec fn input_data(tokens: Seq<u32>, pos: usize, n_tok: usize) -> Seq<Seq<u32>> {
    seq![padded(tokens, n_tok), positions(pos, n_tok), seq![(tokens.len() as u32 - 1) as u32]]
}

/// The parts of a cache with the keys (`which` is 0) or the values (1) of a block.
pub open spec fn is_cache_part(part: Layout, cache: Layout, iblk: usize, which: int) -> bool {
    &&& part.wf()
    &&& part.shape@ == cache.shape@.remove(1).remove(1)
    &&& part.strides@ == cache.strides@.remove(1).remove(1)
    &&& part.offset == cache.offset + iblk * cache.strides@[1] + which * cache.strides@[2]
}

/// A cache has keys and values of a block, and their places can be written down.
pub open spec fn has_block(cache: Layout, iblk: usize) -> bool {
    &&& cache.wf()
    &&& cache.shape@.len() >= 3
    &&& iblk < cache.shape@[1]
    &&& iblk <= isize::MAX
    &&& cache.shape@[2] >= 2
    &&& isize::MIN <= iblk * cache.strides@[1] <= isize::MAX
    &&& isize::MIN <= cache.offset + iblk * cache.strides@[1] <= isize::MAX
    &&& isize::MIN <= cache.offset + iblk * cache.strides@[1] + cache.strides@[2] <= isize::MAX
}

/// Whether a cache has keys and values of a block, and their places can be written down.
pub fn check_block(cache: &Layout, iblk: usize) -> (has: bool)
    requires
        cache.wf(),
    ensures
        has == has_block(*cache, iblk),
{
    if cache.shape.len() < 3 || iblk >= cache.shape[1] || iblk > isize::MAX as usize
        || cache.shape[2] < 2 {
        return false;
    }
    let min: i128 = isize::MIN as i128;
    let max: i128 = isize::MAX as i128;
    let stride: isize = cache.strides[1];
    proof {
        assert(-0x8000_0000_0000_0000 * 0x8000_0000_0000_0000 <= iblk * stride
            <= 0x8000_0000_0000_0000 * 0x8000_0000_0000_0000) by (nonlinear_arith)
            requires
                0 <= iblk <= 0x7fff_ffff_ffff_ffff,
                -0x8000_0000_0000_0000 <= stride <= 0x7fff_ffff_ffff_ffff,
        ;
    }
    let step: i128 = iblk as i128 * stride as i128;
    let k: i128 = cache.offset as i128 + step;
    let v: i128 = k + cache.strides[2] as i128;
    min <= step && step <= max && min <= k && k <= max && min <= v && v <= max
}

/// The parts of a cache with the keys and with the values of a block.
pub fn block_cache(cache: &Layout, iblk: usize) -> (parts: (Layout, Layout))
    requires
        has_block(*cache, iblk),
    ensures
        is_cache_part(parts.0, *cache, iblk, 0),
        is_cache_part(parts.1, *cache, iblk, 1),
{
    let block = cache.index(1, iblk);
    assert(block.shape@[1] == cache.shape@[2]);
    assert(block.strides@[1] == cache.strides@[2]);
    assert(0 * block.strides@[1] == 0 && 1 * block.strides@[1] == block.strides@[1]);
    let k = block.index(1, 0);
    let v = block.index(1, 1);
    (k, v)
}

/// Where the tensor begins in memory.
pub fn offset_ptr(tensor: &Tensor<usize>) -> (address: usize)
    requires
        0 <= tensor.item + tensor.layout.offset <= usize::MAX,
    ensures
        address == tensor.item + tensor.layout.offset,
{
    let offset: isize = tensor.layout.offset;
    if offset >= 0 {
        tensor.item + offset as usize
    } else {
        (tensor.item as i128 + offset as i128) as usize
    }
}

impl<G, A, P: Copy> ModelExec<G, A, P> {
    /// A model compiled for `n_tok` tokens, whose inputs and outputs are some of the tensors
    /// of its graph.
    pub fn new(
        n_tok: usize,
        execs: Vec<Exec<G, A>>,
        workspace: usize,
        edges: &Vec<Tensor<P>>,
        global_inputs: &Vec<usize>,
        global_outputs: &Vec<usize>,
    ) -> (exec: Self)
        requires
            forall|i: int|
                0 <= i < global_inputs.len() ==> #[trigger] global_inputs@[i] < edges.len(),
            forall|i: int|
                0 <= i < global_outputs.len() ==> #[trigger] global_outputs@[i] < edges.len(),
        ensures
            exec.n_tok == n_tok,
            exec.execs == execs,
            exec.workspace == workspace,
            picked(exec.inputs@, edges@, global_inputs@),
            picked(exec.outputs@, edges@, global_outputs@),
    {
        let inputs = pick(edges, global_inputs);
        let outputs = pick(edges, global_outputs);
        ModelExec { n_tok, execs, workspace, inputs, outputs }
    }

    /// The only output has its first two axes in one row, and they can be written as one.
    pub open spec fn has_logits(&self) -> bool {
        &&& self.outputs@.len() == 1
        &&& ({
            let logits = self.outputs@[0].layout;
            &&& logits.wf()
            &&& logits.shape@.len() >= 2
            &&& logits.shape@[0] > 0
            &&& logits.shape@[1] > 0
            &&& forall|i: int|
                0 <= i < 2 ==> (#[trigger] tensor::merged_axis(
                    logits.shape@,
                    logits.strides@,
                    i,
                    2,
                ) matches Some((n, s)) && n <= isize::MAX && isize::MIN <= s * n <= isize::MAX)
        })
    }

    /// Whether the only output has its first two axes in one row, and they can be written as
    /// one.
    pub fn check_logits(&self) -> (has: bool)
        requires
            forall|i: int| 0 <= i < self.outputs.len() ==> (#[trigger] self.outputs@[i]).layout.wf(),
        ensures
            has == self.has_logits(),
    {
        if self.outputs.len() != 1 {
            return false;
        }
        assert(self.outputs@[0].layout.wf());
        let logits = &self.outputs[0].layout;
        if logits.shape.len() < 2 || logits.shape[0] == 0 || logits.shape[1] == 0 {
            return false;
        }
        let n0: usize = logits.shape[0];
        let n1: usize = logits.shape[1];
        let s0: isize = logits.strides[0];
        let s1: isize = logits.strides[1];
        let ghost shape = logits.shape@;
        let ghost strides = logits.strides@;
        proof {
            reveal_with_fuel(tensor::merged_axis, 3);
            assert(tensor::merged_axis(shape, strides, 2, 2) == Some((1nat, 0int)));
        }
        let (len, stride): (usize, isize) = if n1 == 1 { (1, 0) } else { (n1, s1) };
        assert(tensor::merged_axis(shape, strides, 1, 2) == Some((len as nat, stride as int)));
        if !writable(len, stride) {
            return false;
        }
        let end: i128 = extent(len, stride);
        if n0 == 1 {
            assert(tensor::merged_axis(shape, strides, 0, 2) == Some((len as nat, stride as int)));
            return true;
        }
        if len == 1 {
            assert(tensor::merged_axis(shape, strides, 0, 2) == Some((n0 as nat, s0 as int)));
            return writable(n0, s0);
        }
        if s0 as i128 != end {
            assert(tensor::merged_axis(shape, strides, 0, 2) is None);
            return false;
        }
        proof {
            assert(len * n0 <= u64::MAX * u64::MAX) by (nonlinear_arith)
                requires
                    len <= u64::MAX,
                    n0 <= u64::MAX,
            ;
        }
        let all: u128 = len as u128 * n0 as u128;
        assert(tensor::merged_axis(shape, strides, 0, 2) == Some(((len * n0) as nat, stride as int)));
        all <= isize::MAX as u128 && writable(all as usize, stride)
    }

    /// What the model needs in a round of these tokens, behind `attn_pos` tokens that the
    /// cache holds already.
    pub fn launch<M: Copy>(
        &self,
        tokens: &Vec<u32>,
        attn_pos: usize,
        kv_cache: &Layout,
        head: &OutputHead<M>,
    ) -> (launch: Launch<P, M>)
        requires
            0 < tokens.len() <= self.n_tok,
            attn_pos as u32 + self.n_tok <= u32::MAX,
            forall|i: int|
                0 <= i < self.execs.len() ==> (#[trigger] self.execs@[i] matches Exec::Attention(
                    iblk,
                    _,
                ) ==> has_block(*kv_cache, iblk)),
            self.has_logits(),
        ensures
            launch.map == self.workspace,
            launch.inputs.len() == if self.inputs.len() <= 3 {
                self.inputs@.len()
            } else {
                3
            },
            forall|i: int|
                0 <= i < launch.inputs.len() ==> (#[trigger] launch.inputs@[i]).0
                    == self.inputs@[i].item && launch.inputs@[i].1@ == input_data(
                    tokens@,
                    attn_pos,
                    self.n_tok,
                )[i],
            launch.steps.len() == self.execs.len(),
            forall|i: int|
                0 <= i < self.execs.len() ==> is_step(
                    #[trigger] launch.steps@[i],
                    self.execs@[i],
                    *kv_cache,
                    attn_pos,
                ),
            launch.logits.elem == self.outputs@[0].elem,
            launch.logits.item == self.outputs@[0].item,
            is_merged(launch.logits.layout, self.outputs@[0].layout),
            launch.head.indices.elem == head.indices.elem,
            launch.head.indices.layout.same(&head.indices.layout),
            launch.head.indices.item == head.indices.item,
            launch.head.kv_pair == head.kv_pair,
            launch.head.kv_pair_host == head.kv_pair_host,
    {
        let mut inputs: Vec<(P, Vec<u32>)> = Vec::new();
        let padding = pad(tokens, self.n_tok);
        let pos = count_from(attn_pos, self.n_tok);
        let last: Vec<u32> = vec![tokens.len() as u32 - 1];
        assert(last@ =~= seq![(tokens.len() as u32 - 1) as u32]);
        if self.inputs.len() > 0 {
            inputs.push((self.inputs[0].item, padding));
        }
        if self.inputs.len() > 1 {
            inputs.push((self.inputs[1].item, pos));
        }
        if self.inputs.len() > 2 {
            inputs.push((self.inputs[2].item, last));
        }
        let mut steps: Vec<Step> = Vec::new();
        let mut i: usize = 0;
        while i < self.execs.len()
            invariant
                i <= self.execs.len(),
                steps.len() == i,
                forall|i: int|
                    0 <= i < self.execs.len() ==> (#[trigger] self.execs@[i] matches Exec::Attention(
                        iblk,
                        _,
                    ) ==> has_block(*kv_cache, iblk)),
                forall|j: int|
                    0 <= j < i ==> is_step(
                        #[trigger] steps@[j],
                        self.execs@[j],
                        *kv_cache,
                        attn_pos,
                    ),
            decreases self.execs.len() - i,
        {
            let step = match &self.execs[i] {
                Exec::Graph(_) => Step::Graph,
                Exec::Attention(iblk, _) => {
                    let (k_cache, v_cache) = block_cache(kv_cache, *iblk);
                    Step::Attention { k_cache, v_cache, pos: attn_pos }
                },
            };
            steps.push(step);
            i = i + 1;
        }
        let output = &self.outputs[0].layout;
        assert forall|i: int| 0 <= i < 2 implies #[trigger] output.shape@[i] > 0 by {}
        assert(tensor::merged_axis(output.shape@, output.strides@, 0, 2) is Some);
        let logits = output.merge_be(0, 2).unwrap();
        proof {
            let (n, s) = tensor::merged_axis(output.shape@, output.strides@, 0, 2)->0;
            assert(output.shape@.take(0).push(n as usize) =~= seq![n as usize]);
            assert(output.strides@.take(0).push(s as isize) =~= seq![s as isize]);
        }
        let logits = Tensor {
            elem: self.outputs[0].elem,
            layout: logits,
            item: self.outputs[0].item,
        };
        let head = OutputHead {
            indices: head.indices.duplicate(),
            kv_pair: head.kv_pair,
            kv_pair_host: head.kv_pair_host,
        };
        Launch { map: self.workspace, inputs, steps, logits, head }
    }
}

/// What a step of a compiled model needs in a round.
pub open spec fn is_step<G, A>(step: Step, exec: Exec<G, A>, cache: Layout, pos: usize) -> bool {
    match exec {
        Exec::Graph(_) => step is Graph,
        Exec::Attention(iblk, _) => step matches Step::Attention { k_cache, v_cache, pos: at }
            && is_cache_part(k_cache, cache, iblk, 0) && is_cache_part(v_cache, cache, iblk, 1)
            && at == pos,
    }
}

/// A layout with its first two axes merged into one.
pub open spec fn is_merged(merged: Layout, layout: Layout) -> bool {
    let (n, s) = tensor::merged_axis(layout.shape@, layout.strides@, 0, 2)->0;
    &&& merged.wf()
    &&& merged.shape@ == seq![n as usize] + layout.shape@.skip(2)
    &&& merged.strides@ == seq![s as isize] + layout.strides@.skip(2)
    &&& merged.offset == layout.offset
}

fn extent(len: usize, stride: isize) -> (end: i128)
    requires
        len <= isize::MAX,
    ensures
        end == stride * len,
{
    proof {
        assert(-0x8000_0000_0000_0000 * 0x8000_0000_0000_0000 <= stride * len
            <= 0x8000_0000_0000_0000 * 0x8000_0000_0000_0000) by (nonlinear_arith)
            requires
                0 <= len <= 0x7fff_ffff_ffff_ffff,
                -0x8000_0000_0000_0000 <= stride <= 0x7fff_ffff_ffff_ffff,
        ;
    }
    stride as i128 * len as i128
}

fn writable(len: usize, stride: isize) -> (fits: bool)
    ensures
        fits == (len <= isize::MAX && isize::MIN <= stride * len <= isize::MAX),
{
    if len > isize::MAX as usize {
        return false;
    }
    let end: i128 = extent(len, stride);
    isize::MIN as i128 <= end && end <= isize::MAX as i128
}

fn pad(tokens: &Vec<u32>, n_tok: usize) -> (padding: Vec<u32>)
    requires
        tokens.len() <= n_tok,
    ensures
        padding@ == padded(tokens@, n_tok),
{
    let mut padding: Vec<u32> = Vec::new();
    let mut i: usize = 0;
    while i < n_tok
        invariant
            i <= n_tok,
            padding@ == padded(tokens@, n_tok).take(i as int),
        decreases n_tok - i,
    {
        padding.push(if i < tokens.len() { tokens[i] } else { 0 });
        assert(padding@ =~= padded(tokens@, n_tok).take(i as int + 1));
        i = i + 1;
    }
    assert(padding@ =~= padded(tokens@, n_tok));
    padding
}

fn count_from(pos: usize, n_tok: usize) -> (all: Vec<u32>)
    requires
        pos as u32 + n_tok <= u32::MAX,
    ensures
        all@ == positions(pos, n_tok),
{
    let first: u32 = #[verifier::truncate] (pos as u32);
    let mut all: Vec<u32> = Vec::new();
    let mut i: usize = 0;
    while i < n_tok
        invariant
            i <= n_tok,
            first == pos as u32,
            first + n_tok <= u32::MAX,
            all@ == positions(pos, n_tok).take(i as int),
        decreases n_tok - i,
    {
        all.push(first + i as u32);
        assert(all@ =~= positions(pos, n_tok).take(i as int + 1));
        i = i + 1;
    }
    assert(all@ =~= positions(pos, n_tok));
    all
}

/// The tokens come first in what a model gets, and the place that it is asked for is that of
/// the last of them.
pub proof fn law_the_last_token_is_asked_for(tokens: Seq<u32>, pos: usize, n_tok: usize)
    requires
        0 < tokens.len() <= n_tok,
        tokens.len() <= u32::MAX,
    ensures
        input_data(tokens, pos, n_tok)[0].take(tokens.len() as int) == tokens,
        input_data(tokens, pos, n_tok)[0][input_data(tokens, pos, n_tok)[2][0] as int]
            == tokens.last(),
{
    assert(padded(tokens, n_tok).take(tokens.len() as int) =~= tokens);
}

/// The positions of a round go on where those of the round before it ended.
pub proof fn law_positions_go_on(pos: usize, a: usize, b: usize)
    requires
        pos + a + b <= u32::MAX,
    ensures
        positions(pos, a) + positions((pos + a) as usize, b) == positions(pos, (a + b) as usize),
{
    assert(positions(pos, a) + positions((pos + a) as usize, b) =~= positions(
        pos,
        (a + b) as usize,
    ));
}

/// A cache has the keys and the values of each of its blocks, one behind the other for every
/// token: those of block `iblk` are parts `2 * iblk` and `2 * iblk + 1`.
pub proof fn law_caches_hold_every_block(
    cache: KVCache<usize>,
    shape: Seq<usize>,
    elem: usize,
    iblk: usize,
)
    requires
        cache.wf(),
        cache.is_part(shape, elem),
        tensor::dense_fits(shape, elem),
        shape.len() >= 4,
        shape[2] == 2,
        iblk < shape[1],
        iblk <= isize::MAX,
    ensures
        has_block(cache.tensor.layout, iblk),
        iblk * cache.tensor.layout.strides@[1] == (2 * iblk) * cache.tensor.layout.strides@[2],
        iblk * cache.tensor.layout.strides@[1] + cache.tensor.layout.strides@[2] == (2 * iblk + 1)
            * cache.tensor.layout.strides@[2],
{
    let layout = cache.tensor.layout;
    let e = elem as nat;
    let p2 = tensor::product(shape.skip(2));
    let p3 = tensor::product(shape.skip(3));
    assert(shape.skip(1).drop_first() =~= shape.skip(2));
    assert(shape.skip(2).drop_first() =~= shape.skip(3));
    assert(p2 == 2 * p3);
    assert(layout.shape@[1] == shape[1]);
    assert(layout.shape@[2] == shape[2]);
    assert(layout.strides@[1] == tensor::dense_stride(shape, elem, 1));
    assert(layout.strides@[2] == tensor::dense_stride(shape, elem, 2));
    let s1 = layout.strides@[1] as int;
    let s2 = layout.strides@[2] as int;
    assert(s1 == 2 * s2) by (nonlinear_arith)
        requires
            s1 == e * p2,
            s2 == e * p3,
            p2 == 2 * p3,
    ;
    let n = shape[1] as nat;
    assert(tensor::dense_stride(shape, elem, 0) <= isize::MAX);
    assert(tensor::dense_stride(shape, elem, 0) == e * (n * p2));
    assert(n * s1 <= isize::MAX) by (nonlinear_arith)
        requires
            s1 == e * p2,
            e * (n * p2) <= isize::MAX,
    ;
    assert((iblk + 1) * s1 <= n * s1) by (nonlinear_arith)
        requires
            iblk + 1 <= n,
            s1 >= 0,
    ;
    assert((iblk + 1) * s1 == iblk * s1 + s1) by (nonlinear_arith);
    assert(iblk * s1 >= 0) by (nonlinear_arith)
        requires
            s1 >= 0,
    ;
    assert(iblk * s1 == (2 * iblk) * s2) by (nonlinear_arith)
        requires
            s1 == 2 * s2,
    ;
    assert((2 * iblk + 1) * s2 == (2 * iblk) * s2 + s2) by (nonlinear_arith);
}

/// The positions of a round are the numbers that follow each other from the number of tokens on
/// that came before it.
pub proof fn law_positions_are_numbers(pos: usize, n_tok: usize, i: int)
    requires
        pos + n_tok <= u32::MAX + 1,
        0 <= i < n_tok,
    ensures
        positions(pos, n_tok).len() == n_tok,
        positions(pos, n_tok)[i] == pos + i,
{
}

/// What goes into a model: first the tokens, each in its place, and zeros behind them; then the
/// position of each place; then the place of the last token.
pub proof fn law_inputs_are_in_place(tokens: Seq<u32>, pos: usize, n_tok: usize, i: int)
    requires
        0 < tokens.len() <= n_tok,
        pos + n_tok <= u32::MAX,
        0 <= i < n_tok,
    ensures
        input_data(tokens, pos, n_tok).len() == 3,
        input_data(tokens, pos, n_tok)[0].len() == n_tok,
        i < tokens.len() ==> input_data(tokens, pos, n_tok)[0][i] == tokens[i],
        i >= tokens.len() ==> input_data(tokens, pos, n_tok)[0][i] == 0,
        input_data(tokens, pos, n_tok)[1].len() == n_tok,
        input_data(tokens, pos, n_tok)[1][i] == pos + i,
        input_data(tokens, pos, n_tok)[2].len() == 1,
        input_data(tokens, pos, n_tok)[2][0] == tokens.len() - 1,
{
}

/// Attention in a block gets the keys and the values of that block, of all heads and tokens: the
/// places of the cache at that block, at the first and at the second of its two halves.
pub proof fn law_attention_gets_its_block<G, A>(
    step: Step,
    exec: Exec<G, A>,
    iblk: usize,
    cache: Layout,
    pos: usize,
)
    requires
        cache.shape@.len() >= 3,
        cache.strides@.len() == cache.shape@.len(),
        exec matches Exec::Attention(at, _) && at == iblk,
        is_step(step, exec, cache, pos),
    ensures
        step matches Step::Attention { k_cache, v_cache, pos: at } && {
            &&& at == pos
            &&& k_cache.offset == cache.offset + iblk * cache.strides@[1]
            &&& v_cache.offset == cache.offset + iblk * cache.strides@[1] + cache.strides@[2]
            &&& k_cache.shape@ == seq![cache.shape@[0]] + cache.shape@.skip(3)
            &&& v_cache.shape@ == seq![cache.shape@[0]] + cache.shape@.skip(3)
            &&& k_cache.strides@ == seq![cache.strides@[0]] + cache.strides@.skip(3)
            &&& v_cache.strides@ == seq![cache.strides@[0]] + cache.strides@.skip(3)
        },
{
    assert(cache.shape@.remove(1).remove(1) =~= seq![cache.shape@[0]] + cache.shape@.skip(3));
    assert(cache.strides@.remove(1).remove(1) =~= seq![cache.strides@[0]] + cache.strides@.skip(
        3,
    ));
}

/// What is recorded is started, and only attention gets a part of the cache.
pub proof fn law_only_attention_reads_the_cache<G, A>(
    step: Step,
    exec: Exec<G, A>,
    cache: Layout,
    pos: usize,
)
    requires
        is_step(step, exec, cache, pos),
    ensures
        step is Attention <==> exec is Attention,
{
}

/// The logits have a row for each pair of places on the first two axes of the output, in their
/// order and with nothing moved.
pub proof fn law_logits_are_the_rows_of_the_output(merged: Layout, layout: Layout, i: int, j: int)
    requires
        layout.shape@.len() >= 2,
        layout.strides@.len() == layout.shape@.len(),
        layout.shape@[0] * layout.shape@[1] <= isize::MAX,
        tensor::merged_axis(layout.shape@, layout.strides@, 0, 2) is Some,
        is_merged(merged, layout),
        0 <= i < layout.shape@[0],
        0 <= j < layout.shape@[1],
    ensures
        merged.shape@.len() == layout.shape@.len() - 1,
        merged.shape@[0] == layout.shape@[0] * layout.shape@[1],
        merged.shape@.skip(1) == layout.shape@.skip(2),
        merged.strides@.skip(1) == layout.strides@.skip(2),
        merged.offset == layout.offset,
        (i * layout.shape@[1] + j) * merged.strides@[0] == i * layout.strides@[0] + j
            * layout.strides@[1],
{
    reveal_with_fuel(tensor::merged_axis, 3);
    tensor::law_merged_axes_reach_the_same(layout.shape@, layout.strides@, 0, i, j);
    let (n, s) = tensor::merged_axis(layout.shape@, layout.strides@, 0, 2)->0;
    assert(s as isize == s);
    assert(merged.shape@.skip(1) =~= layout.shape@.skip(2));
    assert(merged.strides@.skip(1) =~= layout.strides@.skip(2));
}

/// A model is recorded after its workspace was reserved and got pages, and it gives them back
/// last. Each of these is done once.
pub proof fn law_models_are_made_in_order(workspace: usize)
    ensures
        build_steps(workspace).len() == 4,
        build_steps(workspace)[0] == BuildStep::Reserve(workspace),
        build_steps(workspace)[1] is MapPages,
        build_steps(workspace)[2] is Record,
        build_steps(workspace)[3] is UnmapPages,
{
}

/// The inputs and outputs of a model are tensors of its graph, each as it is there.
pub proof fn law_inputs_and_outputs_are_of_the_graph<P>(
    some: Seq<Tensor<P>>,
    all: Seq<Tensor<P>>,
    at: Seq<usize>,
    i: int,
)
    requires
        picked(some, all, at),
        0 <= i < at.len(),
    ensures
        some.len() == at.len(),
        some[i].elem == all[at[i] as int].elem,
        some[i].item == all[at[i] as int].item,
        some[i].layout.shape@ == all[at[i] as int].layout.shape@,
        some[i].layout.strides@ == all[at[i] as int].layout.strides@,
        some[i].layout.offset == all[at[i] as int].layout.offset,
{
    assert(some[i].layout.same(&all[at[i] as int].layout));
}

/// An output whose first two axes stand in one row has logits, as far as their places can be
/// written down.
pub proof fn law_rows_of_outputs_are_logits<G, A, P: Copy>(exec: ModelExec<G, A, P>)
    requires
        exec.outputs@.len() == 1,
        ({
            let logits = exec.outputs@[0].layout;
            &&& logits.shape@.len() == logits.strides@.len()
            &&& logits.shape@.len() >= 2
            &&& logits.shape@[0] > 1
            &&& logits.shape@[1] > 1
            &&& logits.strides@[0] == logits.strides@[1] * logits.shape@[1]
            &&& logits.shape@[1] <= isize::MAX
            &&& logits.shape@[0] * logits.shape@[1] <= isize::MAX
            &&& isize::MIN <= logits.strides@[0] * logits.shape@[0] <= isize::MAX
        }),
    ensures
        exec.has_logits(),
{
    let shape = exec.outputs@[0].layout.shape@;
    let strides = exec.outputs@[0].layout.strides@;
    reveal_with_fuel(tensor::merged_axis, 3);
    let a = shape[0] as int;
    let b = shape[1] as int;
    let s = strides[1] as int;
    assert(b * a == a * b && s * (b * a) == (s * b) * a) by (nonlinear_arith);
    assert forall|i: int| 0 <= i < 2 implies (#[trigger] tensor::merged_axis(
        shape,
        strides,
        i,
        2,
    ) matches Some((n, s)) && n <= isize::MAX && isize::MIN <= s * n <= isize::MAX) by {
        assert(tensor::merged_axis(shape, strides, 2, 2) == Some((1nat, 0int)));
        assert(tensor::merged_axis(shape, strides, 1, 2) == Some((b as nat, s)));
        assert(tensor::merged_axis(shape, strides, 0, 2) == Some(((b * a) as nat, s)));
    }
}

/// A block of a cache is one of those that it has, with both keys and values, if their places can
/// be written down.
pub proof fn law_blocks_are_those_of_the_cache(cache: Layout, iblk: usize)
    requires
        cache.shape@.len() == cache.strides@.len(),
        cache.shape@.len() >= 3,
        iblk <= isize::MAX,
        isize::MIN <= iblk * cache.strides@[1] <= isize::MAX,
        isize::MIN <= cache.offset + iblk * cache.strides@[1] <= isize::MAX,
        isize::MIN <= cache.offset + iblk * cache.strides@[1] + cache.strides@[2] <= isize::MAX,
    ensures
        has_block(cache, iblk) <==> iblk < cache.shape@[1] && 2 <= cache.shape@[2],
{
}

} // verus!

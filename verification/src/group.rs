//! A group of compiled models, one for each number of tokens that a round may have.
use crate::kv_cache;
use crate::kv_cache::{KVCache, PageChange};
use vstd::prelude::*;

verus! {

/// A part of a round that belongs to one session: `seq` tokens, behind `pos` tokens that
/// its cache holds already.
pub struct Req<Cache> {
    pub kv_cache: Cache,
    pub pos: usize,
    pub seq: usize,
}

/// The operators that a graph is made of.
#[derive(Clone, Copy, PartialEq, Eq, Structural, Debug)]
pub enum Op {
    Embedding,
    RmsNorm,
    LayerNorm,
    Linear,
    Rope,
    Attention,
    SwiGLU,
    GeLU,
    Concat,
    Split,
    AllReduce,
}

/// The name under which an operator is registered.
pub open spec fn op_name(op: Op) -> Seq<char> {
    match op {
        Op::Embedding => "embedding"@,
        Op::RmsNorm => "rms-norm"@,
        Op::LayerNorm => "layer-norm"@,
        Op::Linear => "linear"@,
        Op::Rope => "rope"@,
        Op::Attention => "attention"@,
        Op::SwiGLU => "swiglu"@,
        Op::GeLU => "gelu"@,
        Op::Concat => "concat"@,
        Op::Split => "split"@,
        Op::AllReduce => "all-reduce"@,
    }
}

impl Op {
    /// The name under which the operator is registered.
    pub fn name(self) -> (name: &'static str)
        ensures
            name@ == op_name(self),
    {
        match self {
            Op::Embedding => "embedding",
            Op::RmsNorm => "rms-norm",
            Op::LayerNorm => "layer-norm",
            Op::Linear => "linear",
            Op::Rope => "rope",
            Op::Attention => "attention",
            Op::SwiGLU => "swiglu",
            Op::GeLU => "gelu",
            Op::Concat => "concat",
            Op::Split => "split",
            Op::AllReduce => "all-reduce",
        }
    }
}

/// The operators of a distributed model.
pub fn builder() -> (ops: Vec<Op>)
    ensures
        ops@ == seq![
            Op::Embedding,
            Op::RmsNorm,
            Op::Linear,
            Op::Rope,
            Op::Attention,
            Op::SwiGLU,
            Op::Concat,
            Op::Split,
            Op::AllReduce,
        ],
{
    let ops: Vec<Op> = vec![
        Op::Embedding,
        Op::RmsNorm,
        Op::Linear,
        Op::Rope,
        Op::Attention,
        Op::SwiGLU,
        Op::Concat,
        Op::Split,
        Op::AllReduce,
    ];
    assert(ops@ =~= seq![
        Op::Embedding,
        Op::RmsNorm,
        Op::Linear,
        Op::Rope,
        Op::Attention,
        Op::SwiGLU,
        Op::Concat,
        Op::Split,
        Op::AllReduce,
    ]);
    ops
}

/// A step in making the models of a group.
#[derive(Clone, Copy, PartialEq, Eq, Structural, Debug)]
pub enum CompileStep {
    /// Wait until all devices have come this far.
    Wait,
    /// Compile the model for so many tokens.
    Compile(usize),
}

/// The steps in making models for these numbers of tokens: one model after the other, and
/// before each of them the devices meet, if there are several.
pub open spec fn compile_steps(n_toks: Seq<usize>, barrier: bool) -> Seq<CompileStep>
    decreases n_toks.len(),
{
    if n_toks.len() == 0 {
        seq![]
    } else {
        let before = compile_steps(n_toks.drop_last(), barrier);
        if barrier {
            before.push(CompileStep::Wait).push(CompileStep::Compile(n_toks.last()))
        } else {
            before.push(CompileStep::Compile(n_toks.last()))
        }
    }
}

/// The steps in making models for these numbers of tokens.
pub fn compile(n_toks: &Vec<usize>, barrier: bool) -> (steps: Vec<CompileStep>)
    ensures
        steps@ == compile_steps(n_toks@, barrier),
{
    let mut steps: Vec<CompileStep> = Vec::new();
    let mut i: usize = 0;
    while i < n_toks.len()
        invariant
            i <= n_toks.len(),
            steps@ == compile_steps(n_toks@.take(i as int), barrier),
        decreases n_toks.len() - i,
    {
        if barrier {
            steps.push(CompileStep::Wait);
        }
        steps.push(CompileStep::Compile(n_toks[i]));
        assert(n_toks@.take(i as int + 1).drop_last() =~= n_toks@.take(i as int));
        i = i + 1;
    }
    assert(n_toks@.take(n_toks.len() as int) =~= n_toks@);
    steps
}

/// Where there are several devices, they meet exactly once before each model is compiled;
/// alone, a device never waits.
pub proof fn law_devices_meet_before_each_model(n_toks: Seq<usize>, i: int)
    requires
        0 <= i < n_toks.len(),
    ensures
        compile_steps(n_toks, true).len() == 2 * n_toks.len(),
        compile_steps(n_toks, true)[2 * i] == CompileStep::Wait,
        compile_steps(n_toks, true)[2 * i + 1] == CompileStep::Compile(n_toks[i]),
        compile_steps(n_toks, false).len() == n_toks.len(),
        compile_steps(n_toks, false)[i] == CompileStep::Compile(n_toks[i]),
    decreases n_toks.len(),
{
    reveal_with_fuel(compile_steps, 2);
    if i < n_toks.len() - 1 {
        law_devices_meet_before_each_model(n_toks.drop_last(), i);
    } else if n_toks.len() > 1 {
        law_devices_meet_before_each_model(n_toks.drop_last(), i - 1);
    }
}

/// Which model's workspace loses its physical pages and which one's gets some, in that
/// order.
#[derive(Clone, Copy, PartialEq, Eq, Structural, Debug)]
pub struct Remap {
    pub unmap: Option<usize>,
    pub map: Option<usize>,
}

/// What has to be done so that the workspace of `key` is the one with physical pages.
pub open spec fn remap(mapped: Option<usize>, key: usize) -> Remap {
    if mapped == Some(key) {
        Remap { unmap: None, map: None }
    } else {
        Remap { unmap: mapped, map: Some(key) }
    }
}

/// The workspaces with physical pages after a change.
pub open spec fn remapped(workspaces: Set<usize>, change: Remap) -> Set<usize> {
    let left = match change.unmap {
        Some(key) => workspaces.remove(key),
        None => workspaces,
    };
    match change.map {
        Some(key) => left.insert(key),
        None => left,
    }
}

/// The workspaces with physical pages when `mapped` says which one has them.
pub open spec fn mapped_set(mapped: Option<usize>) -> Set<usize> {
    match mapped {
        Some(key) => set![key],
        None => set![],
    }
}

/// Each number is larger than the one before.
pub open spec fn ascending(keys: Seq<usize>) -> bool {
    forall|i: int, j: int| 0 <= i < j < keys.len() ==> keys[i] < keys[j]
}

/// The least of some numbers that is not below `len`.
pub open spec fn is_least_at(keys: Seq<usize>, len: usize, key: usize) -> bool {
    &&& keys.contains(key)
    &&& len <= key
    &&& forall|k: usize| #[trigger] keys.contains(k) && len <= k ==> key <= k
}

/// A group of models, each compiled for the number of tokens that is its key. At most one
/// of their workspaces has physical pages.
pub struct ModelGroup {
    /// The keys of the models, from the least to the greatest.
    pub keys: Vec<usize>,
    /// The model whose workspace has physical pages.
    pub mapped: Option<usize>,
}

fn insert_key(keys: &mut Vec<usize>, key: usize)
    requires
        ascending(old(keys)@),
    ensures
        ascending(final(keys)@),
        forall|k: usize| #[trigger]
            final(keys)@.contains(k) <==> old(keys)@.contains(k) || k == key,
{
    let ghost before = keys@;
    let mut i: usize = 0;
    while i < keys.len() && keys[i] < key
        invariant
            i <= keys.len(),
            keys@ == before,
            forall|j: int| 0 <= j < i ==> before[j] < key,
        decreases keys.len() - i,
    {
        i = i + 1;
    }
    if i < keys.len() && keys[i] == key {
        assert(before[i as int] == key);
    } else {
        keys.insert(i, key);
        proof {
            let after = keys@;
            assert(after[i as int] == key);
            assert forall|k: usize| #[trigger] after.contains(k) <==> before.contains(k) || k
                == key by {
                if before.contains(k) {
                    let j = choose|j: int| 0 <= j < before.len() && before[j] == k;
                    if j < i {
                        assert(after[j] == k);
                    } else {
                        assert(after[j + 1] == k);
                    }
                }
                if after.contains(k) && k != key {
                    let j = choose|j: int| 0 <= j < after.len() && after[j] == k;
                    if j < i {
                        assert(before[j] == k);
                    } else {
                        assert(before[j - 1] == k);
                    }
                }
            }
        }
    }
}

impl ModelGroup {
    /// The keys ascend, none is 0, and the workspace with physical pages is that of a model
    /// of the group.
    pub open spec fn wf(&self) -> bool {
        &&& ascending(self.keys@)
        &&& forall|k: usize| #[trigger] self.keys@.contains(k) ==> k > 0
        &&& self.mapped matches Some(key) ==> self.keys@.contains(key)
    }

    /// A group of models for these numbers of tokens, in whatever order they come.
    pub fn new(n_toks: &Vec<usize>) -> (group: Self)
        requires
            forall|i: int| 0 <= i < n_toks.len() ==> n_toks@[i] > 0,
        ensures
            group.wf(),
            forall|k: usize| #[trigger] group.keys@.contains(k) <==> n_toks@.contains(k),
            group.mapped is None,
    {
        let mut keys: Vec<usize> = Vec::new();
        let mut i: usize = 0;
        while i < n_toks.len()
            invariant
                i <= n_toks.len(),
                ascending(keys@),
                forall|k: usize| #[trigger]
                    keys@.contains(k) <==> n_toks@.take(i as int).contains(k),
            decreases n_toks.len() - i,
        {
            insert_key(&mut keys, n_toks[i]);
            proof {
                let before = n_toks@.take(i as int);
                let after = n_toks@.take(i as int + 1);
                assert(after =~= before.push(n_toks@[i as int]));
                assert forall|k: usize| #[trigger] keys@.contains(k) <==> after.contains(k) by {
                    if before.contains(k) {
                        let j = choose|j: int| 0 <= j < before.len() && before[j] == k;
                        assert(after[j] == k);
                    }
                    if k == n_toks@[i as int] {
                        assert(after[i as int] == k);
                    }
                    if after.contains(k) && k != n_toks@[i as int] {
                        let j = choose|j: int| 0 <= j < after.len() && after[j] == k;
                        assert(before[j] == k);
                    }
                }
            }
            i = i + 1;
        }
        assert(n_toks@.take(n_toks.len() as int) =~= n_toks@);
        ModelGroup { keys, mapped: None }
    }

    /// Some model of the group takes that many tokens.
    pub fn takes(&self, len: usize) -> (takes: bool)
        requires
            self.wf(),
        ensures
            takes <==> exists|k: usize| #[trigger] self.keys@.contains(k) && len <= k,
    {
        if self.keys.len() == 0 {
            return false;
        }
        let last: usize = self.keys[self.keys.len() - 1];
        assert(self.keys@.contains(last));
        last >= len
    }

    /// Picks the model for a round of `len` tokens: the one for the least number of tokens
    /// that is enough. Its workspace is to have the physical pages.
    pub fn load_toks(&mut self, len: usize) -> (picked: (usize, Remap))
        requires
            old(self).wf(),
            len > 0,
            exists|k: usize| #[trigger] old(self).keys@.contains(k) && len <= k,
        ensures
            final(self).wf(),
            final(self).keys == old(self).keys,
            is_least_at(old(self).keys@, len, picked.0),
            final(self).mapped == Some(picked.0),
            picked.1 == remap(old(self).mapped, picked.0),
    {
        let ghost enough = choose|k: usize| #[trigger] self.keys@.contains(k) && len <= k;
        let ghost at = choose|j: int| 0 <= j < self.keys@.len() && self.keys@[j] == enough;
        let mut i: usize = 0;
        while self.keys[i] < len
            invariant
                *self == *old(self),
                ascending(self.keys@),
                0 <= at < self.keys.len(),
                len <= self.keys@[at],
                i <= at,
                forall|j: int| 0 <= j < i ==> self.keys@[j] < len,
            decreases at - i,
        {
            i = i + 1;
        }
        let key: usize = self.keys[i];
        assert(self.keys@.contains(key));
        assert forall|k: usize| #[trigger] self.keys@.contains(k) && len <= k implies key <= k by {
            let j = choose|j: int| 0 <= j < self.keys@.len() && self.keys@[j] == k;
        }
        let change = self.map_exec(key);
        (key, change)
    }

    /// Gets the model ready for a round that another device has the tokens of. They are to
    /// be broadcast if the devices are connected.
    pub fn share_toks(&mut self, key: usize, connected: bool) -> (change: (Remap, bool))
        requires
            old(self).wf(),
            old(self).keys@.contains(key),
        ensures
            final(self).wf(),
            final(self).keys == old(self).keys,
            final(self).mapped == Some(key),
            change.0 == remap(old(self).mapped, key),
            change.1 == connected,
    {
        let change = self.map_exec(key);
        (change, connected)
    }

    /// Makes this device's caches of a round hold the tokens that they will have after it, and
    /// hands out what has to be done to the pages of each. A request has one cache for each
    /// device; `rank` is which one this device has. The caches of the others stay as they are.
    pub fn launch<M>(
        &self,
        key: usize,
        reqs: &mut Vec<Req<Vec<KVCache<M>>>>,
        rank: usize,
        page_size: usize,
    ) -> (changes: Vec<PageChange>)
        requires
            self.wf(),
            self.keys@.contains(key),
            page_size > 0,
            forall|i: int| 0 <= i < old(reqs).len() ==> has_room(#[trigger] old(reqs)@[i], rank),
        ensures
            final(reqs).len() == old(reqs).len(),
            changes.len() == old(reqs).len(),
            forall|i: int|
                0 <= i < old(reqs).len() ==> grown(
                    old(reqs)@[i],
                    #[trigger] final(reqs)@[i],
                    rank,
                    page_size,
                ) && changes@[i] == kv_cache::page_change(
                    old(reqs)@[i].kv_cache@[rank as int].mapped,
                    final(reqs)@[i].kv_cache@[rank as int].mapped,
                ),
    {
        let mut changes: Vec<PageChange> = Vec::new();
        let mut i: usize = 0;
        while i < reqs.len()
            invariant
                i <= reqs.len(),
                page_size > 0,
                reqs.len() == old(reqs).len(),
                changes.len() == i,
                forall|j: int|
                    0 <= j < old(reqs).len() ==> has_room(#[trigger] old(reqs)@[j], rank),
                forall|j: int| i <= j < reqs.len() ==> reqs@[j] == old(reqs)@[j],
                forall|j: int|
                    0 <= j < i ==> grown(old(reqs)@[j], #[trigger] reqs@[j], rank, page_size)
                        && changes@[j] == kv_cache::page_change(
                        old(reqs)@[j].kv_cache@[rank as int].mapped,
                        reqs@[j].kv_cache@[rank as int].mapped,
                    ),
            decreases reqs.len() - i,
        {
            assert(has_room(old(reqs)@[i as int], rank));
            assert(reqs@[i as int] == old(reqs)@[i as int]);
            let len: usize = reqs[i].pos + reqs[i].seq;
            let req = &mut reqs[i];
            let cache = &mut req.kv_cache[rank];
            let change = cache.update(len, page_size);
            changes.push(change);
            i = i + 1;
        }
        changes
    }

    /// Gives physical pages to the workspace of a model of the group, and takes them from
    /// that of another one.
    pub fn map_exec(&mut self, key: usize) -> (change: Remap)
        requires
            old(self).wf(),
            old(self).keys@.contains(key),
        ensures
            final(self).wf(),
            final(self).keys == old(self).keys,
            final(self).mapped == Some(key),
            change == remap(old(self).mapped, key),
    {
        let unmap = match self.mapped {
            Some(mapped) => {
                if mapped == key {
                    return Remap { unmap: None, map: None };
                }
                Some(mapped)
            },
            None => None,
        };
        self.mapped = Some(key);
        Remap { unmap, map: Some(key) }
    }
}

/// A request has a cache for the device `rank`, with room for the tokens that it will have
/// after the round.
pub open spec fn has_room<M>(req: Req<Vec<KVCache<M>>>, rank: usize) -> bool {
    &&& rank < req.kv_cache@.len()
    &&& req.kv_cache@[rank as int].wf()
    &&& req.pos + req.seq <= req.kv_cache@[rank as int].capacity()
    &&& (req.pos + req.seq) * req.kv_cache@[rank as int].size_per_token <= usize::MAX
}

/// A request whose cache for the device `rank` has the pages for the tokens that it will have
/// after the round, and in which nothing else has changed.
pub open spec fn grown<M>(
    before: Req<Vec<KVCache<M>>>,
    after: Req<Vec<KVCache<M>>>,
    rank: usize,
    page_size: usize,
) -> bool {
    let own = before.kv_cache@[rank as int];
    &&& after.pos == before.pos
    &&& after.seq == before.seq
    &&& after.kv_cache@.len() == before.kv_cache@.len()
    &&& forall|r: int|
        0 <= r < before.kv_cache@.len() && r != rank ==> #[trigger] after.kv_cache@[r]
            == before.kv_cache@[r]
    &&& after.kv_cache@[rank as int].tensor == own.tensor
    &&& after.kv_cache@[rank as int].size_per_token == own.size_per_token
    &&& after.kv_cache@[rank as int].mapped == kv_cache::pages_for(
        (before.pos + before.seq) as nat,
        own.size_per_token as nat,
        page_size as nat,
    )
}

/// Devices do not get in each other's way: whichever of two goes first, the caches of a
/// request end up the same.
pub proof fn law_devices_grow_their_own_caches<M>(
    start: Req<Vec<KVCache<M>>>,
    a_first: Req<Vec<KVCache<M>>>,
    a_then_b: Req<Vec<KVCache<M>>>,
    b_first: Req<Vec<KVCache<M>>>,
    b_then_a: Req<Vec<KVCache<M>>>,
    a: usize,
    b: usize,
    page_size: usize,
)
    requires
        a != b,
        has_room(start, a),
        has_room(start, b),
        grown(start, a_first, a, page_size),
        grown(a_first, a_then_b, b, page_size),
        grown(start, b_first, b, page_size),
        grown(b_first, b_then_a, a, page_size),
    ensures
        a_then_b.kv_cache@ == b_then_a.kv_cache@,
        a_then_b.pos == b_then_a.pos,
        a_then_b.seq == b_then_a.seq,
{
    assert forall|r: int| 0 <= r < start.kv_cache@.len() implies #[trigger] a_then_b.kv_cache@[r]
        == b_then_a.kv_cache@[r] by {
        assert(a_first.kv_cache@[a as int].size_per_token == start.kv_cache@[a as int].size_per_token);
        if r != a && r != b {
            assert(a_first.kv_cache@[r] == start.kv_cache@[r]);
            assert(b_first.kv_cache@[r] == start.kv_cache@[r]);
        } else if r == a {
            assert(a_then_b.kv_cache@[r] == a_first.kv_cache@[r]);
            assert(b_first.kv_cache@[r] == start.kv_cache@[r]);
        } else {
            assert(b_then_a.kv_cache@[r] == b_first.kv_cache@[r]);
            assert(a_first.kv_cache@[r] == start.kv_cache@[r]);
        }
    }
    assert(a_then_b.kv_cache@ =~= b_then_a.kv_cache@);
}

/// Doing what a change of the mapped model asks for leaves exactly one workspace with
/// physical pages, that of the model that was asked for.
pub proof fn law_one_workspace_is_mapped(mapped: Option<usize>, key: usize)
    ensures
        remapped(mapped_set(mapped), remap(mapped, key)) == mapped_set(Some(key)),
{
    assert(remapped(mapped_set(mapped), remap(mapped, key)) =~= mapped_set(Some(key)));
}

/// Asking twice for the same model changes nothing the second time.
pub proof fn law_mapping_again_does_nothing(key: usize)
    ensures
        remap(Some(key), key) == (Remap { unmap: None, map: None }),
{
}

/// The model for a round is the only one that is not too small and not larger than needed.
pub proof fn law_picked_model_is_unique(keys: Seq<usize>, len: usize, a: usize, b: usize)
    requires
        is_least_at(keys, len, a),
        is_least_at(keys, len, b),
    ensures
        a == b,
{
}

/// A smaller round never gets a larger model.
pub proof fn law_fewer_tokens_smaller_model(
    keys: Seq<usize>,
    fewer: usize,
    more: usize,
    a: usize,
    b: usize,
)
    requires
        fewer <= more,
        is_least_at(keys, fewer, a),
        is_least_at(keys, more, b),
    ensures
        a <= b,
{
}

/// The workspace of the model that is asked for gets pages unless it has them, and then the one
/// that had them loses them.
pub proof fn law_pages_move_to_the_model(mapped: Option<usize>, key: usize)
    ensures
        mapped == Some(key) ==> remap(mapped, key).map is None && remap(mapped, key).unmap is None,
        mapped != Some(key) ==> remap(mapped, key).map == Some(key) && remap(mapped, key).unmap
            == mapped,
{
}

/// The model for a round is one of the group, is large enough, and no other that is large enough
/// is smaller.
pub proof fn law_picked_model_is_the_least(keys: Seq<usize>, len: usize, key: usize)
    requires
        is_least_at(keys, len, key),
    ensures
        exists|i: int| 0 <= i < keys.len() && #[trigger] keys[i] == key,
        len <= key,
        forall|i: int| 0 <= i < keys.len() && #[trigger] keys[i] >= len ==> key <= keys[i],
{
    let at = choose|i: int| 0 <= i < keys.len() && keys[i] == key;
    assert(keys[at] == key);
    assert forall|i: int| 0 <= i < keys.len() && #[trigger] keys[i] >= len implies key
        <= keys[i] by {
        assert(keys.contains(keys[i]));
    }
}

/// After a round, this device's cache of each request has the fewest pages that hold all its
/// tokens, and nothing else of the request has changed.
pub proof fn law_caches_hold_the_round<M>(
    before: Req<Vec<KVCache<M>>>,
    after: Req<Vec<KVCache<M>>>,
    rank: usize,
    page_size: usize,
    pages: int,
)
    requires
        rank < before.kv_cache@.len(),
        page_size > 0,
        grown(before, after, rank, page_size),
    ensures
        after.pos == before.pos,
        after.seq == before.seq,
        after.kv_cache@.len() == before.kv_cache@.len(),
        forall|r: int|
            0 <= r < before.kv_cache@.len() && r != rank ==> #[trigger] after.kv_cache@[r]
                == before.kv_cache@[r],
        ({
            let cache = after.kv_cache@[rank as int];
            let bytes = (before.pos + before.seq) * before.kv_cache@[rank as int].size_per_token;
            &&& cache.tensor == before.kv_cache@[rank as int].tensor
            &&& cache.size_per_token == before.kv_cache@[rank as int].size_per_token
            &&& cache.mapped * page_size >= bytes
            &&& pages * page_size >= bytes ==> cache.mapped <= pages
        }),
{
    kv_cache::law_no_page_too_many(
        (before.pos + before.seq) as nat,
        before.kv_cache@[rank as int].size_per_token as nat,
        page_size as nat,
        pages,
    );
}

/// Every operator is registered under a name of its own.
pub proof fn law_operators_have_their_own_names(a: Op, b: Op)
    requires
        op_name(a) == op_name(b),
    ensures
        a == b,
{
    reveal_strlit("embedding");
    reveal_strlit("rms-norm");
    reveal_strlit("layer-norm");
    reveal_strlit("linear");
    reveal_strlit("rope");
    reveal_strlit("attention");
    reveal_strlit("swiglu");
    reveal_strlit("gelu");
    reveal_strlit("concat");
    reveal_strlit("split");
    reveal_strlit("all-reduce");
    assert("embedding"@.len() == 9 && "embedding"@[0] == 'e');
    assert("rms-norm"@.len() == 8);
    assert("layer-norm"@.len() == 10 && "layer-norm"@[0] == 'l');
    assert("linear"@.len() == 6 && "linear"@[0] == 'l');
    assert("rope"@.len() == 4 && "rope"@[0] == 'r');
    assert("attention"@.len() == 9 && "attention"@[0] == 'a');
    assert("swiglu"@.len() == 6 && "swiglu"@[0] == 's');
    assert("gelu"@.len() == 4 && "gelu"@[0] == 'g');
    assert("concat"@.len() == 6 && "concat"@[0] == 'c');
    assert("split"@.len() == 5);
    assert("all-reduce"@.len() == 10 && "all-reduce"@[0] == 'a');
}

/// Every operator is registered under what it is called.
pub proof fn law_operators_are_registered_by_name(op: Op)
    ensures
        op is Embedding ==> op_name(op) == "embedding"@,
        op is RmsNorm ==> op_name(op) == "rms-norm"@,
        op is LayerNorm ==> op_name(op) == "layer-norm"@,
        op is Linear ==> op_name(op) == "linear"@,
        op is Rope ==> op_name(op) == "rope"@,
        op is Attention ==> op_name(op) == "attention"@,
        op is SwiGLU ==> op_name(op) == "swiglu"@,
        op is GeLU ==> op_name(op) == "gelu"@,
        op is Concat ==> op_name(op) == "concat"@,
        op is Split ==> op_name(op) == "split"@,
        op is AllReduce ==> op_name(op) == "all-reduce"@,
{
}

/// A group keeps its keys in order.
pub proof fn law_keys_ascend(group: ModelGroup, i: int, j: int)
    requires
        group.wf(),
        0 <= i < j < group.keys@.len(),
    ensures
        0 < group.keys@[i] < group.keys@[j],
        group.mapped matches Some(key) ==> exists|k: int|
            0 <= k < group.keys@.len() && #[trigger] group.keys@[k] == key,
{
    assert(group.keys@.contains(group.keys@[i]));
    if group.mapped is Some {
        let key = group.mapped->0;
        let k = choose|k: int| 0 <= k < group.keys@.len() && group.keys@[k] == key;
        assert(group.keys@[k] == key);
    }
}

} // verus!

//! The engine: how the devices share a model, and what the leading device and the others do
//! from round to round.
use crate::group;
use crate::group::{ModelGroup, Remap, Req};
use crate::session::SessionId;
use tokeneer::utok;
use vstd::prelude::*;

verus! {

/// A request to go on with a session: what was said, and how many tokens to answer with.
pub struct Request<Se> {
    pub session: Se,
    pub prompt: Vec<utok>,
    pub out: usize,
}

/// How far a session is: the tokens of its next round, and those that it is to put out.
#[derive(Clone, Copy, PartialEq, Eq, Structural, Debug)]
pub struct State {
    pub seq: usize,
    pub out: usize,
}

/// A session between two rounds.
pub struct SessionStub<Se> {
    pub session: Se,
    pub state: State,
    pub prompt: Option<Vec<utok>>,
}

impl<Se> Request<Se> {
    /// The session before its first round, which takes the whole prompt.
    pub fn into_stub(self) -> (stub: SessionStub<Se>)
        ensures
            stub.session == self.session,
            stub.state == (State { seq: self.prompt.len(), out: self.out }),
            stub.prompt == Some(self.prompt),
    {
        let Request { session, prompt, out } = self;
        SessionStub { session, state: State { seq: prompt.len(), out }, prompt: Some(prompt) }
    }
}

/// A share of a model: `len` parts out of `total`, from part `start` on.
#[derive(Clone, Copy, PartialEq, Eq, Structural, Debug)]
pub struct Distribution {
    pub start: usize,
    pub len: usize,
    pub total: usize,
}

/// A device and its share of the work.
pub struct Worker {
    pub dev: i32,
    pub dist: Distribution,
    /// The numbers of tokens to compile the model for.
    pub ntoks: Vec<usize>,
    /// How many devices meet before each round; none where there is only one.
    pub barrier: Option<usize>,
    pub use_cuda_graph: bool,
}

/// The numbers of tokens that a model is compiled for.
pub open spec fn compiled() -> Seq<usize> {
    seq![1, 8, 32, 64, 128, 256, 1024]
}

/// The numbers of tokens that a model is compiled for.
pub fn ntoks() -> (n: Vec<usize>)
    ensures
        n@ == compiled(),
        n@ == seq![1usize, 8, 32, 64, 128, 256, 1024],
{
    let n: Vec<usize> = vec![1, 8, 32, 64, 128, 256, 1024];
    assert(n@ =~= compiled());
    n
}

/// The share of device `i` out of `n`.
pub open spec fn share(i: int, n: usize) -> Distribution {
    Distribution { start: i as usize, len: 1, total: n }
}

/// The devices of an engine, the leading one first. One device works alone; several have
/// one part of the model each and meet before each round.
pub fn engine(gpus: &Vec<i32>, use_cuda_graph: bool) -> (workers: Vec<Worker>)
    requires
        gpus.len() > 0,
    ensures
        workers.len() == gpus.len(),
        forall|i: int|
            0 <= i < gpus.len() ==> {
                let worker = #[trigger] workers@[i];
                &&& worker.dev == gpus@[i]
                &&& worker.dist == share(i, gpus.len())
                &&& worker.dist.start == i
                &&& worker.dist.len == 1
                &&& worker.dist.total == gpus.len()
                &&& worker.ntoks@ == compiled()
                &&& worker.barrier == if gpus.len() == 1 {
                    None
                } else {
                    Some(gpus.len())
                }
                &&& worker.use_cuda_graph == use_cuda_graph
            },
{
    if gpus.len() == 1 {
        let worker = mono(gpus[0], use_cuda_graph);
        let mut workers: Vec<Worker> = Vec::new();
        workers.push(worker);
        return workers;
    }
    let mut workers: Vec<Worker> = Vec::new();
    let mut i: usize = 0;
    while i < gpus.len()
        invariant
            i <= gpus.len(),
            gpus.len() != 1,
            workers.len() == i,
            forall|j: int|
                0 <= j < i ==> {
                    let worker = #[trigger] workers@[j];
                    &&& worker.dev == gpus@[j]
                    &&& worker.dist == share(j, gpus.len())
                    &&& worker.ntoks@ == compiled()
                    &&& worker.barrier == Some(gpus.len())
                    &&& worker.use_cuda_graph == use_cuda_graph
                },
        decreases gpus.len() - i,
    {
        workers.push(
            Worker {
                dev: gpus[i],
                dist: Distribution { start: i, len: 1, total: gpus.len() },
                ntoks: ntoks(),
                barrier: Some(gpus.len()),
                use_cuda_graph,
            },
        );
        i = i + 1;
    }
    workers
}

/// The only device of an engine.
fn mono(dev: i32, use_cuda_graph: bool) -> (worker: Worker)
    ensures
        worker.dev == dev,
        worker.dist == (Distribution { start: 0, len: 1, total: 1 }),
        worker.ntoks@ == compiled(),
        worker.barrier is None,
        worker.use_cuda_graph == use_cuda_graph,
{
    Worker {
        dev,
        dist: Distribution { start: 0, len: 1, total: 1 },
        ntoks: ntoks(),
        barrier: None,
        use_cuda_graph,
    }
}

/// A round without what did not fit into it.
pub struct Batch<C, S, F, N> {
    /// The tokens of all requests, one behind the other.
    pub tokens: Vec<utok>,
    pub reqs: Vec<Req<C>>,
    /// How each token that is put out is sampled.
    pub sample: Vec<S>,
    /// How many tokens each session puts out.
    pub output: Vec<(SessionId, usize)>,
    /// Which tokens of the round are results of the round before it.
    pub fast_map: F,
    /// The sessions that are not to be decoded.
    pub no_decode: N,
}

/// A round: the sessions that there was no more room for, and the work for the others.
pub struct Round<C, S, F, N> {
    pub overflow: Vec<SessionId>,
    pub batch: Batch<C, S, F, N>,
}

/// How many tokens the first `n` requests have.
pub open spec fn tokens_before<C>(reqs: Seq<Req<C>>, n: int) -> nat
    decreases n,
{
    if n <= 0 {
        0
    } else {
        tokens_before(reqs, n - 1) + reqs[n - 1].seq as nat
    }
}

/// How many tokens the first `n` requests put out.
pub open spec fn outs_before(outs: Seq<usize>, n: int) -> nat
    decreases n,
{
    if n <= 0 {
        0
    } else {
        outs_before(outs, n - 1) + outs[n - 1] as nat
    }
}

/// How many requests have a number of tokens to put out.
pub open spec fn paired<C>(reqs: Seq<Req<C>>, outs: Seq<usize>) -> int {
    if reqs.len() <= outs.len() {
        reqs.len() as int
    } else {
        outs.len() as int
    }
}

/// The places of the tokens that the first `n` requests put out: the last ones of each, as
/// many as it puts out.
pub open spec fn out_places<C>(reqs: Seq<Req<C>>, outs: Seq<usize>, n: int) -> Seq<utok>
    decreases n,
{
    if n <= 0 {
        seq![]
    } else {
        let first = tokens_before(reqs, n) - outs[n - 1];
        out_places(reqs, outs, n - 1) + Seq::new(
            outs[n - 1] as nat,
            |i: int| (first + i) as utok,
        )
    }
}

/// No request puts out more tokens than it has, and all tokens can be counted.
pub open spec fn outs_fit<C>(reqs: Seq<Req<C>>, outs: Seq<usize>) -> bool {
    &&& tokens_before(reqs, paired(reqs, outs)) <= usize::MAX
    &&& forall|i: int| 0 <= i < paired(reqs, outs) ==> #[trigger] outs[i] <= reqs[i].seq
}

proof fn lemma_tokens_grow<C>(reqs: Seq<Req<C>>, a: int, b: int)
    requires
        0 <= a <= b,
    ensures
        tokens_before(reqs, a) <= tokens_before(reqs, b),
    decreases b - a,
{
    if a < b {
        lemma_tokens_grow(reqs, a, b - 1);
    }
}

/// The places, among the tokens of a round, of those that are put out.
pub fn out_idx<C>(reqs: &Vec<Req<C>>, outs: &Vec<usize>) -> (places: Vec<utok>)
    requires
        outs_fit(reqs@, outs@),
    ensures
        places@ == out_places(reqs@, outs@, paired(reqs@, outs@)),
{
    let n: usize = if reqs.len() <= outs.len() { reqs.len() } else { outs.len() };
    let mut places: Vec<utok> = Vec::new();
    let mut itok: usize = 0;
    let mut k: usize = 0;
    while k < n
        invariant
            n == paired(reqs@, outs@),
            k <= n,
            outs_fit(reqs@, outs@),
            itok == tokens_before(reqs@, k as int),
            places@ == out_places(reqs@, outs@, k as int),
        decreases n - k,
    {
        proof {
            lemma_tokens_grow(reqs@, k as int + 1, n as int);
        }
        let seq: usize = reqs[k].seq;
        let out: usize = outs[k];
        let ghost before = places@;
        let ghost first = tokens_before(reqs@, k as int + 1) - out;
        let ghost added = Seq::new(out as nat, |i: int| (first + i) as utok);
        let mut i: usize = seq - out;
        while i < seq
            invariant
                seq - out <= i <= seq,
                itok + seq <= usize::MAX,
                first == itok + seq - out,
                added == Seq::new(out as nat, |i: int| (first + i) as utok),
                places@ == before + added.take(i - (seq - out)),
            decreases seq - i,
        {
            let place: usize = itok + i;
            places.push(#[verifier::truncate] (place as utok));
            proof {
                let at = i - (seq - out);
                assert(added[at] == (first + at) as utok);
                assert(added.take(at + 1) =~= added.take(at).push(added[at]));
            }
            i = i + 1;
        }
        assert(added.take(out as int) =~= added);
        itok = itok + seq;
        k = k + 1;
    }
    places
}

/// How many tokens each session puts out.
pub open spec fn out_lens(output: Seq<(SessionId, usize)>) -> Seq<usize> {
    output.map_values(|o: (SessionId, usize)| o.1)
}

fn lens(output: &Vec<(SessionId, usize)>) -> (outs: Vec<usize>)
    ensures
        outs@ == out_lens(output@),
{
    let mut outs: Vec<usize> = Vec::new();
    let mut i: usize = 0;
    while i < output.len()
        invariant
            i <= output.len(),
            outs@ == out_lens(output@.take(i as int)),
        decreases output.len() - i,
    {
        outs.push(output[i].1);
        assert(output@.take(i as int + 1) =~= output@.take(i as int).push(output@[i as int]));
        assert(outs@ =~= out_lens(output@.take(i as int + 1)));
        i = i + 1;
    }
    assert(output@.take(output.len() as int) =~= output@);
    outs
}

impl<C, S, F, N> Batch<C, S, F, N> {
    /// The batch can be launched: a model takes its tokens, and no request puts out more
    /// tokens than it has.
    pub open spec fn fits(&self, keys: Seq<usize>) -> bool {
        &&& self.tokens@.len() > 0
        &&& exists|k: usize| #[trigger] keys.contains(k) && self.tokens@.len() <= k
        &&& outs_fit(self.reqs@, out_lens(self.output@))
    }

    /// Whether the batch can be launched with a group of models.
    pub fn check(&self, group: &ModelGroup) -> (fits: bool)
        requires
            group.wf(),
        ensures
            fits == self.fits(group.keys@),
    {
        let outs = lens(&self.output);
        self.tokens.len() > 0 && group.takes(self.tokens.len()) && check_outs(&self.reqs, &outs)
    }
}

fn check_outs<C>(reqs: &Vec<Req<C>>, outs: &Vec<usize>) -> (fit: bool)
    ensures
        fit == outs_fit(reqs@, outs@),
{
    let n: usize = if reqs.len() <= outs.len() { reqs.len() } else { outs.len() };
    let mut itok: usize = 0;
    let mut k: usize = 0;
    while k < n
        invariant
            n == paired(reqs@, outs@),
            k <= n,
            itok == tokens_before(reqs@, k as int),
            forall|i: int| 0 <= i < k ==> #[trigger] outs@[i] <= reqs@[i].seq,
        decreases n - k,
    {
        proof {
            lemma_tokens_grow(reqs@, k as int + 1, n as int);
        }
        if outs[k] > reqs[k].seq || reqs[k].seq > usize::MAX - itok {
            return false;
        }
        itok = itok + reqs[k].seq;
        k = k + 1;
    }
    true
}

/// Where the leading device is in its work.
pub enum LeadState<C, S, F, N> {
    /// Readiness is being reported.
    Ready,
    /// Commands are being received.
    Receiving,
    /// A round is being put together.
    Preparing,
    /// The sessions without room are being reported; the batch comes next.
    Overflowing(Batch<C, S, F, N>),
    /// A batch is at work; what its sessions put out, and which of them are not to be decoded,
    /// comes next.
    Launching(Vec<(SessionId, usize)>, N),
    /// What the sessions put out is being sent.
    Completing,
    /// The other devices are being told to leave.
    Dismissing,
    /// The sessions that are left are being collected.
    Collecting,
    /// Session `.0` of `.1` is being sent back.
    Removing(usize, usize),
    /// All is done.
    Done,
}

/// What has happened to the leading device.
pub enum LeadEvent<C, S, F, N> {
    /// Something was sent, or could not be.
    Sent(bool),
    /// Commands were received, or could not be.
    Received(bool),
    /// A round was put together.
    Prepared(Round<C, S, F, N>),
    /// A batch was launched.
    Launched,
    /// The other devices have met at the barrier.
    Dismissed,
    /// So many sessions are left.
    Collected(usize),
}

/// What to launch.
pub struct Launch<C, S, F> {
    /// The model.
    pub key: usize,
    /// The change of workspaces that comes before it.
    pub remap: Remap,
    /// The tokens.
    pub tokens: Vec<utok>,
    /// Which of them are results of the round before it.
    pub fast_map: F,
    /// Whether the other devices are to join.
    pub share: bool,
    pub reqs: Vec<Req<C>>,
    /// The places of the tokens that are put out.
    pub out_idx: Vec<utok>,
    /// How each of them is sampled.
    pub sample: Vec<S>,
    /// How many results are kept for the next round, from the first on.
    pub keep: usize,
}

/// What the leading device is to do next.
pub enum LeadAction<C, S, F, N> {
    SendReady,
    Receive,
    Prepare,
    SendOverflow(Vec<SessionId>),
    Launch(Launch<C, S, F>),
    SendComplete(Vec<(SessionId, usize)>, N),
    /// Empty the task box and meet the others at the barrier.
    Dismiss,
    Collect,
    SendRemoved(usize),
    Leave,
}

/// The leading device of an engine.
pub struct Leader<C, S, F, N> {
    /// There are other devices.
    pub others: bool,
    pub group: ModelGroup,
    pub state: LeadState<C, S, F, N>,
}

impl<C, S, F, N> LeadState<C, S, F, N> {
    /// What can happen in a state.
    pub open spec fn expects(&self, event: LeadEvent<C, S, F, N>) -> bool {
        match self {
            LeadState::Ready => event is Sent,
            LeadState::Receiving => event is Received,
            LeadState::Preparing => event is Prepared,
            LeadState::Overflowing(_) => event is Sent,
            LeadState::Launching(_, _) => event is Launched,
            LeadState::Completing => event is Sent,
            LeadState::Dismissing => event is Dismissed,
            LeadState::Collecting => event is Collected,
            LeadState::Removing(_, _) => event is Sent,
            LeadState::Done => false,
        }
    }

    /// The state once no more rounds are to come.
    pub open spec fn ending(others: bool) -> Self {
        if others {
            LeadState::Dismissing
        } else {
            LeadState::Collecting
        }
    }

    /// The state after an event.
    pub open spec fn next(&self, others: bool, event: LeadEvent<C, S, F, N>) -> Self {
        match (*self, event) {
            (LeadState::Ready, LeadEvent::Sent(true)) => LeadState::Receiving,
            (LeadState::Receiving, LeadEvent::Received(true)) => LeadState::Preparing,
            (LeadState::Preparing, LeadEvent::Prepared(round)) => if round.overflow@.len() > 0 {
                LeadState::Overflowing(round.batch)
            } else {
                LeadState::Launching(round.batch.output, round.batch.no_decode)
            },
            (LeadState::Overflowing(batch), LeadEvent::Sent(true)) => LeadState::Launching(
                batch.output,
                batch.no_decode,
            ),
            (LeadState::Launching(_, _), _) => LeadState::Completing,
            (LeadState::Completing, LeadEvent::Sent(true)) => LeadState::Receiving,
            (LeadState::Dismissing, _) => LeadState::Collecting,
            (LeadState::Collecting, LeadEvent::Collected(n)) => if n > 0 {
                LeadState::Removing(0, n)
            } else {
                LeadState::Done
            },
            (LeadState::Removing(i, n), LeadEvent::Sent(true)) => if i + 1 < n {
                LeadState::Removing((i + 1) as usize, n)
            } else {
                LeadState::Done
            },
            (LeadState::Removing(_, _), _) => LeadState::Done,
            (LeadState::Done, _) => LeadState::Done,
            _ => LeadState::ending(others),
        }
    }

    /// The batch that an event sets to work.
    pub open spec fn launches(&self, event: LeadEvent<C, S, F, N>) -> Option<Batch<C, S, F, N>> {
        match (*self, event) {
            (LeadState::Preparing, LeadEvent::Prepared(round)) => if round.overflow@.len() > 0 {
                None
            } else {
                Some(round.batch)
            },
            (LeadState::Overflowing(batch), LeadEvent::Sent(true)) => Some(batch),
            _ => None,
        }
    }

    /// Rounds may still come.
    pub open spec fn running(&self) -> bool {
        match self {
            LeadState::Ready => true,
            LeadState::Receiving => true,
            LeadState::Preparing => true,
            LeadState::Overflowing(_) => true,
            LeadState::Launching(_, _) => true,
            LeadState::Completing => true,
            _ => false,
        }
    }
}

/// What is done to launch a batch.
pub open spec fn is_launch<C, S, F, N>(
    before: ModelGroup,
    after: ModelGroup,
    others: bool,
    batch: Batch<C, S, F, N>,
    launch: Launch<C, S, F>,
) -> bool {
    &&& group::is_least_at(before.keys@, batch.tokens@.len() as usize, launch.key)
    &&& launch.remap == group::remap(before.mapped, launch.key)
    &&& after.mapped == Some(launch.key)
    &&& launch.out_idx@ == out_places(
        batch.reqs@,
        out_lens(batch.output@),
        paired(batch.reqs@, out_lens(batch.output@)),
    )
    &&& launch.tokens == batch.tokens
    &&& launch.fast_map == batch.fast_map
    &&& launch.share == others
    &&& launch.reqs == batch.reqs
    &&& launch.sample == batch.sample
    &&& launch.keep == launch.out_idx@.len()
}

impl<C, S, F, N> Leader<C, S, F, N> {
    /// The group of models is in order, and a session that is being sent back is one of
    /// those that are left.
    pub open spec fn wf(&self) -> bool {
        &&& self.group.wf()
        &&& self.state matches LeadState::Removing(i, n) ==> i < n
    }

    /// What an action has to be: what the state after an event waits for.
    pub open spec fn answers(
        &self,
        before: Leader<C, S, F, N>,
        event: LeadEvent<C, S, F, N>,
        action: LeadAction<C, S, F, N>,
    ) -> bool {
        match self.state {
            LeadState::Ready => action is SendReady,
            LeadState::Receiving => action is Receive,
            LeadState::Preparing => action is Prepare,
            LeadState::Overflowing(_) => action matches LeadAction::SendOverflow(overflow)
                && event matches LeadEvent::Prepared(round) && overflow == round.overflow,
            LeadState::Launching(_, _) => action matches LeadAction::Launch(launch)
                && before.state.launches(event) matches Some(batch) && is_launch(
                before.group,
                self.group,
                before.others,
                batch,
                launch,
            ),
            LeadState::Completing => action matches LeadAction::SendComplete(output, no_decode)
                && before.state == LeadState::<C, S, F, N>::Launching(output, no_decode),
            LeadState::Dismissing => action is Dismiss,
            LeadState::Collecting => action is Collect,
            LeadState::Removing(i, _) => action == LeadAction::<C, S, F, N>::SendRemoved(i),
            LeadState::Done => action is Leave,
        }
    }

    fn end(&mut self) -> (action: LeadAction<C, S, F, N>)
        ensures
            final(self).others == old(self).others,
            final(self).group == old(self).group,
            final(self).state == LeadState::<C, S, F, N>::ending(old(self).others),
            action == if old(self).others {
                LeadAction::<C, S, F, N>::Dismiss
            } else {
                LeadAction::<C, S, F, N>::Collect
            },
    {
        if self.others {
            self.state = LeadState::Dismissing;
            LeadAction::Dismiss
        } else {
            self.state = LeadState::Collecting;
            LeadAction::Collect
        }
    }

    fn launch(&mut self, batch: Batch<C, S, F, N>) -> (action: LeadAction<C, S, F, N>)
        requires
            old(self).group.wf(),
            batch.fits(old(self).group.keys@),
        ensures
            final(self).others == old(self).others,
            final(self).group.wf(),
            final(self).group.keys == old(self).group.keys,
            final(self).state == LeadState::<C, S, F, N>::Launching(batch.output, batch.no_decode),
            action matches LeadAction::Launch(launch) && is_launch(
                old(self).group,
                final(self).group,
                old(self).others,
                batch,
                launch,
            ),
    {
        let Batch { tokens, reqs, sample, output, fast_map, no_decode } = batch;
        let outs = lens(&output);
        let out_idx = out_idx(&reqs, &outs);
        let keep: usize = out_idx.len();
        let (key, remap) = self.group.load_toks(tokens.len());
        self.state = LeadState::Launching(output, no_decode);
        let share = self.others;
        LeadAction::Launch(
            Launch { key, remap, tokens, fast_map, share, reqs, out_idx, sample, keep },
        )
    }

    /// What to do first: to report readiness. Nothing is handed out once that has begun.
    pub fn begin(&self) -> (action: Option<LeadAction<C, S, F, N>>)
        ensures
            action == if self.state is Ready {
                Some(LeadAction::<C, S, F, N>::SendReady)
            } else {
                None
            },
    {
        match &self.state {
            LeadState::Ready => Some(LeadAction::SendReady),
            _ => None,
        }
    }

    /// Takes note of what has happened, and says what to do next. Rounds follow each other
    /// until something cannot be sent or received. Then the other devices, if there are
    /// any, are told to leave, and the sessions that are left are sent back, until one of
    /// them cannot be.
    pub fn step(&mut self, event: LeadEvent<C, S, F, N>) -> (action: LeadAction<C, S, F, N>)
        requires
            old(self).wf(),
            old(self).state.expects(event),
            old(self).state.launches(event) matches Some(batch) ==> batch.fits(
                old(self).group.keys@,
            ),
        ensures
            final(self).wf(),
            final(self).others == old(self).others,
            final(self).state == old(self).state.next(old(self).others, event),
            final(self).group.keys == old(self).group.keys,
            old(self).state.launches(event) is None ==> final(self).group == old(self).group,
            final(self).answers(*old(self), event, action),
    {
        let mut state: LeadState<C, S, F, N> = LeadState::Done;
        std::mem::swap(&mut state, &mut self.state);
        match (state, event) {
            (LeadState::Ready, LeadEvent::Sent(true)) => {
                self.state = LeadState::Receiving;
                LeadAction::Receive
            },
            (LeadState::Receiving, LeadEvent::Received(true)) => {
                self.state = LeadState::Preparing;
                LeadAction::Prepare
            },
            (LeadState::Preparing, LeadEvent::Prepared(round)) => {
                let Round { overflow, batch } = round;
                if overflow.len() > 0 {
                    self.state = LeadState::Overflowing(batch);
                    LeadAction::SendOverflow(overflow)
                } else {
                    self.launch(batch)
                }
            },
            (LeadState::Overflowing(batch), LeadEvent::Sent(true)) => self.launch(batch),
            (LeadState::Launching(output, no_decode), _) => {
                self.state = LeadState::Completing;
                LeadAction::SendComplete(output, no_decode)
            },
            (LeadState::Completing, LeadEvent::Sent(true)) => {
                self.state = LeadState::Receiving;
                LeadAction::Receive
            },
            (LeadState::Dismissing, _) => {
                self.state = LeadState::Collecting;
                LeadAction::Collect
            },
            (LeadState::Collecting, LeadEvent::Collected(n)) => {
                if n > 0 {
                    self.state = LeadState::Removing(0, n);
                    LeadAction::SendRemoved(0)
                } else {
                    LeadAction::Leave
                }
            },
            (LeadState::Removing(i, n), LeadEvent::Sent(true)) => {
                if i + 1 < n {
                    self.state = LeadState::Removing(i + 1, n);
                    LeadAction::SendRemoved(i + 1)
                } else {
                    LeadAction::Leave
                }
            },
            (LeadState::Removing(_, _), _) => LeadAction::Leave,
            (LeadState::Done, _) => LeadAction::Leave,
            _ => self.end(),
        }
    }
}

impl Worker {
    /// The leading device, about to report that it is ready, and the number of tokens that
    /// its buffers hold.
    pub fn lead<C, S, F, N>(self) -> (leader: (Leader<C, S, F, N>, usize))
        requires
            self.ntoks.len() > 0,
            forall|i: int| 0 <= i < self.ntoks.len() ==> self.ntoks@[i] > 0,
        ensures
            leader.0.wf(),
            leader.0.others == (self.barrier is Some),
            forall|k: usize| #[trigger]
                leader.0.group.keys@.contains(k) <==> self.ntoks@.contains(k),
            leader.0.group.mapped is None,
            leader.0.state is Ready,
            leader.1 == self.ntoks@.last(),
    {
        let max_tok: usize = self.ntoks[self.ntoks.len() - 1];
        let group = ModelGroup::new(&self.ntoks);
        (Leader { others: self.barrier.is_some(), group, state: LeadState::Ready }, max_tok)
    }

    /// A device that follows the leading one.
    pub fn work(self) -> (follower: Follower)
        requires
            self.barrier is Some,
            forall|i: int| 0 <= i < self.ntoks.len() ==> self.ntoks@[i] > 0,
        ensures
            follower.group.wf(),
            forall|k: usize| #[trigger]
                follower.group.keys@.contains(k) <==> self.ntoks@.contains(k),
            follower.group.mapped is None,
    {
        Follower { group: ModelGroup::new(&self.ntoks) }
    }
}

/// The work that the leading device leaves for the others.
pub struct Task<C> {
    pub key: usize,
    pub reqs: Vec<Req<C>>,
}

/// What another device is to do after it met the leading one.
#[derive(Clone, Copy, PartialEq, Eq, Structural, Debug)]
pub enum WorkStep {
    /// Join in a round with that model, after a change of workspaces and, if told so, a
    /// broadcast of the tokens.
    Join(usize, Remap, bool),
    /// Leave.
    Leave,
}

/// A device that follows the leading one.
pub struct Follower {
    pub group: ModelGroup,
}

impl Follower {
    /// Reads the task that the leading device has left. None means to leave.
    pub fn follow<C>(&mut self, task: &Option<Task<C>>, connected: bool) -> (step: WorkStep)
        requires
            old(self).group.wf(),
            task matches Some(task) ==> old(self).group.keys@.contains(task.key),
        ensures
            final(self).group.wf(),
            final(self).group.keys == old(self).group.keys,
            match task {
                Some(task) => {
                    &&& step == WorkStep::Join(
                        task.key,
                        group::remap(old(self).group.mapped, task.key),
                        connected,
                    )
                    &&& final(self).group.mapped == Some(task.key)
                },
                None => step is Leave && *final(self) == *old(self),
            },
    {
        match task {
            Some(task) => {
                let (remap, broadcast) = self.group.share_toks(task.key, connected);
                WorkStep::Join(task.key, remap, broadcast)
            },
            None => WorkStep::Leave,
        }
    }
}

/// The devices have every part of the model between them, and no part twice.
pub proof fn law_shares_make_the_model(n: usize, part: int)
    requires
        0 <= part < n,
    ensures
        0 <= part < n && share(part, n).start <= part < share(part, n).start + share(part, n).len,
        forall|i: int|
            0 <= i < n && #[trigger] share(i, n).start <= part < share(i, n).start + share(i, n).len
                ==> i == part,
{
}

/// The models take every round of up to 1024 tokens, and no larger one.
pub proof fn law_models_take_any_round(len: usize)
    ensures
        (exists|k: usize| #[trigger] compiled().contains(k) && len <= k) <==> len <= 1024,
        forall|i: int| 0 <= i < compiled().len() ==> #[trigger] compiled()[i] > 0,
        group::ascending(compiled()),
{
    assert(compiled()[6] == 1024);
    assert(compiled().contains(1024));
}

/// A round puts out as many tokens as its requests do together.
pub proof fn law_outputs_are_counted<C>(reqs: Seq<Req<C>>, outs: Seq<usize>, n: int)
    requires
        0 <= n <= paired(reqs, outs),
    ensures
        out_places(reqs, outs, n).len() == outs_before(outs, n),
    decreases n,
{
    if n > 0 {
        law_outputs_are_counted(reqs, outs, n - 1);
    }
}

/// The tokens that are put out are tokens of the round, in the order in which they stand
/// there, and none is put out twice.
pub proof fn law_outputs_ascend<C>(reqs: Seq<Req<C>>, outs: Seq<usize>, n: int)
    requires
        0 <= n <= paired(reqs, outs),
        outs_fit(reqs, outs),
        tokens_before(reqs, n) <= utok::MAX,
    ensures
        forall|i: int|
            0 <= i < out_places(reqs, outs, n).len() ==> #[trigger] out_places(reqs, outs, n)[i]
                < tokens_before(reqs, n),
        forall|i: int, j: int|
            0 <= i < j < out_places(reqs, outs, n).len() ==> out_places(reqs, outs, n)[i]
                < out_places(reqs, outs, n)[j],
    decreases n,
{
    if n > 0 {
        law_outputs_ascend(reqs, outs, n - 1);
        let before = out_places(reqs, outs, n - 1);
        let first = tokens_before(reqs, n) - outs[n - 1];
        assert(outs[n - 1] <= reqs[n - 1].seq);
        let added = Seq::new(outs[n - 1] as nat, |i: int| (first + i) as utok);
        let all = out_places(reqs, outs, n);
        assert(all == before + added);
        assert forall|i: int| 0 <= i < all.len() implies #[trigger] all[i] < tokens_before(
            reqs,
            n,
        ) && (i >= before.len() ==> all[i] == first + (i - before.len())) by {
            if i >= before.len() {
                assert(all[i] == added[i - before.len()]);
            } else {
                assert(all[i] == before[i]);
            }
        }
    }
}

/// A session that puts out any token puts out the last one of its part of the round.
pub proof fn law_last_token_is_put_out<C>(reqs: Seq<Req<C>>, outs: Seq<usize>, n: int)
    requires
        0 < n <= paired(reqs, outs),
        outs_fit(reqs, outs),
        outs[n - 1] > 0,
    ensures
        out_places(reqs, outs, n).last() == (tokens_before(reqs, n) - 1) as utok,
{
    assert(outs[n - 1] <= reqs[n - 1].seq);
}

/// Once rounds have ended they do not begin again.
pub proof fn law_the_end_is_final<C, S, F, N>(
    state: LeadState<C, S, F, N>,
    others: bool,
    event: LeadEvent<C, S, F, N>,
)
    requires
        !state.running(),
    ensures
        !state.next(others, event).running(),
        state.launches(event) is None,
{
}

/// Whatever cannot be sent or received ends the rounds, and with them what was under way.
pub proof fn law_failure_ends_the_rounds<C, S, F, N>(
    state: LeadState<C, S, F, N>,
    others: bool,
    event: LeadEvent<C, S, F, N>,
)
    requires
        state.running(),
        state.expects(event),
    ensures
        event == LeadEvent::<C, S, F, N>::Sent(false) || event == LeadEvent::<
            C,
            S,
            F,
            N,
        >::Received(false) <==> state.next(others, event) == LeadState::<C, S, F, N>::ending(others),
        event == LeadEvent::<C, S, F, N>::Sent(false) || event == LeadEvent::<
            C,
            S,
            F,
            N,
        >::Received(false) <==> !state.next(others, event).running(),
{
}

/// Readiness is reported once, before anything else: no event leads back to it.
pub proof fn law_readiness_is_reported_once<C, S, F, N>(
    state: LeadState<C, S, F, N>,
    others: bool,
    event: LeadEvent<C, S, F, N>,
)
    ensures
        !(state.next(others, event) is Ready),
{
}

/// Where there are other devices, they are told to leave before any session is sent back.
pub proof fn law_others_leave_first<C, S, F, N>(
    state: LeadState<C, S, F, N>,
    event: LeadEvent<C, S, F, N>,
)
    requires
        state.expects(event),
        state.next(true, event) is Collecting,
    ensures
        state is Dismissing,
{
}

/// What a batch puts out is sent once it was launched, and nothing comes between.
pub proof fn law_launches_are_answered<C, S, F, N>(
    state: LeadState<C, S, F, N>,
    others: bool,
    event: LeadEvent<C, S, F, N>,
    batch: Batch<C, S, F, N>,
)
    requires
        state.launches(event) == Some(batch),
    ensures
        state.next(others, event) == LeadState::<C, S, F, N>::Launching(batch.output, batch.no_decode),
        state.next(others, event).next(others, LeadEvent::<C, S, F, N>::Launched) is Completing,
{
}

/// A round is answered in full: the sessions without room are reported first, if there are
/// any, and after that what the others put out is sent once, with those that are not to be
/// decoded, as the round has it. Then the next commands are received.
pub proof fn law_rounds_are_answered<C, S, F, N>(
    before: Leader<C, S, F, N>,
    after: Leader<C, S, F, N>,
    round: Round<C, S, F, N>,
    action: LeadAction<C, S, F, N>,
)
    requires
        before.state is Preparing,
        after.state == before.state.next(before.others, LeadEvent::Prepared(round)),
        after.answers(before, LeadEvent::Prepared(round), action),
    ensures
        action is SendOverflow <==> round.overflow@.len() > 0,
        action matches LeadAction::SendOverflow(overflow) ==> overflow == round.overflow,
        ({
            let launching = LeadState::<C, S, F, N>::Launching(
                round.batch.output,
                round.batch.no_decode,
            );
            &&& round.overflow@.len() == 0 ==> after.state == launching
            &&& round.overflow@.len() > 0 ==> after.state.next(
                before.others,
                LeadEvent::Sent(true),
            ) == launching
            &&& launching.next(before.others, LeadEvent::Launched) is Completing
        }),
        forall|leader: Leader<C, S, F, N>, complete: Leader<C, S, F, N>, sent: LeadAction<C, S, F, N>|
            {
                &&& leader.state == LeadState::<C, S, F, N>::Launching(
                    round.batch.output,
                    round.batch.no_decode,
                )
                &&& complete.state is Completing
                &&& #[trigger] complete.answers(leader, LeadEvent::Launched, sent)
            } ==> sent == LeadAction::<C, S, F, N>::SendComplete(
                round.batch.output,
                round.batch.no_decode,
            ),
        LeadState::<C, S, F, N>::Completing.next(before.others, LeadEvent::Sent(true)) is Receiving,
{
}

/// The sessions that are left after `sent` of `left` were sent back, while all can be sent.
pub open spec fn removals<C, S, F, N>(left: usize, sent: nat) -> LeadState<C, S, F, N>
    decreases sent,
{
    if sent == 0 {
        LeadState::<C, S, F, N>::Collecting.next(false, LeadEvent::Collected(left))
    } else {
        removals::<C, S, F, N>(left, (sent - 1) as nat).next(false, LeadEvent::Sent(true))
    }
}

/// Every session that is left is sent back, each in its turn, and then all is done.
pub proof fn law_sessions_are_sent_back<C, S, F, N>(left: usize, sent: nat)
    requires
        sent <= left,
    ensures
        sent < left ==> removals::<C, S, F, N>(left, sent) == LeadState::<C, S, F, N>::Removing(
            sent as usize,
            left,
        ),
        sent == left ==> removals::<C, S, F, N>(left, sent) is Done,
    decreases sent,
{
    if sent > 0 {
        law_sessions_are_sent_back::<C, S, F, N>(left, (sent - 1) as nat);
    }
}

proof fn lemma_tokens_are_summed<C>(reqs: Seq<Req<C>>, n: int)
    requires
        0 <= n <= reqs.len(),
    ensures
        tokens_before(reqs, n) == reqs.take(n).fold_left(0int, |sum: int, r: Req<C>| sum + r.seq),
    decreases n,
{
    let sum = |sum: int, r: Req<C>| sum + r.seq;
    if n > 0 {
        lemma_tokens_are_summed(reqs, n - 1);
        assert(reqs.take(n).drop_last() =~= reqs.take(n - 1));
        assert(reqs.take(n).last() == reqs[n - 1]);
        reveal_with_fuel(Seq::fold_left, 2);
    } else {
        reveal_with_fuel(Seq::fold_left, 2);
    }
}

proof fn lemma_outs_are_summed(outs: Seq<usize>, n: int)
    requires
        0 <= n <= outs.len(),
    ensures
        outs_before(outs, n) == outs.take(n).fold_left(0int, |sum: int, out: usize| sum + out),
    decreases n,
{
    reveal_with_fuel(Seq::fold_left, 2);
    if n > 0 {
        lemma_outs_are_summed(outs, n - 1);
        assert(outs.take(n).drop_last() =~= outs.take(n - 1));
        assert(outs.take(n).last() == outs[n - 1]);
    }
}

proof fn lemma_places_of_a_request<C>(reqs: Seq<Req<C>>, outs: Seq<usize>, n: int, k: int, j: int)
    requires
        0 <= k < n <= paired(reqs, outs),
        forall|i: int| 0 <= i < n ==> #[trigger] outs[i] <= reqs[i].seq,
        0 <= j < outs[k],
    ensures
        outs_before(outs, k) + j < out_places(reqs, outs, n).len(),
        out_places(reqs, outs, n)[outs_before(outs, k) + j] == (tokens_before(reqs, k)
            + reqs[k].seq - outs[k] + j) as utok,
    decreases n,
{
    law_outputs_are_counted(reqs, outs, n - 1);
    law_outputs_are_counted(reqs, outs, n);
    assert(outs[k] <= reqs[k].seq);
    let before = out_places(reqs, outs, n - 1);
    let first = tokens_before(reqs, n) - outs[n - 1];
    let added = Seq::new(outs[n - 1] as nat, |i: int| (first + i) as utok);
    assert(out_places(reqs, outs, n) == before + added);
    if k < n - 1 {
        lemma_places_of_a_request(reqs, outs, n - 1, k, j);
    } else {
        assert((before + added)[before.len() + j] == added[j]);
    }
}

/// The tokens that request `k` puts out are the last ones of it: they stand behind the tokens
/// of all requests before it, in their order, and in the result behind what those put out.
pub proof fn law_each_request_puts_out_its_last_tokens<C>(
    reqs: Seq<Req<C>>,
    outs: Seq<usize>,
    k: int,
    j: int,
)
    requires
        0 <= k < reqs.len(),
        k < outs.len(),
        forall|i: int| 0 <= i < reqs.len() && i < outs.len() ==> #[trigger] outs[i] <= reqs[i].seq,
        0 <= j < outs[k],
    ensures
        ({
            let places = out_places(reqs, outs, paired(reqs, outs));
            let tokens = reqs.take(k).fold_left(0int, |sum: int, r: Req<C>| sum + r.seq);
            let put_out = outs.take(k).fold_left(0int, |sum: int, out: usize| sum + out);
            &&& 0 <= put_out + j < places.len()
            &&& places[put_out + j] == (tokens + reqs[k].seq - outs[k] + j) as utok
        }),
{
    lemma_places_of_a_request(reqs, outs, paired(reqs, outs), k, j);
    lemma_tokens_are_summed(reqs, k);
    lemma_outs_are_summed(outs, k);
}

/// A round puts out as many tokens as its requests do together, and every one of them is among
/// the tokens that the requests have together.
pub proof fn law_places_are_tokens_of_the_round<C>(reqs: Seq<Req<C>>, outs: Seq<usize>)
    requires
        reqs.len() == outs.len(),
        forall|i: int| 0 <= i < reqs.len() ==> #[trigger] outs[i] <= reqs[i].seq,
        reqs.fold_left(0int, |sum: int, r: Req<C>| sum + r.seq) <= utok::MAX,
    ensures
        ({
            let places = out_places(reqs, outs, paired(reqs, outs));
            let tokens = reqs.fold_left(0int, |sum: int, r: Req<C>| sum + r.seq);
            &&& places.len() == outs.fold_left(0int, |sum: int, out: usize| sum + out)
            &&& forall|i: int| 0 <= i < places.len() ==> #[trigger] places[i] < tokens
            &&& forall|i: int, j: int| 0 <= i < j < places.len() ==> places[i] < places[j]
        }),
{
    let n = reqs.len() as int;
    assert(reqs.take(n) =~= reqs);
    assert(outs.take(n) =~= outs);
    lemma_tokens_are_summed(reqs, n);
    lemma_outs_are_summed(outs, n);
    law_outputs_are_counted(reqs, outs, n);
    assert(tokens_before(reqs, n) <= u32::MAX <= usize::MAX);
    law_outputs_ascend(reqs, outs, n);
}

/// A request alone that puts out one token puts out its last one.
pub proof fn law_one_request_puts_out_its_last_token<C>(req: Req<C>)
    requires
        0 < req.seq,
    ensures
        out_places(seq![req], seq![1usize], paired(seq![req], seq![1usize])) == seq![
            (req.seq - 1) as utok,
        ],
{
    let reqs = seq![req];
    let outs = seq![1usize];
    law_each_request_puts_out_its_last_tokens(reqs, outs, 0, 0);
    law_outputs_are_counted(reqs, outs, 1);
    reveal_with_fuel(outs_before, 2);
    reveal_with_fuel(Seq::fold_left, 2);
    assert(reqs.take(0) =~= Seq::<Req<C>>::empty());
    assert(outs.take(0) =~= Seq::<usize>::empty());
    assert(out_places(reqs, outs, 1) =~= seq![(req.seq - 1) as utok]);
}

/// A batch is launched as it is: on the model for the least number of tokens that is enough,
/// with nothing of it changed, and with a result for every token that a session puts out.
pub proof fn law_batches_are_launched_as_they_are<C, S, F, N>(
    before: ModelGroup,
    after: ModelGroup,
    others: bool,
    batch: Batch<C, S, F, N>,
    launch: Launch<C, S, F>,
)
    requires
        is_launch(before, after, others, batch, launch),
        batch.reqs@.len() == batch.output@.len(),
        batch.tokens@.len() <= usize::MAX,
    ensures
        before.keys@.contains(launch.key),
        batch.tokens@.len() <= launch.key,
        forall|i: int|
            0 <= i < before.keys@.len() && batch.tokens@.len() <= #[trigger] before.keys@[i]
                ==> launch.key <= before.keys@[i],
        after.mapped == Some(launch.key),
        before.mapped == Some(launch.key) ==> launch.remap.map is None && launch.remap.unmap is None,
        before.mapped != Some(launch.key) ==> launch.remap.map == Some(launch.key)
            && launch.remap.unmap == before.mapped,
        launch.tokens@ == batch.tokens@,
        launch.fast_map == batch.fast_map,
        launch.sample@ == batch.sample@,
        launch.reqs@ == batch.reqs@,
        launch.share == others,
        launch.keep == launch.out_idx@.len(),
        launch.out_idx@.len() == batch.output@.fold_left(
            0int,
            |sum: int, o: (SessionId, usize)| sum + o.1,
        ),
{
    let output = batch.output@;
    let outs = out_lens(output);
    let n = output.len() as int;
    assert forall|i: int|
        0 <= i < before.keys@.len() && batch.tokens@.len()
            <= #[trigger] before.keys@[i] implies launch.key <= before.keys@[i] by {
        assert(before.keys@.contains(before.keys@[i]));
    }
    law_outputs_are_counted(batch.reqs@, outs, n);
    lemma_outputs_are_summed(output, n);
    assert(output.take(n) =~= output);
}

proof fn lemma_outputs_are_summed(output: Seq<(SessionId, usize)>, n: int)
    requires
        0 <= n <= output.len(),
    ensures
        outs_before(out_lens(output), n) == output.take(n).fold_left(
            0int,
            |sum: int, o: (SessionId, usize)| sum + o.1,
        ),
    decreases n,
{
    reveal_with_fuel(Seq::fold_left, 2);
    if n > 0 {
        lemma_outputs_are_summed(output, n - 1);
        assert(output.take(n).drop_last() =~= output.take(n - 1));
        assert(output.take(n).last() == output[n - 1]);
        assert(out_lens(output)[n - 1] == output[n - 1].1);
    }
}

/// In a batch that is launched, session `k` is answered with the last tokens of its request,
/// as many as it puts out, behind those of the sessions before it.
pub proof fn law_sessions_get_their_own_results<C, S, F, N>(
    before: ModelGroup,
    after: ModelGroup,
    others: bool,
    batch: Batch<C, S, F, N>,
    launch: Launch<C, S, F>,
    k: int,
    j: int,
)
    requires
        is_launch(before, after, others, batch, launch),
        0 <= k < batch.reqs@.len() == batch.output@.len(),
        forall|i: int|
            0 <= i < batch.reqs@.len() ==> (#[trigger] batch.output@[i]).1 <= batch.reqs@[i].seq,
        0 <= j < batch.output@[k].1,
    ensures
        ({
            let tokens = batch.reqs@.take(k).fold_left(0int, |sum: int, r: Req<C>| sum + r.seq);
            let put_out = batch.output@.take(k).fold_left(
                0int,
                |sum: int, o: (SessionId, usize)| sum + o.1,
            );
            &&& 0 <= put_out + j < launch.out_idx@.len()
            &&& launch.out_idx@[put_out + j] == (tokens + batch.reqs@[k].seq - batch.output@[k].1
                + j) as utok
        }),
{
    let outs = out_lens(batch.output@);
    assert forall|i: int| 0 <= i < batch.reqs@.len() && i < outs.len() implies #[trigger] outs[i]
        <= batch.reqs@[i].seq by {
        assert(batch.output@[i].1 <= batch.reqs@[i].seq);
    }
    law_each_request_puts_out_its_last_tokens(batch.reqs@, outs, k, j);
    lemma_outs_are_summed(outs, k);
    lemma_outputs_are_summed(batch.output@, k);
}

/// A batch can be launched exactly when it has tokens, a model takes them all, and no session
/// puts out more tokens than its request has.
pub proof fn law_what_can_be_launched<C, S, F, N>(batch: Batch<C, S, F, N>, keys: Seq<usize>)
    requires
        batch.reqs@.len() == batch.output@.len(),
        batch.reqs@.fold_left(0int, |sum: int, r: Req<C>| sum + r.seq) <= usize::MAX,
    ensures
        batch.fits(keys) <==> {
            &&& batch.tokens@.len() > 0
            &&& exists|i: int| 0 <= i < keys.len() && batch.tokens@.len() <= #[trigger] keys[i]
            &&& forall|i: int|
                0 <= i < batch.reqs@.len() ==> (#[trigger] batch.output@[i]).1 <= batch.reqs@[i].seq
        },
{
    let outs = out_lens(batch.output@);
    let n = batch.reqs@.len() as int;
    assert(batch.reqs@.take(n) =~= batch.reqs@);
    lemma_tokens_are_summed(batch.reqs@, n);
    if exists|i: int| 0 <= i < keys.len() && batch.tokens@.len() <= #[trigger] keys[i] {
        let i = choose|i: int| 0 <= i < keys.len() && batch.tokens@.len() <= #[trigger] keys[i];
        assert(keys.contains(keys[i]));
    }
    if exists|k: usize| #[trigger] keys.contains(k) && batch.tokens@.len() <= k {
        let k = choose|k: usize| #[trigger] keys.contains(k) && batch.tokens@.len() <= k;
        let i = choose|i: int| 0 <= i < keys.len() && keys[i] == k;
        assert(batch.tokens@.len() <= keys[i]);
    }
    assert forall|i: int| 0 <= i < n implies #[trigger] outs[i] == batch.output@[i].1 by {}
    if outs_fit(batch.reqs@, outs) {
        assert forall|i: int| 0 <= i < n implies (#[trigger] batch.output@[i]).1
            <= batch.reqs@[i].seq by {
            assert(outs[i] <= batch.reqs@[i].seq);
        }
    }
    if forall|i: int|
        0 <= i < batch.reqs@.len() ==> (#[trigger] batch.output@[i]).1 <= batch.reqs@[i].seq {
        assert forall|i: int| 0 <= i < n implies #[trigger] outs[i] <= batch.reqs@[i].seq by {
            assert(batch.output@[i].1 <= batch.reqs@[i].seq);
        }
    }
}

/// While all goes well, rounds go round: readiness is reported, commands are received, a round
/// is put together and launched, what it puts out is sent, and commands are received again.
pub proof fn law_rounds_go_round<C, S, F, N>(others: bool, round: Round<C, S, F, N>)
    ensures
        ({
            let ready = LeadState::<C, S, F, N>::Ready;
            let receiving = ready.next(others, LeadEvent::Sent(true));
            let preparing = receiving.next(others, LeadEvent::Received(true));
            let prepared = preparing.next(others, LeadEvent::Prepared(round));
            let launching = if round.overflow@.len() > 0 {
                prepared.next(others, LeadEvent::Sent(true))
            } else {
                prepared
            };
            let completing = launching.next(others, LeadEvent::Launched);
            &&& receiving is Receiving
            &&& preparing is Preparing
            &&& launching is Launching
            &&& completing is Completing
            &&& completing.next(others, LeadEvent::Sent(true)) == receiving
            &&& round.overflow@.len() > 0 ==> preparing.launches(LeadEvent::Prepared(round)) is None
                && prepared.launches(LeadEvent::Sent(true)) == Some(round.batch)
            &&& round.overflow@.len() == 0 ==> preparing.launches(LeadEvent::Prepared(round))
                == Some(round.batch)
        }),
{
}

/// What cannot be sent or received ends the rounds from wherever they are: where there are
/// others, they are dismissed first; then what is left is collected.
pub proof fn law_the_end_begins_in_order<C, S, F, N>(
    others: bool,
    batch: Batch<C, S, F, N>,
    left: usize,
)
    ensures
        ({
            let end = LeadState::<C, S, F, N>::Ready.next(others, LeadEvent::Sent(false));
            &&& others ==> end is Dismissing && end.next(others, LeadEvent::Dismissed) is Collecting
            &&& !others ==> end is Collecting
            &&& LeadState::<C, S, F, N>::Receiving.next(others, LeadEvent::Received(false)) == end
            &&& LeadState::Overflowing(batch).next(others, LeadEvent::Sent(false)) == end
            &&& LeadState::<C, S, F, N>::Completing.next(others, LeadEvent::Sent(false)) == end
            &&& LeadState::<C, S, F, N>::Collecting.next(others, LeadEvent::Collected(left)) == if left
                == 0 {
                LeadState::<C, S, F, N>::Done
            } else {
                LeadState::<C, S, F, N>::Removing(0, left)
            }
        }),
{
}

/// One session after the other is sent back, until one cannot be or none is left.
pub proof fn law_sessions_go_back_one_by_one<C, S, F, N>(others: bool, i: usize, left: usize)
    requires
        i < left,
    ensures
        ({
            let state = LeadState::<C, S, F, N>::Removing(i, left);
            &&& state.next(others, LeadEvent::Sent(false)) is Done
            &&& i + 1 == left ==> state.next(others, LeadEvent::Sent(true)) is Done
            &&& i + 1 < left ==> state.next(others, LeadEvent::Sent(true)) == LeadState::<
                C,
                S,
                F,
                N,
            >::Removing((i + 1) as usize, left)
        }),
{
}

/// The leading device does what its state waits for, and nothing else.
pub proof fn law_actions_fit_the_state<C, S, F, N>(
    before: Leader<C, S, F, N>,
    after: Leader<C, S, F, N>,
    event: LeadEvent<C, S, F, N>,
    action: LeadAction<C, S, F, N>,
)
    requires
        after.answers(before, event, action),
    ensures
        action is Receive <==> after.state is Receiving,
        action is Prepare <==> after.state is Preparing,
        action is SendOverflow <==> after.state is Overflowing,
        action is Launch <==> after.state is Launching,
        action is SendComplete <==> after.state is Completing,
        action is Dismiss <==> after.state is Dismissing,
        action is Collect <==> after.state is Collecting,
        action is Leave <==> after.state is Done,
        action is SendRemoved <==> after.state is Removing,
        after.state matches LeadState::Removing(i, _) ==> (action matches LeadAction::SendRemoved(at)
            && at == i),
        after.state is Completing ==> (action matches LeadAction::SendComplete(output, no_decode)
            && (before.state matches LeadState::Launching(o, n) && output@ == o@ && no_decode == n)),
        after.state is Overflowing ==> (action matches LeadAction::SendOverflow(overflow)
            && (event matches LeadEvent::Prepared(round) && overflow@ == round.overflow@)),
        after.state is Launching ==> (action matches LeadAction::Launch(launch) && {
            ||| before.state is Preparing && (event matches LeadEvent::Prepared(round)
                && launch.tokens@ == round.batch.tokens@ && launch.reqs@ == round.batch.reqs@)
            ||| (before.state matches LeadState::Overflowing(batch) && launch.tokens@
                == batch.tokens@ && launch.reqs@ == batch.reqs@)
        }),
{
}

/// Device `i` of `n` has the part with its own number, which is one of `n`.
pub proof fn law_shares_are_numbered(i: int, n: usize)
    requires
        0 <= i < n,
    ensures
        share(i, n).start == i,
        share(i, n).len == 1,
        share(i, n).total == n,
{
}

} // verus!

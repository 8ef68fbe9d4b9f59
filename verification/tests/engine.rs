use llama_serve::engine::{
    engine, ntoks, out_idx, Batch, Distribution, LeadAction, LeadEvent, LeadState, Leader, Request,
    Round, State, Task, WorkStep,
};
use llama_serve::group::{builder, compile, CompileStep, ModelGroup, Op, Remap, Req};
use llama_serve::kv_cache::{KVCache, PageChange};
use llama_serve::session::SessionId;
use llama_serve::tensor::Tensor;

fn req(pos: usize, seq: usize) -> Req<()> {
    Req { kv_cache: (), pos, seq }
}

#[test]
fn stubs() {
    let stub = Request { session: 's', prompt: vec![4, 5, 6], out: 1 }.into_stub();
    assert_eq!(stub.session, 's');
    assert_eq!(stub.state, State { seq: 3, out: 1 });
    assert_eq!(stub.prompt, Some(vec![4, 5, 6]));
}

#[test]
fn one_device_works_alone() {
    let workers = engine(&vec![3], true);
    assert_eq!(workers.len(), 1);
    assert_eq!(workers[0].dev, 3);
    assert_eq!(workers[0].dist, Distribution { start: 0, len: 1, total: 1 });
    assert_eq!(workers[0].barrier, None);
    assert_eq!(workers[0].ntoks, ntoks());
    assert!(workers[0].use_cuda_graph);
}

#[test]
fn several_devices_share() {
    let workers = engine(&vec![2, 5, 7], false);
    assert_eq!(workers.len(), 3);
    for (i, worker) in workers.iter().enumerate() {
        assert_eq!(worker.dev, [2, 5, 7][i]);
        assert_eq!(worker.dist, Distribution { start: i, len: 1, total: 3 });
        assert_eq!(worker.barrier, Some(3));
        assert_eq!(worker.ntoks, vec![1, 8, 32, 64, 128, 256, 1024]);
        assert!(!worker.use_cuda_graph);
    }
}

#[test]
fn places_of_outputs() {
    assert_eq!(out_idx(&vec![req(0, 4), req(7, 1), req(2, 3)], &vec![1, 1, 2]), vec![3, 4, 6, 7]);
    assert_eq!(out_idx(&vec![req(0, 4), req(7, 1)], &vec![0, 1]), vec![4]);
    assert_eq!(out_idx(&vec![req(0, 4), req(7, 1)], &vec![4]), vec![0, 1, 2, 3]);
    assert_eq!(out_idx(&vec![req(0, 4)], &vec![1, 1]), vec![3]);
    assert_eq!(out_idx::<()>(&vec![], &vec![]), Vec::<u32>::new());
}

type Sessions = Vec<SessionId>;

fn batch(tokens: usize, session: usize) -> Batch<(), char, &'static str, Sessions> {
    Batch {
        tokens: vec![1; tokens],
        reqs: vec![req(0, tokens)],
        sample: vec!['s'],
        output: vec![(SessionId(session), 1)],
        fast_map: "fast",
        no_decode: vec![SessionId(100 + session)],
    }
}

fn leader(gpus: Vec<i32>) -> Leader<(), char, &'static str, Sessions> {
    let (leader, max_tok) = engine(&gpus, false).remove(0).lead();
    assert_eq!(max_tok, 1024);
    assert!(matches!(leader.state, LeadState::Ready));
    assert!(matches!(leader.begin(), Some(LeadAction::SendReady)));
    leader
}

#[test]
fn batches_that_can_be_launched() {
    let group = ModelGroup::new(&ntoks());
    assert!(batch(5, 0).check(&group));
    assert!(batch(1024, 0).check(&group));
    assert!(!batch(1025, 0).check(&group));
    let mut empty = batch(1, 0);
    empty.tokens.clear();
    assert!(!empty.check(&group));
    let mut greedy = batch(2, 0);
    greedy.output[0].1 = 3;
    assert!(!greedy.check(&group));
    let mut huge = batch(2, 0);
    huge.reqs = vec![req(0, usize::MAX), req(0, 1)];
    assert!(huge.check(&group));
    huge.output.push((SessionId(1), 1));
    assert!(!huge.check(&group));
}

#[test]
fn rounds_of_the_leader() {
    let mut leader = leader(vec![0]);
    assert!(matches!(leader.step(LeadEvent::Sent(true)), LeadAction::Receive));
    assert!(leader.begin().is_none());
    assert!(matches!(leader.step(LeadEvent::Received(true)), LeadAction::Prepare));
    match leader.step(LeadEvent::Prepared(Round { overflow: vec![], batch: batch(5, 4) })) {
        LeadAction::Launch(launch) => {
            assert_eq!(launch.key, 8);
            assert_eq!(launch.remap, Remap { unmap: None, map: Some(8) });
            assert_eq!(launch.out_idx, vec![4]);
            assert!(!launch.share);
            assert_eq!(launch.tokens, vec![1; 5]);
            assert_eq!(launch.reqs.len(), 1);
            assert_eq!(launch.sample, vec!['s']);
            assert_eq!(launch.fast_map, "fast");
            assert_eq!(launch.keep, 1);
        }
        _ => panic!(),
    }
    match leader.step(LeadEvent::Launched) {
        LeadAction::SendComplete(output, no_decode) => {
            assert_eq!(output, vec![(SessionId(4), 1)]);
            assert_eq!(no_decode, vec![SessionId(104)]);
        }
        _ => panic!(),
    }
    assert!(matches!(leader.step(LeadEvent::Sent(true)), LeadAction::Receive));
    assert!(matches!(leader.step(LeadEvent::Received(true)), LeadAction::Prepare));
    let round = Round { overflow: vec![SessionId(9)], batch: batch(9, 5) };
    match leader.step(LeadEvent::Prepared(round)) {
        LeadAction::SendOverflow(overflow) => assert_eq!(overflow, vec![SessionId(9)]),
        _ => panic!(),
    }
    match leader.step(LeadEvent::Sent(true)) {
        LeadAction::Launch(launch) => {
            assert_eq!(launch.key, 32);
            assert_eq!(launch.remap, Remap { unmap: Some(8), map: Some(32) });
        }
        _ => panic!(),
    }
}

#[test]
fn the_leader_leaves() {
    let mut leader = leader(vec![0]);
    assert!(matches!(leader.step(LeadEvent::Sent(false)), LeadAction::Collect));
    assert!(matches!(leader.step(LeadEvent::Collected(2)), LeadAction::SendRemoved(0)));
    assert!(matches!(leader.step(LeadEvent::Sent(true)), LeadAction::SendRemoved(1)));
    assert!(matches!(leader.step(LeadEvent::Sent(true)), LeadAction::Leave));
    assert!(matches!(leader.state, LeadState::Done));
}

#[test]
fn the_leader_tells_the_others() {
    let mut leader = leader(vec![0, 1]);
    assert!(matches!(leader.step(LeadEvent::Sent(true)), LeadAction::Receive));
    assert!(matches!(leader.step(LeadEvent::Received(true)), LeadAction::Prepare));
    match leader.step(LeadEvent::Prepared(Round { overflow: vec![], batch: batch(1, 4) })) {
        LeadAction::Launch(launch) => assert!(launch.share),
        _ => panic!(),
    }
    assert!(matches!(leader.step(LeadEvent::Launched), LeadAction::SendComplete(_, _)));
    assert!(matches!(leader.step(LeadEvent::Sent(true)), LeadAction::Receive));
    assert!(matches!(leader.step(LeadEvent::Received(false)), LeadAction::Dismiss));
    assert!(matches!(leader.step(LeadEvent::Dismissed), LeadAction::Collect));
    assert!(matches!(leader.step(LeadEvent::Collected(3)), LeadAction::SendRemoved(0)));
    assert!(matches!(leader.step(LeadEvent::Sent(false)), LeadAction::Leave));
}

#[test]
fn nothing_is_left_to_send_back() {
    let mut leader = leader(vec![0]);
    assert!(matches!(leader.step(LeadEvent::Sent(false)), LeadAction::Collect));
    assert!(matches!(leader.step(LeadEvent::Collected(0)), LeadAction::Leave));
}

#[test]
fn followers() {
    let mut follower = engine(&vec![0, 1], false).remove(1).work();
    let task = Some(Task { key: 8, reqs: vec![req(0, 5)] });
    assert_eq!(
        follower.follow(&task, true),
        WorkStep::Join(8, Remap { unmap: None, map: Some(8) }, true)
    );
    assert_eq!(
        follower.follow(&task, false),
        WorkStep::Join(8, Remap { unmap: None, map: None }, false)
    );
    assert_eq!(follower.follow::<()>(&None, true), WorkStep::Leave);
}

#[test]
fn groups_of_models() {
    let mut group = ModelGroup::new(&vec![32, 1, 8, 32]);
    assert_eq!(group.keys, vec![1, 8, 32]);
    assert_eq!(group.mapped, None);
    assert!(group.takes(0) && group.takes(32) && !group.takes(33));
    assert!(!ModelGroup::new(&vec![]).takes(0));
    assert_eq!(group.load_toks(2), (8, Remap { unmap: None, map: Some(8) }));
    assert_eq!(group.load_toks(8), (8, Remap { unmap: None, map: None }));
    assert_eq!(group.load_toks(1), (1, Remap { unmap: Some(8), map: Some(1) }));
    assert_eq!(group.share_toks(32, true), (Remap { unmap: Some(1), map: Some(32) }, true));
    assert_eq!(group.mapped, Some(32));
    assert_eq!(group.map_exec(8), Remap { unmap: Some(32), map: Some(8) });
    assert_eq!(group.map_exec(8), Remap { unmap: None, map: None });
    assert_eq!(group.keys, vec![1, 8, 32]);
}

#[test]
fn devices_meet_before_each_model() {
    let [first, second] = [CompileStep::Compile(4), CompileStep::Compile(2)];
    assert_eq!(
        compile(&vec![4, 2], true),
        vec![CompileStep::Wait, first, CompileStep::Wait, second]
    );
    assert_eq!(compile(&vec![4, 2], false), vec![first, second]);
    assert_eq!(compile(&vec![], true), vec![]);
}

#[test]
fn caches_grow_in_a_round() {
    let group = ModelGroup::new(&ntoks());
    let template = Tensor::new(2, vec![64, 2, 2, 4, 8]);
    let cache = |mapped| {
        let mut cache = KVCache::new(&template, 1, 1);
        cache.mapped = mapped;
        cache
    };
    // a token takes 2 * 2 * 4 * 8 elements of 2 bytes
    let caches = |mapped| vec![cache(7), cache(mapped), cache(8)];
    let mut reqs = vec![
        Req { kv_cache: caches(0), pos: 3, seq: 2 },
        Req { kv_cache: caches(9), pos: 0, seq: 4 },
        Req { kv_cache: caches(1), pos: 2, seq: 2 },
    ];
    let changes = group.launch(8, &mut reqs, 1, 1024);
    assert_eq!(
        changes,
        vec![
            PageChange::Grow { start: 0, end: 2 },
            PageChange::Shrink { start: 1, end: 9 },
            PageChange::Keep,
        ]
    );
    let mapped = reqs.iter().map(|r| r.kv_cache.iter().map(|c| c.mapped).collect::<Vec<_>>());
    assert_eq!(mapped.collect::<Vec<_>>(), vec![vec![7, 2, 8], vec![7, 1, 8], vec![7, 1, 8]]);
    assert_eq!((reqs[0].pos, reqs[0].seq), (3, 2));
    assert_eq!(
        group.launch(8, &mut reqs, 0, 1024),
        vec![
            PageChange::Shrink { start: 2, end: 7 },
            PageChange::Shrink { start: 1, end: 7 },
            PageChange::Shrink { start: 1, end: 7 },
        ]
    );
    assert_eq!(reqs[0].kv_cache.iter().map(|c| c.mapped).collect::<Vec<_>>(), vec![2, 2, 8]);
}

#[test]
fn operators_of_a_distributed_model() {
    let names = builder().into_iter().map(Op::name).collect::<Vec<_>>();
    assert_eq!(
        names,
        vec![
            "embedding",
            "rms-norm",
            "linear",
            "rope",
            "attention",
            "swiglu",
            "concat",
            "split",
            "all-reduce",
        ]
    );
}

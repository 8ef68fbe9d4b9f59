use llama_serve::service_::cache_manager::CacheManager as Caches;
use llama_serve::service_::{common_len, CacheManager};
use llama_serve::session::{suffix, DistKVCache, SessionId};

fn fresh(parts: &'static str) -> DistKVCache<&'static str> {
    DistKVCache { parts, pos: 0 }
}

#[test]
fn common_lengths() {
    assert_eq!(common_len::<u32>(&[], &[]), 0);
    assert_eq!(common_len(&[1, 2, 3], &[1, 2, 3]), 3);
    assert_eq!(common_len(&[1, 2, 3], &[1, 2]), 2);
    assert_eq!(common_len(&[1, 2, 3], &[1, 5, 3]), 1);
    assert_eq!(common_len(&['a'], &['b']), 0);
}

#[test]
fn suffixes() {
    assert_eq!(suffix(&vec![1, 2, 3], 0), vec![1, 2, 3]);
    assert_eq!(suffix(&vec![1, 2, 3], 2), vec![3]);
    assert_eq!(suffix(&vec![1, 2, 3], 3), Vec::<u32>::new());
}

#[test]
fn nothing_is_kept_at_first() {
    let mut manager = CacheManager::new();
    let sent = manager.send(vec![1, 2, 3], (), || fresh("new"));
    assert_eq!(sent.id, SessionId(0));
    assert_eq!(sent.tokens, vec![1, 2, 3]);
    assert_eq!(sent.session.id, SessionId(0));
    assert_eq!(sent.session.cache.parts, "new");
    assert_eq!(sent.input, vec![1, 2, 3]);
    let sent = manager.send(vec![4], (), || fresh("new"));
    assert_eq!(sent.id, SessionId(1));
    assert_eq!(manager.next_id, 2);
}

#[test]
fn kept_conversations_go_on() {
    let mut manager = CacheManager::new();
    manager.insert(10, vec![1, 2, 3, 4], fresh("history"));
    let sent = manager.send(vec![1, 2, 3, 4, 5, 6], 'x', || fresh("new"));
    assert_eq!(sent.session.sample_args, 'x');
    assert_eq!(sent.session.cache.parts, "history");
    assert_eq!(sent.session.cache.pos, 4);
    assert_eq!(sent.input, vec![5, 6]);
    let sent = manager.send(vec![1, 2, 3, 4], 'x', || fresh("new"));
    assert_eq!(sent.session.cache.parts, "new");
}

#[test]
fn the_longest_common_start_is_best() {
    let mut caches = Caches::new();
    caches.insert(1, vec![1, 2, 3], fresh("three"));
    caches.insert(2, vec![1, 2, 9], fresh("two"));
    caches.insert(3, vec![7], fresh("none"));
    let sent = caches.send(SessionId(8), vec![1, 2, 3, 5], (), || fresh("new"));
    assert_eq!(sent.id, SessionId(8));
    assert_eq!(sent.session.cache.parts, "three");
    assert_eq!(sent.session.cache.pos, 3);
    assert_eq!(sent.input, vec![5]);
    let sent = caches.send(SessionId(9), vec![1, 2, 3, 5], (), || fresh("new"));
    assert_eq!(sent.session.cache.parts, "two");
    assert_eq!(sent.session.cache.pos, 2);
    let sent = caches.send(SessionId(10), vec![1], (), || fresh("new"));
    assert_eq!(sent.session.cache.parts, "none");
    assert_eq!(sent.session.cache.pos, 0);
    assert_eq!(sent.input, vec![1]);
}

#[test]
fn of_equals_the_latest_is_best() {
    let mut caches = Caches::new();
    caches.insert(5, vec![1, 2], fresh("late"));
    caches.insert(2, vec![1, 3], fresh("early"));
    let sent = caches.send(SessionId(0), vec![1], (), || fresh("new"));
    assert_eq!(sent.session.cache.parts, "late");
    assert_eq!(sent.session.cache.pos, 1);
}

#[test]
fn the_same_time_replaces() {
    let mut caches = Caches::new();
    caches.insert(5, vec![1, 2], fresh("first"));
    caches.insert(5, vec![9], fresh("second"));
    let sent = caches.send(SessionId(0), vec![1, 2], (), || fresh("new"));
    assert_eq!(sent.session.cache.parts, "second");
    let sent = caches.send(SessionId(0), vec![1, 2], (), || fresh("new"));
    assert_eq!(sent.session.cache.parts, "new");
}

//! Caches of finished conversations, kept so that a new one can go on where an old one
//! ended.
use crate::session::{suffix, DistKVCache, Session, SessionId};
use std::collections::BTreeMap;
use tokeneer::utok;
use vstd::prelude::*;

verus! {

broadcast use {vstd::laws_eq::group_laws_eq, vstd::laws_cmp::group_laws_cmp};

/// `==` holds between two values.
pub open spec fn same<T: PartialEq>(a: T, b: T) -> bool {
    vstd::std_specs::cmp::PartialEqSpec::eq_spec(&a, &b)
}

/// `n` is how far `a` and `b` agree, counted from their starts.
pub open spec fn agree_up_to<T: PartialEq>(a: Seq<T>, b: Seq<T>, n: int) -> bool {
    &&& 0 <= n <= a.len()
    &&& n <= b.len()
    &&& forall|i: int|
        0 <= i < n ==> #[trigger] same(a[i], b[i])
    &&& n < a.len() && n < b.len() ==> !same(a[n], b[n])
}

/// How many tokens `a` and `b` have in common at their starts.
pub open spec fn common(a: Seq<utok>, b: Seq<utok>) -> nat
    decreases a.len(),
{
    if a.len() == 0 || b.len() == 0 || a[0] != b[0] {
        0
    } else {
        1 + common(a.drop_first(), b.drop_first())
    }
}

proof fn lemma_common(a: Seq<utok>, b: Seq<utok>, n: int)
    requires
        agree_up_to(a, b, n),
    ensures
        n == common(a, b),
    decreases a.len(),
{
    if n == 0 {
    } else {
        assert(same(a[0], b[0]));
        let a1 = a.drop_first();
        let b1 = b.drop_first();
        assert forall|i: int| 0 <= i < n - 1 implies #[trigger] same(a1[i], b1[i]) by {
            assert(same(a[i + 1], b[i + 1]));
        }
        lemma_common(a1, b1, n - 1);
    }
}

/// What two sequences have in common at their starts is the same in both, is no longer
/// than either, and cannot be made longer.
pub proof fn lemma_common_is_longest(a: Seq<utok>, b: Seq<utok>)
    ensures
        common(a, b) <= a.len(),
        common(a, b) <= b.len(),
        a.take(common(a, b) as int) == b.take(common(a, b) as int),
        forall|n: int|
            0 <= n <= a.len() && n <= b.len() && #[trigger] a.take(n) == b.take(n) ==> n <= common(
                a,
                b,
            ),
    decreases a.len(),
{
    if a.len() == 0 || b.len() == 0 || a[0] != b[0] {
        assert(a.take(0) =~= b.take(0));
        assert forall|n: int|
            0 <= n <= a.len() && n <= b.len() && #[trigger] a.take(n) == b.take(n) implies n
            <= common(a, b) by {
            if n > 0 {
                assert(a.take(n)[0] == a[0]);
                assert(b.take(n)[0] == b[0]);
            }
        }
    } else {
        let a1 = a.drop_first();
        let b1 = b.drop_first();
        lemma_common_is_longest(a1, b1);
        let m = common(a1, b1) as int;
        assert(a.take(m + 1) =~= seq![a[0]] + a1.take(m));
        assert(b.take(m + 1) =~= seq![b[0]] + b1.take(m));
        assert forall|n: int|
            0 <= n <= a.len() && n <= b.len() && #[trigger] a.take(n) == b.take(n) implies n
            <= common(a, b) by {
            if n > 0 {
                assert(a1.take(n - 1) =~= a.take(n).drop_first());
                assert(b1.take(n - 1) =~= b.take(n).drop_first());
                assert(a1.take(n - 1) == b1.take(n - 1));
            }
        }
    }
}

/// Counts how far `a` and `b` agree, from their starts.
pub fn common_len<T: Eq>(a: &[T], b: &[T]) -> (n: usize)
    requires
        vstd::laws_eq::obeys_eq::<T>(),
    ensures
        agree_up_to(a@, b@, n as int),
{
    let mut n: usize = 0;
    while n < a.len() && n < b.len() && a[n] == b[n]
        invariant
            vstd::laws_eq::obeys_eq::<T>(),
            n <= a@.len(),
            n <= b@.len(),
            forall|i: int|
                0 <= i < n ==> #[trigger] same(a@[i], b@[i]),
        decreases a@.len() - n,
    {
        n = n + 1;
    }
    n
}

/// The kept caches, each under the time at which it was put away, with the tokens that it
/// stands for.
pub type Caches<P> = Map<u64, (Vec<utok>, DistKVCache<P>)>;

/// `key` is the cache to go on from for `tokens`: no other cache has more of them at its
/// start, and of those that have as many it was put away last.
pub open spec fn is_best<P>(caches: Caches<P>, tokens: Seq<utok>, key: u64) -> bool {
    &&& caches.contains_key(key)
    &&& forall|k: u64| #[trigger]
        caches.contains_key(k) ==> {
            ||| common(caches[k].0@, tokens) < common(caches[key].0@, tokens)
            ||| common(caches[k].0@, tokens) == common(caches[key].0@, tokens) && k <= key
        }
}

/// The cache to go on from for `tokens`.
pub open spec fn best_key<P>(caches: Caches<P>, tokens: Seq<utok>) -> u64 {
    choose|key: u64| is_best(caches, tokens, key)
}

/// There is one cache to go on from, not two.
pub proof fn lemma_best_is_unique<P>(caches: Caches<P>, tokens: Seq<utok>, a: u64, b: u64)
    requires
        is_best(caches, tokens, a),
        is_best(caches, tokens, b),
    ensures
        a == b,
{
}

spec fn weight<P>(caches: Caches<P>, tokens: Seq<utok>, key: u64) -> int {
    common(caches[key].0@, tokens) * 0x1_0000_0000_0000_0000 + key
}

proof fn lemma_best_from<P>(caches: Caches<P>, tokens: Seq<utok>, key: u64)
    requires
        caches.contains_key(key),
    ensures
        is_best(caches, tokens, best_key(caches, tokens)),
    decreases (tokens.len() + 1) * 0x1_0000_0000_0000_0000 - weight(caches, tokens, key),
{
    if !is_best(caches, tokens, key) {
        let next = choose|k: u64|
            caches.contains_key(k) && !(common(caches[k].0@, tokens) < common(
                caches[key].0@,
                tokens,
            ) || common(caches[k].0@, tokens) == common(caches[key].0@, tokens) && k <= key);
        lemma_common_is_longest(caches[next].0@, tokens);
        lemma_common_is_longest(caches[key].0@, tokens);
        lemma_best_from(caches, tokens, next);
    }
}

/// Where anything is kept, there is a cache to go on from.
pub proof fn law_best_exists<P>(caches: Caches<P>, tokens: Seq<utok>)
    requires
        !caches.is_empty(),
    ensures
        is_best(caches, tokens, best_key(caches, tokens)),
{
    let key = choose|k: u64| caches.contains_key(k);
    if !caches.contains_key(key) {
        assert(caches.dom() =~= Set::<u64>::empty());
    }
    lemma_best_from(caches, tokens, key);
}

/// What the chosen cache stands for and what is still fed make up the request: nothing of
/// it is left out and nothing is fed twice.
pub proof fn law_cached_and_fed_make_the_request<P>(caches: Caches<P>, tokens: Seq<utok>, key: u64)
    requires
        caches.contains_key(key),
    ensures
        ({
            let pos = common(caches[key].0@, tokens) as int;
            caches[key].0@.take(pos) + tokens.skip(pos) == tokens
        }),
{
    lemma_common_is_longest(caches[key].0@, tokens);
    let pos = common(caches[key].0@, tokens) as int;
    assert(tokens.take(pos) + tokens.skip(pos) =~= tokens);
}

/// A request that takes a kept conversation up again is fed no token of what that
/// conversation held.
pub proof fn law_kept_conversation_is_not_fed_again<P>(
    caches: Caches<P>,
    tokens: Seq<utok>,
    key: u64,
)
    requires
        caches.contains_key(key),
        caches[key].0@.is_prefix_of(tokens),
    ensures
        common(caches[best_key(caches, tokens)].0@, tokens) >= caches[key].0@.len(),
{
    lemma_best_from(caches, tokens, key);
    let history = caches[key].0@;
    lemma_common_is_longest(history, tokens);
    assert(history.take(history.len() as int) =~= tokens.take(history.len() as int));
}

/// A conversation that is put away and taken up again alone goes on exactly where it ended.
pub proof fn law_insert_then_send<P>(
    now: u64,
    history: Vec<utok>,
    cache: DistKVCache<P>,
    tokens: Seq<utok>,
)
    requires
        history@.is_prefix_of(tokens),
    ensures
        ({
            let caches: Caches<P> = Map::empty().insert(now, (history, cache));
            &&& best_key(caches, tokens) == now
            &&& common(caches[now].0@, tokens) == history@.len()
            &&& caches.remove(now) == Map::<u64, (Vec<utok>, DistKVCache<P>)>::empty()
        }),
{
    let caches: Caches<P> = Map::empty().insert(now, (history, cache));
    law_kept_conversation_is_not_fed_again(caches, tokens, now);
    lemma_best_from(caches, tokens, now);
    lemma_common_is_longest(history@, tokens);
    assert(caches.remove(now) =~= Map::<u64, (Vec<utok>, DistKVCache<P>)>::empty());
}

/// What a request comes to: the session to start, the tokens to feed it, and all the
/// tokens of the request under its session's name.
pub struct Sent<S, P> {
    pub id: SessionId,
    pub tokens: Vec<utok>,
    pub session: Session<S, DistKVCache<P>>,
    pub input: Vec<utok>,
}

/// Keeps the caches of finished conversations.
pub struct CacheManager<P> {
    caches: BTreeMap<u64, (Vec<utok>, DistKVCache<P>)>,
}

impl<P> View for CacheManager<P> {
    type V = Caches<P>;

    closed spec fn view(&self) -> Caches<P> {
        self.caches@
    }
}

impl<P> CacheManager<P> {
    /// A manager that keeps nothing yet.
    pub fn new() -> (manager: Self)
        ensures
            manager@ == Map::<u64, (Vec<utok>, DistKVCache<P>)>::empty(),
    {
        Self { caches: BTreeMap::new() }
    }

    /// Finds the cache that has most of `tokens` at its start, and how many it has.
    fn best(&self, tokens: &Vec<utok>) -> (best: Option<(u64, usize)>)
        ensures
            best is None <==> self@.is_empty(),
            best matches Some((key, len)) ==> is_best(self@, tokens@, key) && len == common(
                self@[key].0@,
                tokens@,
            ),
    {
        let mut best: Option<(u64, usize)> = None;
        let ghost map = self.caches@;
        for kv in it: self.caches.iter()
            invariant
                map == self.caches@,
                map == self@,
                it.seq().len() == map.dom().len(),
                forall|i: int|
                    0 <= i < it.seq().len() ==> map.contains_key(*(#[trigger] it.seq()[i]).0)
                        && map[*it.seq()[i].0] == *it.seq()[i].1,
                forall|k: u64| #[trigger]
                    map.contains_key(k) ==> it.seq().contains((&k, &map[k])),
                best is None <==> it.index() == 0,
                best matches Some((key, len)) ==> {
                    &&& len == common(map[key].0@, tokens@)
                    &&& exists|i: int| 0 <= i < it.index() && *(#[trigger] it.seq()[i]).0 == key
                    &&& forall|i: int|
                        0 <= i < it.index() ==> {
                            let k = *(#[trigger] it.seq()[i]).0;
                            ||| common(map[k].0@, tokens@) < len
                            ||| common(map[k].0@, tokens@) == len && k <= key
                        }
                },
        {
            let len: usize = common_len(kv.1.0.as_slice(), tokens.as_slice());
            proof {
                lemma_common(kv.1.0@, tokens@, len as int);
            }
            let better: bool = match best {
                None => true,
                Some((key, most)) => most < len || most == len && key <= *kv.0,
            };
            if better {
                best = Some((*kv.0, len));
            }
        }
        best
    }

    /// Starts session `id` on `tokens`: from the cache that has most of them at its start,
    /// if any is kept, else from what `new_cache` gives. Only the tokens that the cache
    /// lacks are fed to the session.
    pub fn send<S, F: FnOnce() -> DistKVCache<P>>(
        &mut self,
        id: SessionId,
        tokens: Vec<utok>,
        sample_args: S,
        new_cache: F,
    ) -> (sent: Sent<S, P>)
        requires
            new_cache.requires(()),
            forall|cache: DistKVCache<P>|
                new_cache.ensures((), cache) ==> cache.pos <= tokens@.len(),
        ensures
            sent.id == id,
            sent.tokens == tokens,
            sent.session.id == id,
            sent.session.sample_args == sample_args,
            sent.input@ == tokens@.skip(sent.session.cache.pos as int),
            old(self)@.is_empty() ==> final(self)@ == old(self)@ && new_cache.ensures(
                (),
                sent.session.cache,
            ),
            !old(self)@.is_empty() ==> {
                let key = best_key(old(self)@, tokens@);
                &&& is_best(old(self)@, tokens@, key)
                &&& final(self)@ == old(self)@.remove(key)
                &&& sent.session.cache.parts == old(self)@[key].1.parts
                &&& sent.session.cache.pos == common(old(self)@[key].0@, tokens@)
            },
    {
        let cache: DistKVCache<P> = match self.best(&tokens) {
            Some((key, pos)) => {
                proof {
                    lemma_best_is_unique(self@, tokens@, key, best_key(self@, tokens@));
                    lemma_common_is_longest(self@[key].0@, tokens@);
                }
                match self.caches.remove(&key) {
                    Some((_, cache)) => DistKVCache { parts: cache.parts, pos },
                    None => {
                        assert(false);
                        new_cache()
                    },
                }
            },
            None => new_cache(),
        };
        let input = suffix(&tokens, cache.pos);
        Sent { id, tokens, session: Session { id, sample_args, cache }, input }
    }

    /// Puts a cache away at time `now`, with the tokens that it stands for. What was put
    /// away at the very same time gives way.
    pub fn insert(&mut self, now: u64, tokens: Vec<utok>, cache: DistKVCache<P>)
        ensures
            final(self)@ == old(self)@.insert(now, (tokens, cache)),
    {
        self.caches.insert(now, (tokens, cache));
    }
}

/// The cache to go on from agrees with the request as far as any cache that is kept: where one
/// agrees with it in `n` tokens, so does this one; and of those that agree as far, it was put
/// away last.
pub proof fn law_the_longest_is_taken_up<P>(
    caches: Caches<P>,
    tokens: Seq<utok>,
    key: u64,
    other: u64,
    n: int,
)
    requires
        is_best(caches, tokens, key),
        caches.contains_key(other),
        0 <= n <= caches[other].0@.len(),
        n <= tokens.len(),
        caches[other].0@.take(n) == tokens.take(n),
    ensures
        caches.contains_key(key),
        n <= caches[key].0@.len(),
        caches[key].0@.take(n) == tokens.take(n),
        n == caches[key].0@.len() || n == tokens.len() || caches[key].0@[n] != tokens[n]
            ==> other <= key,
{
    let kept = caches[key].0@;
    let len = common(kept, tokens) as int;
    lemma_common_is_longest(caches[other].0@, tokens);
    lemma_common_is_longest(kept, tokens);
    assert(kept.take(n) =~= kept.take(len).take(n));
    assert(tokens.take(n) =~= tokens.take(len).take(n));
    if n < len {
        assert(kept.take(len)[n] == tokens.take(len)[n]);
    }
}

/// How far two sequences of tokens agree: they are the same up to there, and not one token
/// further.
pub proof fn law_agreeing_is_exact(a: Seq<utok>, b: Seq<utok>, n: int)
    requires
        agree_up_to(a, b, n),
    ensures
        0 <= n <= a.len(),
        n <= b.len(),
        a.take(n) == b.take(n),
        n < a.len() && n < b.len() ==> a[n] != b[n],
        n == common(a, b),
{
    lemma_common(a, b, n);
    lemma_common_is_longest(a, b);
    if n < a.len() && n < b.len() && a[n] == b[n] {
        assert(a.take(n + 1) =~= a.take(n).push(a[n]));
        assert(b.take(n + 1) =~= b.take(n).push(b[n]));
        assert(a.take(n + 1) == b.take(n + 1));
    }
}

} // verus!

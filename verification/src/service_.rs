//! A cache manager that names the sessions itself.
use crate::session::{DistKVCache, SessionId};
use tokeneer::utok;
use vstd::prelude::*;

pub mod cache_manager;

pub use cache_manager::{common_len, Sent};

verus! {

/// Keeps the caches of finished conversations and numbers the sessions that it starts.
pub struct CacheManager<P> {
    pub caches: cache_manager::CacheManager<P>,
    pub next_id: usize,
}

impl<P> CacheManager<P> {
    /// A manager that keeps nothing and whose first session is number 0.
    pub fn new() -> (manager: Self)
        ensures
            manager.caches@ == Map::<u64, (Vec<utok>, DistKVCache<P>)>::empty(),
            manager.next_id == 0,
    {
        Self { caches: cache_manager::CacheManager::new(), next_id: 0 }
    }

    /// Starts the next session on the tokens of a request.
    pub fn send<S, F: FnOnce() -> DistKVCache<P>>(
        &mut self,
        tokens: Vec<utok>,
        sample_args: S,
        new_cache: F,
    ) -> (sent: Sent<S, P>)
        requires
            old(self).next_id < usize::MAX,
            new_cache.requires(()),
            forall|cache: DistKVCache<P>|
                new_cache.ensures((), cache) ==> cache.pos <= tokens@.len(),
        ensures
            final(self).next_id == old(self).next_id + 1,
            sent.id == SessionId(old(self).next_id),
            sent.tokens == tokens,
            sent.session.id == sent.id,
            sent.session.sample_args == sample_args,
            sent.input@ == tokens@.skip(sent.session.cache.pos as int),
            old(self).caches@.is_empty() ==> final(self).caches@ == old(self).caches@
                && new_cache.ensures((), sent.session.cache),
            !old(self).caches@.is_empty() ==> {
                let key = cache_manager::best_key(old(self).caches@, tokens@);
                &&& cache_manager::is_best(old(self).caches@, tokens@, key)
                &&& final(self).caches@ == old(self).caches@.remove(key)
                &&& sent.session.cache.parts == old(self).caches@[key].1.parts
                &&& sent.session.cache.pos == cache_manager::common(
                    old(self).caches@[key].0@,
                    tokens@,
                )
            },
    {
        let id = SessionId(self.next_id);
        self.next_id = self.next_id + 1;
        self.caches.send(id, tokens, sample_args, new_cache)
    }

    /// Puts a cache away at time `now`, with the tokens that it stands for.
    pub fn insert(&mut self, now: u64, tokens: Vec<utok>, cache: DistKVCache<P>)
        ensures
            final(self).next_id == old(self).next_id,
            final(self).caches@ == old(self).caches@.insert(now, (tokens, cache)),
    {
        self.caches.insert(now, tokens, cache)
    }
}

} // verus!

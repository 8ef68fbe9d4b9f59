//! Sessions and the caches that they carry.
use tokeneer::utok;
use vstd::prelude::*;

verus! {

/// Tells one session from another.
#[derive(Clone, Copy, PartialEq, Eq, Structural, PartialOrd, Ord, Hash, Debug)]
pub struct SessionId(pub usize);

/// A key-value cache that is spread over the devices, `pos` tokens of which are in use.
pub struct DistKVCache<P> {
    pub parts: P,
    pub pos: usize,
}

/// A conversation: who it is, how its tokens are sampled, and what is cached of it.
pub struct Session<S, C> {
    pub id: SessionId,
    pub sample_args: S,
    pub cache: C,
}

/// `tokens` without the first `pos` of them.
pub fn suffix(tokens: &Vec<utok>, pos: usize) -> (rest: Vec<utok>)
    requires
        pos <= tokens@.len(),
    ensures
        rest@ == tokens@.skip(pos as int),
{
    let mut rest: Vec<utok> = Vec::new();
    let mut i: usize = pos;
    while i < tokens.len()
        invariant
            pos <= i <= tokens@.len(),
            rest@ == tokens@.subrange(pos as int, i as int),
        decreases tokens@.len() - i,
    {
        rest.push(tokens[i]);
        i = i + 1;
    }
    rest
}

} // verus!

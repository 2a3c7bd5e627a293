//! The counters from which process-local identities are drawn.
use vstd::prelude::*;

verus! {

/// The identity that follows `n`: one more, and zero after the largest.
pub open spec fn id_after(n: u32) -> u32 {
    if n == u32::MAX {
        0
    } else {
        (n + 1) as u32
    }
}

/// The identity reached from `n` by `steps` draws.
pub open spec fn id_after_many(n: u32, steps: nat) -> u32
    decreases steps,
{
    if steps == 0 {
        n
    } else {
        id_after(id_after_many(n, (steps - 1) as nat))
    }
}

/// One draw after `steps` draws is `steps + 1` draws, counted from either end.
pub proof fn lemma_id_after_many_step(n: u32, steps: nat)
    ensures
        id_after_many(id_after(n), steps) == id_after_many(n, steps + 1),
    decreases steps,
{
    if steps > 0 {
        lemma_id_after_many_step(n, (steps - 1) as nat);
    } else {
        assert(id_after_many(n, 0) == n);
        assert(id_after_many(n, 1) == id_after(id_after_many(n, 0)));
    }
}

/// Draws compose: `a` draws and then `b` more are `a + b` draws.
pub proof fn lemma_id_after_many_add(n: u32, a: nat, b: nat)
    ensures
        id_after_many(id_after_many(n, a), b) == id_after_many(n, a + b),
    decreases b,
{
    if b > 0 {
        lemma_id_after_many_add(n, a, (b - 1) as nat);
    }
}

/// Fewer than 2^32 draws never wrap around: the identity is the plain sum
/// modulo 2^32.
pub proof fn lemma_id_after_many_value(n: u32, steps: nat)
    ensures
        id_after_many(n, steps) as int == (n as int + steps as int) % 0x1_0000_0000,
    decreases steps,
{
    if steps > 0 {
        lemma_id_after_many_value(n, (steps - 1) as nat);
    }
}

/// Two draws fewer than 2^32 apart give different identities.
pub proof fn lemma_ids_distinct(n: u32, a: nat, b: nat)
    requires
        a < b,
        b - a < 0x1_0000_0000,
    ensures
        id_after_many(n, a) != id_after_many(n, b),
{
    lemma_id_after_many_value(n, a);
    lemma_id_after_many_value(n, b);
}

/// Source of the identities of frames, hat elements and hats. Each kind has a
/// counter of its own; a counter only moves forward, so two identities of one
/// kind differ unless 2^32 draws lie between them.
pub struct IdSource {
    frames: u32,
    elements: u32,
    hats: u32,
}

impl IdSource {
    /// The identity that the next frame will get.
    pub closed spec fn next_frame(&self) -> u32 {
        self.frames
    }

    /// The identity that the next hat element will get.
    pub closed spec fn next_element(&self) -> u32 {
        self.elements
    }

    /// The identity that the next hat will get.
    pub closed spec fn next_hat(&self) -> u32 {
        self.hats
    }

    /// A source at its start: frames and hats count from 0, elements from 1.
    pub fn new() -> (ids: IdSource)
        ensures
            ids.next_frame() == 0,
            ids.next_element() == 1,
            ids.next_hat() == 0,
    {
        IdSource { frames: 0, elements: 1, hats: 0 }
    }

    /// Draws the next frame identity.
    pub fn take_frame(&mut self) -> (id: u32)
        ensures
            id == old(self).next_frame(),
            final(self).next_frame() == id_after(id),
            final(self).next_element() == old(self).next_element(),
            final(self).next_hat() == old(self).next_hat(),
    {
        let id: u32 = self.frames;
        self.frames = step(id);
        id
    }

    /// Draws the next hat element identity.
    pub fn take_element(&mut self) -> (id: u32)
        ensures
            id == old(self).next_element(),
            final(self).next_element() == id_after(id),
            final(self).next_frame() == old(self).next_frame(),
            final(self).next_hat() == old(self).next_hat(),
    {
        let id: u32 = self.elements;
        self.elements = step(id);
        id
    }

    /// Draws the next hat identity.
    pub fn take_hat(&mut self) -> (id: u32)
        ensures
            id == old(self).next_hat(),
            final(self).next_hat() == id_after(id),
            final(self).next_frame() == old(self).next_frame(),
            final(self).next_element() == old(self).next_element(),
    {
        let id: u32 = self.hats;
        self.hats = step(id);
        id
    }
}

fn step(n: u32) -> (next: u32)
    ensures
        next == id_after(n),
{
    if n == u32::MAX {
        0
    } else {
        n + 1
    }
}

} // verus!

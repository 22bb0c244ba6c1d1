//! The identities of stage executables.

use vstd::prelude::*;

verus! {

/// The counter that executable identities are drawn from. One counter serves
/// every compilation that shall not share an identity with another.
#[derive(Debug)]
pub struct ExecutableIds {
    next: u64,
}

/// The identity that follows `id`: the next number, and zero after the
/// largest one.
pub open spec fn id_after(id: u64) -> u64 {
    if id == u64::MAX {
        0
    } else {
        (id + 1) as u64
    }
}

/// The identity that a counter gives out after it has given out `count`
/// others, where the first one was `first`.
pub open spec fn nth_id(first: u64, count: nat) -> u64
    decreases count,
{
    if count == 0 {
        first
    } else {
        id_after(nth_id(first, (count - 1) as nat))
    }
}

impl ExecutableIds {
    /// The identity that the next call gives out.
    pub closed spec fn upcoming(&self) -> u64 {
        self.next
    }

    /// A counter that starts at zero.
    pub fn new() -> (ids: ExecutableIds)
        ensures
            ids.upcoming() == 0,
    {
        ExecutableIds { next: 0 }
    }

    /// A counter that starts at `first`.
    pub fn starting_at(first: u64) -> (ids: ExecutableIds)
        ensures
            ids.upcoming() == first,
    {
        ExecutableIds { next: first }
    }

    /// The identity that the next call gives out.
    pub fn peek(&self) -> (id: u64)
        ensures
            id == self.upcoming(),
    {
        self.next
    }
}

/// Gives out the next identity, and moves the counter on by one. After the
/// largest number the counter starts again at zero.
pub fn next_executable_id(ids: &mut ExecutableIds) -> (id: u64)
    ensures
        id == old(ids).upcoming(),
        final(ids).upcoming() == id_after(id),
{
    let id = ids.next;
    ids.next = if id == u64::MAX {
        0
    } else {
        id + 1
    };
    id
}

/// As long as the counter does not pass the largest number, the identities it
/// gives out are the successive numbers from the first one on.
pub proof fn lemma_nth_id(first: u64, count: nat)
    requires
        first + count <= u64::MAX,
    ensures
        nth_id(first, count) == first + count,
    decreases count,
{
    if count > 0 {
        lemma_nth_id(first, (count - 1) as nat);
    }
}

/// Successive identities increase strictly: of two calls on one counter, the
/// later one gets the larger identity, as long as the counter does not pass
/// the largest number.
pub proof fn lemma_ids_strictly_increasing(first: u64, earlier: nat, later: nat)
    requires
        earlier < later,
        first + later <= u64::MAX,
    ensures
        nth_id(first, earlier) < nth_id(first, later),
{
    lemma_nth_id(first, earlier);
    lemma_nth_id(first, later);
}

} // verus!

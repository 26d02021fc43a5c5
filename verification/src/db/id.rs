//! Sequential identifiers for stored greetings.

use vstd::prelude::*;

verus! {

/// The number of distinct `u32` values; identifiers wrap around after this many.
pub open spec fn id_space() -> int {
    0x1_0000_0000
}

/// The identifier handed out by the `k`-th call (counting from zero) of `next_id`
/// on a generator created with `new(start)`.
pub open spec fn nth_id(start: u32, k: nat) -> u32 {
    ((start as int + k) % id_space()) as u32
}

/// Hands out identifiers `start, start + 1, ...`, wrapping around at `u32::MAX`.
#[derive(Debug)]
pub struct IdGenerator {
    next_id: u32,
}

impl IdGenerator {
    /// The identifier that the next call of `next_id` returns.
    pub closed spec fn upcoming(&self) -> u32 {
        self.next_id
    }

    /// A generator whose first identifier is 0.
    pub fn default() -> (generator: Self)
        ensures
            generator.upcoming() == 0,
    {
        Self::new(0)
    }

    /// A generator whose first identifier is `start`.
    pub fn new(start: u32) -> (generator: Self)
        ensures
            generator.upcoming() == start,
    {
        Self { next_id: start }
    }

    /// Returns the current identifier and advances the generator by one,
    /// wrapping from `u32::MAX` to 0.
    pub fn next_id(&mut self) -> (id: u32)
        ensures
            id == old(self).upcoming(),
            final(self).upcoming() == nth_id(old(self).upcoming(), 1),
    {
        let id = self.next_id;
        if self.next_id == u32::MAX {
            self.next_id = 0;
        } else {
            self.next_id = self.next_id + 1;
        }
        id
    }
}

/// Advancing `k` times and then once more is advancing `k + 1` times.
pub proof fn lemma_nth_id_step(start: u32, k: nat)
    ensures
        nth_id(nth_id(start, k), 1) == nth_id(start, k + 1),
{
    let a = start as int + k;
    assert(((a % id_space()) + 1) % id_space() == (a + 1) % id_space()) by (nonlinear_arith)
        requires id_space() == 0x1_0000_0000;
}

/// Identifiers handed out by one generator do not repeat within `2^32` calls:
/// the `i`-th and the `j`-th identifier differ whenever `0 < j - i < 2^32`.
pub proof fn lemma_ids_distinct(start: u32, i: nat, j: nat)
    requires
        i < j,
        j - i < id_space(),
    ensures
        nth_id(start, i) != nth_id(start, j),
{
    let a = start as int + i;
    let b = start as int + j;
    assert((a % id_space()) != (b % id_space())) by (nonlinear_arith)
        requires
            id_space() == 0x1_0000_0000,
            a < b,
            b - a < 0x1_0000_0000,
            a >= 0;
}

impl Default for IdGenerator {
    /// A generator whose first identifier is 0.
    fn default() -> (generator: Self)
        ensures
            generator.upcoming() == 0,
    {
        IdGenerator::new(0)
    }
}

/// Successive calls of `next_id`: when each upcoming identifier follows from the
/// one before as `next_id` advances it, the identifier after `i` calls is the
/// start plus `i`, wrapping at `2^32`, and no identifier repeats within `2^32`
/// calls.
pub proof fn lemma_successive_ids(upcoming: Seq<u32>)
    requires
        forall|i: int| 0 <= i < upcoming.len() - 1 ==> upcoming[i + 1] == nth_id(#[trigger] upcoming[i], 1),
    ensures
        forall|i: int| 0 <= i < upcoming.len() ==> #[trigger] upcoming[i] == nth_id(upcoming[0], i as nat),
        forall|i: int, j: int|
            0 <= i < j < upcoming.len() && j - i < id_space() ==> #[trigger] upcoming[i] != #[trigger] upcoming[j],
    decreases upcoming.len(),
{
    if upcoming.len() > 0 {
        let prev = upcoming.drop_last();
        assert forall|i: int| 0 <= i < prev.len() - 1 implies prev[i + 1] == nth_id(#[trigger] prev[i], 1) by {
            assert(prev[i] == upcoming[i] && prev[i + 1] == upcoming[i + 1]);
        }
        lemma_successive_ids(prev);
        let s = upcoming[0];
        assert(nth_id(s, 0) == s) by {
            assert((s as int + 0) % id_space() == s as int);
        }
        assert forall|i: int| 0 <= i < upcoming.len() implies #[trigger] upcoming[i] == nth_id(s, i as nat) by {
            if i < prev.len() {
                assert(prev[i] == upcoming[i]);
                if i > 0 {
                    assert(prev[0] == s);
                }
            } else if i > 0 {
                assert(prev[i - 1] == upcoming[i - 1]);
                assert(prev[0] == s);
                lemma_nth_id_step(s, (i - 1) as nat);
            }
        }
        assert forall|i: int, j: int|
            0 <= i < j < upcoming.len() && j - i < id_space() implies #[trigger] upcoming[i]
            != #[trigger] upcoming[j] by {
            lemma_ids_distinct(s, i as nat, j as nat);
        }
    }
}

} // verus!

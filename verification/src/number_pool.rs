//! Allocation of partition numbers.

use vstd::prelude::*;

verus! {

/// Highest partition number a pool can hand out; numbers run from 1 to this value.
pub const MAX_PARTITIONS: u16 = 256;

/// Whether `n` is the lowest of the numbers 1 to 256 that is not in `used`.
pub open spec fn is_lowest_unused(used: Set<u16>, n: u16) -> bool {
    &&& 1 <= n <= 256
    &&& !used.contains(n)
    &&& forall|m: u16| 1 <= m < n ==> used.contains(m)
}

/// The lowest of the numbers 1 to 256 that is not in `used`, if there is one.
pub open spec fn lowest_unused(used: Set<u16>) -> Option<u16> {
    if exists|n: u16| is_lowest_unused(used, n) {
        Some(choose|n: u16| is_lowest_unused(used, n))
    } else {
        None
    }
}

/// `lowest_unused` names the one number that is the lowest unused, and names none
/// exactly where all of 1 to 256 are used.
pub proof fn lemma_lowest_unused(used: Set<u16>)
    ensures
        forall|n: u16| is_lowest_unused(used, n) <==> lowest_unused(used) == Some(n),
        lowest_unused(used) is None <==> (forall|m: u16| 1 <= m <= 256 ==> used.contains(m)),
{
    assert forall|n: u16| is_lowest_unused(used, n) implies lowest_unused(used) == Some(n) by {
        let c = choose|c: u16| is_lowest_unused(used, c);
        if c < n {
            assert(used.contains(c));
        } else if n < c {
            assert(used.contains(n));
        }
    }
    if forall|m: u16| 1 <= m <= 256 ==> used.contains(m) {
        assert forall|n: u16| !is_lowest_unused(used, n) by {}
    } else {
        let w = choose|m: u16| 1 <= m <= 256 && !used.contains(m);
        lemma_some_lowest(used, w);
    }
}

/// Below an unused number there is a lowest unused one.
proof fn lemma_some_lowest(used: Set<u16>, w: u16)
    requires
        1 <= w <= 256,
        !used.contains(w),
    ensures
        exists|n: u16| is_lowest_unused(used, n),
    decreases w,
{
    if exists|m: u16| 1 <= m < w && !used.contains(m) {
        let m = choose|m: u16| 1 <= m < w && !used.contains(m);
        lemma_some_lowest(used, m);
    } else {
        assert(is_lowest_unused(used, w));
    }
}

/// Membership set over the partition numbers 1 to 256.
#[derive(Debug, Clone)]
pub struct NumberPool {
    inner: [bool; 256],
}

impl View for NumberPool {
    type V = Set<u16>;

    /// The numbers that are marked used.
    closed spec fn view(&self) -> Set<u16> {
        Set::new(|n: u16| 1 <= n <= 256 && self.inner@[n - 1])
    }
}

impl NumberPool {
    /// A pool in which no number is used.
    pub fn new() -> (pool: Self)
        ensures
            pool@ == Set::<u16>::empty(),
    {
        let pool = NumberPool { inner: [false; 256] };
        assert(pool@ =~= Set::<u16>::empty());
        pool
    }

    /// Whether `number` is marked used.
    pub fn is_used(&self, number: u16) -> (used: bool)
        ensures
            used == self@.contains(number),
    {
        if number == 0 || number > MAX_PARTITIONS {
            false
        } else {
            self.inner[(number - 1) as usize]
        }
    }

    /// Marks the lowest unused number as used and returns it; `None`, with the pool
    /// untouched, when all 256 are used.
    pub fn find_available_num(&mut self) -> (found: Option<u16>)
        ensures
            found == lowest_unused(old(self)@),
            match found {
                Some(n) => is_lowest_unused(old(self)@, n) && final(self)@ == old(self)@.insert(n),
                None => *final(self) == *old(self),
            },
    {
        proof {
            lemma_lowest_unused(old(self)@);
        }
        let mut index: usize = 0;
        while index < 256
            invariant
                index <= 256,
                *self == *old(self),
                forall|k: int| 0 <= k < index ==> self.inner@[k],
            decreases 256 - index,
        {
            if !self.inner[index] {
                self.inner[index] = true;
                let number: u16 = (index + 1) as u16;
                assert(final(self)@ =~= old(self)@.insert(number));
                assert(is_lowest_unused(old(self)@, number)) by {
                    assert forall|m: u16| 1 <= m < number implies old(self)@.contains(m) by {
                        assert(old(self).inner@[m - 1]);
                    }
                }
                return Some(number);
            }
            index += 1;
        }
        assert forall|m: u16| 1 <= m <= 256 implies old(self)@.contains(m) by {
            assert(old(self).inner@[m - 1]);
        }
        None
    }

    /// Marks `index` as used.
    pub fn set_used(&mut self, index: u16)
        requires
            1 <= index <= 256,
        ensures
            final(self)@ == old(self)@.insert(index),
    {
        self.inner[(index - 1) as usize] = true;
        assert(final(self)@ =~= old(self)@.insert(index));
    }

    /// Marks `index` as unused.
    pub fn set_unused(&mut self, index: u16)
        requires
            1 <= index <= 256,
        ensures
            final(self)@ == old(self)@.remove(index),
    {
        self.inner[(index - 1) as usize] = false;
        assert(final(self)@ =~= old(self)@.remove(index));
    }
}

} // verus!

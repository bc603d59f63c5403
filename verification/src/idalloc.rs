use vstd::prelude::*;

use crate::error::X11Error;

verus! {

/// 2 to the power `n`.
pub open spec fn two_pow(n: nat) -> nat
    decreases n,
{
    if n == 0 {
        1
    } else {
        2 * two_pow((n - 1) as nat)
    }
}

/// How many bits of `m` are set.
pub open spec fn mask_bits(m: u32) -> nat
    decreases m,
{
    if m == 0 {
        0
    } else {
        ((m % 2) as nat + mask_bits(m / 2)) as nat
    }
}

/// The bits of `v` that sit at the set-bit positions of `m`, gathered low
/// to high into a compact number. This is the inverse of spreading an
/// allocation counter into the mask, so it recovers which allocation an
/// id came from.
pub open spec fn gather_bits(m: u32, v: u32) -> nat
    decreases m,
{
    if m == 0 {
        0
    } else if m % 2 == 1 {
        ((v % 2) as nat + 2 * gather_bits(m / 2, v / 2)) as nat
    } else {
        gather_bits(m / 2, v / 2)
    }
}

proof fn lemma_two_pow_pos(n: nat)
    ensures
        two_pow(n) >= 1,
    decreases n,
{
    if n > 0 {
        lemma_two_pow_pos((n - 1) as nat);
    }
}

proof fn lemma_two_pow_le(a: nat, b: nat)
    requires
        a <= b,
    ensures
        two_pow(a) <= two_pow(b),
    decreases b,
{
    if a < b {
        lemma_two_pow_le(a, (b - 1) as nat);
        lemma_two_pow_pos((b - 1) as nat);
    }
}

proof fn lemma_two_pow_32()
    ensures
        two_pow(31) == 0x8000_0000,
        two_pow(32) == 0x1_0000_0000,
{
    reveal_with_fuel(two_pow, 33);
}

/// A `u32` has at most 32 set bits.
proof fn lemma_mask_bits_bound(m: u32, k: nat)
    requires
        m < two_pow(k),
    ensures
        mask_bits(m) <= k,
    decreases k,
{
    if m > 0 {
        if k == 0 {
        } else {
            assert(m / 2 < two_pow((k - 1) as nat)) by {
                assert(two_pow(k) == 2 * two_pow((k - 1) as nat));
            }
            lemma_mask_bits_bound(m / 2, (k - 1) as nat);
        }
    }
}

proof fn lemma_mask_bits_le_32(m: u32)
    ensures
        mask_bits(m) <= 32,
{
    lemma_two_pow_32();
    lemma_mask_bits_bound(m, 32);
}

/// A value whose bits all sit inside `m` is at most `m`.
proof fn lemma_fits_le(m: u32, v: u32)
    by (bit_vector)
    requires
        v & !m == 0,
    ensures
        v <= m,
{
}

/// Gathering ignores bits outside the mask, so a disjoint base does not
/// disturb the allocation count carried by an id.
proof fn lemma_gather_or_disjoint(m: u32, a: u32, s: u32)
    requires
        a & m == 0,
    ensures
        gather_bits(m, a | s) == gather_bits(m, s),
    decreases m,
{
    if m != 0 {
        assert((a | s) / 2 == (a / 2) | (s / 2)) by (bit_vector);
        assert((a / 2) & (m / 2) == 0) by (bit_vector)
            requires
                a & m == 0,
        ;
        if m % 2 == 1 {
            assert((a | s) % 2 == s % 2) by (bit_vector)
                requires
                    a & m == 0 && m % 2 == 1,
            ;
        }
        lemma_gather_or_disjoint(m / 2, a / 2, s / 2);
    }
}

/// Two ids that carry different allocation counts in the mask bits are
/// different ids: no two allocations in one sequence can collide.
pub proof fn lemma_distinct_counts_distinct_ids(mask: u32, id1: u32, id2: u32)
    requires
        gather_bits(mask, id1) != gather_bits(mask, id2),
    ensures
        id1 != id2,
{
}

/// Spreads counter `c` into the set-bit positions of `mask`: bit `i` of
/// the counter goes to the `i`-th set bit of the mask, low to high.
fn spread_bits(mask: u32, c: u32) -> (r: u32)
    requires
        (c as nat) < two_pow(mask_bits(mask)),
    ensures
        r & !mask == 0,
        gather_bits(mask, r) == c,
    decreases mask,
{
    if mask == 0 {
        proof {
            assert(0u32 & !mask == 0) by (bit_vector);
        }
        0
    } else if mask % 2 == 1 {
        proof {
            assert(two_pow(mask_bits(mask)) == 2 * two_pow(mask_bits(mask / 2)));
        }
        let v = spread_bits(mask / 2, c / 2);
        proof {
            lemma_fits_le(mask / 2, v);
        }
        let bit = c % 2;
        let r = bit + 2 * v;
        proof {
            let m = mask;
            assert((((c % 2) + 2 * v) as u32) & !m == 0) by (bit_vector)
                requires
                    m % 2 == 1 && v & !(m / 2) == 0 && v <= 0x7fff_ffffu32,
            ;
            assert(r % 2 == c % 2 && r / 2 == v);
        }
        r
    } else {
        proof {
            assert(two_pow(mask_bits(mask)) == two_pow(mask_bits(mask / 2)));
        }
        let v = spread_bits(mask / 2, c);
        proof {
            lemma_fits_le(mask / 2, v);
        }
        let r = 2 * v;
        proof {
            let m = mask;
            assert(((2 * v) as u32) & !m == 0) by (bit_vector)
                requires
                    m % 2 == 0 && m != 0 && v & !(m / 2) == 0 && v <= 0x7fff_ffffu32,
            ;
            assert(r % 2 == 0 && r / 2 == v);
        }
        r
    }
}

/// Turns the server-assigned `resource_id_base`/`resource_id_mask` pair
/// into a stream of distinct, protocol-legal resource identifiers. Every
/// id satisfies `(id & !mask) == base`, and the allocation count an id
/// was drawn at can be read back out of its mask bits (`gather_bits`),
/// so no id is ever issued twice. One connection must share a single
/// allocator; concurrent users must serialize access to it.
pub struct IdAllocator {
    base: u32,
    mask: u32,
    counter: u64,
    limit: u64,
}

impl IdAllocator {
    #[verifier::type_invariant]
    spec fn inv(self) -> bool {
        &&& self.base & self.mask == 0
        &&& self.limit == two_pow(mask_bits(self.mask))
        &&& self.counter <= self.limit
    }

    /// The server-assigned base.
    pub closed spec fn spec_base(self) -> u32 {
        self.base
    }

    /// The server-assigned mask.
    pub closed spec fn spec_mask(self) -> u32 {
        self.mask
    }

    /// How many ids have been handed out so far.
    pub closed spec fn allocated(self) -> nat {
        self.counter as nat
    }

    /// True once every id the mask allows has been handed out.
    pub open spec fn exhausted(self) -> bool {
        self.allocated() >= two_pow(mask_bits(self.spec_mask()))
    }

    /// Builds the connection's allocator from the capability
    /// announcement's `resource_id_base` and `resource_id_mask`. The
    /// server owes the client a base with no bits inside the mask.
    pub fn new(base: u32, mask: u32) -> (r: Self)
        requires
            base & mask == 0,
        ensures
            r.spec_base() == base,
            r.spec_mask() == mask,
            r.allocated() == 0,
    {
        let mut m = mask;
        let mut limit: u64 = 1;
        let ghost mut counted: nat = 0;
        while m != 0
            invariant
                limit == two_pow(counted),
                counted + mask_bits(m) == mask_bits(mask),
            decreases m,
        {
            if m % 2 == 1 {
                proof {
                    lemma_mask_bits_le_32(mask);
                    lemma_two_pow_32();
                    lemma_two_pow_le(counted, 31);
                }
                limit = limit * 2;
                proof {
                    counted = counted + 1;
                }
            }
            m = m / 2;
        }
        IdAllocator { base, mask, counter: 0, limit }
    }

    /// Hands out the next resource id: the allocation counter spread into
    /// the mask's set-bit positions, or-ed onto the base. Fails with
    /// `IdSpaceExhausted` once the counter would need more bits than the
    /// mask has.
    pub fn allocate(&mut self) -> (r: Result<u32, X11Error>)
        ensures
            final(self).spec_base() == old(self).spec_base(),
            final(self).spec_mask() == old(self).spec_mask(),
            !old(self).exhausted() ==> ({
                &&& r matches Ok(id) && id & !old(self).spec_mask() == old(self).spec_base()
                    && gather_bits(old(self).spec_mask(), id) == old(self).allocated()
                &&& final(self).allocated() == old(self).allocated() + 1
            }),
            old(self).exhausted() ==> ({
                &&& r matches Err(e) && e == X11Error::IdSpaceExhausted
                &&& final(self).allocated() == old(self).allocated()
            }),
    {
        proof {
            use_type_invariant(&*self);
        }
        if self.counter >= self.limit {
            return Err(X11Error::IdSpaceExhausted);
        }
        proof {
            lemma_mask_bits_le_32(self.mask);
            lemma_two_pow_le(mask_bits(self.mask), 32);
            lemma_two_pow_32();
        }
        let c = self.counter as u32;
        let bits = spread_bits(self.mask, c);
        let id = self.base | bits;
        proof {
            let b = self.base;
            let m = self.mask;
            let s = bits;
            assert((b | s) & !m == b) by (bit_vector)
                requires
                    b & m == 0 && s & !m == 0,
            ;
            lemma_gather_or_disjoint(m, b, s);
        }
        self.counter = self.counter + 1;
        Ok(id)
    }
}

} // verus!

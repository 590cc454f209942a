//! Unbounded natural numbers, stored as a growable sequence of 64-bit
//! limbs, least significant first.  The representation is canonical: the
//! most significant limb is never zero unless the number is the single-limb
//! zero, so two values are equal exactly when their limb sequences are.

use vstd::prelude::*;
use vstd::arithmetic::div_mod::lemma_fundamental_div_mod_converse;
use vstd::arithmetic::div_mod::lemma_mod_mod;

verus! {

pub type NatBase = u64;

/// Radix of the limb representation: one more than `u64::MAX`.
pub open spec fn limb_base() -> nat {
    0x1_0000_0000_0000_0000
}

/// Numeric value of a little-endian limb sequence.
pub open spec fn limbs_value(limbs: Seq<u64>) -> nat
    decreases limbs.len(),
{
    if limbs.len() == 0 {
        0
    } else {
        limbs.first() as nat + limb_base() * limbs_value(limbs.drop_first())
    }
}

/// A limb sequence is canonical when it is non-empty and its most
/// significant limb is zero only in the single-limb representation of zero.
pub open spec fn limbs_canonical(limbs: Seq<u64>) -> bool {
    limbs.len() >= 1 && (limbs.len() == 1 || limbs.last() != 0)
}

/// An unbounded natural number.
pub struct BigNat {
    pub limbs: Vec<NatBase>,
}

impl BigNat {
    /// The abstract value represented.
    pub open spec fn value(self) -> nat {
        limbs_value(self.limbs@)
    }

    /// The limb sequence, least significant first.
    pub open spec fn limbs(self) -> Seq<u64> {
        self.limbs@
    }

    /// Structural invariant: the representation is canonical.
    pub open spec fn wf(self) -> bool {
        limbs_canonical(self.limbs@)
    }

    /// A fresh zero.
    pub fn new() -> (r: Self)
        ensures
            r.wf(),
            r.value() == 0,
    {
        let mut limbs: Vec<u64> = Vec::new();
        limbs.push(0);
        proof {
            assert(limbs@ =~= seq![0u64]);
            assert(limbs@.drop_first() =~= Seq::<u64>::empty());
            assert(limbs_value(Seq::<u64>::empty()) == 0);
            assert(limbs_value(limbs@) == 0);
        }
        BigNat { limbs }
    }

    /// Add exactly one, propagating limb carries.
    pub fn increment(&mut self)
        requires
            old(self).wf(),
        ensures
            final(self).wf(),
            final(self).value() == old(self).value() + 1,
    {
        inc_at(&mut self.limbs, 0);
        proof {
            assert(old(self).limbs@.skip(0) =~= old(self).limbs@);
            assert(self.limbs@.skip(0) =~= self.limbs@);
        }
    }

    /// Reset to zero, replacing the whole representation.
    pub fn zero(&mut self)
        ensures
            final(self).wf(),
            final(self).value() == 0,
    {
        let z = BigNat::new();
        self.limbs = z.limbs;
    }

    /// Compare two values for exact numeric equality.
    pub fn eq_value(&self, other: &Self) -> (r: bool)
        requires
            self.wf(),
            other.wf(),
        ensures
            r == (self.value() == other.value()),
    {
        if self.limbs.len() != other.limbs.len() {
            proof {
                if self.value() == other.value() {
                    lemma_canonical_unique(self.limbs@, other.limbs@);
                }
            }
            return false;
        }
        let n = self.limbs.len();
        let mut i: usize = 0;
        while i < n
            invariant
                n == self.limbs@.len(),
                n == other.limbs@.len(),
                i <= n,
                limbs_canonical(self.limbs@),
                limbs_canonical(other.limbs@),
                forall|j: int| 0 <= j < i ==> self.limbs@[j] == other.limbs@[j],
            decreases n - i,
        {
            if self.limbs[i] != other.limbs[i] {
                proof {
                    if self.value() == other.value() {
                        lemma_canonical_unique(self.limbs@, other.limbs@);
                    }
                }
                return false;
            }
            i += 1;
        }
        proof {
            assert(self.limbs@ =~= other.limbs@);
        }
        true
    }

    /// The value reduced modulo `2^32`, the window the output instruction
    /// interprets as a Unicode code point.
    pub fn out_code(&self) -> (r: u32)
        requires
            self.wf(),
        ensures
            r as nat == self.value() % 0x1_0000_0000,
    {
        let low: u64 = self.limbs[0] % 0x1_0000_0000;
        proof {
            lemma_first_limb_is_mod(self.limbs@);
            lemma_mod_mod(self.value() as int, 0x1_0000_0000, 0x1_0000_0000);
            assert(0x1_0000_0000int * 0x1_0000_0000 == 0x1_0000_0000_0000_0000) by (nonlinear_arith);
        }
        low as u32
    }
}

impl Clone for BigNat {
    /// A deep value copy: later increments of either side leave the other
    /// unchanged.
    fn clone(&self) -> (r: Self)
        ensures
            r.limbs@ == self.limbs@,
            r.wf() == self.wf(),
            r.value() == self.value(),
    {
        let n = self.limbs.len();
        let mut limbs: Vec<u64> = Vec::new();
        let mut i: usize = 0;
        while i < n
            invariant
                n == self.limbs@.len(),
                i <= n,
                limbs@ =~= self.limbs@.take(i as int),
            decreases n - i,
        {
            limbs.push(self.limbs[i]);
            i += 1;
        }
        proof {
            assert(limbs@ =~= self.limbs@);
        }
        BigNat { limbs }
    }
}

/// Carry-propagating increment of the limb suffix that starts at `i`.
fn inc_at(limbs: &mut Vec<u64>, i: usize)
    requires
        i <= old(limbs)@.len(),
    ensures
        final(limbs)@.take(i as int) == old(limbs)@.take(i as int),
        final(limbs)@.len() == old(limbs)@.len() || final(limbs)@.len() == old(limbs)@.len() + 1,
        limbs_value(final(limbs)@.skip(i as int)) == limbs_value(old(limbs)@.skip(i as int)) + 1,
        final(limbs)@.len() == old(limbs)@.len() + 1 ==> final(limbs)@.last() == 1,
        final(limbs)@.len() == old(limbs)@.len() && old(limbs)@.len() > 0 ==> (
            final(limbs)@.last() == old(limbs)@.last()
            || final(limbs)@.last() == old(limbs)@.last() + 1
        ),
    decreases old(limbs)@.len() - i,
{
    if i == limbs.len() {
        limbs.push(1);
        proof {
            assert(old(limbs)@.skip(i as int) =~= Seq::<u64>::empty());
            assert(limbs@.skip(i as int) =~= seq![1u64]);
            assert(seq![1u64].drop_first() =~= Seq::<u64>::empty());
            assert(limbs@.take(i as int) =~= old(limbs)@.take(i as int));
        }
    } else if limbs[i] == u64::MAX {
        limbs.set(i, 0);
        let ghost mid = limbs@;
        inc_at(limbs, i + 1);
        proof {
            lemma_skip_split(old(limbs)@, i as int);
            lemma_skip_split(mid, i as int);
            lemma_skip_split(limbs@, i as int);
            assert(mid.skip(i + 1) =~= old(limbs)@.skip(i + 1));
            assert(limbs@[i as int] == mid[i as int]) by {
                assert(limbs@.take(i + 1 as int) == mid.take(i + 1 as int));
                assert(limbs@.take(i + 1 as int)[i as int] == limbs@[i as int]);
            }
            assert(limbs@.take(i as int) =~= old(limbs)@.take(i as int)) by {
                assert(forall|j: int| 0 <= j < i ==> limbs@.take(i + 1 as int)[j] == limbs@[j]);
            }
            // value(new suffix) = 0 + B * (value(old tail) + 1)
            //                   = (MAX + B * value(old tail)) + 1
            let ghost t = limbs_value(old(limbs)@.skip(i + 1));
            assert(limbs_value(limbs@.skip(i as int))
                == limbs_value(old(limbs)@.skip(i as int)) + 1) by {
                assert(limb_base() * (t + 1) == limb_base() * t + limb_base())
                    by (nonlinear_arith);
            }
            if limbs@.len() == old(limbs)@.len() && old(limbs)@.len() > 0 {
                assert(i < old(limbs)@.len());
                if i + 1 < old(limbs)@.len() {
                    assert(mid.last() == old(limbs)@.last());
                } else {
                    // the zeroed limb was the last one, so the recursive call
                    // must have pushed; lengths cannot match
                    assert(limbs_value(mid.skip(i + 1)) == 0) by {
                        assert(mid.skip(i + 1) =~= Seq::<u64>::empty());
                    }
                    assert(false) by {
                        assert(limbs@.skip(i + 1).len() == 0);
                        assert(limbs_value(limbs@.skip(i + 1)) == 1);
                    }
                }
            }
        }
    } else {
        let v = limbs[i];
        limbs.set(i, v + 1);
        proof {
            lemma_skip_split(old(limbs)@, i as int);
            lemma_skip_split(limbs@, i as int);
            assert(limbs@.skip(i + 1) =~= old(limbs)@.skip(i + 1));
            assert(limbs@.take(i as int) =~= old(limbs)@.take(i as int));
            if old(limbs)@.len() > 0 {
                if i + 1 < old(limbs)@.len() {
                    assert(limbs@.last() == old(limbs)@.last());
                } else {
                    assert(limbs@.last() == old(limbs)@.last() + 1);
                }
            }
        }
    }
}

/// Splitting a non-empty suffix at its head:
/// `value(s[i..]) == s[i] + B * value(s[i+1..])`.
proof fn lemma_skip_split(s: Seq<u64>, i: int)
    requires
        0 <= i < s.len(),
    ensures
        limbs_value(s.skip(i)) == s[i] as nat + limb_base() * limbs_value(s.skip(i + 1)),
{
    assert(s.skip(i).len() > 0);
    assert(s.skip(i).first() == s[i]);
    assert(s.skip(i).drop_first() =~= s.skip(i + 1));
}

/// A canonical sequence whose last limb is non-zero represents a positive
/// value.
proof fn lemma_value_pos(s: Seq<u64>)
    requires
        s.len() >= 1,
        s.last() != 0,
    ensures
        limbs_value(s) >= 1,
    decreases s.len(),
{
    if s.len() == 1 {
        assert(s.first() == s.last());
    } else {
        let rest = s.drop_first();
        assert(rest.last() == s.last());
        lemma_value_pos(rest);
        assert(limb_base() * limbs_value(rest) >= limb_base()) by (nonlinear_arith)
            requires limbs_value(rest) >= 1;
    }
}

/// The first limb of a non-empty sequence is the value modulo the base,
/// and the rest of the sequence represents the quotient.
proof fn lemma_first_limb_is_mod(s: Seq<u64>)
    requires
        s.len() >= 1,
    ensures
        (limbs_value(s) as int) % (limb_base() as int) == s.first() as int,
        (limbs_value(s) as int) / (limb_base() as int) == limbs_value(s.drop_first()) as int,
{
    lemma_fundamental_div_mod_converse(
        limbs_value(s) as int,
        limb_base() as int,
        limbs_value(s.drop_first()) as int,
        s.first() as int,
    );
}

/// Law: a single-limb register incremented exactly `2^64` times (so that its
/// value is `2^64`) carries into a second limb holding one while the first
/// resets to zero, and that two-limb value is distinct from zero.
pub proof fn lemma_carry_into_second_limb(b: BigNat)
    requires
        b.wf(),
        b.value() == 0x1_0000_0000_0000_0000,
    ensures
        b.limbs() == seq![0u64, 1u64],
        b.value() != limbs_value(seq![0u64]),
{
    let two = seq![0u64, 1u64];
    assert(two.drop_first() =~= seq![1u64]);
    assert(seq![1u64].drop_first() =~= Seq::<u64>::empty());
    assert(limbs_value(Seq::<u64>::empty()) == 0);
    assert(limbs_value(seq![1u64]) == 1);
    assert(limbs_value(two) == limb_base());
    assert(limbs_value(seq![0u64]) == 0) by {
        assert(seq![0u64].drop_first() =~= Seq::<u64>::empty());
    }
    lemma_canonical_unique(b.limbs@, two);
}

/// Canonical representations are unique: equal values have equal limbs.
pub proof fn lemma_canonical_unique(a: Seq<u64>, b: Seq<u64>)
    requires
        limbs_canonical(a),
        limbs_canonical(b),
        limbs_value(a) == limbs_value(b),
    ensures
        a == b,
    decreases a.len(),
{
    lemma_first_limb_is_mod(a);
    lemma_first_limb_is_mod(b);
    if a.len() == 1 && b.len() == 1 {
        assert(a =~= b);
    } else if a.len() > 1 && b.len() > 1 {
        assert(a.first() == b.first());
        let ra = a.drop_first();
        let rb = b.drop_first();
        assert(ra.last() == a.last() && rb.last() == b.last());
        lemma_canonical_unique(ra, rb);
        assert(a =~= b) by {
            assert(forall|j: int| 1 <= j < a.len() ==> a[j] == ra[j - 1] && b[j] == rb[j - 1]);
        }
    } else {
        // one side is a single limb, the other has at least two limbs and
        // therefore a strictly larger value: impossible
        let (small, big) = if a.len() == 1 { (a, b) } else { (b, a) };
        assert(limbs_value(small) == small.first() as nat) by {
            assert(small.drop_first() =~= Seq::<u64>::empty());
        }
        let rest = big.drop_first();
        assert(rest.last() == big.last());
        lemma_value_pos(rest);
        assert(limb_base() * limbs_value(rest) >= limb_base()) by (nonlinear_arith)
            requires limbs_value(rest) >= 1;
        assert(limbs_value(big) >= limb_base());
    }
}

} // verus!

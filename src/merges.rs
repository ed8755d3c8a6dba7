//! The merge table of the byte-pair strategy: a map from an ordered pair of
//! tokens to the token that replaces the pair.

use std::collections::HashMap;
use vstd::prelude::*;

verus! {

broadcast use vstd::std_specs::hash::group_hash_axioms;

/// The hash key of the token pair `(a, b)`: `a` in the high half, `b` in the low half.
pub open spec fn pair_key(a: u16, b: u16) -> u32 {
    (a as int * 65536 + b as int) as u32
}

/// Distinct pairs have distinct keys.
proof fn lemma_pair_key_injective(a: u16, b: u16, c: u16, d: u16)
    requires
        pair_key(a, b) == pair_key(c, d),
    ensures
        a == c && b == d,
{
}

/// The token pair that a hash key stands for.
pub open spec fn key_pair(k: u32) -> (u16, u16) {
    ((k / 65536) as u16, (k % 65536) as u16)
}

/// Keys and pairs correspond one to one.
proof fn lemma_key_pair_round_trip(a: u16, b: u16, k: u32)
    ensures
        key_pair(pair_key(a, b)) == (a, b),
        pair_key(key_pair(k).0, key_pair(k).1) == k,
{
    assert(((a as int * 65536 + b as int) / 65536) == a as int) by (nonlinear_arith)
        requires 0 <= b < 65536;
    assert(((a as int * 65536 + b as int) % 65536) == b as int) by (nonlinear_arith)
        requires 0 <= b < 65536;
    assert((k as int / 65536) * 65536 + (k as int % 65536) == k as int) by (nonlinear_arith);
    assert(k as int / 65536 < 65536) by (nonlinear_arith)
        requires k < 4294967296int;
}

/// A table of merge rules `(left, right) -> merged`, shared read-only by every worker.
pub struct BpeMerges {
    rules: HashMap<u32, u16>,
}

impl View for BpeMerges {
    type V = Map<(u16, u16), u16>;

    closed spec fn view(&self) -> Map<(u16, u16), u16> {
        Map::new(
            |p: (u16, u16)| self.rules@.contains_key(pair_key(p.0, p.1)),
            |p: (u16, u16)| self.rules@[pair_key(p.0, p.1)],
        )
    }
}

fn key_of(a: u16, b: u16) -> (r: u32)
    ensures
        r == pair_key(a, b),
{
    (a as u32) * 65536 + (b as u32)
}

impl BpeMerges {
    /// An empty table.
    pub fn new() -> (r: BpeMerges)
        ensures
            r@ == Map::<(u16, u16), u16>::empty(),
    {
        let r = BpeMerges { rules: HashMap::new() };
        assert(r@ =~= Map::<(u16, u16), u16>::empty());
        r
    }

    /// Adds the rule `(a, b) -> merged`, replacing an earlier rule for the same pair.
    pub fn insert(&mut self, a: u16, b: u16, merged: u16)
        ensures
            final(self)@ == old(self)@.insert((a, b), merged),
    {
        let k = key_of(a, b);
        self.rules.insert(k, merged);
        assert forall|p: (u16, u16)| #[trigger] final(self)@.contains_key(p) == old(self)@.insert((a, b), merged).contains_key(p) by {
            if pair_key(p.0, p.1) == k {
                lemma_pair_key_injective(p.0, p.1, a, b);
            }
        }
        assert(final(self)@ =~= old(self)@.insert((a, b), merged));
    }

    /// The number of rules.
    pub fn len(&self) -> (r: usize)
        ensures
            r as nat == self@.len(),
    {
        proof {
            let x = self.rules@.dom();
            let f = |k: u32| key_pair(k);
            assert(vstd::relations::injective_on(f, x)) by {
                assert forall|k1: u32, k2: u32| x.contains(k1) && x.contains(k2) && #[trigger] f(k1) == #[trigger] f(k2)
                    implies k1 == k2 by {
                    lemma_key_pair_round_trip(0, 0, k1);
                    lemma_key_pair_round_trip(0, 0, k2);
                }
            }
            assert(x.map(f) =~= self@.dom()) by {
                assert forall|p: (u16, u16)| #[trigger] self@.dom().contains(p) implies x.map(f).contains(p) by {
                    lemma_key_pair_round_trip(p.0, p.1, 0);
                    assert(f(pair_key(p.0, p.1)) == p);
                }
                assert forall|p: (u16, u16)| #[trigger] x.map(f).contains(p) implies self@.dom().contains(p) by {
                    let k = choose|k: u32| x.contains(k) && f(k) == p;
                    lemma_key_pair_round_trip(0, 0, k);
                }
            }
            vstd::set_lib::lemma_map_size(x, self@.dom(), f);
        }
        self.rules.len()
    }

    /// The token that the pair `(a, b)` merges into, if the table has a rule for it.
    pub fn get(&self, a: u16, b: u16) -> (r: Option<u16>)
        ensures
            r == (if self@.contains_key((a, b)) { Some(self@[(a, b)]) } else { None::<u16> }),
    {
        match self.rules.get(&key_of(a, b)) {
            Some(t) => Some(*t),
            None => None,
        }
    }
}

} // verus!

//! Permutation tables of the lattice-noise generator.
//!
//! The generator hashes a lattice cell to one of 256 gradient slots by
//! combining three independently shuffled permutations of `0..256`. The
//! gradients themselves belong to the rendering front end; this module owns
//! the tables and the slot computation, and shows that a slot is always a
//! valid index.

use crate::sampling::random_below;
use vstd::prelude::*;

verus! {

/// The identity table: entry `i` is `i`.
pub open spec fn identity_table() -> Seq<usize> {
    Seq::new(256, |i: int| i as usize)
}

/// `s` lists every value of `0..256` exactly once.
pub open spec fn is_permutation(s: Seq<usize>) -> bool {
    &&& s.len() == 256
    &&& forall|i: int| 0 <= i < 256 ==> #[trigger] s[i] < 256
    &&& forall|i: int, j: int| 0 <= i < j < 256 ==> #[trigger] s[i] != #[trigger] s[j]
    &&& forall|k: usize| k < 256 ==> #[trigger] has_entry(s, k)
}

/// Some entry of `s` is `k`.
pub open spec fn has_entry(s: Seq<usize>, k: usize) -> bool {
    exists|i: int| 0 <= i < s.len() && #[trigger] s[i] == k
}

/// `next` is `prev` with the entries at `i` and `j` exchanged.
pub open spec fn swapped(prev: Seq<usize>, next: Seq<usize>, i: int, j: int) -> bool {
    next == prev.update(i, prev[j]).update(j, prev[i])
}

proof fn lemma_identity_is_permutation()
    ensures
        is_permutation(identity_table()),
{
    let s = identity_table();
    assert forall|k: usize| k < 256 implies #[trigger] has_entry(s, k) by {
        assert(s[k as int] == k);
    }
}

proof fn lemma_swap_keeps_permutation(prev: Seq<usize>, next: Seq<usize>, i: int, j: int)
    requires
        is_permutation(prev),
        0 <= i < 256,
        0 <= j < 256,
        swapped(prev, next, i, j),
    ensures
        is_permutation(next),
{
    assert forall|a: int, b: int| 0 <= a < b < 256 implies #[trigger] next[a] != #[trigger] next[b] by {
        let sa = if a == i {
            j
        } else if a == j {
            i
        } else {
            a
        };
        let sb = if b == i {
            j
        } else if b == j {
            i
        } else {
            b
        };
        assert(next[a] == prev[sa]);
        assert(next[b] == prev[sb]);
        assert(sa != sb);
        if sa < sb {
            assert(prev[sa] != prev[sb]);
        } else {
            assert(prev[sb] != prev[sa]);
        }
    }
    assert forall|k: usize| k < 256 implies #[trigger] has_entry(next, k) by {
        assert(has_entry(prev, k));
        let m = choose|m: int| 0 <= m < prev.len() && #[trigger] prev[m] == k;
        let t = if m == i {
            j
        } else if m == j {
            i
        } else {
            m
        };
        assert(next[t] == k);
    }
}

/// Exchanges entry `i` of the table with entry `target`.
pub fn swap_entries(p: &mut [usize; 256], i: usize, target: usize)
    requires
        i < 256,
        target < 256,
    ensures
        swapped(old(p)@, final(p)@, i as int, target as int),
        final(p)@.to_multiset() == old(p)@.to_multiset(),
{
    broadcast use {vstd::seq_lib::to_multiset_update, vstd::multiset::group_multiset_axioms};

    let tmp: usize = p[i];
    let other: usize = p[target];
    p[i] = other;
    p[target] = tmp;
    proof {
        let s0 = old(p)@;
        let s1 = s0.update(i as int, other);
        s0.to_multiset_ensures();
        assert(s0.contains(tmp)) by {
            assert(s0[i as int] == tmp);
        }
        assert(s0.contains(other)) by {
            assert(s0[target as int] == other);
        }
        assert(s1.len() == s0.len());
        assert(s1[target as int] == other);
        assert(s1.to_multiset() == s0.to_multiset().insert(other).remove(tmp));
        assert(p@ == s1.update(target as int, tmp));
        assert(p@.to_multiset() == s1.to_multiset().insert(tmp).remove(other));
        assert(p@.to_multiset() =~= s0.to_multiset());
    }
}

/// Shuffles the table in place: from the last entry down, each entry is
/// exchanged with a randomly drawn entry at or below it.
///
/// Whatever is drawn, the table holds the same values afterwards, and a
/// permutation of `0..256` stays one.
pub fn permute(p: &mut [usize; 256])
    ensures
        final(p)@.to_multiset() == old(p)@.to_multiset(),
        is_permutation(old(p)@) ==> is_permutation(final(p)@),
{
    let mut i: usize = 256;
    while i > 0
        invariant
            i <= 256,
            p@.to_multiset() == old(p)@.to_multiset(),
            is_permutation(old(p)@) ==> is_permutation(p@),
        decreases i,
    {
        i -= 1;
        let target: usize = random_below(i + 1);
        let ghost prev = p@;
        swap_entries(p, i, target);
        proof {
            if is_permutation(prev) {
                lemma_swap_keeps_permutation(prev, p@, i as int, target as int);
            }
        }
    }
}

/// A freshly shuffled permutation of `0..256`.
pub fn perlin_generate_perm() -> (p: [usize; 256])
    ensures
        is_permutation(p@),
        p@.to_multiset() == identity_table().to_multiset(),
{
    let mut p: [usize; 256] = [0; 256];
    let mut i: usize = 0;
    while i < 256
        invariant
            i <= 256,
            forall|k: int| 0 <= k < i ==> #[trigger] p@[k] == k,
        decreases 256 - i,
    {
        p[i] = i;
        i += 1;
    }
    proof {
        assert(p@ =~= identity_table());
        lemma_identity_is_permutation();
    }
    permute(&mut p);
    p
}

/// The three permutation tables of one noise generator.
#[derive(Clone, Copy, Debug)]
pub struct Perlin {
    pub perm_x: [usize; 256],
    pub perm_y: [usize; 256],
    pub perm_z: [usize; 256],
}

/// The gradient slot that the tables assign to the lattice cell `(i, j, k)`:
/// the three table entries at the coordinates' low eight bits, combined by
/// exclusive or.
pub open spec fn slot_of(px: Seq<usize>, py: Seq<usize>, pz: Seq<usize>, i: usize, j: usize, k: usize) -> usize {
    px[(i & 255) as int] ^ py[(j & 255) as int] ^ pz[(k & 255) as int]
}

impl Perlin {
    /// Each table is a permutation of `0..256`.
    pub open spec fn wf(&self) -> bool {
        is_permutation(self.perm_x@) && is_permutation(self.perm_y@) && is_permutation(self.perm_z@)
    }

    /// Draws three fresh tables.
    pub fn new() -> (n: Perlin)
        ensures
            n.wf(),
    {
        Perlin {
            perm_x: perlin_generate_perm(),
            perm_y: perlin_generate_perm(),
            perm_z: perlin_generate_perm(),
        }
    }

    /// The gradient slot of a lattice cell; always a valid index into a
    /// table of 256 gradients.
    pub fn lattice_index(&self, i: usize, j: usize, k: usize) -> (slot: usize)
        requires
            self.wf(),
        ensures
            slot < 256,
            slot == slot_of(self.perm_x@, self.perm_y@, self.perm_z@, i, j, k),
    {
        let a: usize = i & 255;
        let b: usize = j & 255;
        let c: usize = k & 255;
        assert(a < 256 && b < 256 && c < 256) by (bit_vector)
            requires
                a == i & 255,
                b == j & 255,
                c == k & 255,
        ;
        let x: usize = self.perm_x[a];
        let y: usize = self.perm_y[b];
        let z: usize = self.perm_z[c];
        assert(x ^ y ^ z < 256) by (bit_vector)
            requires
                x < 256,
                y < 256,
                z < 256,
        ;
        x ^ y ^ z
    }
}

} // verus!

//! The integer half of lattice noise: three shuffled permutation tables and
//! the hash that picks a gradient for each lattice corner.
use vstd::prelude::*;
use vstd::seq_lib::*;
use rand::Rng;

verus! {

/// Number of entries in a permutation table and of gradients to pick from.
pub const POINT_COUNT: usize = 256;

/// A rearrangement of the values `0..256`.
#[derive(Debug, Clone)]
pub struct PermutationTable {
    pub entries: Vec<u8>,
}

/// Whether there are 256 entries and no value occurs twice among them.
pub open spec fn is_permutation(entries: Seq<u8>) -> bool {
    &&& entries.len() == POINT_COUNT
    &&& forall|a: int, b: int| 0 <= a < b < entries.len() ==> entries[a] != entries[b]
}

/// The table that maps every position to itself.
pub open spec fn identity_entries() -> Seq<u8> {
    Seq::new(POINT_COUNT as nat, |n: int| n as u8)
}

/// Whether `entries` holds the same values as the identity table, each as
/// often.
pub open spec fn rearranges_identity(entries: Seq<u8>) -> bool {
    entries.to_multiset() == identity_entries().to_multiset()
}

/// Exchanging two entries moves values and neither adds nor drops any.
pub proof fn lemma_swapped_same_values(entries: Seq<u8>, a: int, b: int)
    requires
        0 <= a < entries.len(),
        0 <= b < entries.len(),
    ensures
        swapped(entries, a, b).to_multiset() == entries.to_multiset(),
{
    broadcast use vstd::multiset::group_multiset_axioms;

    let first = entries.update(a, entries[b]);
    to_multiset_update(entries, a, entries[b]);
    to_multiset_update(first, b, entries[a]);
    assert(entries.contains(entries[a]));
    to_multiset_contains(entries, entries[a]);
    assert(first[b] == entries[b]);
    assert(swapped(entries, a, b).to_multiset() =~= entries.to_multiset());
}

/// A table that rearranges the identity holds every value of `0..256`.
pub proof fn lemma_every_value_occurs(entries: Seq<u8>, v: u8)
    requires
        rearranges_identity(entries),
    ensures
        exists|n: int| 0 <= n < entries.len() && entries[n] == v,
{
    assert(identity_entries()[v as int] == v);
    assert(identity_entries().contains(v));
    to_multiset_contains(identity_entries(), v);
    to_multiset_contains(entries, v);
    assert(entries.contains(v));
}

/// `entries` with the values at `a` and `b` exchanged.
pub open spec fn swapped(entries: Seq<u8>, a: int, b: int) -> Seq<u8> {
    entries.update(a, entries[b]).update(b, entries[a])
}

/// Position on the 256-periodic lattice of the integer coordinate `i`.
pub open spec fn lattice_slot(i: int) -> int {
    i % 256
}

/// Draws a position for a shuffle step by calling `rand::Rng::gen_range` on
/// the thread-local generator with the inclusive range `0..=upper`. The
/// range is never empty, so the call does not panic; of the value only its
/// range is claimed.
#[verifier::external_body]
fn random_index(upper: usize) -> (r: usize)
    ensures
        r <= upper,
{
    rand::thread_rng().gen_range(0..=upper)
}

impl PermutationTable {
    pub open spec fn wf(&self) -> bool {
        is_permutation(self.entries@)
    }

    /// The table in which nothing has been moved yet.
    pub fn identity() -> (t: PermutationTable)
        ensures
            t.entries@ == identity_entries(),
            t.wf(),
            rearranges_identity(t.entries@),
    {
        let mut entries: Vec<u8> = Vec::new();
        let mut n: usize = 0;
        while n < POINT_COUNT
            invariant
                n <= POINT_COUNT,
                entries@.len() == n,
                forall|m: int| 0 <= m < n ==> #[trigger] entries@[m] == m as u8,
            decreases POINT_COUNT - n,
        {
            entries.push(n as u8);
            n = n + 1;
        }
        assert(entries@ =~= identity_entries());
        PermutationTable { entries }
    }

    /// Exchanges the entries at `a` and `b`.
    pub fn swap(&mut self, a: usize, b: usize)
        requires
            old(self).wf(),
            a < POINT_COUNT,
            b < POINT_COUNT,
        ensures
            final(self).entries@ == swapped(old(self).entries@, a as int, b as int),
            final(self).wf(),
            final(self).entries@.to_multiset() == old(self).entries@.to_multiset(),
    {
        let at_a: u8 = self.entries[a];
        let at_b: u8 = self.entries[b];
        self.entries[a] = at_b;
        self.entries[b] = at_a;
        proof {
            lemma_swapped_same_values(old(self).entries@, a as int, b as int);
        }
    }

    /// Shuffles the table in place: from the last position down to the
    /// second, each entry changes places with one drawn at random from the
    /// positions up to and including its own. Whatever is drawn, the table
    /// is what those draws make of it: a permutation of what it held.
    pub fn shuffle(&mut self)
        requires
            old(self).wf(),
        ensures
            final(self).wf(),
            final(self).entries@.to_multiset() == old(self).entries@.to_multiset(),
            exists|draws: Seq<usize>| #[trigger]
                shuffle_draws(draws) && final(self).entries@ == shuffled_by(
                    old(self).entries@,
                    draws,
                ),
    {
        let mut draws: Vec<usize> = Vec::new();
        let mut i: usize = POINT_COUNT - 1;
        while i >= 1
            invariant
                i < POINT_COUNT,
                draws@.len() == POINT_COUNT - 1 - i,
                forall|k: int| 0 <= k < draws@.len() ==> #[trigger] draws@[k] <= POINT_COUNT - 1 - k,
            decreases i,
        {
            let target = random_index(i);
            draws.push(target);
            i = i - 1;
        }
        self.shuffle_with(&draws);
        assert(shuffle_draws(draws@));
    }

    /// Carries out the steps of a shuffle with the given draws: step `k`
    /// exchanges the entry at position `255 - k` with the one at `draws[k]`.
    pub fn shuffle_with(&mut self, draws: &Vec<usize>)
        requires
            old(self).wf(),
            draws@.len() < POINT_COUNT,
            forall|k: int| 0 <= k < draws@.len() ==> #[trigger] draws@[k] < POINT_COUNT,
        ensures
            final(self).entries@ == shuffled_by(old(self).entries@, draws@),
            final(self).wf(),
            final(self).entries@.to_multiset() == old(self).entries@.to_multiset(),
    {
        let mut k: usize = 0;
        while k < draws.len()
            invariant
                k <= draws@.len(),
                draws@.len() < POINT_COUNT,
                forall|m: int| 0 <= m < draws@.len() ==> #[trigger] draws@[m] < POINT_COUNT,
                self.wf(),
                self.entries@.to_multiset() == old(self).entries@.to_multiset(),
                self.entries@ == shuffled_by(old(self).entries@, draws@.take(k as int)),
            decreases draws@.len() - k,
        {
            self.swap(POINT_COUNT - 1 - k, draws[k]);
            proof {
                assert(draws@.take(k + 1).drop_last() =~= draws@.take(k as int));
                assert(draws@.take(k + 1).last() == draws@[k as int]);
            }
            k = k + 1;
        }
        assert(draws@.take(k as int) =~= draws@);
    }

    /// A freshly shuffled table.
    pub fn generate() -> (t: PermutationTable)
        ensures
            t.wf(),
            rearranges_identity(t.entries@),
    {
        let mut t = PermutationTable::identity();
        t.shuffle();
        t
    }

    /// The entry for lattice coordinate `i`, which may be any integer: the
    /// table repeats with period 256.
    pub fn lookup(&self, i: i64) -> (v: u8)
        requires
            self.wf(),
        ensures
            v == self.entries@[lattice_slot(i as int)],
    {
        let slot: i64 = i % 256;
        let slot: i64 = if slot < 0 {
            slot + 256
        } else {
            slot
        };
        self.entries[slot as usize]
    }
}

/// Whether `draws` can be the draws of one shuffle: one for each position
/// from the last down to the second, none beyond the position it is for.
pub open spec fn shuffle_draws(draws: Seq<usize>) -> bool {
    &&& draws.len() == POINT_COUNT - 1
    &&& forall|k: int| 0 <= k < draws.len() ==> #[trigger] draws[k] <= POINT_COUNT - 1 - k
}

/// The table that the shuffle steps with the given draws make of
/// `entries`: the draws before the last are carried out first, then the
/// last one exchanges the entry at its position, `256 - draws.len()`, with
/// the entry it names.
pub open spec fn shuffled_by(entries: Seq<u8>, draws: Seq<usize>) -> Seq<u8>
    decreases draws.len(),
{
    if draws.len() == 0 {
        entries
    } else {
        swapped(
            shuffled_by(entries, draws.drop_last()),
            POINT_COUNT - draws.len(),
            draws.last() as int,
        )
    }
}

/// The permutation tables of a noise field, one per axis.
#[derive(Debug, Clone)]
pub struct Perlin {
    pub perm_x: PermutationTable,
    pub perm_y: PermutationTable,
    pub perm_z: PermutationTable,
}

impl Perlin {
    pub open spec fn wf(&self) -> bool {
        self.perm_x.wf() && self.perm_y.wf() && self.perm_z.wf()
    }

    /// Whether each table holds every value of `0..256`.
    pub open spec fn shuffled(&self) -> bool {
        rearranges_identity(self.perm_x.entries@) && rearranges_identity(self.perm_y.entries@)
            && rearranges_identity(self.perm_z.entries@)
    }

    /// Which gradient belongs to the lattice point `(i, j, k)`: the three
    /// table entries combined by exclusive or.
    pub open spec fn spec_gradient_index(&self, i: int, j: int, k: int) -> int {
        (self.perm_x.entries@[lattice_slot(i)] ^ self.perm_y.entries@[lattice_slot(j)]
            ^ self.perm_z.entries@[lattice_slot(k)]) as int
    }

    /// Three independently shuffled tables.
    pub fn new() -> (p: Perlin)
        ensures
            p.wf(),
            p.shuffled(),
    {
        Perlin {
            perm_x: PermutationTable::generate(),
            perm_y: PermutationTable::generate(),
            perm_z: PermutationTable::generate(),
        }
    }

    /// Index into the gradient table for the lattice point `(i, j, k)`.
    pub fn gradient_index(&self, i: i64, j: i64, k: i64) -> (g: usize)
        requires
            self.wf(),
        ensures
            g == self.spec_gradient_index(i as int, j as int, k as int),
            g < POINT_COUNT,
    {
        let g: u8 = self.perm_x.lookup(i) ^ self.perm_y.lookup(j) ^ self.perm_z.lookup(k);
        g as usize
    }

    /// Gradient indices of the eight corners of the lattice cell whose
    /// lowest corner is `(i, j, k)`. The corner offset by `(di, dj, dk)`,
    /// each 0 or 1, stands at position `4 * di + 2 * dj + dk`.
    pub fn corner_indices(&self, i: i32, j: i32, k: i32) -> (corners: Vec<usize>)
        requires
            self.wf(),
        ensures
            corners@.len() == 8,
            forall|di: int, dj: int, dk: int|
                0 <= di < 2 && 0 <= dj < 2 && 0 <= dk < 2 ==> #[trigger] corners@[4 * di + 2 * dj
                    + dk] == self.spec_gradient_index(i + di, j + dj, k + dk),
            forall|n: int| 0 <= n < 8 ==> #[trigger] corners@[n] < POINT_COUNT,
    {
        let i0: i64 = i as i64;
        let j0: i64 = j as i64;
        let k0: i64 = k as i64;
        let mut corners: Vec<usize> = Vec::new();
        corners.push(self.gradient_index(i0, j0, k0));
        corners.push(self.gradient_index(i0, j0, k0 + 1));
        corners.push(self.gradient_index(i0, j0 + 1, k0));
        corners.push(self.gradient_index(i0, j0 + 1, k0 + 1));
        corners.push(self.gradient_index(i0 + 1, j0, k0));
        corners.push(self.gradient_index(i0 + 1, j0, k0 + 1));
        corners.push(self.gradient_index(i0 + 1, j0 + 1, k0));
        corners.push(self.gradient_index(i0 + 1, j0 + 1, k0 + 1));
        corners
    }
}

} // verus!

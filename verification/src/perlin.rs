//! Random permutation tables for lattice noise.
//!
//! A table is a shuffle of `0..len`. The shuffle itself is a deterministic
//! function of the sequence of draws; only the draws are random.

use rand::Rng;
use vstd::prelude::*;

verus! {

/// `s` with the entries at positions `i` and `j` exchanged.
pub open spec fn swapped(s: Seq<usize>, i: int, j: int) -> Seq<usize> {
    s.update(i, s[j]).update(j, s[i])
}

/// Every draw is a position at or below its own index: `draws[i] <= i`.
pub open spec fn draws_valid(draws: Seq<usize>) -> bool {
    forall|i: int| 0 <= i < draws.len() ==> #[trigger] draws[i] <= i
}

/// The sequence after the exchanges for the positions `len - 1` down to `from`
/// have been made, position `i` being exchanged with position `draws[i]`.
pub open spec fn shuffled_from(s: Seq<usize>, draws: Seq<usize>, from: nat) -> Seq<usize>
    decreases s.len() - from,
{
    if from >= s.len() {
        s
    } else {
        swapped(shuffled_from(s, draws, from + 1), from as int, draws[from as int] as int)
    }
}

/// The backward shuffle of `s` under `draws`: for `i` from the last position
/// down to the first, positions `i` and `draws[i]` are exchanged.
pub open spec fn shuffled(s: Seq<usize>, draws: Seq<usize>) -> Seq<usize> {
    shuffled_from(s, draws, 0)
}

/// The sequence `0, 1, .., len - 1`.
pub open spec fn identity_table(len: nat) -> Seq<usize> {
    Seq::new(len, |i: int| i as usize)
}

/// Exchanging two entries keeps the length and the elements.
pub proof fn lemma_swapped_is_permutation(s: Seq<usize>, i: int, j: int)
    requires
        0 <= i < s.len(),
        0 <= j < s.len(),
    ensures
        swapped(s, i, j).len() == s.len(),
        swapped(s, i, j).to_multiset() == s.to_multiset(),
{
    broadcast use vstd::seq_lib::to_multiset_update;
    broadcast use vstd::multiset::group_multiset_axioms;

    if i == j {
        assert(swapped(s, i, j) =~= s);
    } else {
        let mid = s.update(i, s[j]);
        let base = s.to_multiset();
        assert(mid.to_multiset() == base.insert(s[j]).remove(s[i]));
        assert(mid[j] == s[j]);
        assert(swapped(s, i, j).to_multiset() == mid.to_multiset().insert(s[i]).remove(s[j]));
        assert(base.count(s[i]) > 0 && base.count(s[j]) > 0) by {
            broadcast use vstd::seq_lib::to_multiset_contains;

            assert(s.contains(s[i]) && s.contains(s[j]));
        }
        assert forall|x: usize| swapped(s, i, j).to_multiset().count(x) == base.count(x) by {}
        assert(swapped(s, i, j).to_multiset() =~= base);
    }
}

/// A shuffle rearranges: whatever the draws, the result has the length and
/// the elements of the input.
pub proof fn lemma_shuffle_is_permutation(s: Seq<usize>, draws: Seq<usize>, from: nat)
    requires
        draws.len() == s.len(),
        draws_valid(draws),
    ensures
        shuffled_from(s, draws, from).len() == s.len(),
        shuffled_from(s, draws, from).to_multiset() == s.to_multiset(),
    decreases s.len() - from,
{
    if from < s.len() {
        lemma_shuffle_is_permutation(s, draws, from + 1);
        lemma_swapped_is_permutation(
            shuffled_from(s, draws, from + 1),
            from as int,
            draws[from as int] as int,
        );
    }
}

/// Draws one position from `0..=upper` with `rand`'s thread-local generator
/// (`Rng::gen_range` on an inclusive range). The range is never empty, so the
/// call does not panic; all that is claimed of the draw is that it lies in
/// the range.
#[verifier::external_body]
fn random_index(upper: usize) -> (r: usize)
    ensures
        r <= upper,
{
    rand::thread_rng().gen_range(0..=upper)
}

/// One draw for each position of a table of `len` entries: `draws[i]` is
/// uniform in `0..=i`.
pub fn gen_draws(len: usize) -> (draws: Vec<usize>)
    ensures
        draws@.len() == len,
        draws_valid(draws@),
{
    let mut draws: Vec<usize> = Vec::new();
    let mut i: usize = 0;
    while i < len
        invariant
            i <= len,
            draws@.len() == i,
            draws_valid(draws@),
        decreases len - i,
    {
        let target = random_index(i);
        draws.push(target);
        i += 1;
    }
    draws
}

/// Shuffles `v` under the given draws: for `i` from the last position down to
/// the first, the entries at `i` and `draws[i]` change places.
pub fn permute_with(v: &mut Vec<usize>, draws: &Vec<usize>)
    requires
        draws@.len() == old(v)@.len(),
        draws_valid(draws@),
    ensures
        final(v)@ == shuffled(old(v)@, draws@),
        final(v)@.len() == old(v)@.len(),
        final(v)@.to_multiset() == old(v)@.to_multiset(),
{
    let n = v.len();
    let mut i: usize = n;
    while i > 0
        invariant
            i <= n,
            n == old(v)@.len(),
            draws@.len() == n,
            draws_valid(draws@),
            v@.len() == n,
            v@ == shuffled_from(old(v)@, draws@, i as nat),
        decreases i,
    {
        i -= 1;
        let target = draws[i];
        let a = v[i];
        let b = v[target];
        v.set(i, b);
        v.set(target, a);
        assert(v@ =~= swapped(shuffled_from(old(v)@, draws@, (i + 1) as nat), i as int, target as int));
    }
    proof {
        lemma_shuffle_is_permutation(old(v)@, draws@, 0);
    }
}

/// Shuffles `v` in place with fresh random draws (a backward Fisher-Yates
/// pass). Whatever is drawn, the result is the shuffle of the input under
/// some valid sequence of draws, and so a rearrangement of it.
pub fn permute(v: &mut Vec<usize>)
    ensures
        exists|draws: Seq<usize>|
            draws.len() == old(v)@.len() && draws_valid(draws) && final(v)@ == #[trigger] shuffled(
                old(v)@,
                draws,
            ),
        final(v)@.len() == old(v)@.len(),
        final(v)@.to_multiset() == old(v)@.to_multiset(),
{
    let draws = gen_draws(v.len());
    permute_with(v, &draws);
}

/// The table `0, 1, .., len - 1`.
pub fn identity(len: usize) -> (v: Vec<usize>)
    ensures
        v@ == identity_table(len as nat),
{
    let mut v: Vec<usize> = Vec::new();
    let mut i: usize = 0;
    while i < len
        invariant
            i <= len,
            v@.len() == i,
            forall|k: int| 0 <= k < i ==> v@[k] == k,
        decreases len - i,
    {
        v.push(i);
        i += 1;
    }
    assert(v@ =~= identity_table(len as nat));
    v
}

/// A random permutation table: the numbers `0..len`, each exactly once, in a
/// shuffled order.
pub fn gen_perlin_perm(len: usize) -> (v: Vec<usize>)
    ensures
        v@.len() == len,
        v@.to_multiset() == identity_table(len as nat).to_multiset(),
        exists|draws: Seq<usize>|
            draws.len() == len && draws_valid(draws) && v@ == #[trigger] shuffled(
                identity_table(len as nat),
                draws,
            ),
{
    let mut v = identity(len);
    permute(&mut v);
    v
}

/// The number of entries of each table of a noise lattice.
pub const POINTS: usize = 256;

/// Every entry of a shuffle of `0..len` is below `len`.
pub proof fn lemma_table_entries_below(table: Seq<usize>, len: nat)
    requires
        table.to_multiset() == identity_table(len).to_multiset(),
    ensures
        table.len() == len,
        forall|i: int| 0 <= i < table.len() ==> #[trigger] table[i] < len,
{
    broadcast use vstd::seq_lib::group_to_multiset_ensures;

    let all = identity_table(len);
    assert(table.to_multiset().len() == table.len());
    assert(all.to_multiset().len() == all.len());
    assert forall|i: int| 0 <= i < table.len() implies #[trigger] table[i] < len by {
        assert(table.contains(table[i]));
        assert(all.to_multiset().count(table[i]) > 0);
        assert(all.contains(table[i]));
        let j = choose|j: int| 0 <= j < all.len() && all[j] == table[i];
        if len <= usize::MAX {
            assert(all[j] == j);
        }
    }
}

/// The lattice of a noise texture: one permutation table for each axis.
#[derive(Clone, Debug)]
pub struct Perlin {
    pub perm_x: Vec<usize>,
    pub perm_y: Vec<usize>,
    pub perm_z: Vec<usize>,
}

impl Perlin {
    /// Each table is a shuffle of `0..POINTS`.
    pub open spec fn wf(self) -> bool {
        &&& self.perm_x@.to_multiset() == identity_table(POINTS as nat).to_multiset()
        &&& self.perm_y@.to_multiset() == identity_table(POINTS as nat).to_multiset()
        &&& self.perm_z@.to_multiset() == identity_table(POINTS as nat).to_multiset()
    }

    /// A lattice with three fresh random tables.
    pub fn new() -> (lattice: Perlin)
        ensures
            lattice.wf(),
    {
        let n_points = POINTS;
        Perlin {
            perm_x: gen_perlin_perm(n_points),
            perm_y: gen_perlin_perm(n_points),
            perm_z: gen_perlin_perm(n_points),
        }
    }

    /// The place of the lattice cell `(i, j, k)` in a table of `POINTS`
    /// values: the three table entries combined by exclusive or.
    pub fn cell(&self, i: usize, j: usize, k: usize) -> (at: usize)
        requires
            self.wf(),
            i < POINTS,
            j < POINTS,
            k < POINTS,
        ensures
            at == self.perm_x@[i as int] ^ self.perm_y@[j as int] ^ self.perm_z@[k as int],
            at < POINTS,
    {
        proof {
            lemma_table_entries_below(self.perm_x@, POINTS as nat);
            lemma_table_entries_below(self.perm_y@, POINTS as nat);
            lemma_table_entries_below(self.perm_z@, POINTS as nat);
        }
        let a = self.perm_x[i];
        let b = self.perm_y[j];
        let c = self.perm_z[k];
        assert(a ^ b ^ c < 256) by (bit_vector)
            requires
                a < 256,
                b < 256,
                c < 256,
        ;
        a ^ b ^ c
    }
}

} // verus!

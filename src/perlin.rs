use crate::rtweekend::random_int;
use vstd::prelude::*;
use vstd::seq_lib::*;

verus! {

/// Size of each permutation table.
pub const POINT_COUNT: usize = 256;

/// The lattice of a Perlin noise generator: three random permutations of
/// `0..POINT_COUNT`, one per axis, which hash a lattice corner to one of
/// `POINT_COUNT` gradient slots.
#[derive(Debug)]
pub struct Perlin {
    perm_x: Vec<usize>,
    perm_y: Vec<usize>,
    perm_z: Vec<usize>,
}

/// `p` holds each of `0..n` exactly once.
pub open spec fn is_permutation(p: Seq<usize>, n: nat) -> bool {
    &&& p.len() == n
    &&& forall|i: int| 0 <= i < p.len() ==> p[i] < n
    &&& p.no_duplicates()
}

/// The slot that a corner hashes to, from three tables.
pub open spec fn spec_lattice_index(
    px: Seq<usize>,
    py: Seq<usize>,
    pz: Seq<usize>,
    i: i32,
    j: i32,
    k: i32,
) -> usize {
    px[(i & 255) as int] ^ py[(j & 255) as int] ^ pz[(k & 255) as int]
}

/// Exchanging two entries keeps the multiset of entries.
proof fn lemma_swap_multiset(s: Seq<usize>, i: int, j: int)
    requires
        0 <= i < s.len(),
        0 <= j < s.len(),
    ensures
        s.update(i, s[j]).update(j, s[i]).to_multiset() =~= s.to_multiset(),
{
    broadcast use vstd::multiset::group_multiset_axioms;

    if i == j {
        assert(s.update(i, s[j]).update(j, s[i]) =~= s);
    } else {
        let a = s[i];
        let b = s[j];
        let m = s.to_multiset();
        let s1 = s.update(i, b);
        to_multiset_update(s, i, b);
        to_multiset_update(s1, j, a);
        to_multiset_contains(s, a);
        assert(s.contains(a));
        assert(s1[j] == b);
        assert(s1.to_multiset() =~= m.insert(b).remove(a));
        assert(m.insert(b).remove(a).insert(a).remove(b) =~= m);
    }
}

impl Perlin {
    /// Each table is a permutation of `0..POINT_COUNT`.
    pub open spec fn wf(self) -> bool {
        &&& is_permutation(self.spec_perm_x(), POINT_COUNT as nat)
        &&& is_permutation(self.spec_perm_y(), POINT_COUNT as nat)
        &&& is_permutation(self.spec_perm_z(), POINT_COUNT as nat)
    }

    pub closed spec fn spec_perm_x(self) -> Seq<usize> {
        self.perm_x@
    }

    pub closed spec fn spec_perm_y(self) -> Seq<usize> {
        self.perm_y@
    }

    pub closed spec fn spec_perm_z(self) -> Seq<usize> {
        self.perm_z@
    }

    /// A lattice with three fresh random permutations.
    pub fn new() -> (r: Perlin)
        ensures
            r.wf(),
    {
        let perm_x = Perlin::perlin_generate_perm();
        let perm_y = Perlin::perlin_generate_perm();
        let perm_z = Perlin::perlin_generate_perm();
        Perlin { perm_x, perm_y, perm_z }
    }

    /// A random permutation of `0..POINT_COUNT`.
    pub fn perlin_generate_perm() -> (p: Vec<usize>)
        ensures
            is_permutation(p@, POINT_COUNT as nat),
    {
        let mut p: Vec<usize> = Vec::new();
        let mut i: usize = 0;
        while i < POINT_COUNT
            invariant
                i <= POINT_COUNT,
                p@ == Seq::new(i as nat, |k: int| k as usize),
            decreases POINT_COUNT - i,
        {
            p.push(i);
            i += 1;
        }
        let ghost before = p@;
        proof {
            before.lemma_multiset_has_no_duplicates();
        }
        Perlin::permute(&mut p, POINT_COUNT);
        proof {
            broadcast use to_multiset_contains;

            let after = p@;
            assert forall|x: usize| after.to_multiset().contains(x) implies after.to_multiset().count(
                x,
            ) == 1 by {
                assert(before.to_multiset().contains(x));
            }
            after.lemma_multiset_has_no_duplicates_conv();
            assert forall|k: int| 0 <= k < after.len() implies after[k] < POINT_COUNT by {
                assert(after.contains(after[k]));
                assert(after.to_multiset().count(after[k]) > 0);
                assert(before.contains(after[k]));
            }
        }
        p
    }

    /// Shuffles `p[0..n]` in place (Fisher-Yates, from the top index
    /// down): the entries are rearranged, and those from `n` on stay.
    pub fn permute(p: &mut Vec<usize>, n: usize)
        requires
            n <= old(p).len(),
            n <= i32::MAX,
        ensures
            final(p).len() == old(p).len(),
            final(p)@.to_multiset() == old(p)@.to_multiset(),
            forall|k: int| n <= k < old(p).len() ==> final(p)[k] == old(p)[k],
    {
        let ghost orig = p@;
        let mut i = n;
        while i > 1
            invariant
                i <= n <= p.len() == orig.len(),
                n <= i32::MAX,
                p@.to_multiset() == orig.to_multiset(),
                forall|k: int| n <= k < orig.len() ==> p[k] == orig[k],
            decreases i,
        {
            i -= 1;
            let target = random_int(0, i as i32) as usize;
            let a = p[i];
            let b = p[target];
            proof {
                lemma_swap_multiset(p@, i as int, target as int);
            }
            p.set(i, b);
            p.set(target, a);
        }
    }

    /// The gradient slot of the lattice corner `(i, j, k)`: the entries of
    /// the three tables at the coordinates' low eight bits, combined by
    /// exclusive or.
    pub fn lattice_index(&self, i: i32, j: i32, k: i32) -> (r: usize)
        requires
            self.wf(),
        ensures
            r == spec_lattice_index(self.spec_perm_x(), self.spec_perm_y(), self.spec_perm_z(), i, j, k),
            r < POINT_COUNT,
    {
        let xi = (i & 255) as usize;
        let yi = (j & 255) as usize;
        let zi = (k & 255) as usize;
        assert(0 <= (i & 255) < 256) by (bit_vector);
        assert(0 <= (j & 255) < 256) by (bit_vector);
        assert(0 <= (k & 255) < 256) by (bit_vector);
        let a = self.perm_x[xi];
        let b = self.perm_y[yi];
        let c = self.perm_z[zi];
        assert(a ^ b ^ c < 256) by (bit_vector)
            requires
                a < 256,
                b < 256,
                c < 256,
        ;
        a ^ b ^ c
    }
}

} // verus!

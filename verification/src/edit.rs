use vstd::prelude::*;

verus! {

/// Minimum of three naturals.
pub open spec fn min3(a: nat, b: nat, c: nat) -> nat {
    if a <= b && a <= c {
        a
    } else if b <= c {
        b
    } else {
        c
    }
}

/// Maximum of two naturals.
pub open spec fn nat_max(a: nat, b: nat) -> nat {
    if a >= b {
        a
    } else {
        b
    }
}

/// Classic edit distance between two byte sequences: the least number of
/// single-element insertions, deletions and substitutions (unit cost each)
/// that turns one into the other.
pub open spec fn edit_distance(a: Seq<u8>, b: Seq<u8>) -> nat
    decreases a.len() + b.len(),
{
    if a.len() == 0 {
        b.len()
    } else if b.len() == 0 {
        a.len()
    } else if a.last() == b.last() {
        edit_distance(a.drop_last(), b.drop_last())
    } else {
        1 + min3(
            edit_distance(a.drop_last(), b.drop_last()),
            edit_distance(a.drop_last(), b),
            edit_distance(a, b.drop_last()),
        )
    }
}

/// Numerator of the normalized similarity of two sequences:
/// `max(len) - edit_distance`, and 1 when both are empty (two empty
/// sequences are identical, so their similarity is defined as 1).
pub open spec fn sim_num(a: Seq<u8>, b: Seq<u8>) -> nat {
    if a.len() == 0 && b.len() == 0 {
        1
    } else {
        (nat_max(a.len(), b.len()) - edit_distance(a, b)) as nat
    }
}

/// Denominator of the normalized similarity: `max(len)`, and 1 when both
/// sequences are empty.
pub open spec fn sim_den(a: Seq<u8>, b: Seq<u8>) -> nat {
    if a.len() == 0 && b.len() == 0 {
        1
    } else {
        nat_max(a.len(), b.len())
    }
}

/// A normalized similarity score, held as the exact rational
/// `num / den` with `0 <= num <= den`.
#[derive(Clone, Copy, PartialEq, Eq, Structural, Debug)]
pub struct Similarity {
    pub num: usize,
    pub den: usize,
}

impl Similarity {
    pub open spec fn valid(self) -> bool {
        0 < self.den && self.num <= self.den
    }

    /// The score attached to a function before it is compared to anything:
    /// exactly zero.
    pub fn zero() -> (r: Similarity)
        ensures
            r == (Similarity { num: 0, den: 1 }),
            r.valid(),
    {
        Similarity { num: 0, den: 1 }
    }

    /// Exact rational comparison against a threshold: `num/den >= t.num/t.den`.
    pub fn at_least(&self, t: &Threshold) -> (r: bool)
        requires
            t.valid(),
        ensures
            r == spec_at_least(*self, *t),
    {
        let a = self.num as u128;
        let b = t.den as u128;
        let c = t.num as u128;
        let d = self.den as u128;
        proof {
            let m: u128 = 0xFFFF_FFFF_FFFF_FFFF;
            assert(a <= m && b <= m && c <= m && d <= m);
            assert(a * b <= m * m && c * d <= m * m) by (nonlinear_arith)
                requires
                    a <= m && b <= m && c <= m && d <= m,
            ;
        }
        a * b >= c * d
    }
}

/// A similarity cutoff in [0, 1], held as the exact rational `num / den`.
#[derive(Clone, Copy, PartialEq, Eq, Structural, Debug)]
pub struct Threshold {
    pub num: u64,
    pub den: u64,
}

impl Threshold {
    pub open spec fn valid(self) -> bool {
        0 < self.den
    }
}

/// `s` reaches the threshold `t`, by cross multiplication.
pub open spec fn spec_at_least(s: Similarity, t: Threshold) -> bool {
    s.num * t.den >= t.num * s.den
}

/// The similarity of `a` and `b` reaches the threshold `t`.
pub open spec fn spec_sim_ge(a: Seq<u8>, b: Seq<u8>, t: Threshold) -> bool {
    sim_num(a, b) * t.den >= t.num * sim_den(a, b)
}

/// The edit distance never exceeds the longer length: substituting along the
/// shorter sequence and inserting the rest always suffices.
pub proof fn lemma_edit_le_max(a: Seq<u8>, b: Seq<u8>)
    ensures
        edit_distance(a, b) <= nat_max(a.len(), b.len()),
    decreases a.len() + b.len(),
{
    if a.len() == 0 || b.len() == 0 {
    } else if a.last() == b.last() {
        lemma_edit_le_max(a.drop_last(), b.drop_last());
    } else {
        lemma_edit_le_max(a.drop_last(), b.drop_last());
    }
}

/// A sequence is at distance zero from itself.
pub proof fn lemma_edit_self(a: Seq<u8>)
    ensures
        edit_distance(a, a) == 0,
    decreases a.len(),
{
    if a.len() > 0 {
        lemma_edit_self(a.drop_last());
    }
}

/// Edit distance is symmetric: every edit script reverses.
pub proof fn lemma_edit_sym(a: Seq<u8>, b: Seq<u8>)
    ensures
        edit_distance(a, b) == edit_distance(b, a),
    decreases a.len() + b.len(),
{
    if a.len() == 0 || b.len() == 0 {
    } else {
        lemma_edit_sym(a.drop_last(), b.drop_last());
        lemma_edit_sym(a.drop_last(), b);
        lemma_edit_sym(a, b.drop_last());
    }
}

/// When the two sequences share no element at all, no match can save an
/// operation: the distance is at least the longer length.
pub proof fn lemma_edit_disjoint(a: Seq<u8>, b: Seq<u8>)
    requires
        forall|i: int, j: int|
            0 <= i < a.len() && 0 <= j < b.len() ==> a[i] != b[j],
    ensures
        edit_distance(a, b) >= nat_max(a.len(), b.len()),
    decreases a.len() + b.len(),
{
    if a.len() == 0 || b.len() == 0 {
    } else {
        assert(a.last() != b.last());
        assert(forall|i: int, j: int|
            0 <= i < a.drop_last().len() && 0 <= j < b.len() ==> a.drop_last()[i] != b[j]);
        assert(forall|i: int, j: int|
            0 <= i < a.len() && 0 <= j < b.drop_last().len() ==> a[i] != b.drop_last()[j]);
        lemma_edit_disjoint(a.drop_last(), b.drop_last());
        lemma_edit_disjoint(a.drop_last(), b);
        lemma_edit_disjoint(a, b.drop_last());
    }
}

/// Reflexivity of the similarity score: anything compared with itself scores
/// exactly 1 (numerator equals denominator).
pub proof fn lemma_similarity_self(a: Seq<u8>)
    ensures
        sim_num(a, a) == sim_den(a, a),
        sim_den(a, a) > 0,
{
    lemma_edit_self(a);
}

/// Symmetry of the similarity score: both components are unchanged when the
/// arguments swap.
pub proof fn lemma_similarity_sym(a: Seq<u8>, b: Seq<u8>)
    ensures
        sim_num(a, b) == sim_num(b, a),
        sim_den(a, b) == sim_den(b, a),
{
    lemma_edit_sym(a, b);
}

/// Two equal-length, non-empty sequences that share no element score exactly
/// zero.
pub proof fn lemma_similarity_disjoint_zero(a: Seq<u8>, b: Seq<u8>)
    requires
        a.len() == b.len(),
        a.len() > 0,
        forall|i: int, j: int|
            0 <= i < a.len() && 0 <= j < b.len() ==> a[i] != b[j],
    ensures
        sim_num(a, b) == 0,
        sim_den(a, b) == a.len(),
{
    lemma_edit_disjoint(a, b);
    lemma_edit_le_max(a, b);
}

/// Compute the edit distance between `s1` and `s2` by dynamic programming
/// over prefixes, one table row per element of `s1`.
pub fn levenshtein_distance(s1: &[u8], s2: &[u8]) -> (d: usize)
    ensures
        d == edit_distance(s1@, s2@),
{
    let len1 = s1.len();
    let len2 = s2.len();

    // Row 0: distance from the empty prefix of s1 to each prefix of s2.
    let mut prev: Vec<usize> = Vec::new();
    proof {
        assert(s1@.take(0) =~= Seq::<u8>::empty());
    }
    prev.push(0);
    for j in 0..len2
        invariant
            len2 == s2@.len(),
            prev@.len() == j + 1,
            forall|jj: int| 0 <= jj <= j ==> prev@[jj] == edit_distance(s1@.take(0), s2@.take(jj)),
    {
        proof {
            assert(s1@.take(0) =~= Seq::<u8>::empty());
            assert(s2@.take(j + 1).len() == j + 1);
        }
        prev.push(j + 1);
    }

    let mut i: usize = 0;
    while i < len1
        invariant
            len1 == s1@.len(),
            len2 == s2@.len(),
            i <= len1,
            prev@.len() == len2 + 1,
            forall|jj: int|
                0 <= jj <= len2 ==> prev@[jj] == edit_distance(s1@.take(i as int), s2@.take(jj)),
        decreases len1 - i,
    {
        let mut cur: Vec<usize> = Vec::new();
        proof {
            assert(s2@.take(0) =~= Seq::<u8>::empty());
        }
        cur.push(i + 1);
        let mut j: usize = 0;
        while j < len2
            invariant
                len1 == s1@.len(),
                len2 == s2@.len(),
                i < len1,
                j <= len2,
                prev@.len() == len2 + 1,
                forall|jj: int|
                    0 <= jj <= len2 ==> prev@[jj] == edit_distance(
                        s1@.take(i as int),
                        s2@.take(jj),
                    ),
                cur@.len() == j + 1,
                forall|jj: int|
                    0 <= jj <= j ==> cur@[jj] == edit_distance(
                        s1@.take(i + 1),
                        s2@.take(jj),
                    ),
            decreases len2 - j,
        {
            proof {
                assert(s1@.take(i + 1).last() == s1@[i as int]);
                assert(s1@.take(i + 1).drop_last() =~= s1@.take(i as int));
                assert(s2@.take(j + 1).last() == s2@[j as int]);
                assert(s2@.take(j + 1).drop_last() =~= s2@.take(j as int));
                lemma_edit_le_max(s1@.take(i as int), s2@.take(j as int));
                lemma_edit_le_max(s1@.take(i as int), s2@.take(j + 1));
                lemma_edit_le_max(s1@.take(i + 1), s2@.take(j as int));
            }
            let val: usize = if s1[i] == s2[j] {
                prev[j]
            } else {
                let mut m: usize = prev[j];
                if prev[j + 1] < m {
                    m = prev[j + 1];
                }
                if cur[j] < m {
                    m = cur[j];
                }
                m + 1
            };
            cur.push(val);
            j = j + 1;
        }
        prev = cur;
        i = i + 1;
    }
    proof {
        assert(s1@.take(len1 as int) =~= s1@);
        assert(s2@.take(len2 as int) =~= s2@);
    }
    prev[len2]
}

/// Normalized similarity of two signature sequences: the exact rational
/// `(max(len) - edit_distance) / max(len)`, and 1 for two empty sequences.
pub fn levenshtein_similarity(s1: &[u8], s2: &[u8]) -> (r: Similarity)
    ensures
        r.num == sim_num(s1@, s2@),
        r.den == sim_den(s1@, s2@),
        r.valid(),
{
    let len1 = s1.len();
    let len2 = s2.len();
    if len1 == 0 && len2 == 0 {
        return Similarity { num: 1, den: 1 };
    }
    let d = levenshtein_distance(s1, s2);
    proof {
        lemma_edit_le_max(s1@, s2@);
    }
    let m = if len1 >= len2 {
        len1
    } else {
        len2
    };
    Similarity { num: m - d, den: m }
}

} // verus!

use vstd::prelude::*;

use crate::edit::{levenshtein_similarity, sim_den, sim_num, spec_sim_ge, Similarity, Threshold};
use crate::function::{views, FuncView, Function};

verus! {

/// One clustered entry: a representative signature and the functions judged
/// similar to it, in insertion order.
pub type EntryView = (Seq<u8>, Seq<FuncView>);

/// The views of the entries of the map.
pub open spec fn entries_view(s: Seq<(Vec<u8>, Vec<Function>)>) -> Seq<EntryView> {
    s.map_values(|e: (Vec<u8>, Vec<Function>)| (e.0@, views(e.1@)))
}

/// The index of the first entry whose representative is similar to `key` at
/// threshold `t`, or `m.len()` when none is.
pub open spec fn first_match(m: Seq<EntryView>, key: Seq<u8>, t: Threshold) -> int
    decreases m.len(),
{
    if m.len() == 0 {
        0
    } else if spec_sim_ge(key, m[0].0, t) {
        0
    } else {
        1 + first_match(m.drop_first(), key, t)
    }
}

/// `f` with its similarity stamped from the first member of the cluster it
/// joins.
pub open spec fn stamped(f: FuncView, first: FuncView) -> FuncView {
    FuncView {
        similarity: Similarity {
            num: sim_num(f.key, first.key) as usize,
            den: sim_den(f.key, first.key) as usize,
        },
        ..f
    }
}

/// What one insertion does: scan the representatives in insertion order; the
/// first similar one receives the value (stamped against that cluster's
/// first member); if none is similar, a new singleton entry is appended with
/// `key` as its representative.
pub open spec fn spec_insert(m: Seq<EntryView>, key: Seq<u8>, f: FuncView, t: Threshold) -> Seq<
    EntryView,
> {
    let i = first_match(m, key, t);
    if i < m.len() {
        m.update(i, (m[i].0, m[i].1.push(stamped(f, m[i].1[0]))))
    } else {
        m.push((key, seq![f]))
    }
}

/// `first_match` is exactly the least qualifying index.
pub proof fn lemma_first_match_is(m: Seq<EntryView>, key: Seq<u8>, t: Threshold, i: int)
    requires
        0 <= i <= m.len(),
        forall|j: int| 0 <= j < i ==> !spec_sim_ge(key, m[j].0, t),
        i < m.len() ==> spec_sim_ge(key, m[i].0, t),
    ensures
        first_match(m, key, t) == i,
    decreases m.len(),
{
    if m.len() == 0 {
    } else if spec_sim_ge(key, m[0].0, t) {
        assert(i == 0);
    } else {
        assert(i >= 1);
        assert(forall|j: int|
            0 <= j < i - 1 ==> m.drop_first()[j] == m[j + 1] && !spec_sim_ge(
                key,
                m.drop_first()[j].0,
                t,
            ));
        lemma_first_match_is(m.drop_first(), key, t, i - 1);
    }
}

/// The fuzzy duplicate index: an insertion-ordered collection of
/// (representative signature, cluster) entries, where membership is decided
/// by edit-distance similarity against the representative rather than exact
/// equality.
pub struct LevenshteinHashMap {
    pub threshold: Threshold,
    pub map: Vec<(Vec<u8>, Vec<Function>)>,
}

impl LevenshteinHashMap {
    pub open spec fn view(&self) -> Seq<EntryView> {
        entries_view(self.map@)
    }

    /// Every cluster is non-empty, every stored score is a well-formed
    /// rational, and the threshold denominator is positive.
    pub open spec fn wf(self) -> bool {
        &&& self.threshold.valid()
        &&& forall|i: int| 0 <= i < self@.len() ==> (#[trigger] self@[i]).1.len() >= 1
        &&& forall|i: int, k: int|
            0 <= i < self@.len() && 0 <= k < (#[trigger] self@[i]).1.len() ==> (#[trigger] self@[i].1[k]).similarity.valid()
    }

    /// An empty index with the given similarity cutoff.
    pub fn new(threshold: Threshold) -> (r: Self)
        requires
            threshold.valid(),
        ensures
            r.wf(),
            r@ == Seq::<EntryView>::empty(),
            r.threshold == threshold,
    {
        let r = LevenshteinHashMap { threshold, map: Vec::new() };
        proof {
            assert(r@ =~= Seq::<EntryView>::empty());
        }
        r
    }

    /// Insert a function under its signature. The first entry (in insertion
    /// order) whose representative scores at least the threshold against
    /// `key` receives the value, stamped with its similarity to that
    /// cluster's first member; otherwise a new singleton cluster is appended
    /// with `key` as representative and the value kept as passed.
    pub fn insert(&mut self, key: Vec<u8>, value: Function)
        requires
            old(self).wf(),
            value@.similarity.valid(),
        ensures
            final(self).wf(),
            final(self)@ == spec_insert(old(self)@, key@, value@, old(self).threshold),
            final(self).threshold == old(self).threshold,
    {
        let ghost m0 = self@;
        let ghost t = self.threshold;
        let ghost v0 = value@;
        let mut idx: usize = 0;
        while idx < self.map.len()
            invariant
                self.wf(),
                self@ == m0,
                self.threshold == t,
                m0 == old(self)@,
                t == old(self).threshold,
                idx <= self.map@.len(),
                m0.len() == self.map@.len(),
                value@ == v0,
                v0.similarity.valid(),
                forall|j: int| 0 <= j < idx ==> !spec_sim_ge(key@, m0[j].0, t),
            decreases self.map@.len() - idx,
        {
            let s = levenshtein_similarity(key.as_slice(), self.map[idx].0.as_slice());
            if s.at_least(&self.threshold) {
                let ghost i = idx as int;
                let ghost whole = self.map@;
                proof {
                    assert(m0[i] == (whole[i].0@, views(whole[i].1@)));
                    assert(views(whole[i].1@).len() >= 1);
                }
                let mut entry = self.map.remove(idx);
                let ghost cluster0 = views(entry.1@);
                proof {
                    assert(cluster0[0] == entry.1@[0]@);
                }
                let s2 = levenshtein_similarity(value.key.as_slice(), entry.1[0].key.as_slice());
                let mut value = value;
                value.similarity = s2;
                let ghost stamped_v = value@;
                entry.1.push(value);
                self.map.insert(idx, entry);
                proof {
                    lemma_first_match_is(m0, key@, t, i);
                    assert(stamped_v == stamped(v0, m0[i].1[0]));
                    assert(views(entry.1@) =~= cluster0.push(stamped_v));
                    assert(self.map@ =~= whole.remove(i).insert(i, entry));
                    assert(self.map@ =~= whole.update(i, entry));
                    assert forall|j: int| 0 <= j < self@.len() implies self@[j] == spec_insert(
                        m0,
                        key@,
                        v0,
                        t,
                    )[j] by {
                        assert(self@[j] == (self.map@[j].0@, views(self.map@[j].1@)));
                        if j != i {
                            assert(self.map@[j] == whole[j]);
                        }
                    }
                    assert(self@ =~= spec_insert(m0, key@, v0, t));
                }
                return ;
            }
            idx = idx + 1;
        }
        let mut cluster: Vec<Function> = Vec::new();
        cluster.push(value);
        self.map.push((key, cluster));
        proof {
            lemma_first_match_is(m0, key@, t, m0.len() as int);
            assert(views(cluster@) =~= seq![v0]);
            assert(self@ =~= spec_insert(m0, key@, v0, t));
        }
    }
}

/// Insert a sequence of functions, each under its own signature, oldest
/// first.
pub open spec fn spec_insert_all(m: Seq<EntryView>, fs: Seq<FuncView>, t: Threshold) -> Seq<
    EntryView,
>
    decreases fs.len(),
{
    if fs.len() == 0 {
        m
    } else {
        spec_insert_all(spec_insert(m, fs[0].key, fs[0], t), fs.drop_first(), t)
    }
}

proof fn lemma_insert_all_one_cluster(m: Seq<EntryView>, fs: Seq<FuncView>, t: Threshold)
    requires
        m.len() == 1,
        m[0].1.len() >= 1,
        forall|i: int| 0 <= i < fs.len() ==> spec_sim_ge((#[trigger] fs[i]).key, m[0].0, t),
    ensures
        spec_insert_all(m, fs, t).len() == 1,
        spec_insert_all(m, fs, t)[0].1.len() == m[0].1.len() + fs.len(),
        spec_insert_all(m, fs, t)[0].0 == m[0].0,
    decreases fs.len(),
{
    if fs.len() > 0 {
        lemma_first_match_is(m, fs[0].key, t, 0);
        let m2 = spec_insert(m, fs[0].key, fs[0], t);
        assert(m2.len() == 1 && m2[0].1.len() == m[0].1.len() + 1 && m2[0].0 == m[0].0);
        assert(forall|i: int|
            0 <= i < fs.drop_first().len() ==> fs.drop_first()[i] == fs[i + 1]);
        lemma_insert_all_one_cluster(m2, fs.drop_first(), t);
    }
}

/// Inserting functions whose signatures are all pairwise similar at the
/// threshold yields exactly one cluster holding all of them.
pub proof fn lemma_all_similar_one_cluster(fs: Seq<FuncView>, t: Threshold)
    requires
        fs.len() > 0,
        forall|i: int, j: int|
            0 <= i < fs.len() && 0 <= j < fs.len() ==> spec_sim_ge(fs[i].key, fs[j].key, t),
    ensures
        spec_insert_all(Seq::<EntryView>::empty(), fs, t).len() == 1,
        spec_insert_all(Seq::<EntryView>::empty(), fs, t)[0].1.len() == fs.len(),
    decreases fs.len(),
{
    let empty = Seq::<EntryView>::empty();
    lemma_first_match_is(empty, fs[0].key, t, 0);
    let m1 = spec_insert(empty, fs[0].key, fs[0], t);
    assert(m1 =~= seq![(fs[0].key, seq![fs[0]])]);
    assert(forall|i: int|
        0 <= i < fs.drop_first().len() ==> fs.drop_first()[i] == fs[i + 1]);
    lemma_insert_all_one_cluster(m1, fs.drop_first(), t);
}

proof fn lemma_insert_all_new_clusters(m: Seq<EntryView>, fs: Seq<FuncView>, t: Threshold)
    requires
        forall|i: int, j: int|
            0 <= i < fs.len() && 0 <= j < m.len() ==> !spec_sim_ge(
                (#[trigger] fs[i]).key,
                (#[trigger] m[j]).0,
                t,
            ),
        forall|i: int, j: int|
            0 <= j < i < fs.len() ==> !spec_sim_ge(fs[i].key, fs[j].key, t),
    ensures
        spec_insert_all(m, fs, t) =~= m + fs.map_values(|f: FuncView| (f.key, seq![f])),
    decreases fs.len(),
{
    if fs.len() == 0 {
        assert(spec_insert_all(m, fs, t) =~= m + fs.map_values(|f: FuncView| (f.key, seq![f])));
    } else {
        lemma_first_match_is(m, fs[0].key, t, m.len() as int);
        let m2 = spec_insert(m, fs[0].key, fs[0], t);
        assert(m2 =~= m.push((fs[0].key, seq![fs[0]])));
        assert(forall|i: int|
            0 <= i < fs.drop_first().len() ==> fs.drop_first()[i] == fs[i + 1]);
        lemma_insert_all_new_clusters(m2, fs.drop_first(), t);
        assert(spec_insert_all(m, fs, t) =~= m + fs.map_values(|f: FuncView| (f.key, seq![f])));
    }
}

/// Inserting functions no two of which are similar at the threshold yields
/// one singleton cluster per function, in insertion order.
pub proof fn lemma_all_dissimilar_singletons(fs: Seq<FuncView>, t: Threshold)
    requires
        forall|i: int, j: int|
            0 <= j < i < fs.len() ==> !spec_sim_ge(fs[i].key, fs[j].key, t),
    ensures
        spec_insert_all(Seq::<EntryView>::empty(), fs, t).len() == fs.len(),
        forall|i: int|
            0 <= i < fs.len() ==> #[trigger] spec_insert_all(Seq::<EntryView>::empty(), fs, t)[i]
                == (fs[i].key, seq![fs[i]]),
{
    lemma_insert_all_new_clusters(Seq::<EntryView>::empty(), fs, t);
    assert(spec_insert_all(Seq::<EntryView>::empty(), fs, t) =~= fs.map_values(
        |f: FuncView| (f.key, seq![f]),
    ));
}

} // verus!

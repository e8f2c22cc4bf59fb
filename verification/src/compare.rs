use vstd::prelude::*;

use crate::edit::{levenshtein_similarity, sim_den, sim_num, spec_sim_ge, Similarity, Threshold};
use crate::function::{sort_functions_by_vram, sorted_by_vram, views, DupsFile, FuncView, Function};

verus! {

/// One retained cross pair: a function of the first corpus, a function of
/// the second judged similar to it, and their score.
pub struct ComparePair {
    pub first: Function,
    pub second: Function,
    pub score: Similarity,
}

impl View for ComparePair {
    type V = (FuncView, FuncView, Similarity);

    open spec fn view(&self) -> (FuncView, FuncView, Similarity) {
        (self.first@, self.second@, self.score)
    }
}

/// The views of a sequence of pairs.
pub open spec fn pair_views(s: Seq<ComparePair>) -> Seq<(FuncView, FuncView, Similarity)> {
    s.map_values(|p: ComparePair| p.view())
}

/// The exact similarity of two functions' keys, as a value.
pub open spec fn score_of(a: FuncView, b: FuncView) -> Similarity {
    Similarity { num: sim_num(a.key, b.key) as usize, den: sim_den(a.key, b.key) as usize }
}

/// The qualifying pairs of `f` against each element of `b`, in order.
pub open spec fn row_pairs(f: FuncView, b: Seq<FuncView>, t: Threshold) -> Seq<
    (FuncView, FuncView, Similarity),
>
    decreases b.len(),
{
    if b.len() == 0 {
        Seq::<(FuncView, FuncView, Similarity)>::empty()
    } else {
        row_pairs(f, b.drop_last(), t) + (if spec_sim_ge(f.key, b.last().key, t) {
            seq![(f, b.last(), score_of(f, b.last()))]
        } else {
            Seq::<(FuncView, FuncView, Similarity)>::empty()
        })
    }
}

/// Every cross pair (first corpus outer, second inner) whose keys score at
/// least the threshold, in scan order.
pub open spec fn cross_pairs(a: Seq<FuncView>, b: Seq<FuncView>, t: Threshold) -> Seq<
    (FuncView, FuncView, Similarity),
>
    decreases a.len(),
{
    if a.len() == 0 {
        Seq::<(FuncView, FuncView, Similarity)>::empty()
    } else {
        cross_pairs(a.drop_last(), b, t) + row_pairs(a.last(), b, t)
    }
}

/// Score every pair across the two corpora and keep those at or above the
/// threshold, walking the first corpus in order and, within each of its
/// functions, the second corpus in order.
pub fn compare_all(a: &DupsFile, b: &DupsFile, threshold: &Threshold) -> (r: Vec<ComparePair>)
    requires
        threshold.valid(),
    ensures
        pair_views(r@) == cross_pairs(views(a.funcs@), views(b.funcs@), *threshold),
{
    let ghost av = views(a.funcs@);
    let ghost bv = views(b.funcs@);
    let ghost t = *threshold;
    let mut r: Vec<ComparePair> = Vec::new();
    proof {
        assert(av.take(0) =~= Seq::<FuncView>::empty());
        assert(pair_views(r@) =~= cross_pairs(av.take(0), bv, t));
    }
    let mut i: usize = 0;
    while i < a.funcs.len()
        invariant
            threshold.valid(),
            t == *threshold,
            av == views(a.funcs@),
            bv == views(b.funcs@),
            i <= a.funcs@.len(),
            pair_views(r@) == cross_pairs(av.take(i as int), bv, t),
        decreases a.funcs@.len() - i,
    {
        let f0 = &a.funcs[i];
        proof {
            assert(av.take(i + 1).drop_last() =~= av.take(i as int));
            assert(av.take(i + 1).last() == f0@);
            assert(bv.take(0) =~= Seq::<FuncView>::empty());
            assert(row_pairs(f0@, bv.take(0), t) =~= Seq::<
                (FuncView, FuncView, Similarity),
            >::empty());
        }
        let mut j: usize = 0;
        while j < b.funcs.len()
            invariant
                threshold.valid(),
                t == *threshold,
                av == views(a.funcs@),
                bv == views(b.funcs@),
                i < a.funcs@.len(),
                j <= b.funcs@.len(),
                f0 == &a.funcs[i as int],
                pair_views(r@) == cross_pairs(av.take(i as int), bv, t) + row_pairs(
                    f0@,
                    bv.take(j as int),
                    t,
                ),
            decreases b.funcs@.len() - j,
        {
            let f1 = &b.funcs[j];
            proof {
                assert(bv.take(j + 1).drop_last() =~= bv.take(j as int));
                assert(bv.take(j + 1).last() == f1@);
            }
            let score = levenshtein_similarity(f0.key.as_slice(), f1.key.as_slice());
            let ghost pre = pair_views(r@);
            if score.at_least(threshold) {
                let p = ComparePair { first: f0.duplicate(), second: f1.duplicate(), score };
                r.push(p);
                proof {
                    assert(pair_views(r@) =~= pre.push((f0@, f1@, score_of(f0@, f1@))));
                }
            }
            proof {
                assert(pair_views(r@) =~= cross_pairs(av.take(i as int), bv, t) + row_pairs(
                    f0@,
                    bv.take(j + 1),
                    t,
                ));
            }
            j = j + 1;
        }
        proof {
            assert(bv.take(bv.len() as int) =~= bv);
            assert(pair_views(r@) =~= cross_pairs(av.take(i + 1), bv, t));
        }
        i = i + 1;
    }
    proof {
        assert(av.take(av.len() as int) =~= av);
    }
    r
}

/// The duplicate reported for a name: the second member of the first pair
/// (in scan order) whose first member carries that name.
pub open spec fn first_dup(
    pairs: Seq<(FuncView, FuncView, Similarity)>,
    name: Seq<char>,
) -> Option<FuncView>
    decreases pairs.len(),
{
    if pairs.len() == 0 {
        None
    } else if pairs[0].0.name == name {
        Some(pairs[0].1)
    } else {
        first_dup(pairs.drop_first(), name)
    }
}

/// One row of the file-order view: a function of the first corpus and the
/// name of its first duplicate in the second, when one was found.
pub struct CompareRow {
    pub name: String,
    pub dup_name: Option<String>,
}

/// Walk the first corpus in its order and report, for each function, the
/// first retained pair whose first-side name matches, or an absence marker.
pub fn file_order_rows(a: &DupsFile, pairs: &Vec<ComparePair>) -> (r: Vec<CompareRow>)
    ensures
        r@.len() == a.funcs@.len(),
        forall|i: int|
            0 <= i < r@.len() ==> (#[trigger] r@[i]).name@ == views(a.funcs@)[i].name,
        forall|i: int|
            0 <= i < r@.len() ==> match first_dup(pair_views(pairs@), views(a.funcs@)[i].name) {
                Some(d) => (#[trigger] r@[i]).dup_name matches Some(n) && n@ == d.name,
                None => r@[i].dup_name is None,
            },
{
    let ghost pv = pair_views(pairs@);
    let mut r: Vec<CompareRow> = Vec::new();
    let mut i: usize = 0;
    while i < a.funcs.len()
        invariant
            pv == pair_views(pairs@),
            i <= a.funcs@.len(),
            r@.len() == i,
            forall|k: int|
                0 <= k < i ==> (#[trigger] r@[k]).name@ == views(a.funcs@)[k].name,
            forall|k: int|
                0 <= k < i ==> match first_dup(pv, views(a.funcs@)[k].name) {
                    Some(d) => (#[trigger] r@[k]).dup_name matches Some(n) && n@ == d.name,
                    None => r@[k].dup_name is None,
                },
        decreases a.funcs@.len() - i,
    {
        let f0 = &a.funcs[i];
        let mut dup: Option<String> = None;
        let mut j: usize = 0;
        proof {
            assert(pv.skip(0) =~= pv);
        }
        while j < pairs.len()
            invariant
                pv == pair_views(pairs@),
                j <= pairs@.len(),
                f0 == &a.funcs[i as int],
                i < a.funcs@.len(),
                match dup {
                    Some(n) => first_dup(pv, f0@.name) matches Some(d) && n@ == d.name,
                    None => first_dup(pv, f0@.name) == first_dup(pv.skip(j as int), f0@.name),
                },
            decreases pairs@.len() - j,
        {
            proof {
                assert(pv.skip(j as int)[0] == pv[j as int]);
                assert(pv.skip(j as int).drop_first() =~= pv.skip(j + 1));
            }
            if dup.is_none() {
                if pairs[j].first.name == f0.name {
                    dup = Some(pairs[j].second.name.clone());
                }
            }
            j = j + 1;
        }
        proof {
            if dup is None {
                assert(pv.skip(pairs@.len() as int) =~= Seq::<
                    (FuncView, FuncView, Similarity),
                >::empty());
            }
        }
        r.push(CompareRow { name: f0.name.clone(), dup_name: dup });
        i = i + 1;
    }
    r
}

/// A directory's corpus snapshot: its functions ordered by first virtual
/// address, functions with no instructions last.
pub fn make_dups_file(name: String, funcs: Vec<Function>) -> (r: DupsFile)
    ensures
        r.name@ == name@,
        sorted_by_vram(views(r.funcs@)),
        views(r.funcs@).to_multiset() == views(funcs@).to_multiset(),
        r.funcs@.len() == funcs@.len(),
{
    DupsFile { name, funcs: sort_functions_by_vram(funcs) }
}

} // verus!

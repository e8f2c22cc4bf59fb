use vstd::prelude::*;

use crate::bucket::{entries_view, spec_insert_all, EntryView, LevenshteinHashMap};
use crate::edit::{Similarity, Threshold};
use crate::function::{views, DupsFile, FuncView, Function};
use crate::include_asm::{IncludeAsmEntry, IncludeAsmView};
use crate::text::{
    lemma_lex_le_antisym, lemma_lex_le_total, lemma_lex_le_trans, lex_le, spec_contains,
    str_contains, str_le,
};

verus! {

broadcast use vstd::seq_lib::group_to_multiset_ensures;

/// The mathematical content of one corpus/source pairing.
pub ghost struct SrcAsmPairView {
    pub asm_dir: Seq<char>,
    pub src_dir: Seq<char>,
    pub overlay_name: Seq<char>,
    pub include_asm: Seq<IncludeAsmView>,
    pub path_matcher: Seq<char>,
}

/// One corpus/source pairing: where the assembly lives, where the ported
/// source lives, its markers, and the path fragment that assigns an
/// assembly file to this pairing.
pub struct SrcAsmPair {
    pub asm_dir: String,
    pub src_dir: String,
    pub overlay_name: String,
    pub include_asm: Vec<IncludeAsmEntry>,
    pub path_matcher: String,
}

impl View for SrcAsmPair {
    type V = SrcAsmPairView;

    open spec fn view(&self) -> SrcAsmPairView {
        SrcAsmPairView {
            asm_dir: self.asm_dir@,
            src_dir: self.src_dir@,
            overlay_name: self.overlay_name@,
            include_asm: self.include_asm@.map_values(|e: IncludeAsmEntry| e.view()),
            path_matcher: self.path_matcher@,
        }
    }
}

/// The views of a vector of pairings.
pub open spec fn pairs_view(s: Seq<SrcAsmPair>) -> Seq<SrcAsmPairView> {
    s.map_values(|p: SrcAsmPair| p.view())
}

/// A function counts as decompiled (already ported) exactly when some
/// pairing whose path fragment occurs in the function's file path holds a
/// marker for exactly that file whose line mentions the function's name.
pub open spec fn spec_decompiled(f: FuncView, pairs: Seq<SrcAsmPairView>) -> bool {
    exists|p: int, e: int|
        0 <= p < pairs.len() && 0 <= e < (#[trigger] pairs[p]).include_asm.len()
            && spec_contains(f.file, pairs[p].path_matcher) && f.file == (#[trigger] pairs[p].include_asm[e]).asm_path
            && spec_contains(pairs[p].include_asm[e].line, f.name)
}

/// Compute whether a function is already ported, by cross-referencing the
/// pairings' markers.
pub fn decompiled_flag(func: &Function, pairs: &Vec<SrcAsmPair>) -> (r: bool)
    ensures
        r == spec_decompiled(func@, pairs_view(pairs@)),
{
    let ghost pv = pairs_view(pairs@);
    let mut r = false;
    let mut p: usize = 0;
    while p < pairs.len()
        invariant
            pv == pairs_view(pairs@),
            p <= pairs@.len(),
            r == (exists|pp: int, e: int|
                0 <= pp < p && 0 <= e < (#[trigger] pv[pp]).include_asm.len() && spec_contains(
                    func@.file,
                    pv[pp].path_matcher,
                ) && func@.file == (#[trigger] pv[pp].include_asm[e]).asm_path && spec_contains(
                    pv[pp].include_asm[e].line,
                    func@.name,
                )),
        decreases pairs@.len() - p,
    {
        let pair = &pairs[p];
        let ghost rp = r;
        if str_contains(func.file.as_str(), pair.path_matcher.as_str()) {
            let mut e: usize = 0;
            while e < pair.include_asm.len()
                invariant
                    pv == pairs_view(pairs@),
                    p < pairs@.len(),
                    pair == &pairs@[p as int],
                    e <= pair.include_asm@.len(),
                    spec_contains(func@.file, pv[p as int].path_matcher),
                    r == (rp || exists|ee: int|
                        0 <= ee < e && func@.file == (#[trigger] pv[p as int].include_asm[ee]).asm_path
                            && spec_contains(pv[p as int].include_asm[ee].line, func@.name)),
                decreases pair.include_asm@.len() - e,
            {
                let inc = &pair.include_asm[e];
                proof {
                    assert(pv[p as int] == pairs@[p as int]@);
                    assert(pv[p as int].include_asm[e as int] == pair.include_asm@[e as int]@);
                }
                if func.file == inc.asm_path {
                    if str_contains(inc.line.as_str(), func.name.as_str()) {
                        r = true;
                    }
                }
                e = e + 1;
            }
        }
        p = p + 1;
    }
    r
}

/// One line of the duplicate report: score, decompiled flag, name, file.
pub struct ReportRow {
    pub similarity: Similarity,
    pub decompiled: bool,
    pub name: String,
    pub file: String,
}

/// The mathematical content of one report line.
pub ghost struct RowView {
    pub similarity: Similarity,
    pub decompiled: bool,
    pub name: Seq<char>,
    pub file: Seq<char>,
}

impl View for ReportRow {
    type V = RowView;

    open spec fn view(&self) -> RowView {
        RowView {
            similarity: self.similarity,
            decompiled: self.decompiled,
            name: self.name@,
            file: self.file@,
        }
    }
}

/// The views of a vector of report rows.
pub open spec fn row_views(s: Seq<ReportRow>) -> Seq<RowView> {
    s.map_values(|r: ReportRow| r.view())
}

/// The report line of one clustered function.
pub open spec fn row_of(f: FuncView, pairs: Seq<SrcAsmPairView>) -> RowView {
    RowView {
        similarity: f.similarity,
        decompiled: spec_decompiled(f, pairs),
        name: f.name,
        file: f.file,
    }
}

/// Rational order on similarity scores, by cross multiplication.
pub open spec fn sim_le(a: Similarity, b: Similarity) -> bool {
    a.num * b.den <= b.num * a.den
}

proof fn lemma_sim_le_total(a: Similarity, b: Similarity)
    ensures
        sim_le(a, b) || sim_le(b, a),
{
}

proof fn lemma_sim_le_trans(a: Similarity, b: Similarity, c: Similarity)
    requires
        a.valid(),
        b.valid(),
        c.valid(),
        sim_le(a, b),
        sim_le(b, c),
    ensures
        sim_le(a, c),
{
    assert(a.num * c.den <= c.num * a.den) by (nonlinear_arith)
        requires
            a.num * b.den <= b.num * a.den,
            b.num * c.den <= c.num * b.den,
            a.den > 0,
            b.den > 0,
            c.den > 0,
    ;
}

/// Exact rational comparison of two scores.
pub fn sim_le_exec(a: &Similarity, b: &Similarity) -> (r: bool)
    ensures
        r == sim_le(*a, *b),
{
    proof {
        let m: u128 = 0xFFFF_FFFF_FFFF_FFFF;
        assert((a.num as u128) * (b.den as u128) <= m * m && (b.num as u128) * (a.den as u128) <= m
            * m) by (nonlinear_arith)
            requires
                a.num <= m && b.den <= m && b.num <= m && a.den <= m,
        ;
    }
    (a.num as u128) * (b.den as u128) <= (b.num as u128) * (a.den as u128)
}

/// Report order of rows inside one cluster: file path first, then ascending
/// similarity.
pub open spec fn row_le(a: RowView, b: RowView) -> bool {
    if a.file == b.file {
        sim_le(a.similarity, b.similarity)
    } else {
        lex_le(a.file, b.file)
    }
}

proof fn lemma_row_le_total(a: RowView, b: RowView)
    ensures
        row_le(a, b) || row_le(b, a),
{
    if a.file == b.file {
        lemma_sim_le_total(a.similarity, b.similarity);
    } else {
        lemma_lex_le_total(a.file, b.file);
    }
}

proof fn lemma_row_le_trans(a: RowView, b: RowView, c: RowView)
    requires
        a.similarity.valid(),
        b.similarity.valid(),
        c.similarity.valid(),
        row_le(a, b),
        row_le(b, c),
    ensures
        row_le(a, c),
{
    if a.file == b.file && b.file == c.file {
        lemma_sim_le_trans(a.similarity, b.similarity, c.similarity);
    } else if a.file == b.file {
    } else if b.file == c.file {
    } else if a.file == c.file {
        lemma_lex_le_antisym(a.file, b.file);
    } else {
        lemma_lex_le_trans(a.file, b.file, c.file);
    }
}

/// Compare two rows in report order.
pub fn row_le_exec(a: &ReportRow, b: &ReportRow) -> (r: bool)
    ensures
        r == row_le(a@, b@),
{
    if a.file == b.file {
        sim_le_exec(&a.similarity, &b.similarity)
    } else {
        str_le(a.file.as_str(), b.file.as_str())
    }
}

/// Every row's score is a well-formed rational.
pub open spec fn rows_valid(s: Seq<RowView>) -> bool {
    forall|i: int| 0 <= i < s.len() ==> (#[trigger] s[i]).similarity.valid()
}

/// The sequence is in report row order.
pub open spec fn rows_sorted(s: Seq<RowView>) -> bool {
    forall|i: int, j: int| 0 <= i < j < s.len() ==> row_le(s[i], s[j])
}

/// Sort a cluster's rows by file path, then ascending similarity. The
/// result is a permutation of the input.
pub fn sort_rows(rows: Vec<ReportRow>) -> (r: Vec<ReportRow>)
    requires
        rows_valid(row_views(rows@)),
    ensures
        rows_sorted(row_views(r@)),
        row_views(r@).to_multiset() == row_views(rows@).to_multiset(),
        r@.len() == rows@.len(),
{
    let ghost orig = row_views(rows@);
    let mut remaining = rows;
    let mut out: Vec<ReportRow> = Vec::new();
    proof {
        assert(row_views(out@) =~= Seq::<RowView>::empty());
        assert(row_views(out@).to_multiset().add(row_views(remaining@).to_multiset())
            =~= orig.to_multiset());
        assert(row_views(remaining@) =~= orig);
    }
    while remaining.len() > 0
        invariant
            row_views(out@).to_multiset().add(row_views(remaining@).to_multiset())
                == orig.to_multiset(),
            rows_sorted(row_views(out@)),
            rows_valid(row_views(out@)),
            rows_valid(row_views(remaining@)),
            forall|i: int, j: int|
                0 <= i < out@.len() && 0 <= j < remaining@.len() ==> row_le(
                    row_views(out@)[i],
                    row_views(remaining@)[j],
                ),
            out@.len() + remaining@.len() == orig.len(),
        decreases remaining@.len(),
    {
        let mut idx: usize = 0;
        let mut i: usize = 1;
        while i < remaining.len()
            invariant
                remaining@.len() > 0,
                idx < i,
                i <= remaining@.len(),
                rows_valid(row_views(remaining@)),
                forall|j: int|
                    0 <= j < i ==> row_le(
                        row_views(remaining@)[idx as int],
                        row_views(remaining@)[j],
                    ),
            decreases remaining@.len() - i,
        {
            if !row_le_exec(&remaining[idx], &remaining[i]) {
                proof {
                    lemma_row_le_total(row_views(remaining@)[idx as int], row_views(remaining@)[i as int]);
                    assert forall|j: int| 0 <= j < i implies row_le(
                        row_views(remaining@)[i as int],
                        row_views(remaining@)[j],
                    ) by {
                        lemma_row_le_trans(
                            row_views(remaining@)[i as int],
                            row_views(remaining@)[idx as int],
                            row_views(remaining@)[j],
                        );
                    }
                }
                idx = i;
            }
            i = i + 1;
        }
        let ghost pre = row_views(remaining@);
        let x = remaining.remove(idx);
        proof {
            assert(row_views(remaining@) =~= pre.remove(idx as int));
            assert(pre.remove(idx as int).to_multiset() =~= pre.to_multiset().remove(x@));
            assert(pre.to_multiset().count(x@) > 0) by {
                assert(pre[idx as int] == x@);
                assert(pre.contains(x@));
            }
        }
        let ghost outpre = row_views(out@);
        out.push(x);
        proof {
            assert(row_views(out@) =~= outpre.push(x@));
            assert(row_views(out@).to_multiset() =~= outpre.to_multiset().insert(x@));
            assert(row_views(out@).to_multiset().add(row_views(remaining@).to_multiset())
                =~= orig.to_multiset());
        }
    }
    proof {
        assert(row_views(remaining@) =~= Seq::<RowView>::empty());
        assert(row_views(out@).to_multiset().add(Seq::<RowView>::empty().to_multiset())
            =~= row_views(out@).to_multiset());
        assert(orig.to_multiset().len() == orig.len());
        assert(row_views(out@).to_multiset().len() == row_views(out@).len());
    }
    out
}

/// Report order of clusters: larger clusters first, ties by the first
/// member's file path.
pub open spec fn entry_le(a: EntryView, b: EntryView) -> bool {
    a.1.len() > b.1.len() || (a.1.len() == b.1.len() && lex_le(a.1[0].file, b.1[0].file))
}

proof fn lemma_entry_le_refl(a: EntryView)
    ensures
        entry_le(a, a),
{
    crate::text::lemma_lex_le_refl(a.1[0].file);
}

proof fn lemma_entry_le_total(a: EntryView, b: EntryView)
    ensures
        entry_le(a, b) || entry_le(b, a),
{
    if a.1.len() == b.1.len() {
        lemma_lex_le_total(a.1[0].file, b.1[0].file);
    }
}

proof fn lemma_entry_le_trans(a: EntryView, b: EntryView, c: EntryView)
    requires
        entry_le(a, b),
        entry_le(b, c),
    ensures
        entry_le(a, c),
{
    if a.1.len() == b.1.len() && b.1.len() == c.1.len() {
        lemma_lex_le_trans(a.1[0].file, b.1[0].file, c.1[0].file);
    }
}

/// Compare two entries in report order.
pub fn entry_le_exec(a: &(Vec<u8>, Vec<Function>), b: &(Vec<u8>, Vec<Function>)) -> (r: bool)
    requires
        a.1@.len() >= 1,
        b.1@.len() >= 1,
    ensures
        r == entry_le((a.0@, views(a.1@)), (b.0@, views(b.1@))),
{
    if a.1.len() > b.1.len() {
        true
    } else if a.1.len() == b.1.len() {
        str_le(a.1[0].file.as_str(), b.1[0].file.as_str())
    } else {
        false
    }
}

/// The sequence is in report cluster order.
pub open spec fn entries_sorted(s: Seq<EntryView>) -> bool {
    forall|i: int, j: int| 0 <= i < j < s.len() ==> entry_le(s[i], s[j])
}

/// Every cluster of the sequence is non-empty.
pub open spec fn entries_nonempty(s: Seq<EntryView>) -> bool {
    forall|i: int| 0 <= i < s.len() ==> (#[trigger] s[i]).1.len() >= 1
}

/// Sort the index's entries into report order: descending cluster size,
/// ties by the first member's file path. The result is a permutation.
pub fn sort_entries(entries: Vec<(Vec<u8>, Vec<Function>)>) -> (r: Vec<(Vec<u8>, Vec<Function>)>)
    requires
        entries_nonempty(entries_view(entries@)),
    ensures
        entries_sorted(entries_view(r@)),
        entries_view(r@).to_multiset() == entries_view(entries@).to_multiset(),
        r@.len() == entries@.len(),
        entries_nonempty(entries_view(r@)),
{
    let ghost orig = entries_view(entries@);
    let mut remaining = entries;
    let mut out: Vec<(Vec<u8>, Vec<Function>)> = Vec::new();
    proof {
        assert(entries_view(out@) =~= Seq::<EntryView>::empty());
        assert(entries_view(out@).to_multiset().add(entries_view(remaining@).to_multiset())
            =~= orig.to_multiset());
        assert(entries_view(remaining@) =~= orig);
    }
    while remaining.len() > 0
        invariant
            entries_view(out@).to_multiset().add(entries_view(remaining@).to_multiset())
                == orig.to_multiset(),
            entries_sorted(entries_view(out@)),
            entries_nonempty(entries_view(out@)),
            entries_nonempty(entries_view(remaining@)),
            forall|i: int, j: int|
                0 <= i < out@.len() && 0 <= j < remaining@.len() ==> entry_le(
                    entries_view(out@)[i],
                    entries_view(remaining@)[j],
                ),
            out@.len() + remaining@.len() == orig.len(),
        decreases remaining@.len(),
    {
        let mut idx: usize = 0;
        let mut i: usize = 1;
        proof {
            lemma_entry_le_refl(entries_view(remaining@)[0]);
        }
        while i < remaining.len()
            invariant
                remaining@.len() > 0,
                idx < i,
                i <= remaining@.len(),
                entries_nonempty(entries_view(remaining@)),
                forall|j: int|
                    0 <= j < i ==> entry_le(
                        entries_view(remaining@)[idx as int],
                        entries_view(remaining@)[j],
                    ),
            decreases remaining@.len() - i,
        {
            proof {
                assert(entries_view(remaining@)[idx as int].1.len() >= 1);
                assert(entries_view(remaining@)[i as int].1.len() >= 1);
                assert(entries_view(remaining@)[idx as int] == (remaining@[idx as int].0@, views(
                    remaining@[idx as int].1@,
                )));
                assert(entries_view(remaining@)[i as int] == (remaining@[i as int].0@, views(
                    remaining@[i as int].1@,
                )));
                lemma_entry_le_refl(entries_view(remaining@)[i as int]);
            }
            if !entry_le_exec(&remaining[idx], &remaining[i]) {
                proof {
                    lemma_entry_le_total(
                        entries_view(remaining@)[idx as int],
                        entries_view(remaining@)[i as int],
                    );
                    assert forall|j: int| 0 <= j < i implies entry_le(
                        entries_view(remaining@)[i as int],
                        entries_view(remaining@)[j],
                    ) by {
                        lemma_entry_le_trans(
                            entries_view(remaining@)[i as int],
                            entries_view(remaining@)[idx as int],
                            entries_view(remaining@)[j],
                        );
                    }
                }
                idx = i;
            }
            i = i + 1;
        }
        let ghost pre = entries_view(remaining@);
        let x = remaining.remove(idx);
        let ghost xv = (x.0@, views(x.1@));
        proof {
            assert(entries_view(remaining@) =~= pre.remove(idx as int));
            assert(pre.remove(idx as int).to_multiset() =~= pre.to_multiset().remove(xv));
            assert(pre.to_multiset().count(xv) > 0) by {
                assert(pre[idx as int] == xv);
                assert(pre.contains(xv));
            }
        }
        let ghost outpre = entries_view(out@);
        out.push(x);
        proof {
            assert(entries_view(out@) =~= outpre.push(xv));
            assert(entries_view(out@).to_multiset() =~= outpre.to_multiset().insert(xv));
            assert(entries_view(out@).to_multiset().add(entries_view(remaining@).to_multiset())
                =~= orig.to_multiset());
        }
    }
    proof {
        assert(entries_view(remaining@) =~= Seq::<EntryView>::empty());
        assert(entries_view(out@).to_multiset().add(Seq::<EntryView>::empty().to_multiset())
            =~= entries_view(out@).to_multiset());
        assert(orig.to_multiset().len() == orig.len());
        assert(entries_view(out@).to_multiset().len() == entries_view(out@).len());
    }
    out
}

/// All functions of a sequence of corpus snapshots, snapshot by snapshot.
pub open spec fn corpus(files: Seq<DupsFile>) -> Seq<FuncView>
    decreases files.len(),
{
    if files.len() == 0 {
        Seq::<FuncView>::empty()
    } else {
        corpus(files.drop_last()) + views(files.last().funcs@)
    }
}

proof fn lemma_insert_all_snoc(m: Seq<EntryView>, fs: Seq<FuncView>, f: FuncView, t: Threshold)
    ensures
        spec_insert_all(m, fs.push(f), t) == crate::bucket::spec_insert(
            spec_insert_all(m, fs, t),
            f.key,
            f,
            t,
        ),
    decreases fs.len(),
{
    if fs.len() == 0 {
        assert(fs.push(f)[0] == f);
        assert(fs.push(f).drop_first() =~= Seq::<FuncView>::empty());
        assert(spec_insert_all(m, fs.push(f), t) == spec_insert_all(
            crate::bucket::spec_insert(m, f.key, f, t),
            Seq::<FuncView>::empty(),
            t,
        ));
        assert(spec_insert_all(m, fs, t) == m);
    } else {
        assert(fs.push(f)[0] == fs[0]);
        assert(fs.push(f).drop_first() =~= fs.drop_first().push(f));
        lemma_insert_all_snoc(
            crate::bucket::spec_insert(m, fs[0].key, fs[0], t),
            fs.drop_first(),
            f,
            t,
        );
    }
}

/// Build the duplicate index: insert every function of every snapshot, in
/// snapshot then function order, each under its own signature.
pub fn build_index(files: &Vec<DupsFile>, threshold: Threshold) -> (m: LevenshteinHashMap)
    requires
        threshold.valid(),
        forall|i: int, j: int|
            0 <= i < files@.len() && 0 <= j < (#[trigger] files@[i]).funcs@.len() ==> (
            #[trigger] files@[i].funcs@[j])@.similarity.valid(),
    ensures
        m.wf(),
        m@ == spec_insert_all(Seq::<EntryView>::empty(), corpus(files@), threshold),
        m.threshold == threshold,
{
    let mut m = LevenshteinHashMap::new(threshold);
    proof {
        assert(corpus(files@.take(0)) =~= Seq::<FuncView>::empty());
    }
    let mut i: usize = 0;
    while i < files.len()
        invariant
            m.wf(),
            m.threshold == threshold,
            threshold.valid(),
            i <= files@.len(),
            m@ == spec_insert_all(Seq::<EntryView>::empty(), corpus(files@.take(i as int)), threshold),
            forall|ii: int, j: int|
                0 <= ii < files@.len() && 0 <= j < (#[trigger] files@[ii]).funcs@.len() ==> (
                #[trigger] files@[ii].funcs@[j])@.similarity.valid(),
        decreases files@.len() - i,
    {
        let file = &files[i];
        proof {
            assert(files@.take(i + 1).drop_last() =~= files@.take(i as int));
            assert(files@.take(i + 1).last() == files@[i as int]);
            assert(views(file.funcs@).take(0) =~= Seq::<FuncView>::empty());
            assert(corpus(files@.take(i as int)) + views(file.funcs@).take(0) =~= corpus(
                files@.take(i as int),
            ));
        }
        let mut j: usize = 0;
        while j < file.funcs.len()
            invariant
                m.wf(),
                m.threshold == threshold,
                threshold.valid(),
                i < files@.len(),
                file == &files@[i as int],
                j <= file.funcs@.len(),
                m@ == spec_insert_all(
                    Seq::<EntryView>::empty(),
                    corpus(files@.take(i as int)) + views(file.funcs@).take(j as int),
                    threshold,
                ),
                forall|ii: int, jj: int|
                    0 <= ii < files@.len() && 0 <= jj < (#[trigger] files@[ii]).funcs@.len() ==> (
                    #[trigger] files@[ii].funcs@[jj])@.similarity.valid(),
            decreases file.funcs@.len() - j,
        {
            let func = &file.funcs[j];
            let key = crate::function::copy_bytes(&func.key);
            let value = func.duplicate();
            proof {
                assert(views(file.funcs@)[j as int] == func@);
                assert(files@[i as int].funcs@[j as int]@.similarity.valid());
            }
            let ghost done = corpus(files@.take(i as int)) + views(file.funcs@).take(j as int);
            m.insert(key, value);
            proof {
                lemma_insert_all_snoc(Seq::<EntryView>::empty(), done, func@, threshold);
                assert(done.push(func@) =~= corpus(files@.take(i as int)) + views(
                    file.funcs@,
                ).take(j + 1));
            }
            j = j + 1;
        }
        proof {
            assert(views(file.funcs@).take(file.funcs@.len() as int) =~= views(file.funcs@));
            assert(corpus(files@.take(i as int)) + views(file.funcs@) =~= corpus(
                files@.take(i + 1),
            ));
        }
        i = i + 1;
    }
    proof {
        assert(files@.take(files@.len() as int) =~= files@);
    }
    m
}

/// The report lines of one cluster, one per member, in cluster order.
pub open spec fn cluster_rows(cluster: Seq<FuncView>, pairs: Seq<SrcAsmPairView>) -> Seq<RowView> {
    cluster.map_values(|f: FuncView| row_of(f, pairs))
}

/// A cluster is surfaced in the report only when it holds at least two
/// members.
pub open spec fn big_cluster(e: EntryView) -> bool {
    e.1.len() >= 2
}

/// The entries a sorted index exposes in the report: those with two or more
/// members, in their sorted order.
pub open spec fn surfaced(es: Seq<EntryView>) -> Seq<EntryView> {
    es.filter(|e: EntryView| big_cluster(e))
}

/// Appending one entry extends the surfaced entries exactly when it is big
/// enough.
proof fn lemma_surfaced_push(es: Seq<EntryView>, e: EntryView)
    ensures
        surfaced(es.push(e)) == (if big_cluster(e) {
            surfaced(es).push(e)
        } else {
            surfaced(es)
        }),
{
    reveal(Seq::filter);
    assert(es.push(e).drop_last() =~= es);
    assert(es.push(e).last() == e);
}

/// The report `r` renders exactly the size-two-or-more entries of `es`, in
/// order: one output cluster per such entry, holding one line per member.
pub open spec fn report_matches(
    r: Seq<Vec<ReportRow>>,
    es: Seq<EntryView>,
    pv: Seq<SrcAsmPairView>,
) -> bool {
    let kept = surfaced(es);
    &&& r.len() == kept.len()
    &&& forall|c: int|
        0 <= c < r.len() ==> row_views((#[trigger] r[c])@).to_multiset() == cluster_rows(
            kept[c].1,
            pv,
        ).to_multiset()
}

/// The full duplicate report. The output renders exactly the clusters of
/// two or more members of the index built over the whole corpus, one
/// report line per member (exact score, decompiled flag, name, file);
/// clusters of one are never surfaced. Clusters come in report order:
/// descending size, ties by the first member's file path (`entries_sorted`
/// over a permutation of the index); rows within a cluster come by file
/// path, then ascending similarity.
pub fn dups_report(files: &Vec<DupsFile>, pairs: &Vec<SrcAsmPair>, threshold: Threshold) -> (r:
    Vec<Vec<ReportRow>>)
    requires
        threshold.valid(),
        forall|i: int, j: int|
            0 <= i < files@.len() && 0 <= j < (#[trigger] files@[i]).funcs@.len() ==> (
            #[trigger] files@[i].funcs@[j])@.similarity.valid(),
    ensures
        forall|c: int| 0 <= c < r@.len() ==> (#[trigger] r@[c])@.len() >= 2,
        forall|c: int| 0 <= c < r@.len() ==> rows_sorted(row_views((#[trigger] r@[c])@)),
        exists|es: Seq<EntryView>|
            {
                &&& es.to_multiset() == spec_insert_all(
                    Seq::<EntryView>::empty(),
                    corpus(files@),
                    threshold,
                ).to_multiset()
                &&& entries_sorted(es)
                &&& entries_nonempty(es)
                &&& report_matches(r@, es, pairs_view(pairs@))
            },
{
    broadcast use vstd::seq_lib::group_filter_ensures;

    let ghost pv = pairs_view(pairs@);
    let index = build_index(files, threshold);
    let entries = index.map;
    let sorted = sort_entries(entries);
    let ghost se = entries_view(sorted@);
    proof {
        // Element-wise facts carry from the index to its permutation.
        assert forall|i2: int, k: int|
            0 <= i2 < se.len() && 0 <= k < (#[trigger] se[i2]).1.len() implies (
        #[trigger] se[i2].1[k]).similarity.valid() by {
            assert(se.contains(se[i2]));
            assert(se.to_multiset().count(se[i2]) > 0);
            assert(entries_view(index.map@).to_multiset().count(se[i2]) > 0);
            assert(entries_view(index.map@).contains(se[i2]));
            let e = choose|e: int|
                0 <= e < entries_view(index.map@).len() && entries_view(index.map@)[e] == se[i2];
            assert(entries_view(index.map@)[e].1[k].similarity.valid());
        }
        assert(se.take(0) =~= Seq::<EntryView>::empty());
        reveal(Seq::filter);
    }
    let mut r: Vec<Vec<ReportRow>> = Vec::new();
    let mut i: usize = 0;
    while i < sorted.len()
        invariant
            se == entries_view(sorted@),
            entries_nonempty(se),
            pv == pairs_view(pairs@),
            i <= sorted@.len(),
            forall|i2: int, k: int|
                0 <= i2 < se.len() && 0 <= k < (#[trigger] se[i2]).1.len() ==> (
                #[trigger] se[i2].1[k]).similarity.valid(),
            forall|c: int| 0 <= c < r@.len() ==> (#[trigger] r@[c])@.len() >= 2,
            forall|c: int| 0 <= c < r@.len() ==> rows_sorted(row_views((#[trigger] r@[c])@)),
            report_matches(r@, se.take(i as int), pv),
        decreases sorted@.len() - i,
    {
        broadcast use vstd::seq_lib::group_filter_ensures;

        let entry = &sorted[i];
        proof {
            assert(se[i as int] == (entry.0@, views(entry.1@)));
            assert(se.take(i + 1) =~= se.take(i as int).push(se[i as int]));
        }
        if entry.1.len() > 1 {
            let ghost cluster = se[i as int].1;
            let mut rows: Vec<ReportRow> = Vec::new();
            proof {
                assert(row_views(rows@) =~= cluster_rows(cluster.take(0), pv));
            }
            let mut k: usize = 0;
            while k < entry.1.len()
                invariant
                    pv == pairs_view(pairs@),
                    i < sorted@.len(),
                    entry == &sorted@[i as int],
                    se == entries_view(sorted@),
                    cluster == se[i as int].1,
                    forall|i2: int, kk: int|
                        0 <= i2 < se.len() && 0 <= kk < (#[trigger] se[i2]).1.len() ==> (
                        #[trigger] se[i2].1[kk]).similarity.valid(),
                    k <= entry.1@.len(),
                    cluster.len() == entry.1@.len(),
                    row_views(rows@) == cluster_rows(cluster.take(k as int), pv),
                decreases entry.1@.len() - k,
            {
                let func = &entry.1[k];
                proof {
                    assert(cluster[k as int] == func@);
                }
                let dec = decompiled_flag(func, pairs);
                let row = ReportRow {
                    similarity: func.similarity,
                    decompiled: dec,
                    name: func.name.clone(),
                    file: func.file.clone(),
                };
                let ghost pre = row_views(rows@);
                rows.push(row);
                proof {
                    assert(cluster.take(k + 1).drop_last() =~= cluster.take(k as int));
                    assert(row_views(rows@) =~= pre.push(row_of(cluster[k as int], pv)));
                    assert(cluster_rows(cluster.take(k + 1), pv) =~= cluster_rows(
                        cluster.take(k as int),
                        pv,
                    ).push(row_of(cluster[k as int], pv)));
                }
                k = k + 1;
            }
            proof {
                assert(cluster.take(cluster.len() as int) =~= cluster);
                assert forall|kk: int| 0 <= kk < row_views(rows@).len() implies (
                #[trigger] row_views(rows@)[kk]).similarity.valid() by {
                    assert(row_views(rows@)[kk] == row_of(cluster[kk], pv));
                    assert(cluster[kk].similarity.valid());
                }
            }
            let sorted_rows = sort_rows(rows);
            let ghost pre_r = r@;
            proof {
                assert(row_views(sorted_rows@).len() == sorted_rows@.len());
                assert(row_views(sorted_rows@).to_multiset().len() == row_views(
                    sorted_rows@,
                ).len());
                assert(cluster_rows(cluster, pv).to_multiset().len() == cluster.len());
            }
            r.push(sorted_rows);
            proof {
                // One more surfaced entry, one more output cluster.
                assert(big_cluster(se[i as int]));
                lemma_surfaced_push(se.take(i as int), se[i as int]);
                assert(surfaced(se.take(i + 1)) == surfaced(se.take(i as int)).push(
                    se[i as int],
                ));
                assert(forall|c: int| 0 <= c < pre_r.len() ==> r@[c] == pre_r[c]);
                assert(r@[pre_r.len() as int] == sorted_rows);
                assert(report_matches(r@, se.take(i + 1), pv));
            }
        } else {
            proof {
                // Clusters of one are not surfaced.
                assert(!big_cluster(se[i as int]));
                lemma_surfaced_push(se.take(i as int), se[i as int]);
                assert(surfaced(se.take(i + 1)) == surfaced(se.take(i as int)));
                assert(report_matches(r@, se.take(i + 1), pv));
            }
        }
        i = i + 1;
    }
    proof {
        assert(se.take(sorted@.len() as int) =~= se);
        assert(se.to_multiset() == spec_insert_all(
            Seq::<EntryView>::empty(),
            corpus(files@),
            threshold,
        ).to_multiset());
        assert(report_matches(r@, se, pv));
    }
    r
}

} // verus!

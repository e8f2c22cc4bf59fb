use dups::bucket::LevenshteinHashMap;
use dups::compare::{compare_all, file_order_rows, make_dups_file};
use dups::edit::{Similarity, Threshold};
use dups::function::{DupsFile, Function};
use dups::include_asm::{get_all_include_asm, SourceFile};
use dups::instr::Instruction;
use dups::parse::{functions_from_source, parse_instructions};
use dups::report::{dups_report, SrcAsmPair};
use dups::windows::apply_sliding_window;

// A two-instruction return/no-op stub. The opcode words are byte-swapped on
// read, so the text holds 0800e003 / 00000000 to store 0x03E00008 / 0x0.
const STUB_TEXT: &str = "glabel fs\nx 0 80010000 0800e003\nx 4 80010004 00000000\n";

// Three-instruction bodies, identical except that the middle opcode of the
// second differs only in its low 26 bits (stored 0x11111111 vs 0x11111112),
// so both produce the same signature key.
const BODY_A: &str = "glabel fa\nx 0 80010000 11111111\nx 4 80010004 22222222\nx 8 80010008 33333333\n";
const BODY_B: &str = "glabel fb\nx 0 80020000 12111111\nx 4 80020004 22222222\nx 8 80020008 33333333\n";

fn threshold(num: u64, den: u64) -> Threshold {
    Threshold { num, den }
}

#[test]
fn parser_swaps_bytes_and_takes_first_label() {
    let f = parse_instructions(STUB_TEXT, "da", "fs.s");
    assert_eq!(f.name, "fs");
    assert_eq!(f.ops.len(), 2);
    assert_eq!(f.ops[0].op, 0x03E00008);
    assert_eq!(f.ops[1].op, 0x00000000);
    assert_eq!(f.ops[0].file_addr, 0);
    assert_eq!(f.ops[0].vram_addr, 0x80010000);
    assert!(f.is_trivial_stub());
}

#[test]
fn stub_files_produce_zero_clusters() {
    let fa = functions_from_source(STUB_TEXT, "da", "da/fs.s");
    let fb = functions_from_source(STUB_TEXT, "db", "db/fs.s");
    assert!(fa.is_empty());
    assert!(fb.is_empty());
    let files = vec![
        make_dups_file("da".to_string(), fa),
        make_dups_file("db".to_string(), fb),
    ];
    let report = dups_report(&files, &Vec::new(), threshold(94, 100));
    assert_eq!(report.len(), 0);
}

#[test]
fn equal_signature_bodies_form_one_cluster_at_similarity_one() {
    let fa = functions_from_source(BODY_A, "da", "../../asm/us/os/fa.s");
    let fb = functions_from_source(BODY_B, "db", "../../asm/us/os/fb.s");
    assert_eq!(fa.len(), 1);
    assert_eq!(fb.len(), 1);
    assert_eq!(fa[0].key, fb[0].key);
    let files = vec![
        make_dups_file("da".to_string(), fa),
        make_dups_file("db".to_string(), fb),
    ];
    let report = dups_report(&files, &Vec::new(), threshold(94, 100));
    assert_eq!(report.len(), 1);
    assert_eq!(report[0].len(), 2);
    // The second member is stamped with exact similarity 1 against the
    // cluster's first member.
    let stamped: Vec<&dups::report::ReportRow> =
        report[0].iter().filter(|r| r.similarity.num == r.similarity.den).collect();
    assert_eq!(stamped.len(), 1);
    assert_eq!(stamped[0].name, "fb");
}

#[test]
fn pair_mode_reports_the_match_at_similarity_one() {
    let fa = functions_from_source(BODY_A, "da", "da/fa.s");
    let fb = functions_from_source(BODY_B, "db", "db/fb.s");
    let da = make_dups_file("da".to_string(), fa);
    let db = make_dups_file("db".to_string(), fb);
    let t = threshold(94, 100);
    let pairs = compare_all(&da, &db, &t);
    assert_eq!(pairs.len(), 1);
    assert_eq!(pairs[0].first.name, "fa");
    assert_eq!(pairs[0].second.name, "fb");
    assert_eq!(pairs[0].score.num, pairs[0].score.den);
    let rows = file_order_rows(&da, &pairs);
    assert_eq!(rows.len(), 1);
    assert_eq!(rows[0].name, "fa");
    assert_eq!(rows[0].dup_name.as_deref(), Some("fb"));
}

#[test]
fn marker_match_means_decompiled() {
    let fa = functions_from_source(BODY_A, "da", "../../asm/us/os/fa.s");
    let fb = functions_from_source(BODY_B, "db", "../../asm/us/os/fb.s");
    let files = vec![
        make_dups_file("da".to_string(), fa),
        make_dups_file("db".to_string(), fb),
    ];
    let sources = vec![SourceFile {
        path: "../../src/os/fa.c".to_string(),
        lines: vec!["INCLUDE_ASM(\"os\", fa)".to_string()],
    }];
    let entries = get_all_include_asm(&sources);
    assert_eq!(entries.len(), 1);
    assert_eq!(entries[0].asm_path, "../../asm/us/os/fa.s");
    let pairs = vec![SrcAsmPair {
        asm_dir: "../../asm/us/os".to_string(),
        src_dir: "../../src/os/".to_string(),
        overlay_name: "OS".to_string(),
        include_asm: entries,
        path_matcher: "/os/".to_string(),
    }];
    let report = dups_report(&files, &pairs, threshold(94, 100));
    assert_eq!(report.len(), 1);
    for row in &report[0] {
        if row.name == "fa" {
            assert!(row.decompiled);
        } else {
            assert!(!row.decompiled);
        }
    }
}

#[test]
fn window_count_slices_and_names() {
    let mut ops = Vec::new();
    for i in 0..40u64 {
        ops.push(Instruction { file_addr: 4 * i, vram_addr: 0x80000000 + 4 * i, op: i as u32 });
    }
    let key: Vec<u8> = ops.iter().map(|x| (x.op >> 26) as u8).collect();
    let f = Function {
        name: "f".to_string(),
        ops,
        key,
        dir: "d".to_string(),
        file: "d/f.s".to_string(),
        similarity: Similarity::zero(),
        decompiled: false,
    };
    let ws = apply_sliding_window(&f, 4, 32);
    assert_eq!(ws.len(), (40 - 32) / 4 + 1);
    assert_eq!(ws[0].name, "f:0:31");
    assert_eq!(ws[1].name, "f:4:35");
    assert_eq!(ws[2].name, "f:8:39");
    for (w, frag) in ws.iter().enumerate() {
        assert_eq!(frag.ops.len(), 32);
        for m in 0..32 {
            assert_eq!(frag.ops[m].op, f.ops[4 * w + m].op);
            assert_eq!(frag.key[m], (frag.ops[m].op >> 26) as u8);
        }
    }
    // No window fits in a shorter function.
    let short = Function {
        name: "g".to_string(),
        ops: f.ops[..31].to_vec(),
        key: f.key[..31].to_vec(),
        dir: "d".to_string(),
        file: "d/g.s".to_string(),
        similarity: Similarity::zero(),
        decompiled: false,
    };
    assert!(apply_sliding_window(&short, 4, 32).is_empty());
}

fn named_func(name: &str, key: Vec<u8>) -> Function {
    let ops = key
        .iter()
        .map(|b| Instruction { file_addr: 0, vram_addr: 0, op: (*b as u32) << 26 })
        .collect();
    Function {
        name: name.to_string(),
        ops,
        key,
        dir: "d".to_string(),
        file: "d/f.s".to_string(),
        similarity: Similarity::zero(),
        decompiled: false,
    }
}

#[test]
fn bucket_map_first_match_wins_and_dissimilar_split() {
    let t = threshold(1, 2);
    let mut map = LevenshteinHashMap::new(t);
    map.insert(vec![1, 2, 3, 4], named_func("a", vec![1, 2, 3, 4]));
    map.insert(vec![1, 2, 3, 5], named_func("b", vec![1, 2, 3, 5]));
    // Similarity 3/4 >= 1/2: joins the first cluster.
    assert_eq!(map.map.len(), 1);
    assert_eq!(map.map[0].1.len(), 2);
    assert_eq!(map.map[0].1[1].similarity, Similarity { num: 3, den: 4 });
    // Pairwise-dissimilar keys each open their own cluster.
    map.insert(vec![9, 9, 9, 9], named_func("c", vec![9, 9, 9, 9]));
    assert_eq!(map.map.len(), 2);
    assert_eq!(map.map[1].1.len(), 1);
}

#[test]
fn empty_corpus_files_sort_last() {
    let empty = Function {
        name: "e".to_string(),
        ops: Vec::new(),
        key: Vec::new(),
        dir: "d".to_string(),
        file: "d/e.s".to_string(),
        similarity: Similarity::zero(),
        decompiled: false,
    };
    let low = named_func("low", vec![1]);
    let file = make_dups_file("d".to_string(), vec![empty, low]);
    assert_eq!(file.funcs[0].name, "low");
    assert_eq!(file.funcs[1].name, "e");
    let _ = DupsFile { name: file.name.clone(), funcs: Vec::new() };
}

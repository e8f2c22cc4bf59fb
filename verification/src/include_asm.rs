use vstd::prelude::*;

use crate::text::{spec_contains, str_contains};

verus! {

/// The mathematical content of one cross-reference marker.
pub ghost struct IncludeAsmView {
    pub line: Seq<char>,
    pub path: Seq<char>,
    pub asm_path: Seq<char>,
}

/// One cross-reference marker found in a source file: the marker line, the
/// source file it stands in, and the assembly file path it names.
#[derive(Clone, Debug, PartialEq)]
pub struct IncludeAsmEntry {
    pub line: String,
    pub path: String,
    pub asm_path: String,
}

impl View for IncludeAsmEntry {
    type V = IncludeAsmView;

    open spec fn view(&self) -> IncludeAsmView {
        IncludeAsmView { line: self.line@, path: self.path@, asm_path: self.asm_path@ }
    }
}

/// The two capture groups of the marker pattern
/// `INCLUDE_ASM("([^"]*)", ([^)]*))` on a line, at its first match; `None`
/// when the line has no match. A function of the line's characters alone.
pub uninterp spec fn include_asm_groups(line: Seq<char>) -> Option<(Seq<char>, Seq<char>)>;

/// Relies on `regex::Regex::captures` with the fixed pattern
/// `INCLUDE_ASM\("([^"]*)", ([^)]*)\)` (`Regex::new` cannot fail on this
/// valid literal pattern): the first match and its two capture groups
/// depend on the line's characters alone.
#[verifier::external_body]
fn capture_include_asm(line: &str) -> (r: Option<(String, String)>)
    ensures
        match (r, include_asm_groups(line@)) {
            (Some((a, b)), Some((ga, gb))) => a@ == ga && b@ == gb,
            (None, None) => true,
            _ => false,
        },
{
    let re = regex::Regex::new("INCLUDE_ASM\\(\"([^\"]*)\", ([^)]*)\\)").unwrap();
    match re.captures(line) {
        Some(c) => Some((c[1].to_string(), c[2].to_string())),
        None => None,
    }
}

/// The assembly path named by a marker's capture groups:
/// `../../asm/us/{dir}/{file}.s`.
pub open spec fn spec_asm_path(dir: Seq<char>, file: Seq<char>) -> Seq<char> {
    "../../asm/us/"@ + dir + "/"@ + file + ".s"@
}

/// Build the assembly path named by a marker's capture groups.
pub fn make_asm_path(dir: &String, file: &String) -> (r: String)
    ensures
        r@ == spec_asm_path(dir@, file@),
{
    let mut r = String::new();
    r.append("../../asm/us/");
    r.append(dir.as_str());
    r.append("/");
    r.append(file.as_str());
    r.append(".s");
    proof {
        assert(r@ =~= spec_asm_path(dir@, file@));
    }
    r
}

/// What one source line contributes: a marker entry when the line mentions
/// `INCLUDE_ASM` and matches the pattern, else nothing. A line that mentions
/// the keyword but does not match the pattern is skipped.
pub open spec fn spec_line_entry(line: Seq<char>, path: Seq<char>) -> Option<IncludeAsmView> {
    if spec_contains(line, "INCLUDE_ASM"@) {
        match include_asm_groups(line) {
            Some((a, b)) => Some(
                IncludeAsmView { line: line, path: path, asm_path: spec_asm_path(a, b) },
            ),
            None => None,
        }
    } else {
        None
    }
}

/// Scan one source line for a cross-reference marker.
pub fn line_entry(line: &String, path: &String) -> (r: Option<IncludeAsmEntry>)
    ensures
        match (r, spec_line_entry(line@, path@)) {
            (Some(e), Some(v)) => e@ == v,
            (None, None) => true,
            _ => false,
        },
{
    if str_contains(line.as_str(), "INCLUDE_ASM") {
        proof {
            reveal_strlit("INCLUDE_ASM");
        }
        match capture_include_asm(line.as_str()) {
            Some((a, b)) => {
                let asm_path = make_asm_path(&a, &b);
                Some(IncludeAsmEntry { line: line.clone(), path: path.clone(), asm_path })
            },
            None => None,
        }
    } else {
        proof {
            reveal_strlit("INCLUDE_ASM");
        }
        None
    }
}

/// One source file handed to the scanner: its path and its lines.
pub struct SourceFile {
    pub path: String,
    pub lines: Vec<String>,
}

/// The marker entries of one file's lines, in line order.
pub open spec fn file_entries(path: Seq<char>, lines: Seq<Seq<char>>) -> Seq<IncludeAsmView>
    decreases lines.len(),
{
    if lines.len() == 0 {
        Seq::<IncludeAsmView>::empty()
    } else {
        file_entries(path, lines.drop_last()) + (match spec_line_entry(lines.last(), path) {
            Some(v) => seq![v],
            None => Seq::<IncludeAsmView>::empty(),
        })
    }
}

/// The marker entries of a set of source files, in file then line order.
pub open spec fn all_entries(files: Seq<SourceFile>) -> Seq<IncludeAsmView>
    decreases files.len(),
{
    if files.len() == 0 {
        Seq::<IncludeAsmView>::empty()
    } else {
        all_entries(files.drop_last()) + file_entries(
            files.last().path@,
            files.last().lines@.map_values(|l: String| l@),
        )
    }
}

/// The views of a vector of entries.
pub open spec fn include_views(s: Seq<IncludeAsmEntry>) -> Seq<IncludeAsmView> {
    s.map_values(|e: IncludeAsmEntry| e.view())
}

/// Collect every cross-reference marker of the given source files, in file
/// then line order.
pub fn get_all_include_asm(files: &Vec<SourceFile>) -> (r: Vec<IncludeAsmEntry>)
    ensures
        include_views(r@) == all_entries(files@),
{
    let mut r: Vec<IncludeAsmEntry> = Vec::new();
    proof {
        assert(files@.take(0) =~= Seq::<SourceFile>::empty());
        assert(include_views(r@) =~= all_entries(files@.take(0)));
    }
    let mut i: usize = 0;
    while i < files.len()
        invariant
            i <= files@.len(),
            include_views(r@) == all_entries(files@.take(i as int)),
        decreases files@.len() - i,
    {
        let file = &files[i];
        let ghost lv = file.lines@.map_values(|l: String| l@);
        proof {
            assert(files@.take(i + 1).drop_last() =~= files@.take(i as int));
            assert(files@.take(i + 1).last() == files@[i as int]);
            assert(lv.take(0) =~= Seq::<Seq<char>>::empty());
            assert(file_entries(file.path@, lv.take(0)) =~= Seq::<IncludeAsmView>::empty());
        }
        let mut j: usize = 0;
        while j < file.lines.len()
            invariant
                i < files@.len(),
                file == &files@[i as int],
                lv == file.lines@.map_values(|l: String| l@),
                j <= file.lines@.len(),
                include_views(r@) == all_entries(files@.take(i as int)) + file_entries(
                    file.path@,
                    lv.take(j as int),
                ),
            decreases file.lines@.len() - j,
        {
            proof {
                assert(lv.take(j + 1).drop_last() =~= lv.take(j as int));
                assert(lv.take(j + 1).last() == lv[j as int]);
            }
            let ghost pre = include_views(r@);
            match line_entry(&file.lines[j], &file.path) {
                Some(e) => {
                    r.push(e);
                    proof {
                        assert(include_views(r@) =~= pre.push(
                            spec_line_entry(lv[j as int], file.path@)->Some_0,
                        ));
                    }
                },
                None => {},
            }
            proof {
                assert(include_views(r@) =~= all_entries(files@.take(i as int)) + file_entries(
                    file.path@,
                    lv.take(j + 1),
                ));
            }
            j = j + 1;
        }
        proof {
            assert(lv.take(lv.len() as int) =~= lv);
            assert(include_views(r@) =~= all_entries(files@.take(i + 1)));
        }
        i = i + 1;
    }
    proof {
        assert(files@.take(files@.len() as int) =~= files@);
    }
    r
}

} // verus!

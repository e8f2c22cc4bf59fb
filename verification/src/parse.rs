use vstd::prelude::*;

use crate::edit::Similarity;
use crate::function::{FuncView, Function};
use crate::instr::{signature, spec_signature, spec_swap_bytes, swap_bytes, Instruction};
use crate::text::{
    hex_u32, hex_u64, parse_hex_u32, parse_hex_u64, split_lines, split_lines_exec, tokens,
    tokens_exec,
};
use crate::windows::{apply_sliding_window, is_window_of, spec_window_count};

verus! {

/// The label directive that declares a function's name.
pub open spec fn glabel_chars() -> Seq<char> {
    seq!['g', 'l', 'a', 'b', 'e', 'l']
}

/// Does this token spell the label directive?
pub fn is_glabel(tok: &Vec<char>) -> (r: bool)
    ensures
        r == (tok@ == glabel_chars()),
{
    let r = tok.len() == 6 && tok[0] == 'g' && tok[1] == 'l' && tok[2] == 'a' && tok[3] == 'b'
        && tok[4] == 'e' && tok[5] == 'l';
    proof {
        if r {
            assert(tok@ =~= glabel_chars());
        }
    }
    r
}

/// The name a line declares: the second token of a two-token line whose
/// first token is the label directive.
pub open spec fn line_label(line: Seq<char>) -> Option<Seq<char>> {
    let ts = tokens(line);
    if ts.len() == 2 && ts[0] == glabel_chars() {
        Some(ts[1])
    } else {
        None
    }
}

/// The instruction a line records: a line of at least four tokens whose 2nd
/// and 3rd tokens read as hexadecimal 64-bit numbers (file offset, virtual
/// address) and whose 4th reads as a hexadecimal 32-bit word, stored with
/// its four bytes reversed. Any other line records nothing.
pub open spec fn line_instruction(line: Seq<char>) -> Option<Instruction> {
    let ts = tokens(line);
    if ts.len() >= 4 {
        match (hex_u64(ts[1]), hex_u64(ts[2]), hex_u32(ts[3])) {
            (Some(fa), Some(va), Some(op)) => Some(
                Instruction { file_addr: fa, vram_addr: va, op: spec_swap_bytes(op) },
            ),
            _ => None,
        }
    } else {
        None
    }
}

/// All instructions recorded by a sequence of lines, in line order.
pub open spec fn parsed_ops(lines: Seq<Seq<char>>) -> Seq<Instruction>
    decreases lines.len(),
{
    if lines.len() == 0 {
        Seq::<Instruction>::empty()
    } else {
        parsed_ops(lines.drop_last()) + (match line_instruction(lines.last()) {
            Some(ins) => seq![ins],
            None => Seq::<Instruction>::empty(),
        })
    }
}

/// The first declared name among the lines; empty when no line declares one.
pub open spec fn first_label(lines: Seq<Seq<char>>) -> Seq<char>
    decreases lines.len(),
{
    if lines.len() == 0 {
        Seq::<char>::empty()
    } else {
        match line_label(lines[0]) {
            Some(n) => n,
            None => first_label(lines.drop_first()),
        }
    }
}

/// What parsing a text with the given provenance yields.
pub open spec fn spec_parsed(input: Seq<char>, dir: Seq<char>, file: Seq<char>) -> FuncView {
    let ops = parsed_ops(split_lines(input));
    FuncView {
        name: first_label(split_lines(input)),
        ops: ops,
        key: Seq::new(ops.len(), |i: int| spec_signature(ops[i].op)),
        dir: dir,
        file: file,
        similarity: Similarity { num: 0, den: 1 },
        decompiled: false,
    }
}

/// Parse one disassembly text into a function: its instruction records in
/// file order, its first declared label as its name (empty when unlabeled),
/// its key derived from its ops, and the given provenance.
pub fn parse_instructions(input: &str, dir: &str, file: &str) -> (r: Function)
    ensures
        r@ == spec_parsed(input@, dir@, file@),
        r@.wf(),
{
    let lines = split_lines_exec(input);
    let ghost ls = split_lines(input@);
    let mut ops: Vec<Instruction> = Vec::new();
    let mut key: Vec<u8> = Vec::new();
    let mut name = String::new();
    let mut have_name = false;
    let mut i: usize = 0;
    proof {
        assert(ls.take(0) =~= Seq::<Seq<char>>::empty());
        assert(ops@ =~= parsed_ops(ls.take(0)));
        assert(ls.skip(0) =~= ls);
    }
    while i < lines.len()
        invariant
            lines@.map_values(|l: Vec<char>| l@) == ls,
            i <= lines@.len(),
            ops@ == parsed_ops(ls.take(i as int)),
            key@.len() == ops@.len(),
            forall|j: int| 0 <= j < ops@.len() ==> key@[j] == spec_signature(ops@[j].op),
            first_label(ls) == (if have_name {
                name@
            } else {
                first_label(ls.skip(i as int))
            }),
            !have_name ==> name@ == Seq::<char>::empty(),
        decreases lines@.len() - i,
    {
        let toks = tokens_exec(&lines[i]);
        let ghost line = ls[i as int];
        let ghost ts = tokens(line);
        proof {
            assert(lines@[i as int]@ == line);
            assert(toks@.map_values(|t: Vec<char>| t@) == ts);
            assert(ls.take(i + 1).drop_last() =~= ls.take(i as int));
            assert(ls.take(i + 1).last() == line);
            assert(ls.skip(i as int)[0] == line);
            assert(ls.skip(i as int).drop_first() =~= ls.skip(i + 1));
        }
        if toks.len() == 2 && !have_name {
            if is_glabel(&toks[0]) {
                name = char_vec_to_string(&toks[1]);
                have_name = true;
                proof {
                    assert(line_label(line) == Some(ts[1]));
                    assert(first_label(ls.skip(i as int)) == name@);
                }
            }
        }
        if toks.len() >= 4 {
            let fa = parse_hex_u64(&toks[1]);
            let va = parse_hex_u64(&toks[2]);
            let op = parse_hex_u32(&toks[3]);
            match (fa, va, op) {
                (Some(fa), Some(va), Some(op)) => {
                    let ins = Instruction { file_addr: fa, vram_addr: va, op: swap_bytes(op) };
                    key.push(signature(ins.op));
                    ops.push(ins);
                    proof {
                        assert(line_instruction(line) == Some(ins));
                        assert(ops@ =~= parsed_ops(ls.take(i + 1)));
                    }
                },
                _ => {
                    proof {
                        assert(line_instruction(line) is None);
                        assert(ops@ =~= parsed_ops(ls.take(i + 1)));
                    }
                },
            }
        } else {
            proof {
                assert(line_instruction(line) is None);
                assert(ops@ =~= parsed_ops(ls.take(i + 1)));
            }
        }
        i = i + 1;
    }
    proof {
        assert(ls.take(i as int) =~= ls);
        if !have_name {
            assert(ls.skip(i as int) =~= Seq::<Seq<char>>::empty());
        }
    }
    let r = Function {
        name,
        ops,
        key,
        dir: dir.to_owned(),
        file: file.to_owned(),
        similarity: Similarity::zero(),
        decompiled: false,
    };
    proof {
        assert(r@.key =~= spec_parsed(input@, dir@, file@).key);
        assert(r@ == spec_parsed(input@, dir@, file@));
    }
    r
}

/// Collect a vector of characters into a string.
pub fn char_vec_to_string(v: &Vec<char>) -> (r: String)
    ensures
        r@ == v@,
{
    let mut r = String::new();
    let mut i: usize = 0;
    while i < v.len()
        invariant
            i <= v@.len(),
            r@ == v@.take(i as int),
        decreases v@.len() - i,
    {
        push_char(&mut r, v[i]);
        proof {
            assert(r@ =~= v@.take(i + 1));
        }
        i = i + 1;
    }
    proof {
        assert(v@.take(v@.len() as int) =~= v@);
    }
    r
}

/// Relies on `String::push`: appends exactly the given character.
#[verifier::external_body]
fn push_char(s: &mut String, c: char)
    ensures
        final(s)@ == old(s)@.push(c),
{
    s.push(c);
}

/// The stride at which windows are slid over a function.
pub const STRIDE: usize = 4;

/// The number of instructions in each window fragment.
pub const WINDOW_SIZE: usize = 32;

/// What one source text contributes to the corpus: nothing when it parses
/// to the trivial two-instruction stub; otherwise the parsed function
/// followed by its window fragments at the production stride and size.
pub fn functions_from_source(input: &str, dir: &str, file: &str) -> (r: Vec<Function>)
    ensures
        ({
            let f = spec_parsed(input@, dir@, file@);
            if f.is_stub() {
                r@.len() == 0
            } else {
                &&& r@.len() == 1 + spec_window_count(f.ops.len(), STRIDE as nat, WINDOW_SIZE as nat)
                &&& r@[0]@ == f
                &&& forall|w: int|
                    0 <= w < r@.len() - 1 ==> is_window_of(
                        f,
                        STRIDE as nat,
                        WINDOW_SIZE as nat,
                        w,
                        #[trigger] r@[w + 1]@,
                    )
                &&& forall|w: int| 0 <= w < r@.len() ==> (#[trigger] r@[w]@).wf()
            }
        }),
{
    let func = parse_instructions(input, dir, file);
    let mut r: Vec<Function> = Vec::new();
    if func.is_trivial_stub() {
        return r;
    }
    let mut windows = apply_sliding_window(&func, STRIDE, WINDOW_SIZE);
    r.push(func);
    r.append(&mut windows);
    r
}

} // verus!

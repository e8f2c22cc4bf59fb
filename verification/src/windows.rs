use vstd::prelude::*;

use crate::edit::Similarity;
use crate::function::{FuncView, Function};
use crate::instr::{signature, spec_signature, Instruction};
use crate::names::{lemma_window_name_injective, make_window_name, window_name};

verus! {

/// How many windows of size `k` at stride `n` fit in `len` elements.
pub open spec fn spec_window_count(len: nat, n: nat, k: nat) -> nat {
    if len >= k {
        ((len - k) / (n as int) + 1) as nat
    } else {
        0
    }
}

/// The `w`-th window of `p` at stride `n` and size `k`: its ops are the
/// contiguous slice starting at `w * n`, its key is recomputed from those
/// ops, its name is `parent:start:end`, and its provenance is the parent's.
pub open spec fn is_window_of(p: FuncView, n: nat, k: nat, w: int, v: FuncView) -> bool {
    &&& v.ops == p.ops.subrange(w * n, w * n + k)
    &&& v.key.len() == k
    &&& forall|i: int| 0 <= i < k ==> v.key[i] == spec_signature(p.ops[w * n + i].op)
    &&& v.name == window_name(p.name, (w * n) as nat, (w * n + k - 1) as nat)
    &&& v.dir == p.dir
    &&& v.file == p.file
    &&& v.similarity == (Similarity { num: 0, den: 1 })
    &&& !v.decompiled
}

/// Slide a window of `k` instructions over `parsed_func` at stride `n` and
/// return one synthetic fragment per position, in start order. The number of
/// fragments is `floor((len - k) / n) + 1` when `len >= k`, else zero; every
/// fragment's ops are a contiguous slice of the parent's; fragment names are
/// unique within the parent.
pub fn apply_sliding_window(parsed_func: &Function, n: usize, k: usize) -> (r: Vec<Function>)
    requires
        n >= 1,
        k >= 1,
    ensures
        r@.len() == spec_window_count(parsed_func@.ops.len(), n as nat, k as nat),
        forall|w: int|
            0 <= w < r@.len() ==> is_window_of(parsed_func@, n as nat, k as nat, w, #[trigger] r@[w]@),
        forall|w: int| 0 <= w < r@.len() ==> (#[trigger] r@[w]@).wf(),
        forall|w1: int, w2: int|
            0 <= w1 < w2 < r@.len() ==> r@[w1]@.name != r@[w2]@.name,
{
    let mut r: Vec<Function> = Vec::new();
    let len = parsed_func.ops.len();
    if len < k {
        return r;
    }
    let lim = len - k;  // largest valid start index
    let mut i: usize = 0;
    let ghost mut w: int = 0;
    loop
        invariant_except_break
            i == w * n,
            i <= lim,
        invariant
            n >= 1,
            k >= 1,
            len == parsed_func@.ops.len(),
            len >= k,
            lim == len - k,
            r@.len() == w,
            forall|ww: int|
                0 <= ww < w ==> is_window_of(parsed_func@, n as nat, k as nat, ww, #[trigger] r@[ww]@),
        ensures
            w >= 1,
            (w - 1) * n <= lim,
            lim - (w - 1) * n < n,
        decreases lim - i,
    {
        // Copy the slice of instructions and recompute its key.
        let mut ops: Vec<Instruction> = Vec::new();
        let mut key: Vec<u8> = Vec::new();
        let mut j: usize = 0;
        while j < k
            invariant
                j <= k,
                i + k <= len,
                len == parsed_func@.ops.len(),
                ops@.len() == j,
                key@.len() == j,
                forall|jj: int| 0 <= jj < j ==> ops@[jj] == parsed_func@.ops[i + jj],
                forall|jj: int|
                    0 <= jj < j ==> key@[jj] == spec_signature(parsed_func@.ops[i + jj].op),
            decreases k - j,
        {
            let ins = Instruction {
                file_addr: parsed_func.ops[i + j].file_addr,
                vram_addr: parsed_func.ops[i + j].vram_addr,
                op: parsed_func.ops[i + j].op,
            };
            key.push(signature(ins.op));
            ops.push(ins);
            j = j + 1;
        }
        let name = make_window_name(&parsed_func.name, i, i + k - 1);
        let func = Function {
            ops,
            name,
            key,
            dir: parsed_func.dir.clone(),
            file: parsed_func.file.clone(),
            similarity: Similarity::zero(),
            decompiled: false,
        };
        proof {
            assert(func@.ops =~= parsed_func@.ops.subrange(w * n, w * n + k));
            assert(is_window_of(parsed_func@, n as nat, k as nat, w, func@));
        }
        r.push(func);
        proof {
            w = w + 1;
        }
        proof {
            assert(w * n == (w - 1) * n + n) by (nonlinear_arith);
        }
        if lim - i >= n {
            i = i + n;
        } else {
            break;
        }
    }
    proof {
        // At exit i == w0 * n with lim - i < n, so w0 == lim / n and the
        // count is lim / n + 1.
        let w0 = w - 1;
        assert(lim == w0 * n + (lim - w0 * n));
        assert(0 <= lim - w0 * n < n);
        vstd::arithmetic::div_mod::lemma_fundamental_div_mod_converse(
            lim as int,
            n as int,
            w0,
            lim - w0 * n,
        );
        assert(r@.len() == spec_window_count(parsed_func@.ops.len(), n as nat, k as nat));
        assert forall|ww: int| 0 <= ww < r@.len() implies (#[trigger] r@[ww]@).wf() by {
            let v = r@[ww]@;
            assert(is_window_of(parsed_func@, n as nat, k as nat, ww, v));
            assert(ww * n <= w0 * n) by (nonlinear_arith)
                requires
                    ww <= w0 && n >= 1,
            ;
            assert(ww * n + k <= parsed_func@.ops.len());
            assert(forall|idx: int|
                0 <= idx < k ==> v.ops[idx] == parsed_func@.ops[ww * n + idx]);
        }
        assert forall|w1: int, w2: int| 0 <= w1 < w2 < r@.len() implies r@[w1]@.name
            != r@[w2]@.name by {
            assert(w1 * n < w2 * n) by (nonlinear_arith)
                requires
                    w1 < w2 && n >= 1,
            ;
            lemma_window_name_injective(
                parsed_func@.name,
                (w1 * n) as nat,
                (w1 * n + k - 1) as nat,
                (w2 * n) as nat,
                (w2 * n + k - 1) as nat,
            );
        }
    }
    r
}

} // verus!

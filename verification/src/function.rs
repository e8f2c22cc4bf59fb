use vstd::prelude::*;

use crate::edit::Similarity;
use crate::instr::{spec_signature, Instruction};

verus! {

broadcast use vstd::seq_lib::group_to_multiset_ensures;

/// The mathematical content of a parsed function or window fragment.
pub ghost struct FuncView {
    pub name: Seq<char>,
    pub ops: Seq<Instruction>,
    pub key: Seq<u8>,
    pub dir: Seq<char>,
    pub file: Seq<char>,
    pub similarity: Similarity,
    pub decompiled: bool,
}

impl FuncView {
    /// The signature sequence belongs to the instruction sequence: one byte
    /// per instruction, each the coarse class of that instruction's opcode.
    pub open spec fn wf(self) -> bool {
        &&& self.key.len() == self.ops.len()
        &&& forall|i: int|
            0 <= i < self.ops.len() ==> self.key[i] == spec_signature(self.ops[i].op)
    }

    /// Sort key for file listings: the first instruction's virtual address;
    /// functions with no instructions sort last.
    pub open spec fn vram_key(self) -> u64 {
        if self.ops.len() == 0 {
            u64::MAX
        } else {
            self.ops[0].vram_addr
        }
    }

    /// A trivial two-instruction return/no-op stub, excluded from indexing.
    pub open spec fn is_stub(self) -> bool {
        self.ops.len() == 2 && self.ops[0].op == 0x03E00008u32 && self.ops[1].op == 0u32
    }
}

/// A parsed function, or a synthetic window fragment of one.
pub struct Function {
    pub name: String,
    pub ops: Vec<Instruction>,
    pub key: Vec<u8>,
    pub dir: String,
    pub file: String,
    pub similarity: Similarity,
    pub decompiled: bool,
}

impl View for Function {
    type V = FuncView;

    open spec fn view(&self) -> FuncView {
        FuncView {
            name: self.name@,
            ops: self.ops@,
            key: self.key@,
            dir: self.dir@,
            file: self.file@,
            similarity: self.similarity,
            decompiled: self.decompiled,
        }
    }
}

/// The views of a sequence of functions.
pub open spec fn views(s: Seq<Function>) -> Seq<FuncView> {
    s.map_values(|f: Function| f.view())
}

impl Function {
    /// Sort key for file listings: first instruction's virtual address, or
    /// the largest address for an empty function.
    pub fn vram_key(&self) -> (r: u64)
        ensures
            r == self@.vram_key(),
    {
        if self.ops.len() == 0 {
            u64::MAX
        } else {
            self.ops[0].vram_addr
        }
    }

    /// Recognize the trivial two-instruction stub (a bare control return
    /// followed by a no-op) that is excluded from indexing.
    pub fn is_trivial_stub(&self) -> (r: bool)
        ensures
            r == self@.is_stub(),
    {
        self.ops.len() == 2 && self.ops[0].op == 0x03E00008 && self.ops[1].op == 0
    }

    /// A value-equal copy.
    pub fn duplicate(&self) -> (r: Function)
        ensures
            r@ == self@,
    {
        let r = Function {
            name: self.name.clone(),
            ops: copy_instructions(&self.ops),
            key: copy_bytes(&self.key),
            dir: self.dir.clone(),
            file: self.file.clone(),
            similarity: self.similarity,
            decompiled: self.decompiled,
        };
        r
    }
}

/// A directory's parsed output: its name and its functions.
pub struct DupsFile {
    pub name: String,
    pub funcs: Vec<Function>,
}

/// Copy a byte vector.
pub fn copy_bytes(v: &Vec<u8>) -> (r: Vec<u8>)
    ensures
        r@ == v@,
{
    let mut r: Vec<u8> = Vec::new();
    for i in 0..v.len()
        invariant
            r@.len() == i,
            forall|j: int| 0 <= j < i ==> r@[j] == v@[j],
    {
        r.push(v[i]);
    }
    proof {
        assert(r@ =~= v@);
    }
    r
}

/// Copy an instruction vector.
pub fn copy_instructions(v: &Vec<Instruction>) -> (r: Vec<Instruction>)
    ensures
        r@ == v@,
{
    let mut r: Vec<Instruction> = Vec::new();
    for i in 0..v.len()
        invariant
            r@.len() == i,
            forall|j: int| 0 <= j < i ==> r@[j] == v@[j],
    {
        r.push(
            Instruction {
                file_addr: v[i].file_addr,
                vram_addr: v[i].vram_addr,
                op: v[i].op,
            },
        );
    }
    proof {
        assert(r@ =~= v@);
    }
    r
}

/// The sequence is ordered by ascending virtual-address key.
pub open spec fn sorted_by_vram(s: Seq<FuncView>) -> bool {
    forall|i: int, j: int| 0 <= i < j < s.len() ==> s[i].vram_key() <= s[j].vram_key()
}

/// Sort functions by their first instruction's virtual address, functions
/// with no instructions last. The result is a permutation of the input.
pub fn sort_functions_by_vram(funcs: Vec<Function>) -> (r: Vec<Function>)
    ensures
        sorted_by_vram(views(r@)),
        views(r@).to_multiset() == views(funcs@).to_multiset(),
        r@.len() == funcs@.len(),
{
    let ghost orig = views(funcs@);
    let mut remaining = funcs;
    let mut out: Vec<Function> = Vec::new();
    proof {
        assert(views(out@) =~= Seq::<FuncView>::empty());
        assert(views(out@).to_multiset().add(views(remaining@).to_multiset()) =~= orig.to_multiset());
    }
    while remaining.len() > 0
        invariant
            views(out@).to_multiset().add(views(remaining@).to_multiset()) == orig.to_multiset(),
            sorted_by_vram(views(out@)),
            forall|i: int, j: int|
                0 <= i < out@.len() && 0 <= j < remaining@.len() ==> views(out@)[i].vram_key()
                    <= views(remaining@)[j].vram_key(),
            out@.len() + remaining@.len() == orig.len(),
        decreases remaining@.len(),
    {
        // Index of a minimal vram key among the remaining functions.
        let mut idx: usize = 0;
        let mut best: u64 = remaining[0].vram_key();
        let mut i: usize = 1;
        while i < remaining.len()
            invariant
                remaining@.len() > 0,
                idx < remaining@.len(),
                i <= remaining@.len(),
                best == views(remaining@)[idx as int].vram_key(),
                forall|j: int| 0 <= j < i ==> best <= views(remaining@)[j].vram_key(),
            decreases remaining@.len() - i,
        {
            let k = remaining[i].vram_key();
            if k < best {
                best = k;
                idx = i;
            }
            i = i + 1;
        }
        let ghost pre = views(remaining@);
        let x = remaining.remove(idx);
        proof {
            assert(views(remaining@) =~= pre.remove(idx as int));
            assert(pre.remove(idx as int).to_multiset() =~= pre.to_multiset().remove(x@));
            assert(pre.to_multiset().count(x@) > 0) by {
                assert(pre[idx as int] == x@);
                assert(pre.contains(x@));
            }
            let ghost outpre = views(out@);
            assert(views(out@.push(x)) =~= outpre.push(x@)) by {
                reveal_with_fuel(Seq::map_values, 1);
                assert(views(out@.push(x)) =~= out@.push(x).map_values(|f: Function| f.view()));
            }
        }
        let ghost outpre = views(out@);
        out.push(x);
        proof {
            assert(views(out@) =~= outpre.push(x@));
            assert(views(out@).to_multiset() =~= outpre.to_multiset().insert(x@));
            assert(views(out@).to_multiset().add(views(remaining@).to_multiset()) =~= orig.to_multiset());
        }
    }
    proof {
        assert(views(remaining@) =~= Seq::<FuncView>::empty());
        assert(views(out@).to_multiset().add(Seq::<FuncView>::empty().to_multiset())
            =~= views(out@).to_multiset());
        assert(orig.to_multiset().len() == orig.len());
        assert(views(out@).to_multiset().len() == views(out@).len());
    }
    out
}

} // verus!

//! Emission of a WebAssembly text module from the basic-block
//! intermediate representation: one nested `block`/`end` pair per basic
//! block inside a single exported function. The exact text produced is
//! stated by spec functions.

use vstd::prelude::*;
use vstd::string::*;
use crate::il;
use crate::il::{Body, SpecBasicBlock, SpecTerminator};
use crate::utils::{dec_str, i32_to_string, push_char};

verus! {

/// Failures of text emission. Emission cannot fail yet; this variant
/// is never produced and exists only to inhabit the error type.
#[derive(Debug, Clone, PartialEq)]
pub enum Error {
    Unsupported,
}

/// `n` spaces.
pub open spec fn spaces(n: nat) -> Seq<char> {
    Seq::new(n, |i: int| ' ')
}

/// A line appended to the output: the indentation, the line, a
/// newline.
pub open spec fn spec_putln(wat: Seq<char>, ind: nat, line: Seq<char>) -> Seq<char> {
    wat + spaces(ind) + line + seq!['\n']
}

/// What a terminator emits: nothing for `Fallthrough`, a `return` line
/// for `Return`. The control-flow terminators are not emitted yet.
pub open spec fn spec_terminator_lines(wat: Seq<char>, ind: nat, t: SpecTerminator) -> Seq<char> {
    match t {
        SpecTerminator::Fallthrough => wat,
        SpecTerminator::Return => spec_putln(wat, ind, "return"@),
        _ => wat,
    }
}

/// What one basic block emits: its `block` line, its terminator
/// indented one step deeper, and its `end` line.
pub open spec fn spec_block_lines(wat: Seq<char>, ind: nat, b: SpecBasicBlock) -> Seq<char> {
    let w1 = spec_putln(wat, ind, "block "@ + dec_str(b.id.0 as int));
    let w2 = spec_terminator_lines(w1, ind + 2, b.terminator);
    spec_putln(w2, ind, "end ;; block "@ + dec_str(b.id.0 as int))
}

/// What a run of basic blocks emits, in order.
pub open spec fn spec_blocks_lines(wat: Seq<char>, ind: nat, blocks: Seq<SpecBasicBlock>) -> Seq<
    char,
>
    decreases blocks.len(),
{
    if blocks.len() == 0 {
        wat
    } else {
        spec_block_lines(spec_blocks_lines(wat, ind, blocks.drop_last()), ind, blocks.last())
    }
}

/// The whole module text for one body.
pub open spec fn spec_wat(code: Seq<SpecBasicBlock>) -> Seq<char> {
    let w1 = spec_putln(Seq::<char>::empty(), 0, "(module"@);
    let w2 = spec_putln(w1, 2, "(func (export \"main\") (result i32)"@);
    let w3 = spec_blocks_lines(w2, 4, code);
    let w4 = spec_putln(w3, 4, "i32.const 0 ;; final return value"@);
    let w5 = spec_putln(w4, 2, ") ;; end of function 'main'"@);
    spec_putln(w5, 0, ") ;; end of module"@)
}

/// A terminator this emitter handles.
pub open spec fn terminator_emittable(t: SpecTerminator) -> bool {
    t is Fallthrough || t is Return
}

/// Accumulator for the module text: the text so far and the current
/// indentation.
pub struct WatGenerator {
    pub wat: String,
    pub indent_level: usize,
}

impl WatGenerator {
    pub fn new() -> (r: WatGenerator)
        ensures
            r.wat@ =~= Seq::<char>::empty(),
            r.indent_level == 0,
    {
        WatGenerator { wat: String::new(), indent_level: 0 }
    }

    /// One step deeper.
    pub fn indent(&mut self)
        requires
            old(self).indent_level + 2 <= usize::MAX,
        ensures
            final(self).indent_level == old(self).indent_level + 2,
            final(self).wat == old(self).wat,
    {
        self.indent_level = self.indent_level + 2;
    }

    /// One step back out; at the margin it stays put.
    pub fn unindent(&mut self)
        ensures
            final(self).indent_level == if old(self).indent_level >= 2 {
                old(self).indent_level - 2
            } else {
                old(self).indent_level as int
            },
            final(self).wat == old(self).wat,
    {
        if self.indent_level >= 2 {
            self.indent_level = self.indent_level - 2;
        }
    }

    /// Append one indented line.
    #[verifier::loop_isolation(false)]
    pub fn putln(&mut self, line: &str)
        ensures
            final(self).indent_level == old(self).indent_level,
            final(self).wat@ == spec_putln(old(self).wat@, old(self).indent_level as nat, line@),
    {
        let n = self.indent_level;
        let mut k: usize = 0;
        while k < n
            invariant
                k <= n,
                self.indent_level == n,
                self.wat@ == old(self).wat@ + spaces(k as nat),
            decreases n - k,
        {
            push_char(&mut self.wat, ' ');
            proof {
                assert(self.wat@ =~= old(self).wat@ + spaces((k + 1) as nat));
            }
            k = k + 1;
        }
        self.wat.append(line);
        push_char(&mut self.wat, '\n');
        proof {
            assert(self.wat@ =~= spec_putln(old(self).wat@, n as nat, line@));
        }
    }

    /// Straight-line opcodes are not emitted yet; nothing is produced
    /// for them.
    pub fn from_opcodes(&mut self, _opcodes: &Vec<il::OpCode>)
        ensures
            *final(self) == *old(self),
    {
    }

    /// Emit the text of one terminator.
    pub fn from_terminator(&mut self, terminator: &il::Terminator)
        requires
            terminator_emittable(terminator@),
        ensures
            final(self).indent_level == old(self).indent_level,
            final(self).wat@ == spec_terminator_lines(
                old(self).wat@,
                old(self).indent_level as nat,
                terminator@,
            ),
    {
        match terminator {
            il::Terminator::Fallthrough => {},
            il::Terminator::Return => {
                self.putln("return");
            },
            _ => {
                proof {
                    assert(false);
                }
            },
        }
    }

    /// Emit the `block`/`end` text of every basic block, in order.
    #[verifier::loop_isolation(false)]
    pub fn from_basic_blocks(&mut self, basic_blocks: &Vec<il::BasicBlock>)
        requires
            old(self).indent_level + 2 <= usize::MAX,
            forall|k: int|
                0 <= k < basic_blocks@.len() ==> terminator_emittable(
                    (#[trigger] basic_blocks@[k]).terminator@,
                ),
        ensures
            final(self).indent_level == old(self).indent_level,
            final(self).wat@ == spec_blocks_lines(
                old(self).wat@,
                old(self).indent_level as nat,
                basic_blocks@.map_values(|b: il::BasicBlock| b@),
            ),
    {
        let ghost bs = basic_blocks@.map_values(|b: il::BasicBlock| b@);
        let ghost ind = old(self).indent_level as nat;
        let mut k: usize = 0;
        proof {
            assert(bs.take(0) =~= Seq::<SpecBasicBlock>::empty());
        }
        while k < basic_blocks.len()
            invariant
                k <= basic_blocks@.len(),
                self.indent_level == old(self).indent_level,
                self.wat@ == spec_blocks_lines(old(self).wat@, ind, bs.take(k as int)),
            decreases basic_blocks@.len() - k,
        {
            proof {
                assert(bs.take(k + 1).drop_last() =~= bs.take(k as int));
                assert(bs.take(k + 1).last() == bs[k as int]);
            }
            let bb = &basic_blocks[k];
            let ids = i32_to_string(bb.id.0);
            let mut line = String::from_str("block ");
            line.append(ids.as_str());
            self.putln(line.as_str());
            self.indent();
            self.from_opcodes(&bb.opcodes);
            self.from_terminator(&bb.terminator);
            self.unindent();
            let mut eline = String::from_str("end ;; block ");
            eline.append(ids.as_str());
            self.putln(eline.as_str());
            k = k + 1;
        }
        proof {
            assert(bs.take(basic_blocks@.len() as int) =~= bs);
        }
    }

    /// Emit the whole module text for one body.
    pub fn generate(&mut self, il: &Body) -> (r: Result<String, Error>)
        requires
            old(self).wat@ == Seq::<char>::empty(),
            old(self).indent_level == 0,
            forall|k: int|
                0 <= k < il.code@.len() ==> terminator_emittable(
                    (#[trigger] il.code@[k]).terminator@,
                ),
        ensures
            r matches Ok(s) && s@ == spec_wat(il@.code),
    {
        self.putln("(module");
        self.indent();
        self.putln("(func (export \"main\") (result i32)");
        self.indent();
        self.from_basic_blocks(&il.code);
        self.putln("i32.const 0 ;; final return value");
        self.unindent();
        self.putln(") ;; end of function 'main'");
        self.unindent();
        self.putln(") ;; end of module");
        let mut wat = String::new();
        core::mem::swap(&mut wat, &mut self.wat);
        Ok(wat)
    }
}

/// Emit the WebAssembly text of one body.
pub fn generate_wat(il: &Body) -> (r: Result<String, Error>)
    requires
        forall|k: int|
            0 <= k < il.code@.len() ==> terminator_emittable((#[trigger] il.code@[k]).terminator@),
    ensures
        r matches Ok(s) && s@ == spec_wat(il@.code),
{
    let mut generator = WatGenerator::new();
    generator.generate(il)
}

} // verus!

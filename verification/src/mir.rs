use vstd::prelude::*;

use crate::token::TokenType;
use crate::types::{type_map, TejxType};

verus! {

/// An operand: a named variable or a constant written as text, with its type.
#[derive(Debug, PartialEq)]
pub enum MIRValue {
    Variable { name: String, ty: TejxType },
    Constant { value: String, ty: TejxType },
}

impl MIRValue {
    /// The operand's type.
    pub open spec fn spec_type(&self) -> TejxType {
        match self {
            MIRValue::Variable { ty, .. } => *ty,
            MIRValue::Constant { ty, .. } => *ty,
        }
    }

    /// The operand's type.
    pub fn get_type(&self) -> (t: &TejxType)
        ensures
            *t == self.spec_type(),
    {
        match self {
            MIRValue::Variable { ty, .. } => ty,
            MIRValue::Constant { ty, .. } => ty,
        }
    }
}

/// Low-level instructions of a basic block; each records its source line.
#[derive(Debug, PartialEq)]
pub enum MIRInstruction {
    /// `dst = src`.
    Move {
        dst: String,
        src: MIRValue,
        line: usize,
    },
    /// `dst = left op right`.
    BinaryOp {
        dst: String,
        left: MIRValue,
        op: TokenType,
        right: MIRValue,
        line: usize,
    },
    /// Goes to `true_target` or `false_target` (indices into the function's blocks).
    Branch {
        condition: MIRValue,
        true_target: usize,
        false_target: usize,
        line: usize,
    },
    /// Goes to block `target`.
    Jump {
        target: usize,
        line: usize,
    },
    /// Leaves the function.
    Return {
        value: Option<MIRValue>,
        line: usize,
    },
    /// `dst = callee(args)` for a named function.
    Call {
        dst: String,
        callee: String,
        args: Vec<MIRValue>,
        line: usize,
    },
    /// `dst = callee(args)` through a function value.
    IndirectCall {
        dst: String,
        callee: MIRValue,
        args: Vec<MIRValue>,
        line: usize,
    },
    /// `dst = obj.member`.
    LoadMember {
        dst: String,
        obj: MIRValue,
        member: String,
        line: usize,
    },
    /// `obj.member = src`.
    StoreMember {
        obj: MIRValue,
        member: String,
        src: MIRValue,
        line: usize,
    },
    /// `dst = obj[index]`.
    LoadIndex {
        dst: String,
        obj: MIRValue,
        index: MIRValue,
        line: usize,
    },
    /// `obj[index] = src`.
    StoreIndex {
        obj: MIRValue,
        index: MIRValue,
        src: MIRValue,
        line: usize,
    },
    /// Raises `value`.
    Throw {
        value: MIRValue,
        line: usize,
    },
    /// `dst = src as ty`.
    Cast {
        dst: String,
        src: MIRValue,
        ty: TejxType,
        line: usize,
    },
    /// Installs an exception handler before entering `try_target`.
    TrySetup {
        try_target: usize,
        _catch_target: usize,
        line: usize,
    },
    /// Removes the innermost exception handler.
    PopHandler {
        line: usize,
    },
}

impl MIRInstruction {
    /// The source line the instruction records.
    pub open spec fn spec_line(&self) -> usize {
        match *self {
            MIRInstruction::Move { line, .. } => line,
            MIRInstruction::BinaryOp { line, .. } => line,
            MIRInstruction::Branch { line, .. } => line,
            MIRInstruction::Jump { line, .. } => line,
            MIRInstruction::Return { line, .. } => line,
            MIRInstruction::Call { line, .. } => line,
            MIRInstruction::IndirectCall { line, .. } => line,
            MIRInstruction::LoadMember { line, .. } => line,
            MIRInstruction::StoreMember { line, .. } => line,
            MIRInstruction::LoadIndex { line, .. } => line,
            MIRInstruction::StoreIndex { line, .. } => line,
            MIRInstruction::Throw { line, .. } => line,
            MIRInstruction::Cast { line, .. } => line,
            MIRInstruction::TrySetup { line, .. } => line,
            MIRInstruction::PopHandler { line, .. } => line,
        }
    }

    /// The same instruction with another source line.
    pub open spec fn with_line(self, l: usize) -> MIRInstruction {
        match self {
            MIRInstruction::Move { dst, src, line: _ } => MIRInstruction::Move { dst, src, line: l },
            MIRInstruction::BinaryOp { dst, left, op, right, line: _ } => MIRInstruction::BinaryOp { dst, left, op, right, line: l },
            MIRInstruction::Branch { condition, true_target, false_target, line: _ } => MIRInstruction::Branch { condition, true_target, false_target, line: l },
            MIRInstruction::Jump { target, line: _ } => MIRInstruction::Jump { target, line: l },
            MIRInstruction::Return { value, line: _ } => MIRInstruction::Return { value, line: l },
            MIRInstruction::Call { dst, callee, args, line: _ } => MIRInstruction::Call { dst, callee, args, line: l },
            MIRInstruction::IndirectCall { dst, callee, args, line: _ } => MIRInstruction::IndirectCall { dst, callee, args, line: l },
            MIRInstruction::LoadMember { dst, obj, member, line: _ } => MIRInstruction::LoadMember { dst, obj, member, line: l },
            MIRInstruction::StoreMember { obj, member, src, line: _ } => MIRInstruction::StoreMember { obj, member, src, line: l },
            MIRInstruction::LoadIndex { dst, obj, index, line: _ } => MIRInstruction::LoadIndex { dst, obj, index, line: l },
            MIRInstruction::StoreIndex { obj, index, src, line: _ } => MIRInstruction::StoreIndex { obj, index, src, line: l },
            MIRInstruction::Throw { value, line: _ } => MIRInstruction::Throw { value, line: l },
            MIRInstruction::Cast { dst, src, ty, line: _ } => MIRInstruction::Cast { dst, src, ty, line: l },
            MIRInstruction::TrySetup { try_target, _catch_target, line: _ } => MIRInstruction::TrySetup { try_target, _catch_target, line: l },
            MIRInstruction::PopHandler { line: _ } => MIRInstruction::PopHandler { line: l },
        }
    }

    /// Every block index the instruction names is below `n`.
    pub open spec fn targets_below(&self, n: int) -> bool {
        match *self {
            MIRInstruction::Branch { true_target, false_target, .. } => true_target < n && false_target < n,
            MIRInstruction::Jump { target, .. } => target < n,
            MIRInstruction::TrySetup { try_target, _catch_target, .. } => try_target < n && _catch_target < n,
            _ => true,
        }
    }

    /// Instructions that end a block: `Return`, `Jump` and `Branch`.
    pub open spec fn is_terminator(&self) -> bool {
        match *self {
            MIRInstruction::Return { .. } | MIRInstruction::Jump { .. } | MIRInstruction::Branch { .. } => true,
            _ => false,
        }
    }

    /// The source line the instruction records.
    pub fn get_line(&self) -> (l: usize)
        ensures
            l == self.spec_line(),
    {
        match self {
            MIRInstruction::Move { line, .. } => *line,
            MIRInstruction::BinaryOp { line, .. } => *line,
            MIRInstruction::Branch { line, .. } => *line,
            MIRInstruction::Jump { line, .. } => *line,
            MIRInstruction::Return { line, .. } => *line,
            MIRInstruction::Call { line, .. } => *line,
            MIRInstruction::IndirectCall { line, .. } => *line,
            MIRInstruction::LoadMember { line, .. } => *line,
            MIRInstruction::StoreMember { line, .. } => *line,
            MIRInstruction::LoadIndex { line, .. } => *line,
            MIRInstruction::StoreIndex { line, .. } => *line,
            MIRInstruction::Throw { line, .. } => *line,
            MIRInstruction::Cast { line, .. } => *line,
            MIRInstruction::TrySetup { line, .. } => *line,
            MIRInstruction::PopHandler { line, .. } => *line,
        }
    }

    /// Records `new_line` as the instruction's source line.
    pub fn set_line(&mut self, new_line: usize)
        ensures
            *final(self) == old(self).with_line(new_line),
    {
        match self {
            MIRInstruction::Move { line, .. } => *line = new_line,
            MIRInstruction::BinaryOp { line, .. } => *line = new_line,
            MIRInstruction::Branch { line, .. } => *line = new_line,
            MIRInstruction::Jump { line, .. } => *line = new_line,
            MIRInstruction::Return { line, .. } => *line = new_line,
            MIRInstruction::Call { line, .. } => *line = new_line,
            MIRInstruction::IndirectCall { line, .. } => *line = new_line,
            MIRInstruction::LoadMember { line, .. } => *line = new_line,
            MIRInstruction::StoreMember { line, .. } => *line = new_line,
            MIRInstruction::LoadIndex { line, .. } => *line = new_line,
            MIRInstruction::StoreIndex { line, .. } => *line = new_line,
            MIRInstruction::Throw { line, .. } => *line = new_line,
            MIRInstruction::Cast { line, .. } => *line = new_line,
            MIRInstruction::TrySetup { line, .. } => *line = new_line,
            MIRInstruction::PopHandler { line, .. } => *line = new_line,
        }
    }
}

/// A straight-line sequence of instructions.
#[derive(Debug, PartialEq)]
pub struct BasicBlock {
    pub name: String,
    pub instructions: Vec<MIRInstruction>,
    /// The block to go to when an instruction of this block raises an exception.
    pub exception_handler: Option<usize>,
}

impl BasicBlock {
    /// An empty block with no exception handler.
    pub fn new(name: String) -> (b: Self)
        ensures
            b.name == name,
            b.instructions@.len() == 0,
            b.exception_handler is None,
    {
        Self { name, instructions: Vec::new(), exception_handler: None }
    }

    /// Appends `inst` to the block.
    pub fn add_instruction(&mut self, inst: MIRInstruction)
        ensures
            final(self).name == old(self).name,
            final(self).exception_handler == old(self).exception_handler,
            final(self).instructions@ == old(self).instructions@.push(inst),
    {
        self.instructions.push(inst);
    }

    /// Every block index the block names, in its instructions and as its exception
    /// handler, is below `n`.
    pub open spec fn targets_below(&self, n: int) -> bool {
        &&& forall|i: int| 0 <= i < self.instructions@.len() ==> (#[trigger] self.instructions@[i]).targets_below(n)
        &&& (self.exception_handler matches Some(h) ==> h < n)
    }

    /// The block's last instruction ends it.
    pub open spec fn spec_terminated(&self) -> bool {
        self.instructions@.len() > 0 && self.instructions@.last().is_terminator()
    }

    /// Whether the block's last instruction is a `Return`, `Jump` or `Branch`.
    pub fn is_terminated(&self) -> (r: bool)
        ensures
            r == self.spec_terminated(),
    {
        if self.instructions.len() > 0 {
            let last = &self.instructions[self.instructions.len() - 1];
            match last {
                MIRInstruction::Return { .. } | MIRInstruction::Jump { .. } | MIRInstruction::Branch { .. } => true,
                _ => false,
            }
        } else {
            false
        }
    }
}

/// A function as a list of basic blocks.
#[derive(Debug, PartialEq)]
pub struct MIRFunction {
    pub name: String,
    pub params: Vec<String>,
    /// The type of each variable, each name once.
    pub variables: Vec<(String, TejxType)>,
    pub blocks: Vec<BasicBlock>,
    /// Index of the block execution starts in.
    pub entry_block: usize,
    pub is_extern: bool,
}

impl MIRFunction {
    /// The type of each variable, by name.
    pub open spec fn var_types(&self) -> Map<Seq<char>, TejxType> {
        type_map(self.variables@)
    }

    /// The entry block exists, and every block index that a block names (a jump or
    /// branch target, a `try` or `catch` target, an exception handler) is that of a block.
    pub open spec fn targets_in_range(&self) -> bool {
        &&& self.entry_block < self.blocks@.len()
        &&& forall|b: int| 0 <= b < self.blocks@.len() ==> (#[trigger] self.blocks@[b]).targets_below(self.blocks@.len() as int)
    }

    /// A function with no parameters, variables or blocks.
    pub fn new(name: String) -> (f: Self)
        ensures
            f.name == name,
            f.params@.len() == 0,
            f.variables@.len() == 0,
            f.var_types() == Map::<Seq<char>, TejxType>::empty(),
            f.blocks@.len() == 0,
            f.entry_block == 0,
            !f.is_extern,
    {
        Self {
            name,
            params: Vec::new(),
            variables: Vec::new(),
            blocks: Vec::new(),
            entry_block: 0,
            is_extern: false,
        }
    }
}

/// An instruction given a line records that line; giving it back its old line
/// gives back the instruction; and whether it ends a block does not change.
pub proof fn law_line_round_trip(inst: MIRInstruction, l: usize)
    ensures
        inst.with_line(l).spec_line() == l,
        inst.with_line(l).with_line(inst.spec_line()) == inst,
        inst.with_line(l).is_terminator() == inst.is_terminator(),
        forall|n: int| inst.with_line(l).targets_below(n) == inst.targets_below(n),
{
}

/// A block is terminated right after a `Return`, `Jump` or `Branch` is added to it,
/// and not right after any other instruction.
pub proof fn law_terminated_by_last(before: BasicBlock, after: BasicBlock, inst: MIRInstruction)
    requires
        after.instructions@ == before.instructions@.push(inst),
    ensures
        after.spec_terminated() == inst.is_terminator(),
{
}

} // verus!

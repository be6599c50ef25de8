//! Bytecode: the instructions of the stack machine.

use crate::types::{LiteralValue, SpecValue};
use vstd::prelude::*;

verus! {

/// The id of a field: its index in the schema.
pub type FieldId = usize;

/// The id of a function: its index in the registry.
pub type FunctionId = usize;

/// The function id that the compiler emits for a name that the registry
/// does not have. No registry holds a function with this id.
pub const UNKNOWN_FUNCTION: usize = usize::MAX;

/// One instruction. A comparison pops the right operand, then the left,
/// and pushes a boolean; a logical instruction does the same with truth
/// values.
#[derive(Debug, PartialEq)]
pub enum Instruction {
    /// Pushes the value of a field, or `Bool(false)` where it is absent.
    LoadField(FieldId),
    /// Pushes a value.
    LoadLiteral(LiteralValue),
    /// Pops as many arguments as the second number says, calls the function
    /// with the given id and pushes its result.
    CallFunction(FunctionId, usize),
    CompareEq,
    CompareNeq,
    CompareLt,
    CompareLte,
    CompareGt,
    CompareGte,
    CompareIn,
    CompareNotIn,
    CompareMatches,
    CompareWildcard { strict: bool },
    CompareContains,
    LogicalAnd,
    LogicalOr,
    LogicalNot,
}

impl Clone for Instruction {
    /// A copy of the instruction; the buffer of a loaded value is shared.
    fn clone(&self) -> (r: Self)
        ensures
            r == *self,
    {
        match self {
            Instruction::LoadField(id) => Instruction::LoadField(*id),
            Instruction::LoadLiteral(v) => Instruction::LoadLiteral(v.clone()),
            Instruction::CallFunction(id, argc) => Instruction::CallFunction(*id, *argc),
            Instruction::CompareEq => Instruction::CompareEq,
            Instruction::CompareNeq => Instruction::CompareNeq,
            Instruction::CompareLt => Instruction::CompareLt,
            Instruction::CompareLte => Instruction::CompareLte,
            Instruction::CompareGt => Instruction::CompareGt,
            Instruction::CompareGte => Instruction::CompareGte,
            Instruction::CompareIn => Instruction::CompareIn,
            Instruction::CompareNotIn => Instruction::CompareNotIn,
            Instruction::CompareMatches => Instruction::CompareMatches,
            Instruction::CompareWildcard { strict } => Instruction::CompareWildcard {
                strict: *strict,
            },
            Instruction::CompareContains => Instruction::CompareContains,
            Instruction::LogicalAnd => Instruction::LogicalAnd,
            Instruction::LogicalOr => Instruction::LogicalOr,
            Instruction::LogicalNot => Instruction::LogicalNot,
        }
    }
}

/// The mathematical value of an instruction.
pub enum SpecInstruction {
    LoadField(int),
    LoadLiteral(SpecValue),
    CallFunction(int, int),
    CompareEq,
    CompareNeq,
    CompareLt,
    CompareLte,
    CompareGt,
    CompareGte,
    CompareIn,
    CompareNotIn,
    CompareMatches,
    CompareWildcard { strict: bool },
    CompareContains,
    LogicalAnd,
    LogicalOr,
    LogicalNot,
}

impl View for Instruction {
    type V = SpecInstruction;

    open spec fn view(&self) -> SpecInstruction {
        match *self {
            Instruction::LoadField(id) => SpecInstruction::LoadField(id as int),
            Instruction::LoadLiteral(v) => SpecInstruction::LoadLiteral(v@),
            Instruction::CallFunction(id, argc) => SpecInstruction::CallFunction(
                id as int,
                argc as int,
            ),
            Instruction::CompareEq => SpecInstruction::CompareEq,
            Instruction::CompareNeq => SpecInstruction::CompareNeq,
            Instruction::CompareLt => SpecInstruction::CompareLt,
            Instruction::CompareLte => SpecInstruction::CompareLte,
            Instruction::CompareGt => SpecInstruction::CompareGt,
            Instruction::CompareGte => SpecInstruction::CompareGte,
            Instruction::CompareIn => SpecInstruction::CompareIn,
            Instruction::CompareNotIn => SpecInstruction::CompareNotIn,
            Instruction::CompareMatches => SpecInstruction::CompareMatches,
            Instruction::CompareWildcard { strict } => SpecInstruction::CompareWildcard { strict },
            Instruction::CompareContains => SpecInstruction::CompareContains,
            Instruction::LogicalAnd => SpecInstruction::LogicalAnd,
            Instruction::LogicalOr => SpecInstruction::LogicalOr,
            Instruction::LogicalNot => SpecInstruction::LogicalNot,
        }
    }
}

/// The program that a sequence of instructions stands for.
pub open spec fn code_of(code: Seq<Instruction>) -> Seq<SpecInstruction> {
    Seq::new(code.len(), |i: int| code[i]@)
}

/// The operand stack of the machine.
pub type IrStack = Vec<LiteralValue>;

} // verus!

//! The stack machine, as a function from a program and a context to a
//! result.
//!
//! A function that the embedding program supplies may answer anything. The
//! machine therefore takes the answers of those calls as a sequence, and
//! uses them up in the order of the calls.

use crate::compare::{compare, truthy};
use crate::context::value_at;
use crate::error::SpecError;
use crate::expr::ComparisonOp;
use crate::functions::{builtin_named, builtin_result, kind_at, SpecRegistry};
use crate::ir::SpecInstruction;
use crate::text::decimal;
use crate::types::SpecValue;
use vstd::prelude::*;
use vstd::utf8::*;

verus! {

/// The state of the machine: the operand stack, and the answers that the
/// supplied functions have yet to give.
pub struct Machine {
    pub stack: Seq<SpecValue>,
    pub answers: Seq<Option<SpecValue>>,
}

/// The comparison that an instruction makes, if it is a comparison.
pub open spec fn comparison_of(instr: SpecInstruction) -> Option<ComparisonOp> {
    match instr {
        SpecInstruction::CompareEq => Some(ComparisonOp::Eq),
        SpecInstruction::CompareNeq => Some(ComparisonOp::Neq),
        SpecInstruction::CompareLt => Some(ComparisonOp::Lt),
        SpecInstruction::CompareLte => Some(ComparisonOp::Lte),
        SpecInstruction::CompareGt => Some(ComparisonOp::Gt),
        SpecInstruction::CompareGte => Some(ComparisonOp::Gte),
        SpecInstruction::CompareIn => Some(ComparisonOp::In),
        SpecInstruction::CompareNotIn => Some(ComparisonOp::NotIn),
        SpecInstruction::CompareMatches => Some(ComparisonOp::Matches),
        SpecInstruction::CompareWildcard { strict } => Some(
            if strict {
                ComparisonOp::StrictWildcard
            } else {
                ComparisonOp::Wildcard
            },
        ),
        SpecInstruction::CompareContains => Some(ComparisonOp::Contains),
        _ => None,
    }
}

/// The error of an instruction that finds too few operands.
pub open spec fn underflow() -> SpecError {
    SpecError::ExecutionError("Stack underflow"@)
}

/// The error of a program that leaves no value.
pub open spec fn empty_stack() -> SpecError {
    SpecError::ExecutionError("Empty stack after execution"@)
}

/// The error of a call with an id that the registry does not have.
pub open spec fn unknown_function(id: int) -> SpecError {
    SpecError::FunctionError("Function ID "@ + decimal(id as nat) + " not found"@)
}

/// The error of a supplied function that gives no result.
pub open spec fn call_failed(id: int) -> SpecError {
    SpecError::FunctionError("Function call failed for ID "@ + decimal(id as nat))
}

/// The error of a built-in function that gives no result.
pub open spec fn builtin_failed(name: Seq<u8>) -> SpecError {
    SpecError::FunctionError("Builtin function call failed for "@ + decode_utf8(name))
}

/// The state with one more value on the stack.
pub open spec fn pushed(m: Machine, v: SpecValue) -> Machine {
    Machine { stack: m.stack.push(v), answers: m.answers }
}

/// The state with the topmost `n` values taken off the stack.
pub open spec fn dropped(m: Machine, n: int) -> Machine {
    Machine { stack: m.stack.subrange(0, m.stack.len() - n), answers: m.answers }
}

/// A call of the function `id` with the topmost `argc` values as its
/// arguments, the first argument lowest. A function whose registered name
/// is that of a built-in function is that built-in function, whatever was
/// registered under the name. Any other is the function that was
/// registered: a built-in function, or a supplied function, which gives the
/// next answer.
pub open spec fn call(id: int, argc: int, m: Machine, functions: SpecRegistry) -> Result<
    Machine,
    SpecError,
> {
    if argc < 0 || m.stack.len() < argc {
        Err(underflow())
    } else {
        let args = m.stack.subrange(m.stack.len() - argc, m.stack.len() as int);
        let rest = dropped(m, argc);
        if 0 <= id < functions.names.len() {
            match builtin_named(functions.names[id]) {
                Some(builtin) => match builtin_result(builtin, args) {
                    Some(v) => Ok(pushed(rest, v)),
                    None => Err(builtin_failed(functions.names[id])),
                },
                None => if kind_at(functions, id) is Some {
                    match builtin_result(kind_at(functions, id)->0, args) {
                        Some(v) => Ok(pushed(rest, v)),
                        None => Err(call_failed(id)),
                    }
                } else if m.answers.len() > 0 && m.answers[0] is Some {
                    Ok(
                        Machine {
                            stack: rest.stack.push(m.answers[0]->0),
                            answers: m.answers.subrange(1, m.answers.len() as int),
                        },
                    )
                } else {
                    Err(call_failed(id))
                },
            }
        } else {
            Err(unknown_function(id))
        }
    }
}

/// One instruction.
pub open spec fn step(
    instr: SpecInstruction,
    m: Machine,
    slots: Seq<Option<SpecValue>>,
    functions: SpecRegistry,
) -> Result<Machine, SpecError> {
    match instr {
        SpecInstruction::LoadField(id) => Ok(
            pushed(
                m,
                match value_at(slots, id) {
                    Some(v) => v,
                    None => SpecValue::Bool(false),
                },
            ),
        ),
        SpecInstruction::LoadLiteral(v) => Ok(pushed(m, v)),
        SpecInstruction::CallFunction(id, argc) => call(id, argc, m, functions),
        SpecInstruction::LogicalAnd => if m.stack.len() < 2 {
            Err(underflow())
        } else {
            Ok(
                pushed(
                    dropped(m, 2),
                    SpecValue::Bool(
                        truthy(m.stack[m.stack.len() - 2]) && truthy(m.stack[m.stack.len() - 1]),
                    ),
                ),
            )
        },
        SpecInstruction::LogicalOr => if m.stack.len() < 2 {
            Err(underflow())
        } else {
            Ok(
                pushed(
                    dropped(m, 2),
                    SpecValue::Bool(
                        truthy(m.stack[m.stack.len() - 2]) || truthy(m.stack[m.stack.len() - 1]),
                    ),
                ),
            )
        },
        SpecInstruction::LogicalNot => if m.stack.len() < 1 {
            Err(underflow())
        } else {
            Ok(pushed(dropped(m, 1), SpecValue::Bool(!truthy(m.stack[m.stack.len() - 1]))))
        },
        _ => if m.stack.len() < 2 {
            Err(underflow())
        } else {
            Ok(
                pushed(
                    dropped(m, 2),
                    SpecValue::Bool(
                        compare(
                            comparison_of(instr)->0,
                            m.stack[m.stack.len() - 2],
                            m.stack[m.stack.len() - 1],
                        ),
                    ),
                ),
            )
        },
    }
}

/// The result of a program that has run to its end: the truth value of the
/// topmost value.
pub open spec fn finish(m: Machine) -> Result<bool, SpecError> {
    if m.stack.len() == 0 {
        Err(empty_stack())
    } else {
        Ok(truthy(m.stack.last()))
    }
}

/// The result of the program from instruction `pc` on, in the state `m`.
pub open spec fn run_from(
    code: Seq<SpecInstruction>,
    pc: int,
    m: Machine,
    slots: Seq<Option<SpecValue>>,
    functions: SpecRegistry,
) -> Result<bool, SpecError>
    decreases code.len() - pc,
{
    if pc < 0 || pc >= code.len() {
        finish(m)
    } else {
        match step(code[pc], m, slots, functions) {
            Ok(next) => run_from(code, pc + 1, next, slots, functions),
            Err(e) => Err(e),
        }
    }
}

/// The result of a program on the slots of a context, with the functions
/// of a registry and the answers of the supplied functions.
pub open spec fn run(
    code: Seq<SpecInstruction>,
    slots: Seq<Option<SpecValue>>,
    functions: SpecRegistry,
    answers: Seq<Option<SpecValue>>,
) -> Result<bool, SpecError> {
    run_from(code, 0, Machine { stack: Seq::empty(), answers }, slots, functions)
}

} // verus!

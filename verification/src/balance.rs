//! Compiled programs keep the operand stack in balance: the code of an
//! expression leaves one value more than it found, and never finds too few
//! operands. A compiled filter therefore gives a boolean or a function
//! error, whatever the context holds and whatever the supplied functions
//! answer. Its code names fields of the schema and functions of the
//! registry only.

use crate::compiler::{called_id, comparison_code, logical_code, lower, lower_all};
use crate::error::SpecError;
use crate::functions::SpecRegistry;
use crate::expr::{LogicalOp, SpecExpr};
use crate::ir::SpecInstruction;
use crate::machine::{comparison_of, run, run_from, step, Machine};
use crate::types::SpecValue;
use vstd::prelude::*;

verus! {

/// The state after the first `n` instructions of a program, or the error
/// of the first of them that fails.
pub open spec fn run_prefix(
    code: Seq<SpecInstruction>,
    n: int,
    m: Machine,
    slots: Seq<Option<SpecValue>>,
    registry: SpecRegistry,
) -> Result<Machine, SpecError>
    decreases n,
{
    if n <= 0 || n > code.len() {
        Ok(m)
    } else {
        match run_prefix(code, n - 1, m, slots, registry) {
            Ok(before) => step(code[n - 1], before, slots, registry),
            Err(e) => Err(e),
        }
    }
}

/// The state after all instructions of a program.
pub open spec fn run_all(
    code: Seq<SpecInstruction>,
    m: Machine,
    slots: Seq<Option<SpecValue>>,
    registry: SpecRegistry,
) -> Result<Machine, SpecError> {
    run_prefix(code, code.len() as int, m, slots, registry)
}

/// Whether an outcome is a state with `n` values more than `m` has, on top
/// of the values of `m`, or else a function error.
pub open spec fn grows_by(r: Result<Machine, SpecError>, m: Machine, n: int) -> bool {
    match r {
        Ok(after) => after.stack.len() == m.stack.len() + n && after.stack.subrange(
            0,
            m.stack.len() as int,
        ) == m.stack,
        Err(e) => e is FunctionError,
    }
}

/// A program run from instruction `pc` on gives what the whole program
/// gives, where the state at `pc` is that after the first `pc`
/// instructions.
pub proof fn lemma_run_from_prefix(
    code: Seq<SpecInstruction>,
    pc: int,
    m: Machine,
    slots: Seq<Option<SpecValue>>,
    registry: SpecRegistry,
)
    requires
        0 <= pc <= code.len(),
    ensures
        run_from(code, 0, m, slots, registry) == match run_prefix(code, pc, m, slots, registry) {
            Ok(at) => run_from(code, pc, at, slots, registry),
            Err(e) => Err(e),
        },
    decreases pc,
{
    if pc > 0 {
        lemma_run_from_prefix(code, pc - 1, m, slots, registry);
    }
}

/// The first instructions of a program do not depend on what follows
/// them.
pub proof fn lemma_prefix_of_concat(
    a: Seq<SpecInstruction>,
    b: Seq<SpecInstruction>,
    n: int,
    m: Machine,
    slots: Seq<Option<SpecValue>>,
    registry: SpecRegistry,
)
    requires
        0 <= n <= a.len(),
    ensures
        run_prefix(a + b, n, m, slots, registry) == run_prefix(a, n, m, slots, registry),
    decreases n,
{
    if n > 0 {
        lemma_prefix_of_concat(a, b, n - 1, m, slots, registry);
    }
}

proof fn lemma_concat_upto(
    a: Seq<SpecInstruction>,
    b: Seq<SpecInstruction>,
    k: int,
    m: Machine,
    slots: Seq<Option<SpecValue>>,
    registry: SpecRegistry,
)
    requires
        0 <= k <= b.len(),
    ensures
        run_prefix(a + b, a.len() + k, m, slots, registry) == match run_all(a, m, slots, registry) {
            Ok(middle) => run_prefix(b, k, middle, slots, registry),
            Err(e) => Err(e),
        },
    decreases k,
{
    if k == 0 {
        lemma_prefix_of_concat(a, b, a.len() as int, m, slots, registry);
    } else {
        lemma_concat_upto(a, b, k - 1, m, slots, registry);
    }
}

/// Running one program after another is running the first, then the
/// second in the state that the first has left.
pub proof fn lemma_run_concat(
    a: Seq<SpecInstruction>,
    b: Seq<SpecInstruction>,
    m: Machine,
    slots: Seq<Option<SpecValue>>,
    registry: SpecRegistry,
)
    ensures
        run_all(a + b, m, slots, registry) == match run_all(a, m, slots, registry) {
            Ok(middle) => run_all(b, middle, slots, registry),
            Err(e) => Err(e),
        },
{
    lemma_concat_upto(a, b, b.len() as int, m, slots, registry);
}

proof fn lemma_run_one(
    instr: SpecInstruction,
    m: Machine,
    slots: Seq<Option<SpecValue>>,
    registry: SpecRegistry,
)
    ensures
        run_all(seq![instr], m, slots, registry) == step(instr, m, slots, registry),
{
    reveal_with_fuel(run_prefix, 2);
}

proof fn lemma_then_one(
    a: Seq<SpecInstruction>,
    instr: SpecInstruction,
    m: Machine,
    slots: Seq<Option<SpecValue>>,
    registry: SpecRegistry,
)
    ensures
        run_all(a + seq![instr], m, slots, registry) == match run_all(a, m, slots, registry) {
            Ok(middle) => step(instr, middle, slots, registry),
            Err(e) => Err(e),
        },
{
    lemma_run_concat(a, seq![instr], m, slots, registry);
    match run_all(a, m, slots, registry) {
        Ok(middle) => {
            lemma_run_one(instr, middle, slots, registry);
        },
        Err(_) => {},
    }
}

proof fn lemma_binary_step(
    instr: SpecInstruction,
    m: Machine,
    base: Machine,
    slots: Seq<Option<SpecValue>>,
    registry: SpecRegistry,
)
    requires
        instr is LogicalAnd || instr is LogicalOr || comparison_of(instr) is Some,
        m.stack.len() == base.stack.len() + 2,
        m.stack.subrange(0, base.stack.len() as int) == base.stack,
    ensures
        grows_by(step(instr, m, slots, registry), base, 1),
{
    let after = step(instr, m, slots, registry)->Ok_0;
    assert(after.stack.subrange(0, base.stack.len() as int) =~= m.stack.subrange(
        0,
        base.stack.len() as int,
    ));
}

/// The code of an expression, run in any state, leaves one value more on
/// the stack, or ends with a function error.
pub proof fn lemma_expression_grows(
    e: SpecExpr,
    fields: Seq<Seq<u8>>,
    functions: Seq<Seq<u8>>,
    m: Machine,
    slots: Seq<Option<SpecValue>>,
    registry: SpecRegistry,
)
    ensures
        grows_by(run_all(lower(e, fields, functions), m, slots, registry), m, 1),
    decreases e, 0int,
{
    match e {
        SpecExpr::LogicalOp { op, left, right } => {
            let a = lower(*left, fields, functions);
            let b = lower(*right, fields, functions);
            lemma_expression_grows(*left, fields, functions, m, slots, registry);
            lemma_run_concat(a, b, m, slots, registry);
            lemma_then_one(a + b, logical_code(op), m, slots, registry);
            match run_all(a, m, slots, registry) {
                Ok(m1) => {
                    lemma_expression_grows(*right, fields, functions, m1, slots, registry);
                    match run_all(b, m1, slots, registry) {
                        Ok(m2) => {
                            assert(m2.stack.subrange(0, m.stack.len() as int) =~= m1.stack.subrange(
                                0,
                                m.stack.len() as int,
                            ));
                            lemma_binary_step(logical_code(op), m2, m, slots, registry);
                        },
                        Err(_) => {},
                    }
                },
                Err(_) => {},
            }
        },
        SpecExpr::Comparison { left, op, right } => {
            let a = lower(*left, fields, functions);
            let b = lower(*right, fields, functions);
            lemma_expression_grows(*left, fields, functions, m, slots, registry);
            lemma_run_concat(a, b, m, slots, registry);
            lemma_then_one(a + b, comparison_code(op), m, slots, registry);
            match run_all(a, m, slots, registry) {
                Ok(m1) => {
                    lemma_expression_grows(*right, fields, functions, m1, slots, registry);
                    match run_all(b, m1, slots, registry) {
                        Ok(m2) => {
                            assert(m2.stack.subrange(0, m.stack.len() as int) =~= m1.stack.subrange(
                                0,
                                m.stack.len() as int,
                            ));
                            lemma_binary_step(comparison_code(op), m2, m, slots, registry);
                        },
                        Err(_) => {},
                    }
                },
                Err(_) => {},
            }
        },
        SpecExpr::Not(inner) => {
            let a = lower(*inner, fields, functions);
            lemma_expression_grows(*inner, fields, functions, m, slots, registry);
            lemma_then_one(a, SpecInstruction::LogicalNot, m, slots, registry);
            match run_all(a, m, slots, registry) {
                Ok(m1) => {
                    let after = step(SpecInstruction::LogicalNot, m1, slots, registry)->Ok_0;
                    assert(after.stack.subrange(0, m.stack.len() as int) =~= m1.stack.subrange(
                        0,
                        m.stack.len() as int,
                    ));
                },
                Err(_) => {},
            }
        },
        SpecExpr::Value(v) => {
            let code = lower(e, fields, functions);
            lemma_run_one(code[0], m, slots, registry);
            let after = step(code[0], m, slots, registry)->Ok_0;
            assert(after.stack.subrange(0, m.stack.len() as int) =~= m.stack);
        },
        SpecExpr::FunctionCall { name, args } => {
            let a = lower_all(args, args.len() as int, fields, functions);
            let instr = SpecInstruction::CallFunction(
                called_id(functions, name),
                args.len() as int,
            );
            lemma_arguments_grow(args, args.len() as int, fields, functions, m, slots, registry);
            lemma_then_one(a, instr, m, slots, registry);
            match run_all(a, m, slots, registry) {
                Ok(m1) => {
                    match step(instr, m1, slots, registry) {
                        Ok(after) => {
                            assert(after.stack.subrange(0, m.stack.len() as int)
                                =~= m1.stack.subrange(0, m.stack.len() as int));
                        },
                        Err(_) => {},
                    }
                },
                Err(_) => {},
            }
        },
        SpecExpr::List(items) => {
            let instr = SpecInstruction::LoadLiteral(SpecValue::Array(items));
            lemma_run_one(instr, m, slots, registry);
            let after = step(instr, m, slots, registry)->Ok_0;
            assert(after.stack.subrange(0, m.stack.len() as int) =~= m.stack);
        },
    }
}

/// The code of the first `n` expressions, run in any state, leaves `n`
/// values more on the stack, or ends with a function error.
pub proof fn lemma_arguments_grow(
    items: Seq<SpecExpr>,
    n: int,
    fields: Seq<Seq<u8>>,
    functions: Seq<Seq<u8>>,
    m: Machine,
    slots: Seq<Option<SpecValue>>,
    registry: SpecRegistry,
)
    requires
        0 <= n <= items.len(),
    ensures
        grows_by(run_all(lower_all(items, n, fields, functions), m, slots, registry), m, n),
    decreases items, n,
{
    if n == 0 {
        assert(m.stack.subrange(0, m.stack.len() as int) =~= m.stack);
    } else {
        let a = lower_all(items, n - 1, fields, functions);
        let b = lower(items[n - 1], fields, functions);
        lemma_arguments_grow(items, n - 1, fields, functions, m, slots, registry);
        lemma_run_concat(a, b, m, slots, registry);
        match run_all(a, m, slots, registry) {
            Ok(m1) => {
                lemma_expression_grows(items[n - 1], fields, functions, m1, slots, registry);
                match run_all(b, m1, slots, registry) {
                    Ok(m2) => {
                        assert(m2.stack.subrange(0, m.stack.len() as int) =~= m1.stack.subrange(
                            0,
                            m.stack.len() as int,
                        ));
                    },
                    Err(_) => {},
                }
            },
            Err(_) => {},
        }
    }
}

/// A compiled expression evaluates to a boolean or to a function error: it
/// never runs out of operands and never ends on an empty stack.
pub proof fn lemma_compiled_result(
    e: SpecExpr,
    fields: Seq<Seq<u8>>,
    functions: Seq<Seq<u8>>,
    slots: Seq<Option<SpecValue>>,
    registry: SpecRegistry,
    answers: Seq<Option<SpecValue>>,
)
    ensures
        match run(lower(e, fields, functions), slots, registry, answers) {
            Ok(_) => true,
            Err(error) => error is FunctionError,
        },
{
    let code = lower(e, fields, functions);
    let start = Machine { stack: Seq::empty(), answers };
    lemma_expression_grows(e, fields, functions, start, slots, registry);
    lemma_run_from_prefix(code, code.len() as int, start, slots, registry);
}

/// Whether an instruction names a field that a schema of `fields` fields
/// has, and a function that a registry of `functions` functions has or the
/// id that stands for an unknown function.
pub open spec fn names_known(instr: SpecInstruction, fields: nat, functions: nat) -> bool {
    match instr {
        SpecInstruction::LoadField(id) => 0 <= id < fields,
        SpecInstruction::CallFunction(id, argc) => (0 <= id < functions || id == usize::MAX)
            && argc >= 0,
        _ => true,
    }
}

/// Whether every instruction of a program names known fields and
/// functions.
pub open spec fn all_names_known(code: Seq<SpecInstruction>, fields: nat, functions: nat) -> bool {
    forall|i: int| 0 <= i < code.len() ==> names_known(#[trigger] code[i], fields, functions)
}

/// The code of an expression loads fields of the schema only, and calls
/// functions of the registry or the unknown function only.
pub proof fn lemma_lowered_names(e: SpecExpr, fields: Seq<Seq<u8>>, functions: Seq<Seq<u8>>)
    ensures
        all_names_known(lower(e, fields, functions), fields.len(), functions.len()),
    decreases e, 0int,
{
    match e {
        SpecExpr::LogicalOp { op, left, right } => {
            lemma_lowered_names(*left, fields, functions);
            lemma_lowered_names(*right, fields, functions);
        },
        SpecExpr::Comparison { left, op, right } => {
            lemma_lowered_names(*left, fields, functions);
            lemma_lowered_names(*right, fields, functions);
        },
        SpecExpr::Not(inner) => {
            lemma_lowered_names(*inner, fields, functions);
        },
        SpecExpr::FunctionCall { name, args } => {
            lemma_lowered_argument_names(args, args.len() as int, fields, functions);
        },
        _ => {},
    }
}

/// The code of the first `n` expressions names known fields and functions
/// only.
pub proof fn lemma_lowered_argument_names(
    items: Seq<SpecExpr>,
    n: int,
    fields: Seq<Seq<u8>>,
    functions: Seq<Seq<u8>>,
)
    requires
        0 <= n <= items.len(),
    ensures
        all_names_known(lower_all(items, n, fields, functions), fields.len(), functions.len()),
    decreases items, n,
{
    if n > 0 {
        lemma_lowered_argument_names(items, n - 1, fields, functions);
        lemma_lowered_names(items[n - 1], fields, functions);
    }
}

} // verus!

//! The compiler, which lowers an expression tree to bytecode, and the
//! evaluator, which runs bytecode on a context.

use crate::compare::{compare_values, to_bool};
use crate::context::FilterContext;
use crate::error::{SpecError, WirerustError};
use crate::expr::{exprs_of, lemma_call_args, ComparisonOp, FilterExpr, LogicalOp, SpecExpr};
use crate::functions::{
    call_builtin, kind_at, kind_of, option_of, BuiltinFunctionId, FunctionRegistry, SpecRegistry,
};
use crate::ir::{code_of, Instruction, IrStack, SpecInstruction, UNKNOWN_FUNCTION};
use crate::keys::key_index;
use crate::machine::{
    call, call_failed, comparison_of, pushed, run, run_from, step, underflow, Machine,
};
use crate::schema::FilterSchema;
use crate::text::{joined, numbered, positioned};
use crate::types::{lemma_array_value, values_of, LiteralValue, SpecValue};
use std::sync::Arc;
use vstd::prelude::*;
use vstd::string::*;
use vstd::utf8::*;

verus! {

/// The instruction of a comparison operator.
pub open spec fn comparison_code(op: ComparisonOp) -> SpecInstruction {
    match op {
        ComparisonOp::Eq => SpecInstruction::CompareEq,
        ComparisonOp::Neq => SpecInstruction::CompareNeq,
        ComparisonOp::Lt => SpecInstruction::CompareLt,
        ComparisonOp::Lte => SpecInstruction::CompareLte,
        ComparisonOp::Gt => SpecInstruction::CompareGt,
        ComparisonOp::Gte => SpecInstruction::CompareGte,
        ComparisonOp::In => SpecInstruction::CompareIn,
        ComparisonOp::NotIn => SpecInstruction::CompareNotIn,
        ComparisonOp::Matches => SpecInstruction::CompareMatches,
        ComparisonOp::Wildcard => SpecInstruction::CompareWildcard { strict: false },
        ComparisonOp::StrictWildcard => SpecInstruction::CompareWildcard { strict: true },
        ComparisonOp::Contains => SpecInstruction::CompareContains,
    }
}

/// The instruction of a logical connective.
pub open spec fn logical_code(op: LogicalOp) -> SpecInstruction {
    match op {
        LogicalOp::And => SpecInstruction::LogicalAnd,
        LogicalOp::Or => SpecInstruction::LogicalOr,
    }
}

/// The id that a call of the function `name` is compiled with: its id in
/// the registry, or the largest `usize` where the registry lacks the name.
pub open spec fn called_id(functions: Seq<Seq<u8>>, name: Seq<u8>) -> int {
    match key_index(functions, name) {
        Some(id) => id,
        None => usize::MAX as int,
    }
}

/// The bytecode of an expression, for the field names of a schema and the
/// function names of a registry: the code of the operands in their order,
/// then the instruction of the node. A byte string that is the name of a
/// field loads the field; every other value loads itself.
pub open spec fn lower(e: SpecExpr, fields: Seq<Seq<u8>>, functions: Seq<Seq<u8>>) -> Seq<
    SpecInstruction,
>
    decreases e, 0int,
{
    match e {
        SpecExpr::LogicalOp { op, left, right } => lower(*left, fields, functions) + lower(
            *right,
            fields,
            functions,
        ) + seq![logical_code(op)],
        SpecExpr::Comparison { left, op, right } => lower(*left, fields, functions) + lower(
            *right,
            fields,
            functions,
        ) + seq![comparison_code(op)],
        SpecExpr::Not(inner) => lower(*inner, fields, functions) + seq![
            SpecInstruction::LogicalNot,
        ],
        SpecExpr::Value(v) => match v {
            SpecValue::Bytes(name) => match key_index(fields, name) {
                Some(id) => seq![SpecInstruction::LoadField(id)],
                None => seq![SpecInstruction::LoadLiteral(v)],
            },
            _ => seq![SpecInstruction::LoadLiteral(v)],
        },
        SpecExpr::FunctionCall { name, args } => lower_all(
            args,
            args.len() as int,
            fields,
            functions,
        ) + seq![SpecInstruction::CallFunction(called_id(functions, name), args.len() as int)],
        SpecExpr::List(items) => seq![SpecInstruction::LoadLiteral(SpecValue::Array(items))],
    }
}

/// The bytecode of the first `n` of the expressions, one after the other.
pub open spec fn lower_all(
    items: Seq<SpecExpr>,
    n: int,
    fields: Seq<Seq<u8>>,
    functions: Seq<Seq<u8>>,
) -> Seq<SpecInstruction>
    decreases items, n,
{
    if n <= 0 || n > items.len() {
        Seq::empty()
    } else {
        lower_all(items, n - 1, fields, functions) + lower(items[n - 1], fields, functions)
    }
}

/// Lowers expression trees to bytecode.
pub struct DefaultCompiler;

/// A compiled filter: the bytecode, with the schema and the function
/// registry that it was compiled for.
pub struct IrCompiledFilter {
    pub bytecode: Vec<Instruction>,
    pub schema: Arc<FilterSchema>,
    pub functions: Arc<FunctionRegistry>,
}

/// Appends one instruction.
fn emit(code: &mut Vec<Instruction>, instr: Instruction)
    ensures
        code_of(final(code)@) == code_of(old(code)@).push(instr@),
{
    code.push(instr);
}

/// The instruction of a comparison operator.
fn comparison_instruction(op: ComparisonOp) -> (r: Instruction)
    ensures
        r@ == comparison_code(op),
{
    match op {
        ComparisonOp::Eq => Instruction::CompareEq,
        ComparisonOp::Neq => Instruction::CompareNeq,
        ComparisonOp::Lt => Instruction::CompareLt,
        ComparisonOp::Lte => Instruction::CompareLte,
        ComparisonOp::Gt => Instruction::CompareGt,
        ComparisonOp::Gte => Instruction::CompareGte,
        ComparisonOp::In => Instruction::CompareIn,
        ComparisonOp::NotIn => Instruction::CompareNotIn,
        ComparisonOp::Matches => Instruction::CompareMatches,
        ComparisonOp::Wildcard => Instruction::CompareWildcard { strict: false },
        ComparisonOp::StrictWildcard => Instruction::CompareWildcard { strict: true },
        ComparisonOp::Contains => Instruction::CompareContains,
    }
}

/// The same values in a new vector; their buffers are shared.
fn share_all(items: &Vec<LiteralValue>) -> (r: Vec<LiteralValue>)
    ensures
        values_of(r@) == values_of(items@),
{
    let mut r: Vec<LiteralValue> = Vec::new();
    let mut i: usize = 0;
    while i < items.len()
        invariant
            i <= items@.len(),
            r@.len() == i,
            forall|k: int| 0 <= k < i ==> #[trigger] r@[k] == items@[k],
        decreases items@.len() - i,
    {
        r.push(items[i].clone());
        i += 1;
    }
    r
}

impl DefaultCompiler {
    /// Appends the bytecode of an expression to `code`.
    pub fn compile_ir(
        expr: &FilterExpr,
        schema: &FilterSchema,
        functions: &FunctionRegistry,
        code: &mut Vec<Instruction>,
    )
        ensures
            code_of(final(code)@) == code_of(old(code)@) + lower(
                expr@,
                schema.names(),
                functions.names(),
            ),
        decreases *expr,
    {
        let ghost fields = schema.names();
        let ghost names = functions.names();
        let ghost before = code_of(code@);
        match expr {
            FilterExpr::LogicalOp { op, left, right } => {
                Self::compile_ir(left, schema, functions, code);
                Self::compile_ir(right, schema, functions, code);
                match op {
                    LogicalOp::And => emit(code, Instruction::LogicalAnd),
                    LogicalOp::Or => emit(code, Instruction::LogicalOr),
                }
            },
            FilterExpr::Comparison { left, op, right } => {
                Self::compile_ir(left, schema, functions, code);
                Self::compile_ir(right, schema, functions, code);
                emit(code, comparison_instruction(*op));
            },
            FilterExpr::Not(inner) => {
                Self::compile_ir(inner, schema, functions, code);
                emit(code, Instruction::LogicalNot);
            },
            FilterExpr::Value(val) => {
                if let LiteralValue::Bytes(bytes) = val {
                    if let Some(fid) = schema.field_id_of_bytes(bytes.as_slice()) {
                        emit(code, Instruction::LoadField(fid));
                        return ;
                    }
                }
                emit(code, Instruction::LoadLiteral(val.clone()));
            },
            FilterExpr::FunctionCall { name, args } => {
                proof {
                    lemma_call_args(*name, *args);
                }
                let ghost trees = exprs_of(args@);
                let mut i: usize = 0;
                while i < args.len()
                    invariant
                        decreases_to!(*expr => *args),
                        trees == exprs_of(args@),
                        fields == schema.names(),
                        names == functions.names(),
                        i <= args@.len(),
                        code_of(code@) == before + lower_all(trees, i as int, fields, names),
                    decreases args@.len() - i,
                {
                    Self::compile_ir(&args[i], schema, functions, code);
                    i += 1;
                }
                let fid = match functions.function_id(name.as_str()) {
                    Some(fid) => fid,
                    None => UNKNOWN_FUNCTION,
                };
                emit(code, Instruction::CallFunction(fid, args.len()));
            },
            FilterExpr::List(vals) => {
                let shared = Arc::new(share_all(vals));
                proof {
                    lemma_array_value(shared);
                }
                emit(code, Instruction::LoadLiteral(LiteralValue::Array(shared)));
            },
        }
    }

    /// Compiles an expression for a schema and a function registry.
    pub fn compile(
        expr: FilterExpr,
        schema: Arc<FilterSchema>,
        functions: Arc<FunctionRegistry>,
    ) -> (r: IrCompiledFilter)
        ensures
            code_of(r.bytecode@) == lower(expr@, schema.names(), functions.names()),
            r.schema == schema,
            r.functions == functions,
    {
        let mut bytecode: Vec<Instruction> = Vec::new();
        Self::compile_ir(&expr, &schema, &functions, &mut bytecode);
        IrCompiledFilter { bytecode, schema, functions }
    }
}

/// The result of an evaluation, as a mathematical value.
pub open spec fn bool_result_of(r: Result<bool, WirerustError>) -> Result<bool, SpecError> {
    match r {
        Ok(b) => Ok(b),
        Err(e) => Err(e@),
    }
}

/// Whether the machine, at instruction `pc` with the given stack, goes on
/// as the whole program does after the supplied functions have given the
/// answers `used`.
pub open spec fn tracks(
    code: Seq<SpecInstruction>,
    pc: int,
    stack: Seq<SpecValue>,
    used: Seq<Option<SpecValue>>,
    slots: Seq<Option<SpecValue>>,
    registry: SpecRegistry,
) -> bool {
    forall|rest: Seq<Option<SpecValue>>| #[trigger]
        run_from(code, pc, Machine { stack, answers: rest }, slots, registry) == run(
            code,
            slots,
            registry,
            used + rest,
        )
}

/// At the start the machine tracks the program.
proof fn lemma_start(
    code: Seq<SpecInstruction>,
    slots: Seq<Option<SpecValue>>,
    registry: SpecRegistry,
)
    ensures
        tracks(code, 0, Seq::empty(), Seq::empty(), slots, registry),
{
}

/// One instruction that succeeds keeps the machine on track.
proof fn lemma_advance(
    code: Seq<SpecInstruction>,
    pc: int,
    before: Seq<SpecValue>,
    after: Seq<SpecValue>,
    used: Seq<Option<SpecValue>>,
    taken: Seq<Option<SpecValue>>,
    slots: Seq<Option<SpecValue>>,
    registry: SpecRegistry,
)
    requires
        0 <= pc < code.len(),
        tracks(code, pc, before, used, slots, registry),
        forall|rest: Seq<Option<SpecValue>>| #[trigger]
            step(code[pc], Machine { stack: before, answers: taken + rest }, slots, registry)
                == Ok::<
                Machine,
                SpecError,
            >(Machine { stack: after, answers: rest }),
    ensures
        tracks(code, pc + 1, after, used + taken, slots, registry),
{
    assert forall|rest: Seq<Option<SpecValue>>| #[trigger]
        run_from(code, pc + 1, Machine { stack: after, answers: rest }, slots, registry) == run(
            code,
            slots,
            registry,
            (used + taken) + rest,
        ) by {
        let m = Machine { stack: before, answers: taken + rest };
        assert(run_from(code, pc, m, slots, registry) == run(
            code,
            slots,
            registry,
            used + (taken + rest),
        ));
        assert(used + (taken + rest) =~= (used + taken) + rest);
    }
}

/// One instruction that fails is the failure of the program.
proof fn lemma_fault(
    code: Seq<SpecInstruction>,
    pc: int,
    before: Seq<SpecValue>,
    used: Seq<Option<SpecValue>>,
    taken: Seq<Option<SpecValue>>,
    slots: Seq<Option<SpecValue>>,
    registry: SpecRegistry,
    e: SpecError,
)
    requires
        0 <= pc < code.len(),
        tracks(code, pc, before, used, slots, registry),
        step(code[pc], Machine { stack: before, answers: taken }, slots, registry) == Err::<
            Machine,
            SpecError,
        >(e),
    ensures
        run(code, slots, registry, used + taken) == Err::<bool, SpecError>(e),
{
    let m = Machine { stack: before, answers: taken };
    assert(run_from(code, pc, m, slots, registry) == run(code, slots, registry, used + taken));
}

/// Pushes a value.
fn push_value(stack: &mut Vec<LiteralValue>, v: LiteralValue)
    ensures
        values_of(final(stack)@) == values_of(old(stack)@).push(v@),
{
    stack.push(v);
}

/// Pops the topmost value, if there is one.
fn pop_value(stack: &mut Vec<LiteralValue>) -> (r: Option<LiteralValue>)
    ensures
        match r {
            Some(v) => old(stack)@.len() >= 1 && v@ == values_of(old(stack)@).last() && values_of(
                final(stack)@,
            ) == values_of(old(stack)@).subrange(0, old(stack)@.len() - 1),
            None => old(stack)@.len() == 0 && final(stack)@ == old(stack)@,
        },
{
    let r = stack.pop();
    r
}

/// Pops the two topmost values, the lower one first in the pair, if there
/// are two.
fn pop_pair(stack: &mut Vec<LiteralValue>) -> (r: Option<(LiteralValue, LiteralValue)>)
    ensures
        match r {
            Some((left, right)) => {
                &&& old(stack)@.len() >= 2
                &&& left@ == values_of(old(stack)@)[old(stack)@.len() - 2]
                &&& right@ == values_of(old(stack)@)[old(stack)@.len() - 1]
                &&& values_of(final(stack)@) == values_of(old(stack)@).subrange(
                    0,
                    old(stack)@.len() - 2,
                )
            },
            None => old(stack)@.len() < 2 && final(stack)@ == old(stack)@,
        },
{
    if stack.len() < 2 {
        return None;
    }
    let right = stack.pop();
    let left = stack.pop();
    match (left, right) {
        (Some(left), Some(right)) => {
            Some((left, right))
        },
        _ => None,
    }
}

/// The arguments of a call: the topmost `argc` values, the lowest first,
/// taken off the stack. `None`, and the stack as it was, where the stack
/// holds fewer.
pub fn call_arguments(stack: &mut Vec<LiteralValue>, argc: usize) -> (r: Option<
    Vec<LiteralValue>,
>)
    ensures
        match r {
            Some(args) => {
                &&& old(stack)@.len() >= argc
                &&& values_of(args@) == values_of(old(stack)@).subrange(
                    old(stack)@.len() - argc,
                    old(stack)@.len() as int,
                )
                &&& values_of(final(stack)@) == values_of(old(stack)@).subrange(
                    0,
                    old(stack)@.len() - argc,
                )
            },
            None => old(stack)@.len() < argc && final(stack)@ == old(stack)@,
        },
{
    if stack.len() < argc {
        return None;
    }
    let at = stack.len() - argc;
    let args = stack.split_off(at);
    Some(args)
}

/// The comparison that an instruction makes, if it is a comparison.
fn comparison_op(instr: &Instruction) -> (r: Option<ComparisonOp>)
    ensures
        r == comparison_of(instr@),
{
    match instr {
        Instruction::CompareEq => Some(ComparisonOp::Eq),
        Instruction::CompareNeq => Some(ComparisonOp::Neq),
        Instruction::CompareLt => Some(ComparisonOp::Lt),
        Instruction::CompareLte => Some(ComparisonOp::Lte),
        Instruction::CompareGt => Some(ComparisonOp::Gt),
        Instruction::CompareGte => Some(ComparisonOp::Gte),
        Instruction::CompareIn => Some(ComparisonOp::In),
        Instruction::CompareNotIn => Some(ComparisonOp::NotIn),
        Instruction::CompareMatches => Some(ComparisonOp::Matches),
        Instruction::CompareWildcard { strict } => Some(
            if *strict {
                ComparisonOp::StrictWildcard
            } else {
                ComparisonOp::Wildcard
            },
        ),
        Instruction::CompareContains => Some(ComparisonOp::Contains),
        _ => None,
    }
}

/// The error of an instruction that finds too few operands.
fn underflow_error() -> (e: WirerustError)
    ensures
        e@ == underflow(),
{
    WirerustError::ExecutionError(String::from_str("Stack underflow"))
}

/// What a call of the function `fid` gives once the function has answered:
/// the answer is pushed, and no answer is a function error.
pub fn finish_call(
    stack: &mut Vec<LiteralValue>,
    fid: usize,
    answer: Option<LiteralValue>,
) -> (r: Result<(), WirerustError>)
    ensures
        match answer {
            Some(v) => r is Ok && values_of(final(stack)@) == values_of(old(stack)@).push(v@),
            None => r is Err && r->Err_0@ == call_failed(fid as int) && final(stack)@ == old(
                stack,
            )@,
        },
{
    match answer {
        Some(v) => {
            push_value(stack, v);
            Ok(())
        },
        None => Err(
            WirerustError::FunctionError(positioned("Function call failed for ID ", fid)),
        ),
    }
}

impl IrCompiledFilter {
    /// Calls the function `fid`: takes its arguments with `call_arguments`,
    /// calls the built-in function of its name or else the registered
    /// function with just these arguments, and ends with `finish_call`. The
    /// second part of the result is the answer that a supplied function
    /// gave, if one was called.
    fn call_function(&self, fid: usize, argc: usize, stack: &mut Vec<LiteralValue>) -> (r: (
        Result<(), WirerustError>,
        Ghost<Seq<Option<SpecValue>>>,
    ))
        ensures
            match r.0 {
                Ok(_) => forall|rest: Seq<Option<SpecValue>>| #[trigger]
                    call(
                        fid as int,
                        argc as int,
                        Machine { stack: values_of(old(stack)@), answers: r.1@ + rest },
                        self.functions@,
                    ) == Ok::<Machine, SpecError>(
                        Machine { stack: values_of(final(stack)@), answers: rest },
                    ),
                Err(e) => call(
                    fid as int,
                    argc as int,
                    Machine { stack: values_of(old(stack)@), answers: r.1@ },
                    self.functions@,
                ) == Err::<Machine, SpecError>(e@),
            },
    {
        let ghost registry = self.functions@;
        let ghost before = values_of(stack@);
        let ghost none: Seq<Option<SpecValue>> = Seq::empty();
        let args = match call_arguments(stack, argc) {
            Some(args) => args,
            None => {
                return (Err(underflow_error()), Ghost(none));
            },
        };
        match self.functions.function_name(fid) {
            Some(name) => {
                proof {
                    encode_utf8_decode_utf8(name@);
                }
                match BuiltinFunctionId::from_name(name) {
                    Some(builtin) => match call_builtin(builtin, args.as_slice()) {
                        Some(v) => {
                            push_value(stack, v);
                            (Ok(()), Ghost(none))
                        },
                        None => (
                            Err(
                                WirerustError::FunctionError(
                                    joined("Builtin function call failed for ", name),
                                ),
                            ),
                            Ghost(none),
                        ),
                    },
                    None => match self.functions.get_by_id(fid) {
                        Some(func) => {
                            let answer = func.call(args.as_slice());
                            let ghost given = if kind_of(*func) is Some {
                                none
                            } else {
                                seq![option_of(answer)]
                            };
                            let r = finish_call(stack, fid, answer);
                            proof {
                                if kind_of(*func) is None && answer is Some {
                                    assert forall|rest: Seq<Option<SpecValue>>| #[trigger]
                                        call(
                                            fid as int,
                                            argc as int,
                                            Machine { stack: before, answers: given + rest },
                                            registry,
                                        ) == Ok::<Machine, SpecError>(
                                            Machine { stack: values_of(stack@), answers: rest },
                                        ) by {
                                        assert((given + rest).subrange(
                                            1,
                                            (given + rest).len() as int,
                                        ) =~= rest);
                                    }
                                }
                            }
                            (r, Ghost(given))
                        },
                        None => (
                            Err(
                                WirerustError::FunctionError(
                                    numbered("Function ID ", fid, " not found"),
                                ),
                            ),
                            Ghost(none),
                        ),
                    },
                }
            },
            None => (
                Err(WirerustError::FunctionError(numbered("Function ID ", fid, " not found"))),
                Ghost(none),
            ),
        }
    }

    /// Runs the bytecode on a context. The result is what the machine
    /// gives for the program, the slots of the context and the function
    /// registry, with the answers that the supplied functions gave in the
    /// course of the run. A program that calls no supplied function has one
    /// result (`lemma_answers_unused`); a compiled program gives a boolean
    /// or a function error (`lemma_compiled_result`).
    pub fn execute(&self, ctx: &FilterContext) -> (r: Result<bool, WirerustError>)
        ensures
            exists|answers: Seq<Option<SpecValue>>| #[trigger]
                run(code_of(self.bytecode@), ctx@, self.functions@, answers)
                    == bool_result_of(r),
    {
        let ghost code = code_of(self.bytecode@);
        let ghost slots = ctx@;
        let ghost registry = self.functions@;
        let ghost mut used: Seq<Option<SpecValue>> = Seq::empty();
        let mut stack: IrStack = Vec::with_capacity(16);
        let mut pc: usize = 0;
        proof {
            lemma_start(code, slots, registry);
            assert(values_of(stack@) =~= Seq::<SpecValue>::empty());
        }
        while pc < self.bytecode.len()
            invariant
                code == code_of(self.bytecode@),
                slots == ctx@,
                registry == self.functions@,
                pc <= self.bytecode@.len(),
                tracks(code, pc as int, values_of(stack@), used, slots, registry),
            decreases self.bytecode@.len() - pc,
        {
            let ghost before = values_of(stack@);
            let ghost none: Seq<Option<SpecValue>> = Seq::empty();
            let instr = &self.bytecode[pc];
            match instr {
                Instruction::LoadField(fid) => {
                    let val = match ctx.get_by_id(*fid) {
                        Some(v) => v.clone(),
                        None => LiteralValue::Bool(false),
                    };
                    push_value(&mut stack, val);
                    proof {
                        lemma_advance(
                            code,
                            pc as int,
                            before,
                            values_of(stack@),
                            used,
                            none,
                            slots,
                            registry,
                        );
                        used = used + none;
                    }
                },
                Instruction::LoadLiteral(lit) => {
                    push_value(&mut stack, lit.clone());
                    proof {
                        lemma_advance(
                            code,
                            pc as int,
                            before,
                            values_of(stack@),
                            used,
                            none,
                            slots,
                            registry,
                        );
                        used = used + none;
                    }
                },
                Instruction::CallFunction(fid, argc) => {
                    let (outcome, Ghost(taken)) = self.call_function(*fid, *argc, &mut stack);
                    match outcome {
                        Ok(_) => {
                            proof {
                                lemma_advance(
                                    code,
                                    pc as int,
                                    before,
                                    values_of(stack@),
                                    used,
                                    taken,
                                    slots,
                                    registry,
                                );
                                used = used + taken;
                            }
                        },
                        Err(e) => {
                            proof {
                                lemma_fault(
                                    code,
                                    pc as int,
                                    before,
                                    used,
                                    taken,
                                    slots,
                                    registry,
                                    e@,
                                );
                            }
                            return Err(e);
                        },
                    }
                },
                Instruction::LogicalAnd => {
                    match pop_pair(&mut stack) {
                        Some((left, right)) => {
                            let both = if !to_bool(&left) {
                                false
                            } else {
                                to_bool(&right)
                            };
                            push_value(&mut stack, LiteralValue::Bool(both));
                        },
                        None => {
                            proof {
                                lemma_fault(
                                    code,
                                    pc as int,
                                    before,
                                    used,
                                    none,
                                    slots,
                                    registry,
                                    underflow(),
                                );
                            }
                            return Err(underflow_error());
                        },
                    }
                    proof {
                        lemma_advance(
                            code,
                            pc as int,
                            before,
                            values_of(stack@),
                            used,
                            none,
                            slots,
                            registry,
                        );
                        used = used + none;
                    }
                },
                Instruction::LogicalOr => {
                    match pop_pair(&mut stack) {
                        Some((left, right)) => {
                            let either = if to_bool(&left) {
                                true
                            } else {
                                to_bool(&right)
                            };
                            push_value(&mut stack, LiteralValue::Bool(either));
                        },
                        None => {
                            proof {
                                lemma_fault(
                                    code,
                                    pc as int,
                                    before,
                                    used,
                                    none,
                                    slots,
                                    registry,
                                    underflow(),
                                );
                            }
                            return Err(underflow_error());
                        },
                    }
                    proof {
                        lemma_advance(
                            code,
                            pc as int,
                            before,
                            values_of(stack@),
                            used,
                            none,
                            slots,
                            registry,
                        );
                        used = used + none;
                    }
                },
                Instruction::LogicalNot => {
                    match pop_value(&mut stack) {
                        Some(a) => {
                            push_value(&mut stack, LiteralValue::Bool(!to_bool(&a)));
                        },
                        None => {
                            proof {
                                lemma_fault(
                                    code,
                                    pc as int,
                                    before,
                                    used,
                                    none,
                                    slots,
                                    registry,
                                    underflow(),
                                );
                            }
                            return Err(underflow_error());
                        },
                    }
                    proof {
                        lemma_advance(
                            code,
                            pc as int,
                            before,
                            values_of(stack@),
                            used,
                            none,
                            slots,
                            registry,
                        );
                        used = used + none;
                    }
                },
                _ => {
                    let op = match comparison_op(instr) {
                        Some(op) => op,
                        None => ComparisonOp::Eq,
                    };
                    match pop_pair(&mut stack) {
                        Some((left, right)) => {
                            let found = compare_values(op, &left, &right);
                            push_value(&mut stack, LiteralValue::Bool(found));
                        },
                        None => {
                            proof {
                                lemma_fault(
                                    code,
                                    pc as int,
                                    before,
                                    used,
                                    none,
                                    slots,
                                    registry,
                                    underflow(),
                                );
                            }
                            return Err(underflow_error());
                        },
                    }
                    proof {
                        lemma_advance(
                            code,
                            pc as int,
                            before,
                            values_of(stack@),
                            used,
                            none,
                            slots,
                            registry,
                        );
                        used = used + none;
                    }
                },
            }
            pc += 1;
        }
        match pop_value(&mut stack) {
            Some(v) => Ok(to_bool(&v)),
            None => Err(
                WirerustError::ExecutionError(String::from_str("Empty stack after execution")),
            ),
        }
    }
}

} // verus!

//! Facts about evaluation: when the result does not depend on supplied
//! functions, and what a comparison with an absent field gives.

use crate::compare::{compare, member_of};
use crate::compiler::{comparison_code, lower};
use crate::context::value_at;
use crate::error::SpecError;
use crate::expr::{ComparisonOp, SpecExpr};
use crate::functions::{builtin_named, kind_at, SpecRegistry};
use crate::ir::SpecInstruction;
use crate::keys::{has_key, key_index};
use crate::machine::{run, run_from, step, Machine};
use crate::types::SpecValue;
use vstd::prelude::*;

verus! {

/// Whether the function with the given id is one that the embedding
/// program supplied, and is called as such: its name is not that of a
/// built-in function, and no built-in function was registered under it.
pub open spec fn is_supplied(functions: SpecRegistry, id: int) -> bool {
    &&& 0 <= id < functions.names.len()
    &&& builtin_named(functions.names[id]) is None
    &&& kind_at(functions, id) is None
}

/// Whether a program calls a supplied function.
pub open spec fn calls_supplied(code: Seq<SpecInstruction>, functions: SpecRegistry) -> bool {
    exists|i: int|
        0 <= i < code.len() && (#[trigger] code[i]) is CallFunction && is_supplied(
            functions,
            code[i]->CallFunction_0,
        )
}

proof fn lemma_run_from_ignores_answers(
    code: Seq<SpecInstruction>,
    pc: int,
    stack: Seq<SpecValue>,
    slots: Seq<Option<SpecValue>>,
    functions: SpecRegistry,
    a: Seq<Option<SpecValue>>,
    b: Seq<Option<SpecValue>>,
)
    requires
        !calls_supplied(code, functions),
        0 <= pc,
    ensures
        run_from(code, pc, Machine { stack, answers: a }, slots, functions) == run_from(
            code,
            pc,
            Machine { stack, answers: b },
            slots,
            functions,
        ),
    decreases code.len() - pc,
{
    if pc < code.len() {
        let ma = Machine { stack, answers: a };
        let ra = step(code[pc], ma, slots, functions);
        match ra {
            Ok(na) => {
                lemma_run_from_ignores_answers(code, pc + 1, na.stack, slots, functions, a, b);
            },
            Err(_) => {},
        }
    }
}

/// A program that calls no supplied function gives one result, whatever
/// the answers are.
pub proof fn lemma_answers_unused(
    code: Seq<SpecInstruction>,
    slots: Seq<Option<SpecValue>>,
    functions: SpecRegistry,
    a: Seq<Option<SpecValue>>,
    b: Seq<Option<SpecValue>>,
)
    requires
        !calls_supplied(code, functions),
    ensures
        run(code, slots, functions, a) == run(code, slots, functions, b),
{
    lemma_run_from_ignores_answers(code, 0, Seq::empty(), slots, functions, a, b);
}

/// A comparison of a field with a value, where the value is not itself the
/// name of a field: the field is loaded, or `Bool(false)` where the context
/// does not hold it, and compared with the value. No error arises.
pub proof fn lemma_field_comparison(
    field: Seq<u8>,
    op: ComparisonOp,
    value: SpecValue,
    fields: Seq<Seq<u8>>,
    names: Seq<Seq<u8>>,
    slots: Seq<Option<SpecValue>>,
    functions: SpecRegistry,
    answers: Seq<Option<SpecValue>>,
)
    requires
        has_key(fields, field),
        value is Bytes ==> !has_key(fields, value->Bytes_0),
    ensures
        run(
            lower(
                SpecExpr::Comparison {
                    left: Box::new(SpecExpr::Value(SpecValue::Bytes(field))),
                    op,
                    right: Box::new(SpecExpr::Value(value)),
                },
                fields,
                names,
            ),
            slots,
            functions,
            answers,
        ) == Ok::<bool, SpecError>(
            compare(
                op,
                match value_at(slots, key_index(fields, field)->0) {
                    Some(v) => v,
                    None => SpecValue::Bool(false),
                },
                value,
            ),
        ),
{
    reveal_with_fuel(lower, 2);
    reveal_with_fuel(run_from, 4);
}

/// Whether a comparison with `Bool(false)` on its left is false: every
/// comparison but inequality and non-membership, unless it is an equality
/// with `Bool(false)` or a membership in an array that holds `Bool(false)`.
pub open spec fn fails_on_absent(op: ComparisonOp, value: SpecValue) -> bool {
    match op {
        ComparisonOp::Eq => value != SpecValue::Bool(false),
        ComparisonOp::In => !member_of(SpecValue::Bool(false), value),
        ComparisonOp::Neq | ComparisonOp::NotIn => false,
        _ => true,
    }
}

/// A comparison of a field that the context does not hold is false, and no
/// error: the field reads as `Bool(false)`, which is no integer, no text and
/// no array.
pub proof fn lemma_absent_field_comparison(
    field: Seq<u8>,
    op: ComparisonOp,
    value: SpecValue,
    fields: Seq<Seq<u8>>,
    names: Seq<Seq<u8>>,
    slots: Seq<Option<SpecValue>>,
    functions: SpecRegistry,
    answers: Seq<Option<SpecValue>>,
)
    requires
        has_key(fields, field),
        value_at(slots, key_index(fields, field)->0) is None,
        value is Bytes ==> !has_key(fields, value->Bytes_0),
        fails_on_absent(op, value),
    ensures
        run(
            lower(
                SpecExpr::Comparison {
                    left: Box::new(SpecExpr::Value(SpecValue::Bytes(field))),
                    op,
                    right: Box::new(SpecExpr::Value(value)),
                },
                fields,
                names,
            ),
            slots,
            functions,
            answers,
        ) == Ok::<bool, SpecError>(false),
{
    lemma_field_comparison(field, op, value, fields, names, slots, functions, answers);
}

} // verus!

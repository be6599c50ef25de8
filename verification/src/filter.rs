//! Compiled filters: what an embedding program holds and runs.

use crate::compiler::{bool_result_of, lower, DefaultCompiler, IrCompiledFilter};
use crate::context::FilterContext;
use crate::error::WirerustError;
use crate::expr::FilterExpr;
use crate::functions::{FunctionRegistry, SpecRegistry};
use crate::ir::{code_of, SpecInstruction};
use crate::machine::run;
use crate::schema::FilterSchema;
use crate::types::{FieldType, SpecValue};
use std::sync::Arc;
use vstd::prelude::*;

verus! {

/// A compiled filter, ready to run on contexts. It shares the schema and
/// the function registry that it was compiled for.
pub struct CompiledFilter {
    ir: IrCompiledFilter,
}

impl CompiledFilter {
    /// The program of the filter.
    pub closed spec fn code(&self) -> Seq<SpecInstruction> {
        code_of(self.ir.bytecode@)
    }

    /// The field names of the schema of the filter, by id.
    pub closed spec fn field_names(&self) -> Seq<Seq<u8>> {
        self.ir.schema.names()
    }

    /// The field types of the schema of the filter, by id.
    pub closed spec fn field_types(&self) -> Seq<FieldType> {
        self.ir.schema.types()
    }

    /// The function registry of the filter.
    pub closed spec fn registry(&self) -> SpecRegistry {
        self.ir.functions@
    }

    /// Compiles an expression for a schema and a function registry.
    pub fn new(expr: FilterExpr, schema: Arc<FilterSchema>, functions: Arc<FunctionRegistry>) -> (r:
        Self)
        ensures
            r.code() == lower(expr@, schema.names(), functions.names()),
            r.field_names() == schema.names(),
            r.field_types() == schema.types(),
            r.registry() == functions@,
    {
        let ir = DefaultCompiler::compile(expr, schema, functions);
        CompiledFilter { ir }
    }

    /// Runs the filter on a context. The result is what the machine gives
    /// for the program of the filter, with the answers that the supplied
    /// functions gave in the course of the run.
    pub fn execute(&self, context: &FilterContext) -> (r: Result<bool, WirerustError>)
        ensures
            exists|answers: Seq<Option<SpecValue>>| #[trigger]
                run(self.code(), context@, self.registry(), answers) == bool_result_of(r),
    {
        let r = self.ir.execute(context);
        proof {
            let answers = choose|answers: Seq<Option<SpecValue>>| #[trigger]
                run(code_of(self.ir.bytecode@), context@, self.ir.functions@, answers)
                    == bool_result_of(r);
            assert(run(self.code(), context@, self.registry(), answers) == bool_result_of(r));
        }
        r
    }

    /// The schema of the filter.
    pub fn schema(&self) -> (r: &FilterSchema)
        ensures
            r.names() == self.field_names(),
            r.types() == self.field_types(),
    {
        &self.ir.schema
    }

    /// The function registry of the filter.
    pub fn functions(&self) -> (r: &FunctionRegistry)
        ensures
            r@ == self.registry(),
    {
        &self.ir.functions
    }
}

} // verus!

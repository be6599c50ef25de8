//! The engine: a schema and a function registry, with parsing, compiling
//! and running in one place.

use crate::compiler::{bool_result_of, lower};
use crate::context::FilterContext;
use crate::error::WirerustError;
use crate::expr::FilterExpr;
use crate::filter::CompiledFilter;
use crate::functions::{
    builtin_named, no_functions, register_builtins, with_builtins, with_function, FunctionRegistry,
    IntoCallable, SpecRegistry,
};
use crate::keys::{has_key, lower_bound};
use crate::machine::run;
use crate::parser::{expr_result_of, parse_outcome, FilterParser};
use crate::schema::{type_at_key, FilterSchema, FilterSchemaBuilder};
use crate::text::utf8;
use crate::types::{share, FieldType, SpecValue};
use std::sync::Arc;
use vstd::prelude::*;

verus! {

/// Parses, compiles and runs filters for one schema and one function
/// registry.
pub struct WirerustEngine {
    schema: Arc<FilterSchema>,
    functions: Arc<FunctionRegistry>,
}

impl WirerustEngine {
    /// The field names of the schema, by id.
    pub closed spec fn field_names(&self) -> Seq<Seq<u8>> {
        self.schema.names()
    }

    /// The field types of the schema, by id.
    pub closed spec fn field_types(&self) -> Seq<FieldType> {
        self.schema.types()
    }

    /// The function registry.
    pub closed spec fn registry(&self) -> SpecRegistry {
        self.functions@
    }

    /// The function names of the registry, by id.
    pub open spec fn function_names(&self) -> Seq<Seq<u8>> {
        self.registry().names
    }

    /// An engine for a schema, with the built-in functions.
    pub fn new(schema: FilterSchema) -> (r: Self)
        ensures
            r.field_names() == schema.names(),
            r.field_types() == schema.types(),
            r.registry() == with_builtins(no_functions()),
            forall|key: Seq<u8>|
                #[trigger] has_key(r.function_names(), key) <==> builtin_named(key) is Some,
    {
        let mut functions = FunctionRegistry::new();
        register_builtins(&mut functions);
        WirerustEngine { schema: Arc::new(schema), functions: Arc::new(functions) }
    }

    /// An engine for a schema and a function registry.
    pub fn with_functions(schema: FilterSchema, functions: FunctionRegistry) -> (r: Self)
        ensures
            r.field_names() == schema.names(),
            r.field_types() == schema.types(),
            r.registry() == functions@,
    {
        WirerustEngine { schema: Arc::new(schema), functions: Arc::new(functions) }
    }

    /// The schema.
    pub fn schema(&self) -> (r: &FilterSchema)
        ensures
            r.names() == self.field_names(),
            r.types() == self.field_types(),
    {
        &self.schema
    }

    /// The function registry.
    pub fn functions(&self) -> (r: &FunctionRegistry)
        ensures
            r@ == self.registry(),
    {
        &self.functions
    }

    /// Parses a filter text.
    pub fn parse_filter(&self, expr: &str) -> (r: Result<FilterExpr, WirerustError>)
        ensures
            expr_result_of(r) == parse_outcome(utf8(expr@)),
    {
        FilterParser::parse(expr, &self.schema)
    }

    /// Compiles an expression for the schema and the registry of the
    /// engine. It never fails.
    pub fn compile_filter(&self, expr: FilterExpr) -> (r: Result<CompiledFilter, WirerustError>)
        ensures
            r is Ok,
            r->Ok_0.code() == lower(expr@, self.field_names(), self.function_names()),
            r->Ok_0.field_names() == self.field_names(),
            r->Ok_0.field_types() == self.field_types(),
            r->Ok_0.registry() == self.registry(),
    {
        Ok(CompiledFilter::new(expr, share(&self.schema), share(&self.functions)))
    }

    /// Parses a filter text and compiles it. It fails exactly when parsing
    /// does, and with the same error.
    pub fn parse_and_compile(&self, expr: &str) -> (r: Result<CompiledFilter, WirerustError>)
        ensures
            match parse_outcome(utf8(expr@)) {
                Ok(tree) => r is Ok && r->Ok_0.code() == lower(
                    tree,
                    self.field_names(),
                    self.function_names(),
                ) && r->Ok_0.field_names() == self.field_names() && r->Ok_0.field_types()
                    == self.field_types() && r->Ok_0.registry() == self.registry(),
                Err(e) => r is Err && r->Err_0@ == e,
            },
    {
        match self.parse_filter(expr) {
            Ok(parsed) => self.compile_filter(parsed),
            Err(e) => Err(e),
        }
    }

    /// Runs a compiled filter on a context.
    pub fn execute(&self, filter: &CompiledFilter, ctx: &FilterContext) -> (r: Result<
        bool,
        WirerustError,
    >)
        ensures
            exists|answers: Seq<Option<SpecValue>>| #[trigger]
                run(filter.code(), ctx@, filter.registry(), answers) == bool_result_of(r),
    {
        filter.execute(ctx)
    }
}

/// Collects the fields and the functions of an engine.
pub struct WirerustEngineBuilder {
    schema_builder: FilterSchemaBuilder,
    functions: FunctionRegistry,
    use_builtins: bool,
}

impl WirerustEngineBuilder {
    /// The field names collected so far, in lexicographic order.
    pub closed spec fn field_names(&self) -> Seq<Seq<u8>> {
        self.schema_builder.names()
    }

    /// The type collected for each field name, in the order of the names.
    pub closed spec fn field_types(&self) -> Seq<FieldType> {
        self.schema_builder.types()
    }

    /// The type collected for a field name, if there is one.
    pub open spec fn field_type(&self, key: Seq<u8>) -> Option<FieldType> {
        type_at_key(self.field_names(), self.field_types(), key)
    }

    /// The functions registered so far.
    pub closed spec fn registry(&self) -> SpecRegistry {
        self.functions@
    }

    /// The function names registered so far, by id.
    pub open spec fn function_names(&self) -> Seq<Seq<u8>> {
        self.registry().names
    }

    /// Whether the built-in functions will be registered.
    pub closed spec fn with_builtins(&self) -> bool {
        self.use_builtins
    }

    /// A builder without fields or functions, which will register the
    /// built-in functions.
    pub fn new() -> (r: Self)
        ensures
            r.field_names().len() == 0,
            r.field_types().len() == 0,
            r.registry() == no_functions(),
            r.with_builtins(),
    {
        WirerustEngineBuilder {
            schema_builder: FilterSchemaBuilder::new(),
            functions: FunctionRegistry::new(),
            use_builtins: true,
        }
    }

    /// Adds a field to the schema. A name that was added before takes the
    /// new type.
    pub fn field(self, name: &str, ty: FieldType) -> (r: Self)
        ensures
            has_key(self.field_names(), utf8(name@)) ==> {
                &&& r.field_names() == self.field_names()
                &&& r.field_types() == self.field_types().update(
                    lower_bound(self.field_names(), utf8(name@)),
                    ty,
                )
            },
            !has_key(self.field_names(), utf8(name@)) ==> {
                &&& r.field_names() == self.field_names().insert(
                    lower_bound(self.field_names(), utf8(name@)),
                    utf8(name@),
                )
                &&& r.field_types() == self.field_types().insert(
                    lower_bound(self.field_names(), utf8(name@)),
                    ty,
                )
            },
            forall|key: Seq<u8>|
                #[trigger] r.field_type(key) == if key == utf8(name@) {
                    Some(ty)
                } else {
                    self.field_type(key)
                },
            r.registry() == self.registry(),
            r.with_builtins() == self.with_builtins(),
    {
        let WirerustEngineBuilder { schema_builder, functions, use_builtins } = self;
        let ghost before = schema_builder;
        let schema_builder = schema_builder.field(name, ty);
        let r = WirerustEngineBuilder { schema_builder, functions, use_builtins };
        proof {
            assert forall|key: Seq<u8>|
                #[trigger] r.field_type(key) == if key == utf8(name@) {
                    Some(ty)
                } else {
                    self.field_type(key)
                } by {
                assert(r.field_type(key) == schema_builder.type_of(key));
                assert(self.field_type(key) == before.type_of(key));
            }
        }
        r
    }

    /// Registers a function. A name that is registered already keeps its
    /// id and takes the new function.
    pub fn register_function<F: IntoCallable>(self, name: &str, func: F) -> (r: Self)
        ensures
            r.registry() == with_function(self.registry(), utf8(name@), func.as_callable()),
            r.field_names() == self.field_names(),
            r.field_types() == self.field_types(),
            r.with_builtins() == self.with_builtins(),
    {
        let WirerustEngineBuilder { schema_builder, mut functions, use_builtins } = self;
        functions.register(name, func);
        WirerustEngineBuilder { schema_builder, functions, use_builtins }
    }

    /// Leaves the built-in functions out of the engine.
    pub fn no_builtins(self) -> (r: Self)
        ensures
            !r.with_builtins(),
            r.field_names() == self.field_names(),
            r.field_types() == self.field_types(),
            r.registry() == self.registry(),
    {
        let WirerustEngineBuilder { schema_builder, functions, use_builtins: _ } = self;
        WirerustEngineBuilder { schema_builder, functions, use_builtins: false }
    }

    /// The engine of the collected fields and functions. The built-in
    /// functions are registered after the collected ones, unless they were
    /// left out.
    pub fn build(self) -> (r: WirerustEngine)
        ensures
            r.field_names() == self.field_names(),
            r.field_types() == self.field_types(),
            r.registry() == if self.with_builtins() {
                with_builtins(self.registry())
            } else {
                self.registry()
            },
            forall|key: Seq<u8>|
                #[trigger] has_key(r.function_names(), key) <==> has_key(
                    self.function_names(),
                    key,
                ) || (self.with_builtins() && builtin_named(key) is Some),
    {
        let WirerustEngineBuilder { schema_builder, mut functions, use_builtins } = self;
        let schema = schema_builder.build();
        if use_builtins {
            register_builtins(&mut functions);
        }
        WirerustEngine::with_functions(schema, functions)
    }
}

impl Default for WirerustEngineBuilder {
    fn default() -> (r: Self)
        ensures
            r.field_names().len() == 0,
            r.field_types().len() == 0,
            r.registry() == no_functions(),
            r.with_builtins(),
    {
        WirerustEngineBuilder::new()
    }
}

} // verus!

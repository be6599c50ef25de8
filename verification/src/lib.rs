//! An embeddable filter engine: typed schemas, a small expression language,
//! a bytecode compiler and a stack-machine evaluator.
//!
//! A caller declares a schema of typed fields, parses a filter text into an
//! expression tree, compiles the tree once into bytecode and runs the
//! bytecode on the context of each record.

pub mod balance;
pub mod compare;
pub mod compiler;
pub mod context;
pub mod engine;
pub mod error;
pub mod evaluation;
pub mod expr;
pub mod filter;
pub mod functions;
pub mod grammar;
pub mod ir;
pub mod keys;
pub mod machine;
pub mod parser;
pub mod progress;
pub mod schema;
pub mod text;
pub mod types;

pub use crate::compiler::{call_arguments, finish_call, DefaultCompiler, IrCompiledFilter};
pub use crate::context::{FilterContext, FilterContextBuilder};
pub use crate::engine::{WirerustEngine, WirerustEngineBuilder};
pub use crate::error::{SpecError, WirerustError};
pub use crate::expr::{ComparisonOp, ExprVisitor, FilterExpr, LogicalOp, SpecExpr};
pub use crate::filter::CompiledFilter;
pub use crate::functions::{
    call_builtin, register_builtins, BuiltinFunctionId, Callable, CustomFunction,
    EndsWithFunction, FilterFunction, FunctionRegistry, IntoCallable, LenFunction, LowerFunction,
    StartsWithFunction, SumFunction, UpperFunction,
};
pub use crate::ir::{FieldId, FunctionId, Instruction, IrStack, SpecInstruction};
pub use crate::parser::FilterParser;
pub use crate::schema::{FieldMap, FilterSchema, FilterSchemaBuilder};
pub use crate::types::{FieldType, IpAddress, LiteralValue, SpecValue, ValueMap};

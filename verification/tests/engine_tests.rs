use std::sync::Arc;
use wirerust::{
    CustomFunction, FieldType, FilterContextBuilder, FilterFunction, FilterSchemaBuilder,
    FunctionRegistry, LiteralValue, WirerustEngine, WirerustEngineBuilder, WirerustError,
};

#[test]
fn test_wirerust_engine_end_to_end() {
    let schema = FilterSchemaBuilder::new()
        .field("foo", FieldType::Int)
        .field("bar", FieldType::Bytes)
        .build();
    let engine = WirerustEngine::new(schema);
    let filter = engine.parse_and_compile("foo == 42 && bar == \"baz\"").unwrap();
    let ctx = FilterContextBuilder::new(engine.schema())
        .set_int("foo", 42)
        .unwrap()
        .set_bytes("bar", b"baz")
        .unwrap()
        .build();
    let result = engine.execute(&filter, &ctx).unwrap();
    assert!(result);
}

#[test]
fn test_engine_builder_minimal() {
    let engine = WirerustEngineBuilder::new()
        .field("foo", FieldType::Int)
        .field("bar", FieldType::Bytes)
        .build();
    let filter = engine.parse_and_compile("foo == 1 && bar == \"abc\"").unwrap();
    let ctx = FilterContextBuilder::new(engine.schema())
        .set_int("foo", 1)
        .unwrap()
        .set_bytes("bar", b"abc")
        .unwrap()
        .build();
    assert!(engine.execute(&filter, &ctx).unwrap());
}

struct AlwaysTrue;

impl FilterFunction for AlwaysTrue {
    fn call(&self, _args: &[LiteralValue]) -> Option<LiteralValue> {
        Some(LiteralValue::Bool(true))
    }
}

#[test]
fn test_engine_builder_with_custom_function() {
    let engine = WirerustEngineBuilder::new()
        .field("foo", FieldType::Int)
        .register_function("always_true", CustomFunction(Arc::new(AlwaysTrue)))
        .build();
    let filter = engine.parse_and_compile("always_true() && foo == 5").unwrap();
    let ctx = FilterContextBuilder::new(engine.schema()).set_int("foo", 5).unwrap().build();
    assert!(engine.execute(&filter, &ctx).unwrap());
}

#[test]
fn test_engine_builder_no_builtins() {
    let engine = WirerustEngineBuilder::new().field("foo", FieldType::Int).no_builtins().build();
    // Built-in function 'len' should not be available
    let filter = engine.parse_and_compile("len(foo)").unwrap();
    let ctx = FilterContextBuilder::new(engine.schema()).set_int("foo", 1).unwrap().build();
    let result = engine.execute(&filter, &ctx);
    assert!(result.is_err(), "Expected error when executing missing built-in function");
}

#[test]
fn test_engine_steps() {
    let schema = FilterSchemaBuilder::new().field("foo", FieldType::Int).build();
    let mut functions = FunctionRegistry::new();
    functions.register("yes", CustomFunction(Arc::new(AlwaysTrue)));
    let engine = WirerustEngine::with_functions(schema, functions);
    assert_eq!(engine.functions().num_functions(), 1);
    assert_eq!(engine.schema().num_fields(), 1);
    let parsed = engine.parse_filter("yes() and foo > 1").unwrap();
    let filter = engine.compile_filter(parsed).unwrap();
    let ctx = FilterContextBuilder::new(engine.schema()).set_int("foo", 2).unwrap().build();
    assert_eq!(engine.execute(&filter, &ctx).unwrap(), true);
    assert!(matches!(engine.parse_and_compile("foo =="), Err(WirerustError::ParseError(_))));
    assert!(matches!(engine.parse_filter("(foo"), Err(WirerustError::ParseError(_))));
    let default_engine = WirerustEngineBuilder::default().build();
    assert_eq!(default_engine.functions().num_functions(), 6);
    assert_eq!(default_engine.schema().num_fields(), 0);
}

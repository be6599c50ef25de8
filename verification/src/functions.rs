//! Functions that a filter can call: the built-in ones, those that the
//! embedding program supplies, and the registry that names them.

use crate::keys::{
    has_key, key_bytes, key_index, keys_distinct, lemma_distinct_index_at, position_of,
};
use crate::text::{
    bytes_ends_with, bytes_starts_with, lemma_text_of_utf8, lowercase_text, read_text, str_eq,
    text_of, to_lowercase, to_uppercase, uppercase_text, utf8,
};
use crate::types::{share, values_of, LiteralValue, SpecValue};
use std::sync::Arc;
use vstd::prelude::*;
use vstd::string::*;
use vstd::utf8::*;

verus! {

/// A function that the embedding program supplies. It takes the argument
/// values and gives a value, or `None` where the arguments do not suit it.
pub trait FilterFunction: Send + Sync {
    fn call(&self, args: &[LiteralValue]) -> Option<LiteralValue>;
}

/// The built-in functions.
#[derive(Clone, Copy, Debug, PartialEq, Eq, Hash, Structural)]
pub enum BuiltinFunctionId {
    Len,
    Upper,
    Lower,
    Sum,
    StartsWith,
    EndsWith,
}

/// The built-in function with the given name, as UTF-8 bytes.
pub open spec fn builtin_named(name: Seq<u8>) -> Option<BuiltinFunctionId> {
    if name == utf8("len"@) {
        Some(BuiltinFunctionId::Len)
    } else if name == utf8("upper"@) {
        Some(BuiltinFunctionId::Upper)
    } else if name == utf8("lower"@) {
        Some(BuiltinFunctionId::Lower)
    } else if name == utf8("sum"@) {
        Some(BuiltinFunctionId::Sum)
    } else if name == utf8("starts_with"@) {
        Some(BuiltinFunctionId::StartsWith)
    } else if name == utf8("ends_with"@) {
        Some(BuiltinFunctionId::EndsWith)
    } else {
        None
    }
}

impl BuiltinFunctionId {
    /// The built-in function with the given name.
    pub fn from_name(name: &str) -> (r: Option<Self>)
        ensures
            r == builtin_named(utf8(name@)),
    {
        if str_eq(name, "len") {
            Some(BuiltinFunctionId::Len)
        } else if str_eq(name, "upper") {
            Some(BuiltinFunctionId::Upper)
        } else if str_eq(name, "lower") {
            Some(BuiltinFunctionId::Lower)
        } else if str_eq(name, "sum") {
            Some(BuiltinFunctionId::Sum)
        } else if str_eq(name, "starts_with") {
            Some(BuiltinFunctionId::StartsWith)
        } else if str_eq(name, "ends_with") {
            Some(BuiltinFunctionId::EndsWith)
        } else {
            None
        }
    }
}

/// A count as a 64-bit integer; a count beyond the largest one stands as
/// the largest.
pub open spec fn count_value(n: nat) -> i64 {
    if n <= i64::MAX {
        n as i64
    } else {
        i64::MAX
    }
}

/// The sum of the integers among the first `n` items, with wrap-around on
/// overflow. Items that are not integers are passed over.
pub open spec fn wrapping_sum(items: Seq<SpecValue>, n: int) -> i64
    decreases n,
{
    if n <= 0 {
        0
    } else {
        match items[n - 1] {
            SpecValue::Int(i) => wrapping_sum(items, n - 1).wrapping_add(i),
            _ => wrapping_sum(items, n - 1),
        }
    }
}

/// What a built-in function gives for its arguments; `None` where the
/// arguments do not suit it. Arguments beyond those that the function reads
/// are ignored. A byte string is read as the text that it encodes, by lossy
/// decoding where it is not well-formed UTF-8.
pub open spec fn builtin_result(id: BuiltinFunctionId, args: Seq<SpecValue>) -> Option<SpecValue> {
    match id {
        BuiltinFunctionId::Len => if args.len() >= 1 && args[0] is Array {
            Some(SpecValue::Int(count_value(args[0]->Array_0.len())))
        } else {
            None
        },
        BuiltinFunctionId::Upper => if args.len() >= 1 && args[0] is Bytes {
            Some(SpecValue::Bytes(utf8(uppercase_text(text_of(args[0]->Bytes_0)))))
        } else {
            None
        },
        BuiltinFunctionId::Lower => if args.len() >= 1 && args[0] is Bytes {
            Some(SpecValue::Bytes(utf8(lowercase_text(text_of(args[0]->Bytes_0)))))
        } else {
            None
        },
        BuiltinFunctionId::Sum => if args.len() >= 1 && args[0] is Array {
            Some(
                SpecValue::Int(wrapping_sum(args[0]->Array_0, args[0]->Array_0.len() as int)),
            )
        } else {
            None
        },
        BuiltinFunctionId::StartsWith => if args.len() >= 2 && args[0] is Bytes
            && args[1] is Bytes {
            Some(
                SpecValue::Bool(
                    utf8(text_of(args[1]->Bytes_0)).is_prefix_of(
                        utf8(text_of(args[0]->Bytes_0)),
                    ),
                ),
            )
        } else {
            None
        },
        BuiltinFunctionId::EndsWith => if args.len() >= 2 && args[0] is Bytes && args[1] is Bytes {
            Some(
                SpecValue::Bool(
                    utf8(text_of(args[1]->Bytes_0)).is_suffix_of(
                        utf8(text_of(args[0]->Bytes_0)),
                    ),
                ),
            )
        } else {
            None
        },
    }
}

/// On well-formed UTF-8, `starts_with` and `ends_with` compare the byte
/// strings themselves.
pub proof fn lemma_affix_of_utf8(hay: Seq<u8>, affix: Seq<u8>)
    requires
        valid_utf8(hay),
        valid_utf8(affix),
    ensures
        builtin_result(
            BuiltinFunctionId::StartsWith,
            seq![SpecValue::Bytes(hay), SpecValue::Bytes(affix)],
        ) == Some(SpecValue::Bool(affix.is_prefix_of(hay))),
        builtin_result(
            BuiltinFunctionId::EndsWith,
            seq![SpecValue::Bytes(hay), SpecValue::Bytes(affix)],
        ) == Some(SpecValue::Bool(affix.is_suffix_of(hay))),
{
    lemma_text_of_utf8(hay);
    lemma_text_of_utf8(affix);
}

/// An optional value, as a mathematical value.
pub open spec fn option_of(r: Option<LiteralValue>) -> Option<SpecValue> {
    match r {
        Some(v) => Some(v@),
        None => None,
    }
}

fn len_of(args: &[LiteralValue]) -> (r: Option<LiteralValue>)
    ensures
        option_of(r) == builtin_result(BuiltinFunctionId::Len, values_of(args@)),
{
    if args.len() >= 1 {
        if let LiteralValue::Array(items) = &args[0] {
            let n = items.len();
            let count: i64 = if n as u64 > i64::MAX as u64 {
                i64::MAX
            } else {
                n as i64
            };
            return Some(LiteralValue::Int(count));
        }
    }
    None
}

fn case_of(args: &[LiteralValue], upper: bool) -> (r: Option<LiteralValue>)
    ensures
        option_of(r) == builtin_result(
            if upper {
                BuiltinFunctionId::Upper
            } else {
                BuiltinFunctionId::Lower
            },
            values_of(args@),
        ),
{
    if args.len() >= 1 {
        if let LiteralValue::Bytes(bytes) = &args[0] {
            let text = read_text(bytes.as_slice());
            let mapped = if upper {
                to_uppercase(text.as_str())
            } else {
                to_lowercase(text.as_str())
            };
            return Some(LiteralValue::Bytes(Arc::new(mapped.as_str().as_bytes_vec())));
        }
    }
    None
}

fn sum_of(args: &[LiteralValue]) -> (r: Option<LiteralValue>)
    ensures
        option_of(r) == builtin_result(BuiltinFunctionId::Sum, values_of(args@)),
{
    if args.len() >= 1 {
        if let LiteralValue::Array(items) = &args[0] {
            let ghost views = args@[0]@->Array_0;
            let mut total: i64 = 0;
            let mut i: usize = 0;
            while i < items.len()
                invariant
                    views == LiteralValue::Array(*items)@->Array_0,
                    views.len() == items@.len(),
                    i <= items@.len(),
                    total == wrapping_sum(views, i as int),
                decreases items@.len() - i,
            {
                assert(views[i as int] == (*items)[i as int]@);
                if let LiteralValue::Int(v) = &items[i] {
                    total = total.wrapping_add(*v);
                }
                i += 1;
            }
            return Some(LiteralValue::Int(total));
        }
    }
    None
}

fn affix_of(args: &[LiteralValue], prefix: bool) -> (r: Option<LiteralValue>)
    ensures
        option_of(r) == builtin_result(
            if prefix {
                BuiltinFunctionId::StartsWith
            } else {
                BuiltinFunctionId::EndsWith
            },
            values_of(args@),
        ),
{
    if args.len() >= 2 {
        if let LiteralValue::Bytes(hay) = &args[0] {
            if let LiteralValue::Bytes(affix) = &args[1] {
                let hay_text = read_text(hay.as_slice());
                let affix_text = read_text(affix.as_slice());
                let found = if prefix {
                    bytes_starts_with(hay_text.as_str().as_bytes(), affix_text.as_str().as_bytes())
                } else {
                    bytes_ends_with(hay_text.as_str().as_bytes(), affix_text.as_str().as_bytes())
                };
                return Some(LiteralValue::Bool(found));
            }
        }
    }
    None
}

/// Calls a built-in function.
pub fn call_builtin(id: BuiltinFunctionId, args: &[LiteralValue]) -> (r: Option<LiteralValue>)
    ensures
        option_of(r) == builtin_result(id, values_of(args@)),
{
    match id {
        BuiltinFunctionId::Len => len_of(args),
        BuiltinFunctionId::Upper => case_of(args, true),
        BuiltinFunctionId::Lower => case_of(args, false),
        BuiltinFunctionId::Sum => sum_of(args),
        BuiltinFunctionId::StartsWith => affix_of(args, true),
        BuiltinFunctionId::EndsWith => affix_of(args, false),
    }
}

/// The number of items of an array.
pub struct LenFunction;

/// The uppercase form of a text.
pub struct UpperFunction;

/// The lowercase form of a text.
pub struct LowerFunction;

/// The sum of the integers of an array.
pub struct SumFunction;

/// Whether a text begins with another.
pub struct StartsWithFunction;

/// Whether a text ends with another.
pub struct EndsWithFunction;

impl FilterFunction for LenFunction {
    fn call(&self, args: &[LiteralValue]) -> (r: Option<LiteralValue>)
        ensures
            option_of(r) == builtin_result(BuiltinFunctionId::Len, values_of(args@)),
    {
        call_builtin(BuiltinFunctionId::Len, args)
    }
}

impl FilterFunction for UpperFunction {
    fn call(&self, args: &[LiteralValue]) -> (r: Option<LiteralValue>)
        ensures
            option_of(r) == builtin_result(BuiltinFunctionId::Upper, values_of(args@)),
    {
        call_builtin(BuiltinFunctionId::Upper, args)
    }
}

impl FilterFunction for LowerFunction {
    fn call(&self, args: &[LiteralValue]) -> (r: Option<LiteralValue>)
        ensures
            option_of(r) == builtin_result(BuiltinFunctionId::Lower, values_of(args@)),
    {
        call_builtin(BuiltinFunctionId::Lower, args)
    }
}

impl FilterFunction for SumFunction {
    fn call(&self, args: &[LiteralValue]) -> (r: Option<LiteralValue>)
        ensures
            option_of(r) == builtin_result(BuiltinFunctionId::Sum, values_of(args@)),
    {
        call_builtin(BuiltinFunctionId::Sum, args)
    }
}

impl FilterFunction for StartsWithFunction {
    fn call(&self, args: &[LiteralValue]) -> (r: Option<LiteralValue>)
        ensures
            option_of(r) == builtin_result(BuiltinFunctionId::StartsWith, values_of(args@)),
    {
        call_builtin(BuiltinFunctionId::StartsWith, args)
    }
}

impl FilterFunction for EndsWithFunction {
    fn call(&self, args: &[LiteralValue]) -> (r: Option<LiteralValue>)
        ensures
            option_of(r) == builtin_result(BuiltinFunctionId::EndsWith, values_of(args@)),
    {
        call_builtin(BuiltinFunctionId::EndsWith, args)
    }
}

/// A registered function: a built-in one, or one that the embedding
/// program supplies.
pub enum Callable {
    Builtin(BuiltinFunctionId),
    Custom(CustomFunction),
}

/// A function that the embedding program supplies, shared by its holders.
pub struct CustomFunction(pub Arc<dyn FilterFunction>);

impl Callable {
    /// Calls the function. Of a supplied function nothing is known but its
    /// result.
    pub fn call(&self, args: &[LiteralValue]) -> (r: Option<LiteralValue>)
        ensures
            *self matches Callable::Builtin(id) ==> option_of(r) == builtin_result(
                id,
                values_of(args@),
            ),
    {
        match self {
            Callable::Builtin(id) => call_builtin(*id, args),
            Callable::Custom(func) => func.0.call(args),
        }
    }
}

/// What can be registered as a function.
pub trait IntoCallable: Sized {
    /// The function that is registered.
    spec fn as_callable(self) -> Callable;

    fn into_callable(self) -> (r: Callable)
        ensures
            r == self.as_callable(),
    ;
}

impl IntoCallable for CustomFunction {
    open spec fn as_callable(self) -> Callable {
        Callable::Custom(self)
    }

    fn into_callable(self) -> (r: Callable) {
        Callable::Custom(self)
    }
}

impl IntoCallable for Callable {
    open spec fn as_callable(self) -> Callable {
        self
    }

    fn into_callable(self) -> (r: Callable) {
        self
    }
}

impl IntoCallable for LenFunction {
    open spec fn as_callable(self) -> Callable {
        Callable::Builtin(BuiltinFunctionId::Len)
    }

    fn into_callable(self) -> (r: Callable) {
        Callable::Builtin(BuiltinFunctionId::Len)
    }
}

impl IntoCallable for UpperFunction {
    open spec fn as_callable(self) -> Callable {
        Callable::Builtin(BuiltinFunctionId::Upper)
    }

    fn into_callable(self) -> (r: Callable) {
        Callable::Builtin(BuiltinFunctionId::Upper)
    }
}

impl IntoCallable for LowerFunction {
    open spec fn as_callable(self) -> Callable {
        Callable::Builtin(BuiltinFunctionId::Lower)
    }

    fn into_callable(self) -> (r: Callable) {
        Callable::Builtin(BuiltinFunctionId::Lower)
    }
}

impl IntoCallable for SumFunction {
    open spec fn as_callable(self) -> Callable {
        Callable::Builtin(BuiltinFunctionId::Sum)
    }

    fn into_callable(self) -> (r: Callable) {
        Callable::Builtin(BuiltinFunctionId::Sum)
    }
}

impl IntoCallable for StartsWithFunction {
    open spec fn as_callable(self) -> Callable {
        Callable::Builtin(BuiltinFunctionId::StartsWith)
    }

    fn into_callable(self) -> (r: Callable) {
        Callable::Builtin(BuiltinFunctionId::StartsWith)
    }
}

impl IntoCallable for EndsWithFunction {
    open spec fn as_callable(self) -> Callable {
        Callable::Builtin(BuiltinFunctionId::EndsWith)
    }

    fn into_callable(self) -> (r: Callable) {
        Callable::Builtin(BuiltinFunctionId::EndsWith)
    }
}

/// The built-in function that a registered function is, if it is one.
pub open spec fn kind_of(c: Callable) -> Option<BuiltinFunctionId> {
    match c {
        Callable::Builtin(id) => Some(id),
        Callable::Custom(_) => None,
    }
}

/// The mathematical value of a registry: the names by id, as UTF-8 bytes,
/// and the function of each id.
pub struct SpecRegistry {
    pub names: Seq<Seq<u8>>,
    pub callables: Seq<Callable>,
}

/// The built-in function that was registered under an id, if it was one.
pub open spec fn kind_at(functions: SpecRegistry, id: int) -> Option<BuiltinFunctionId> {
    if 0 <= id < functions.callables.len() {
        kind_of(functions.callables[id])
    } else {
        None
    }
}

/// The registry after a function was registered under a name. A name that
/// is registered already keeps its id and takes the new function; a new
/// name takes the next id.
pub open spec fn with_function(functions: SpecRegistry, name: Seq<u8>, c: Callable)
    -> SpecRegistry {
    match key_index(functions.names, name) {
        Some(id) => SpecRegistry {
            names: functions.names,
            callables: functions.callables.update(id, c),
        },
        None => SpecRegistry {
            names: functions.names.push(name),
            callables: functions.callables.push(c),
        },
    }
}

/// The registry after the six built-in functions were registered under
/// their names, in the order `len`, `upper`, `lower`, `sum`, `starts_with`,
/// `ends_with`.
pub open spec fn with_builtins(functions: SpecRegistry) -> SpecRegistry {
    let f1 = with_function(functions, utf8("len"@), Callable::Builtin(BuiltinFunctionId::Len));
    let f2 = with_function(f1, utf8("upper"@), Callable::Builtin(BuiltinFunctionId::Upper));
    let f3 = with_function(f2, utf8("lower"@), Callable::Builtin(BuiltinFunctionId::Lower));
    let f4 = with_function(f3, utf8("sum"@), Callable::Builtin(BuiltinFunctionId::Sum));
    let f5 = with_function(
        f4,
        utf8("starts_with"@),
        Callable::Builtin(BuiltinFunctionId::StartsWith),
    );
    with_function(f5, utf8("ends_with"@), Callable::Builtin(BuiltinFunctionId::EndsWith))
}

/// The registry without functions.
pub open spec fn no_functions() -> SpecRegistry {
    SpecRegistry { names: Seq::empty(), callables: Seq::empty() }
}

/// The functions that filters can call, by name. The id of a function is
/// the place of its name in the order of first registration.
pub struct FunctionRegistry {
    names: Vec<String>,
    functions: Vec<Arc<Callable>>,
}

impl View for FunctionRegistry {
    type V = SpecRegistry;

    open spec fn view(&self) -> SpecRegistry {
        SpecRegistry { names: self.names(), callables: self.callables() }
    }
}

impl FunctionRegistry {
    /// The invariant of the type: each name has one function, and no name
    /// occurs twice.
    #[verifier::type_invariant]
    pub closed spec fn wf(self) -> bool {
        &&& self.names@.len() == self.functions@.len()
        &&& keys_distinct(key_bytes(self.names@))
    }

    /// The names, as UTF-8 bytes; the id of a function is the index of its
    /// name.
    pub closed spec fn names(&self) -> Seq<Seq<u8>> {
        key_bytes(self.names@)
    }

    /// The function of each name, by id.
    pub closed spec fn callables(&self) -> Seq<Callable> {
        Seq::new(self.functions@.len(), |i: int| *self.functions@[i])
    }

    /// The id of the function with the given name, if there is one.
    pub open spec fn id_of(&self, key: Seq<u8>) -> Option<int> {
        key_index(self.names(), key)
    }

    /// Each name has one function, and no name occurs twice.
    pub proof fn lemma_distinct(&self)
        requires
            self.wf(),
        ensures
            self.names().len() == self.callables().len(),
            keys_distinct(self.names()),
    {
    }

    /// A registry without functions.
    pub fn new() -> (r: Self)
        ensures
            r.wf(),
            r@ == no_functions(),
    {
        let r = FunctionRegistry { names: Vec::new(), functions: Vec::new() };
        assert(r.names() =~= Seq::empty());
        assert(r.callables() =~= Seq::empty());
        r
    }

    /// Registers a function under a name. A name that is registered already
    /// keeps its id and takes the new function; a new name takes the next
    /// id.
    pub fn register<F: IntoCallable>(&mut self, name: &str, func: F)
        ensures
            final(self).wf(),
            final(self)@ == with_function(old(self)@, utf8(name@), func.as_callable()),
            forall|key: Seq<u8>|
                #[trigger] has_key(final(self).names(), key) <==> has_key(old(self).names(), key)
                    || key == utf8(name@),
            forall|key: Seq<u8>|
                has_key(old(self).names(), key) ==> #[trigger] final(self).id_of(key) == old(
                    self,
                ).id_of(key),
    {
        proof {
            use_type_invariant(&*self);
        }
        let callable = Arc::new(func.into_callable());
        let ghost old_names = self.names();
        let ghost old_callables = self.callables();
        let ghost key = utf8(name@);
        let mut taken = FunctionRegistry::new();
        std::mem::swap(self, &mut taken);
        let FunctionRegistry { mut names, mut functions } = taken;
        match position_of(&names, name.as_bytes()) {
            Some(i) => {
                functions.set(i, callable);
                proof {
                    assert(Seq::new(functions@.len(), |i: int| *functions@[i])
                        =~= old_callables.update(i as int, func.as_callable()));
                }
            },
            None => {
                names.push(name.to_owned());
                functions.push(callable);
                proof {
                    assert(Seq::new(functions@.len(), |i: int| *functions@[i])
                        =~= old_callables.push(func.as_callable()));
                    let new_names = old_names.push(key);
                    assert(key_bytes(names@) =~= new_names);
                    assert(new_names[old_names.len() as int] == key);
                    assert forall|k: Seq<u8>| #[trigger]
                        has_key(new_names, k) <==> has_key(old_names, k) || k == key by {
                        if has_key(new_names, k) {
                            let j = key_index(new_names, k)->0;
                        }
                        if has_key(old_names, k) {
                            let j = key_index(old_names, k)->0;
                            assert(new_names[j] == k);
                        }
                    }
                    assert forall|k: Seq<u8>| has_key(old_names, k) implies key_index(
                        new_names,
                        k,
                    ) == key_index(old_names, k) by {
                        let j = key_index(old_names, k)->0;
                        lemma_distinct_index_at(new_names, j);
                    }
                }
            },
        }
        *self = FunctionRegistry { names, functions };
    }

    /// The id of a function.
    pub fn function_id(&self, name: &str) -> (r: Option<usize>)
        ensures
            match r {
                Some(id) => self.id_of(utf8(name@)) == Some(id as int) && id < self.names().len()
                    && self.names()[id as int] == utf8(name@),
                None => self.id_of(utf8(name@)) is None,
            },
    {
        proof {
            use_type_invariant(self);
        }
        position_of(&self.names, name.as_bytes())
    }

    /// The name of the function with the given id.
    pub fn function_name(&self, id: usize) -> (r: Option<&str>)
        ensures
            match r {
                Some(name) => id < self.names().len() && utf8(name@) == self.names()[id as int],
                None => id >= self.names().len(),
            },
    {
        if id < self.names.len() {
            Some(self.names[id].as_str())
        } else {
            None
        }
    }

    /// The number of functions.
    pub fn num_functions(&self) -> (n: usize)
        ensures
            n == self.names().len(),
    {
        self.names.len()
    }

    /// The function with the given name.
    pub fn get(&self, name: &str) -> (r: Option<&Callable>)
        ensures
            match r {
                Some(c) => self.id_of(utf8(name@)) is Some && *c == self.callables()[self.id_of(
                    utf8(name@),
                )->0],
                None => self.id_of(utf8(name@)) is None,
            },
    {
        proof {
            use_type_invariant(self);
        }
        match position_of(&self.names, name.as_bytes()) {
            Some(i) => Some(&*self.functions[i]),
            None => None,
        }
    }

    /// The function with the given id.
    pub fn get_by_id(&self, id: usize) -> (r: Option<&Callable>)
        ensures
            match r {
                Some(c) => id < self.names().len() && id < self.callables().len() && *c
                    == self.callables()[id as int],
                None => id >= self.names().len(),
            },
    {
        proof {
            use_type_invariant(self);
        }
        if id < self.functions.len() {
            Some(&*self.functions[id])
        } else {
            None
        }
    }
}

impl Clone for FunctionRegistry {
    /// A registry with the same names and ids; the functions are shared.
    fn clone(&self) -> (r: Self)
        ensures
            r.wf(),
            r@ == self@,
    {
        proof {
            use_type_invariant(self);
        }
        let mut names: Vec<String> = Vec::new();
        let mut functions: Vec<Arc<Callable>> = Vec::new();
        let mut i: usize = 0;
        while i < self.names.len()
            invariant
                self.names@.len() == self.functions@.len(),
                i <= self.names@.len(),
                names@.len() == i,
                functions@.len() == i,
                forall|k: int| 0 <= k < i ==> #[trigger] names@[k]@ == self.names@[k]@,
                forall|k: int| 0 <= k < i ==> #[trigger] functions@[k] == self.functions@[k],
            decreases self.names@.len() - i,
        {
            names.push(self.names[i].clone());
            functions.push(share(&self.functions[i]));
            i += 1;
        }
        proof {
            assert(key_bytes(names@) =~= key_bytes(self.names@));
        }
        let r = FunctionRegistry { names, functions };
        assert(r.callables() =~= self.callables());
        r
    }
}

impl Default for FunctionRegistry {
    fn default() -> (r: Self)
        ensures
            r.wf(),
            r@ == no_functions(),
    {
        FunctionRegistry::new()
    }
}

/// Ids and names of a registry correspond: the name of the function with
/// an id is registered under that id.
pub proof fn lemma_function_id_of_name(registry: &FunctionRegistry, id: int)
    requires
        registry.wf(),
        0 <= id < registry.names().len(),
    ensures
        registry.id_of(registry.names()[id]) == Some(id),
{
    registry.lemma_distinct();
    lemma_distinct_index_at(registry.names(), id);
}

/// Registers the six built-in functions under their names.
pub fn register_builtins(reg: &mut FunctionRegistry)
    ensures
        final(reg).wf(),
        final(reg)@ == with_builtins(old(reg)@),
        forall|key: Seq<u8>|
            #[trigger] has_key(final(reg).names(), key) <==> has_key(old(reg).names(), key)
                || builtin_named(key) is Some,
        forall|key: Seq<u8>|
            has_key(old(reg).names(), key) ==> #[trigger] final(reg).id_of(key) == old(reg).id_of(
                key,
            ),
{
    reg.register("len", LenFunction);
    reg.register("upper", UpperFunction);
    reg.register("lower", LowerFunction);
    reg.register("sum", SumFunction);
    reg.register("starts_with", StartsWithFunction);
    reg.register("ends_with", EndsWithFunction);
}

} // verus!

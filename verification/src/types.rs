//! Field types and runtime values.

use crate::keys::{
    has_key, key_index, keys_sorted, lemma_insert_sorted, lemma_lower_bound, lower_bound,
    lower_bound_from,
};
use crate::text::{bytes_eq, bytes_less, lex_less, utf8};
use std::sync::Arc;
use vstd::prelude::*;
use vstd::std_specs::cmp::PartialEqSpec;
use vstd::string::*;

verus! {

/// The declared static type of a schema field.
#[derive(Debug, Eq, Hash)]
pub enum FieldType {
    Bytes,
    Int,
    Bool,
    Ip,
    Array(Box<FieldType>),
    Mapping(Box<FieldType>),
    /// Stands for the element type of an empty container.
    Unknown,
}

impl Clone for FieldType {
    fn clone(&self) -> (r: Self)
        ensures
            r == *self,
        decreases *self,
    {
        match self {
            FieldType::Bytes => FieldType::Bytes,
            FieldType::Int => FieldType::Int,
            FieldType::Bool => FieldType::Bool,
            FieldType::Ip => FieldType::Ip,
            FieldType::Array(elem) => FieldType::Array(Box::new((&**elem).clone())),
            FieldType::Mapping(elem) => FieldType::Mapping(Box::new((&**elem).clone())),
            FieldType::Unknown => FieldType::Unknown,
        }
    }
}

impl PartialEq for FieldType {
    fn eq(&self, other: &Self) -> (r: bool)
        decreases *self,
    {
        match (self, other) {
            (FieldType::Bytes, FieldType::Bytes) => true,
            (FieldType::Int, FieldType::Int) => true,
            (FieldType::Bool, FieldType::Bool) => true,
            (FieldType::Ip, FieldType::Ip) => true,
            (FieldType::Unknown, FieldType::Unknown) => true,
            (FieldType::Array(a), FieldType::Array(b)) => (&**a).eq(&**b),
            (FieldType::Mapping(a), FieldType::Mapping(b)) => (&**a).eq(&**b),
            _ => false,
        }
    }
}

impl vstd::std_specs::cmp::PartialEqSpecImpl for FieldType {
    open spec fn obeys_eq_spec() -> bool {
        true
    }

    open spec fn eq_spec(&self, other: &Self) -> bool {
        *self == *other
    }
}

/// The name of a type, as messages show it: the name of a scalar type, or
/// the kind of a container with the name of its item type in brackets.
pub open spec fn type_text(t: FieldType) -> Seq<char>
    decreases t,
{
    match t {
        FieldType::Bytes => "Bytes"@,
        FieldType::Int => "Int"@,
        FieldType::Bool => "Bool"@,
        FieldType::Ip => "Ip"@,
        FieldType::Array(elem) => "Array("@ + type_text(*elem) + ")"@,
        FieldType::Mapping(elem) => "Mapping("@ + type_text(*elem) + ")"@,
        FieldType::Unknown => "Unknown"@,
    }
}

impl FieldType {
    /// The name of the type, as messages show it.
    pub fn describe(&self) -> (r: String)
        ensures
            r@ == type_text(*self),
        decreases *self,
    {
        match self {
            FieldType::Bytes => String::from_str("Bytes"),
            FieldType::Int => String::from_str("Int"),
            FieldType::Bool => String::from_str("Bool"),
            FieldType::Ip => String::from_str("Ip"),
            FieldType::Array(elem) => {
                let inner = (&**elem).describe();
                String::from_str("Array(").concat(inner.as_str()).concat(")")
            },
            FieldType::Mapping(elem) => {
                let inner = (&**elem).describe();
                String::from_str("Mapping(").concat(inner.as_str()).concat(")")
            },
            FieldType::Unknown => String::from_str("Unknown"),
        }
    }

    /// Whether the type is one of the four scalar types.
    pub fn is_primitive(&self) -> (r: bool)
        ensures
            r == (*self is Bytes || *self is Int || *self is Bool || *self is Ip),
    {
        match self {
            FieldType::Bytes | FieldType::Int | FieldType::Bool | FieldType::Ip => true,
            _ => false,
        }
    }
}

/// An IPv4 or IPv6 address, held as its numeric value. An IPv4 address and
/// an IPv6 address are never equal.
#[derive(Debug, Clone, Copy, PartialEq, Eq, Hash, Structural)]
pub enum IpAddress {
    V4(u32),
    V6(u128),
}

/// The mathematical value that a `LiteralValue` stands for. Text is held as
/// its UTF-8 bytes; a mapping is the sequence of its entries in key order.
pub enum SpecValue {
    Bytes(Seq<u8>),
    Int(i64),
    Bool(bool),
    Ip(IpAddress),
    Array(Seq<SpecValue>),
    Mapping(Seq<(Seq<u8>, SpecValue)>),
}

/// A runtime value. Byte strings, arrays and mappings share their buffer
/// when cloned.
#[derive(Debug)]
pub enum LiteralValue {
    Bytes(Arc<Vec<u8>>),
    Int(i64),
    Bool(bool),
    Ip(IpAddress),
    Array(Arc<Vec<LiteralValue>>),
    Mapping(Arc<ValueMap>),
}

/// A mapping from text keys to values, kept in lexicographic key order.
#[derive(Debug)]
pub struct ValueMap {
    entries: Vec<(String, LiteralValue)>,
}

/// The value that `v` stands for.
pub open spec fn value_of(v: LiteralValue) -> SpecValue
    decreases v,
{
    match v {
        LiteralValue::Bytes(b) => SpecValue::Bytes(b@),
        LiteralValue::Int(i) => SpecValue::Int(i),
        LiteralValue::Bool(b) => SpecValue::Bool(b),
        LiteralValue::Ip(ip) => SpecValue::Ip(ip),
        LiteralValue::Array(items) => SpecValue::Array(
            Seq::new(
                items@.len(),
                |i: int|
                    if 0 <= i < items@.len() {
                        value_of((*items)[i])
                    } else {
                        SpecValue::Bool(false)
                    },
            ),
        ),
        LiteralValue::Mapping(map) => SpecValue::Mapping(
            Seq::new(
                map.spec_len(),
                |i: int|
                    if 0 <= i < map.spec_len() {
                        (map.spec_key(i), value_of(map.spec_value(i)))
                    } else {
                        (Seq::empty(), SpecValue::Bool(false))
                    },
            ),
        ),
    }
}

impl View for LiteralValue {
    type V = SpecValue;

    open spec fn view(&self) -> SpecValue {
        value_of(*self)
    }
}

/// The values that a sequence of runtime values stands for.
pub open spec fn values_of(items: Seq<LiteralValue>) -> Seq<SpecValue> {
    Seq::new(items.len(), |i: int| items[i]@)
}

/// The value of an array is the array of the values of its items.
pub proof fn lemma_array_value(items: Arc<Vec<LiteralValue>>)
    ensures
        LiteralValue::Array(items)@ == SpecValue::Array(values_of(items@)),
{
    assert(LiteralValue::Array(items)@->Array_0 =~= values_of(items@));
}

/// Another handle on the same shared buffer.
///
/// Wraps `Arc::clone`: the new handle points at the same value.
#[verifier::external_body]
pub(crate) fn share<T>(a: &Arc<T>) -> (r: Arc<T>)
    ensures
        r == *a,
{
    Arc::clone(a)
}

impl Clone for LiteralValue {
    /// Copies a scalar; shares the buffer of a byte string, an array or a
    /// mapping.
    fn clone(&self) -> (r: Self)
        ensures
            r == *self,
    {
        match self {
            LiteralValue::Bytes(b) => LiteralValue::Bytes(share(b)),
            LiteralValue::Int(i) => LiteralValue::Int(*i),
            LiteralValue::Bool(b) => LiteralValue::Bool(*b),
            LiteralValue::Ip(ip) => LiteralValue::Ip(*ip),
            LiteralValue::Array(items) => LiteralValue::Array(share(items)),
            LiteralValue::Mapping(map) => LiteralValue::Mapping(share(map)),
        }
    }
}

impl PartialEq for LiteralValue {
    fn eq(&self, other: &Self) -> (r: bool) {
        self.same_as(other)
    }
}

impl LiteralValue {
    /// Structural equality: the two values have the same variant and the
    /// same contents, whether or not they share a buffer.
    pub fn same_as(&self, other: &Self) -> (r: bool)
        ensures
            r == (self@ == other@),
        decreases *self,
    {
        match (self, other) {
            (LiteralValue::Bytes(a), LiteralValue::Bytes(b)) => bytes_eq(
                a.as_slice(),
                b.as_slice(),
            ),
            (LiteralValue::Int(a), LiteralValue::Int(b)) => *a == *b,
            (LiteralValue::Bool(a), LiteralValue::Bool(b)) => *a == *b,
            (LiteralValue::Ip(a), LiteralValue::Ip(b)) => *a == *b,
            (LiteralValue::Array(a), LiteralValue::Array(b)) => {
                if a.len() != b.len() {
                    assert(self@->Array_0.len() != other@->Array_0.len());
                    return false;
                }
                let mut i: usize = 0;
                while i < a.len()
                    invariant
                        *self == LiteralValue::Array(*a),
                        *other == LiteralValue::Array(*b),
                        a@.len() == b@.len(),
                        i <= a@.len(),
                        forall|k: int| 0 <= k < i ==> (*a)[k]@ == (*b)[k]@,
                    decreases a@.len() - i,
                {
                    if !(&a[i]).same_as(&b[i]) {
                        assert(self@->Array_0[i as int] != other@->Array_0[i as int]);
                        return false;
                    }
                    i += 1;
                }
                assert(self@->Array_0 =~= other@->Array_0);
                true
            },
            (LiteralValue::Mapping(a), LiteralValue::Mapping(b)) => {
                if a.entries.len() != b.entries.len() {
                    assert(self@->Mapping_0.len() != other@->Mapping_0.len());
                    return false;
                }
                let mut i: usize = 0;
                while i < a.entries.len()
                    invariant
                        *self == LiteralValue::Mapping(*a),
                        *other == LiteralValue::Mapping(*b),
                        a.entries@.len() == b.entries@.len(),
                        i <= a.entries@.len(),
                        forall|k: int|
                            0 <= k < i ==> #[trigger] a.spec_key(k) == b.spec_key(k),
                        forall|k: int|
                            0 <= k < i ==> value_of(#[trigger] a.spec_value(k)) == value_of(
                                b.spec_value(k),
                            ),
                    decreases a.entries@.len() - i,
                {
                    if !bytes_eq(
                        a.entries[i].0.as_str().as_bytes(),
                        b.entries[i].0.as_str().as_bytes(),
                    ) {
                        assert(self@->Mapping_0[i as int] != other@->Mapping_0[i as int]);
                        return false;
                    }
                    if !(&a.entries[i].1).same_as(&b.entries[i].1) {
                        assert(self@->Mapping_0[i as int] != other@->Mapping_0[i as int]);
                        return false;
                    }
                    i += 1;
                }
                assert(self@->Mapping_0 =~= other@->Mapping_0);
                true
            },
            _ => false,
        }
    }
}

impl vstd::std_specs::cmp::PartialEqSpecImpl for LiteralValue {
    open spec fn obeys_eq_spec() -> bool {
        true
    }

    open spec fn eq_spec(&self, other: &Self) -> bool {
        self@ == other@
    }
}

impl Eq for LiteralValue {

}

/// Every value is equal to itself, and equality is symmetric and
/// transitive: two values are equal exactly when they stand for the same
/// mathematical value, whether or not they share a buffer.
pub proof fn lemma_value_equality(a: LiteralValue, b: LiteralValue, c: LiteralValue)
    ensures
        a.eq_spec(&a),
        a.eq_spec(&b) == b.eq_spec(&a),
        a.eq_spec(&b) && b.eq_spec(&c) ==> a.eq_spec(&c),
{
}

/// The hint as a plain value.
pub open spec fn hint_of(hint: Option<&FieldType>) -> Option<FieldType> {
    match hint {
        Some(t) => Some(*t),
        None => None,
    }
}

/// The type inferred for a value. A container whose items all have one
/// type has that item type; a container with items of several types has
/// item type `Unknown`; an empty container takes its item type from a hint
/// of the same container kind, and has item type `Unknown` without one.
pub open spec fn type_of(v: SpecValue, hint: Option<FieldType>) -> FieldType
    decreases v,
{
    match v {
        SpecValue::Bytes(_) => FieldType::Bytes,
        SpecValue::Int(_) => FieldType::Int,
        SpecValue::Bool(_) => FieldType::Bool,
        SpecValue::Ip(_) => FieldType::Ip,
        SpecValue::Array(items) => if items.len() == 0 {
            match hint {
                Some(FieldType::Array(elem)) => FieldType::Array(elem),
                _ => FieldType::Array(Box::new(FieldType::Unknown)),
            }
        } else if forall|i: int|
            0 <= i < items.len() ==> type_of(#[trigger] items[i], None) == type_of(items[0], None) {
            FieldType::Array(Box::new(type_of(items[0], None)))
        } else {
            FieldType::Array(Box::new(FieldType::Unknown))
        },
        SpecValue::Mapping(entries) => if entries.len() == 0 {
            match hint {
                Some(FieldType::Mapping(elem)) => FieldType::Mapping(elem),
                _ => FieldType::Mapping(Box::new(FieldType::Unknown)),
            }
        } else if forall|i: int|
            0 <= i < entries.len() ==> type_of((#[trigger] entries[i]).1, None) == type_of(
                entries[0].1,
                None,
            ) {
            FieldType::Mapping(Box::new(type_of(entries[0].1, None)))
        } else {
            FieldType::Mapping(Box::new(FieldType::Unknown))
        },
    }
}

impl LiteralValue {
    /// Infers the type of this value, without a hint.
    pub fn get_type(&self) -> (t: FieldType)
        ensures
            t == type_of(self@, None),
        decreases *self, 1int,
    {
        self.get_type_with_hint(None)
    }

    /// Infers the type of this value; the hint gives the item type of an
    /// empty array or mapping.
    pub fn get_type_with_hint(&self, hint: Option<&FieldType>) -> (t: FieldType)
        ensures
            t == type_of(self@, hint_of(hint)),
        decreases *self, 0int,
    {
        match self {
            LiteralValue::Bytes(_) => FieldType::Bytes,
            LiteralValue::Int(_) => FieldType::Int,
            LiteralValue::Bool(_) => FieldType::Bool,
            LiteralValue::Ip(_) => FieldType::Ip,
            LiteralValue::Array(items) => {
                if items.len() == 0 {
                    return match hint {
                        Some(FieldType::Array(elem)) => FieldType::Array(elem.clone()),
                        _ => FieldType::Array(Box::new(FieldType::Unknown)),
                    };
                }
                let first = (&items[0]).get_type();
                let ghost views = self@->Array_0;
                let mut i: usize = 1;
                while i < items.len()
                    invariant
                        *self == LiteralValue::Array(*items),
                        views == self@->Array_0,
                        views.len() == items@.len(),
                        1 <= i <= items@.len(),
                        first == type_of(views[0], None),
                        forall|k: int| 0 <= k < i ==> type_of(#[trigger] views[k], None) == first,
                    decreases items@.len() - i,
                {
                    let t = (&items[i]).get_type();
                    assert(views[i as int] == value_of((*items)[i as int]));
                    if !(t == first) {
                        return FieldType::Array(Box::new(FieldType::Unknown));
                    }
                    i += 1;
                }
                FieldType::Array(Box::new(first))
            },
            LiteralValue::Mapping(map) => {
                if map.entries.len() == 0 {
                    return match hint {
                        Some(FieldType::Mapping(elem)) => FieldType::Mapping(elem.clone()),
                        _ => FieldType::Mapping(Box::new(FieldType::Unknown)),
                    };
                }
                let first = (&map.entries[0].1).get_type();
                let ghost views = self@->Mapping_0;
                let mut i: usize = 1;
                while i < map.entries.len()
                    invariant
                        *self == LiteralValue::Mapping(*map),
                        views == self@->Mapping_0,
                        views.len() == map.entries@.len(),
                        1 <= i <= map.entries@.len(),
                        first == type_of(views[0].1, None),
                        forall|k: int|
                            0 <= k < i ==> type_of((#[trigger] views[k]).1, None) == first,
                    decreases map.entries@.len() - i,
                {
                    let t = (&map.entries[i].1).get_type();
                    assert(views[i as int].1 == value_of(map.spec_value(i as int)));
                    if !(t == first) {
                        return FieldType::Mapping(Box::new(FieldType::Unknown));
                    }
                    i += 1;
                }
                FieldType::Mapping(Box::new(first))
            },
        }
    }
}

impl View for ValueMap {
    type V = Seq<(Seq<u8>, SpecValue)>;

    open spec fn view(&self) -> Seq<(Seq<u8>, SpecValue)> {
        Seq::new(self.spec_len(), |i: int| (self.spec_key(i), self.spec_value(i)@))
    }
}

/// The keys of the entries of a mapping, in their order.
pub open spec fn entry_keys(entries: Seq<(Seq<u8>, SpecValue)>) -> Seq<Seq<u8>> {
    Seq::new(entries.len(), |i: int| entries[i].0)
}

/// The value that the entries hold for a key, if they hold one.
pub open spec fn entry_value(entries: Seq<(Seq<u8>, SpecValue)>, key: Seq<u8>) -> Option<
    SpecValue,
> {
    match key_index(entry_keys(entries), key) {
        Some(i) => Some(entries[i].1),
        None => None,
    }
}

impl ValueMap {
    /// The number of entries.
    pub closed spec fn spec_len(&self) -> nat {
        self.entries@.len()
    }

    /// The UTF-8 bytes of the key of entry `i`.
    pub closed spec fn spec_key(&self, i: int) -> Seq<u8> {
        utf8(self.entries@[i].0@)
    }

    /// The value of entry `i`.
    pub closed spec fn spec_value(&self, i: int) -> LiteralValue {
        self.entries[i].1
    }

    /// The invariant of the type: no key occurs twice, and the entries
    /// stand in the lexicographic order of their keys.
    #[verifier::type_invariant]
    pub closed spec fn wf(self) -> bool {
        keys_sorted(Seq::new(self.entries@.len(), |i: int| utf8(self.entries@[i].0@)))
    }

    /// The keys strictly increase.
    pub proof fn lemma_sorted(&self)
        requires
            self.wf(),
        ensures
            keys_sorted(entry_keys(self@)),
    {
        assert(entry_keys(self@) =~= Seq::new(
            self.entries@.len(),
            |i: int| utf8(self.entries@[i].0@),
        ));
    }

    /// The empty mapping.
    pub fn new() -> (r: Self)
        ensures
            r.wf(),
            r@.len() == 0,
    {
        ValueMap { entries: Vec::new() }
    }

    /// The number of entries.
    pub fn len(&self) -> (n: usize)
        ensures
            n == self@.len(),
    {
        self.entries.len()
    }

    /// Whether the mapping has no entry.
    pub fn is_empty(&self) -> (r: bool)
        ensures
            r == (self@.len() == 0),
    {
        self.entries.len() == 0
    }

    fn find(&self, key: &[u8]) -> (r: (usize, bool))
        ensures
            r.0 == lower_bound(entry_keys(self@), key@),
            r.1 == has_key(entry_keys(self@), key@),
            r.0 <= self@.len(),
            r.1 ==> r.0 < self@.len() && self@[r.0 as int].0 == key@,
    {
        proof {
            use_type_invariant(self);
            self.lemma_sorted();
        }
        let ghost keys = entry_keys(self@);
        let mut i: usize = 0;
        let mut stop = false;
        while i < self.entries.len() && !stop
            invariant
                keys == entry_keys(self@),
                i <= self.entries@.len(),
                lower_bound(keys, key@) == lower_bound_from(keys, key@, i as int),
                stop ==> i < self.entries@.len() && !lex_less(keys[i as int], key@),
            decreases
                    self.entries@.len() - i + (if stop {
                        0int
                    } else {
                        1int
                    }),
        {
            if bytes_less(self.entries[i].0.as_str().as_bytes(), key) {
                i += 1;
            } else {
                stop = true;
            }
        }
        proof {
            lemma_lower_bound(keys, key@);
        }
        let found = i < self.entries.len() && bytes_eq(
            self.entries[i].0.as_str().as_bytes(),
            key,
        );
        (i, found)
    }

    /// The value under a key.
    pub fn get(&self, key: &str) -> (r: Option<&LiteralValue>)
        ensures
            match r {
                Some(v) => entry_value(self@, utf8(key@)) == Some(v@),
                None => entry_value(self@, utf8(key@)) is None,
            },
    {
        proof {
            use_type_invariant(self);
            self.lemma_sorted();
            lemma_lower_bound(entry_keys(self@), utf8(key@));
        }
        let (i, found) = self.find(key.as_bytes());
        if found {
            Some(&self.entries[i].1)
        } else {
            None
        }
    }

    /// The key and the value of the entry at a place in key order.
    pub fn entry_at(&self, i: usize) -> (r: Option<(&str, &LiteralValue)>)
        ensures
            match r {
                Some((key, value)) => i < self@.len() && self@[i as int] == (utf8(key@), value@),
                None => i >= self@.len(),
            },
    {
        if i < self.entries.len() {
            Some((self.entries[i].0.as_str(), &self.entries[i].1))
        } else {
            None
        }
    }

    /// Puts a value under a key. A key that the mapping has already keeps
    /// its place and takes the new value; a new key is put at its place in
    /// the order.
    pub fn insert(&mut self, key: &str, value: LiteralValue)
        ensures
            final(self).wf(),
            final(self)@ == if has_key(entry_keys(old(self)@), utf8(key@)) {
                old(self)@.update(
                    lower_bound(entry_keys(old(self)@), utf8(key@)),
                    (utf8(key@), value@),
                )
            } else {
                old(self)@.insert(
                    lower_bound(entry_keys(old(self)@), utf8(key@)),
                    (utf8(key@), value@),
                )
            },
    {
        proof {
            use_type_invariant(&*self);
            self.lemma_sorted();
        }
        let ghost old_keys = entry_keys(self@);
        let ghost k = utf8(key@);
        let (i, found) = self.find(key.as_bytes());
        let mut taken = ValueMap::new();
        std::mem::swap(self, &mut taken);
        let ValueMap { mut entries } = taken;
        proof {
            lemma_lower_bound(old_keys, k);
        }
        if found {
            entries.set(i, (key.to_owned(), value));
            let ghost new_keys = Seq::new(entries@.len(), |j: int| utf8(entries@[j].0@));
            assert(new_keys =~= old_keys);
        } else {
            entries.insert(i, (key.to_owned(), value));
            let ghost new_keys = Seq::new(entries@.len(), |j: int| utf8(entries@[j].0@));
            proof {
                lemma_insert_sorted(old_keys, k);
                assert(new_keys =~= old_keys.insert(i as int, k));
            }
        }
        *self = ValueMap { entries };
    }
}

impl Default for ValueMap {
    fn default() -> (r: Self)
        ensures
            r.wf(),
            r@.len() == 0,
    {
        ValueMap::new()
    }
}

} // verus!

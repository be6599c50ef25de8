//! Contexts: the values of one record, by field id.

use crate::error::{SpecError, WirerustError};
use crate::schema::FilterSchema;
use crate::text::{lemma_utf8_injective, utf8};
use crate::types::{
    lemma_array_value, share, type_of, type_text, FieldType, IpAddress, LiteralValue, SpecValue,
};
use vstd::slice::slice_to_vec;
use std::sync::Arc;
use vstd::prelude::*;
use vstd::string::*;

verus! {

/// The values of one record. Slot `id` holds the value of the field with
/// that id; a slot that was never written, or lies past the end, is absent.
#[derive(Debug)]
pub struct FilterContext {
    field_values: Vec<Option<LiteralValue>>,
}

/// The value in a slot, as a mathematical value.
pub open spec fn slot_of(slot: Option<LiteralValue>) -> Option<SpecValue> {
    match slot {
        Some(v) => Some(v@),
        None => None,
    }
}

/// The values in a sequence of slots.
pub open spec fn slots_of(slots: Seq<Option<LiteralValue>>) -> Seq<Option<SpecValue>> {
    Seq::new(slots.len(), |i: int| slot_of(slots[i]))
}

/// What a context holds for a field id: absent past the end.
pub open spec fn value_at(slots: Seq<Option<SpecValue>>, id: int) -> Option<SpecValue> {
    if 0 <= id < slots.len() {
        slots[id]
    } else {
        None
    }
}

/// The slots after a write of `value` to slot `id`: the sequence grows by
/// absent slots as far as needed.
pub open spec fn with_slot(slots: Seq<Option<SpecValue>>, id: int, value: SpecValue) -> Seq<
    Option<SpecValue>,
> {
    Seq::new(
        if id < slots.len() {
            slots.len()
        } else {
            (id + 1) as nat
        },
        |i: int|
            if i == id {
                Some(value)
            } else {
                value_at(slots, i)
            },
    )
}

/// Whether a value may be written to a field declared as `expected`: the
/// type of the value is that of the field, or the field is an array and the
/// value an array without items.
pub open spec fn assignable(expected: FieldType, value: SpecValue) -> bool {
    ||| (expected is Array && value is Array && value->Array_0.len() == 0)
    ||| type_of(value, None) == expected
}

/// An array with an item of another type than the item type of an array
/// field cannot be written to that field.
pub proof fn lemma_array_items_checked(elem: FieldType, items: Seq<SpecValue>, i: int)
    requires
        0 <= i < items.len(),
        type_of(items[i], None) != elem,
        elem != FieldType::Unknown,
    ensures
        !assignable(FieldType::Array(Box::new(elem)), SpecValue::Array(items)),
{
    let first = type_of(items[0], None);
    if type_of(SpecValue::Array(items), None) == FieldType::Array(Box::new(first)) {
        if forall|k: int| 0 <= k < items.len() ==> type_of(#[trigger] items[k], None) == first {
            assert(type_of(items[i], None) == first);
        }
    }
}

/// The message of a rejected write.
pub open spec fn mismatch_text(field: Seq<char>, expected: FieldType, actual: FieldType) -> Seq<
    char,
> {
    "Type mismatch for field '"@ + field + "': expected "@ + type_text(expected) + ", got "@
        + type_text(actual)
}

/// What a write by name does: the result, and the slots afterwards.
pub open spec fn set_outcome(
    slots: Seq<Option<SpecValue>>,
    field: Seq<char>,
    value: SpecValue,
    schema: &FilterSchema,
) -> (Result<(), SpecError>, Seq<Option<SpecValue>>) {
    match schema.type_of(utf8(field)) {
        None => (Err(SpecError::FieldNotFound(field)), slots),
        Some(expected) => if assignable(expected, value) {
            (Ok(()), with_slot(slots, schema.id_of(utf8(field))->0, value))
        } else {
            (
                Err(SpecError::TypeError(mismatch_text(field, expected, type_of(value, None)))),
                slots,
            )
        },
    }
}

/// What a context holds for a field name: absent where the schema has no
/// such field.
pub open spec fn field_value(slots: Seq<Option<SpecValue>>, field: Seq<char>, schema: &FilterSchema)
    -> Option<SpecValue> {
    match schema.id_of(utf8(field)) {
        Some(id) => value_at(slots, id),
        None => None,
    }
}

/// The result of a write, as a mathematical value.
pub open spec fn unit_result_of(r: Result<(), WirerustError>) -> Result<(), SpecError> {
    match r {
        Ok(_) => Ok(()),
        Err(e) => Err(e@),
    }
}

impl View for FilterContext {
    type V = Seq<Option<SpecValue>>;

    closed spec fn view(&self) -> Seq<Option<SpecValue>> {
        slots_of(self.field_values@)
    }
}

impl FilterContext {
    /// A context without values.
    pub fn new() -> (r: Self)
        ensures
            r@.len() == 0,
    {
        FilterContext { field_values: Vec::new() }
    }

    /// The context with the given slots.
    pub fn from_slots(slots: Vec<Option<LiteralValue>>) -> (r: Self)
        ensures
            r@ == slots_of(slots@),
    {
        FilterContext { field_values: slots }
    }

    /// The slots, by field id.
    pub fn values(&self) -> (r: &[Option<LiteralValue>])
        ensures
            slots_of(r@) == self@,
    {
        self.field_values.as_slice()
    }

    /// Writes a value to the slot of a field id.
    pub fn set_by_id(&mut self, field_id: usize, value: LiteralValue)
        requires
            field_id < usize::MAX,
        ensures
            final(self)@ == with_slot(old(self)@, field_id as int, value@),
    {
        while self.field_values.len() <= field_id
            invariant
                field_id < usize::MAX,
                old(self).field_values@.len() <= self.field_values@.len(),
                self.field_values@.len() <= old(self).field_values@.len()
                    || self.field_values@.len() <= field_id + 1,
                forall|k: int|
                    0 <= k < old(self).field_values@.len() ==> self.field_values@[k] == old(
                        self,
                    ).field_values@[k],
                forall|k: int|
                    old(self).field_values@.len() <= k < self.field_values@.len()
                        ==> self.field_values@[k] is None,
            decreases field_id + 1 - self.field_values@.len(),
        {
            self.field_values.push(None);
        }
        self.field_values.set(field_id, Some(value));
    }

    /// The value in the slot of a field id.
    pub fn get_by_id(&self, field_id: usize) -> (r: Option<&LiteralValue>)
        ensures
            match r {
                Some(v) => value_at(self@, field_id as int) == Some(v@),
                None => value_at(self@, field_id as int) is None,
            },
    {
        if field_id < self.field_values.len() {
            match &self.field_values[field_id] {
                Some(v) => Some(v),
                None => None,
            }
        } else {
            None
        }
    }

    /// Writes a value to a field by name. The write is rejected when the
    /// schema has no such field, or when the type of the value is not the
    /// type of the field; an array without items fits every array field.
    pub fn set(&mut self, field: &str, value: LiteralValue, schema: &FilterSchema) -> (r: Result<
        (),
        WirerustError,
    >)
        ensures
            unit_result_of(r) == set_outcome(old(self)@, field@, value@, schema).0,
            final(self)@ == set_outcome(old(self)@, field@, value@, schema).1,
    {
        match schema.get_field_type(field) {
            Some(expected) => {
                let actual = value.get_type();
                let empty_array = match (expected, &value) {
                    (FieldType::Array(_), LiteralValue::Array(items)) => {
                        proof {
                            lemma_array_value(*items);
                        }
                        items.len() == 0
                    },
                    _ => false,
                };
                if empty_array || actual == *expected {
                    match schema.field_id(field) {
                        Some(id) => {
                            proof {
                                schema.lemma_count();
                            }
                            self.set_by_id(id, value);
                        },
                        None => {},
                    }
                    Ok(())
                } else {
                    let msg = String::from_str("Type mismatch for field '").concat(field).concat(
                        "': expected ",
                    ).concat(expected.describe().as_str()).concat(", got ").concat(
                        actual.describe().as_str(),
                    );
                    Err(WirerustError::TypeError(msg))
                }
            },
            None => Err(WirerustError::FieldNotFound(field.to_owned())),
        }
    }

    /// The value of a field by name.
    pub fn get(&self, field: &str, schema: &FilterSchema) -> (r: Option<&LiteralValue>)
        ensures
            match r {
                Some(v) => field_value(self@, field@, schema) == Some(v@),
                None => field_value(self@, field@, schema) is None,
            },
    {
        match schema.field_id(field) {
            Some(id) => self.get_by_id(id),
            None => None,
        }
    }

    /// Writes an integer to a field; a rejected write changes nothing.
    pub fn set_int(&mut self, field: &str, value: i64, schema: &FilterSchema) -> (r: &mut Self)
        ensures
            r@ == set_outcome(old(self)@, field@, SpecValue::Int(value), schema).1,
            *final(self) == *final(r),
    {
        let _ = self.set(field, LiteralValue::Int(value), schema);
        self
    }

    /// Writes a boolean to a field; a rejected write changes nothing.
    pub fn set_bool(&mut self, field: &str, value: bool, schema: &FilterSchema) -> (r: &mut Self)
        ensures
            r@ == set_outcome(old(self)@, field@, SpecValue::Bool(value), schema).1,
            *final(self) == *final(r),
    {
        let _ = self.set(field, LiteralValue::Bool(value), schema);
        self
    }

    /// Writes an address to a field; a rejected write changes nothing.
    pub fn set_ip(&mut self, field: &str, value: IpAddress, schema: &FilterSchema) -> (r: &mut Self)
        ensures
            r@ == set_outcome(old(self)@, field@, SpecValue::Ip(value), schema).1,
            *final(self) == *final(r),
    {
        let _ = self.set(field, LiteralValue::Ip(value), schema);
        self
    }

    /// Writes a byte string to a field; a rejected write changes nothing.
    pub fn set_bytes(&mut self, field: &str, value: &[u8], schema: &FilterSchema) -> (r: &mut Self)
        ensures
            r@ == set_outcome(old(self)@, field@, SpecValue::Bytes(value@), schema).1,
            *final(self) == *final(r),
    {
        let _ = self.set(field, LiteralValue::Bytes(Arc::new(slice_to_vec(value))), schema);
        self
    }

    /// Writes an array to a field; a rejected write changes nothing.
    pub fn set_array(&mut self, field: &str, value: Vec<LiteralValue>, schema: &FilterSchema) -> (r:
        &mut Self)
        ensures
            r@ == set_outcome(
                old(self)@,
                field@,
                LiteralValue::Array(Arc::new(value))@,
                schema,
            ).1,
            *final(self) == *final(r),
    {
        let _ = self.set(field, LiteralValue::Array(Arc::new(value)), schema);
        self
    }

    /// The integer in a field, if the field holds one.
    pub fn get_int(&self, field: &str, schema: &FilterSchema) -> (r: Option<i64>)
        ensures
            r == match field_value(self@, field@, schema) {
                Some(SpecValue::Int(i)) => Some(i),
                _ => None,
            },
    {
        match self.get(field, schema) {
            Some(LiteralValue::Int(i)) => Some(*i),
            _ => None,
        }
    }

    /// The boolean in a field, if the field holds one.
    pub fn get_bool(&self, field: &str, schema: &FilterSchema) -> (r: Option<bool>)
        ensures
            r == match field_value(self@, field@, schema) {
                Some(SpecValue::Bool(b)) => Some(b),
                _ => None,
            },
    {
        match self.get(field, schema) {
            Some(LiteralValue::Bool(b)) => Some(*b),
            _ => None,
        }
    }

    /// The address in a field, if the field holds one.
    pub fn get_ip(&self, field: &str, schema: &FilterSchema) -> (r: Option<IpAddress>)
        ensures
            r == match field_value(self@, field@, schema) {
                Some(SpecValue::Ip(ip)) => Some(ip),
                _ => None,
            },
    {
        match self.get(field, schema) {
            Some(LiteralValue::Ip(ip)) => Some(*ip),
            _ => None,
        }
    }

    /// The byte string in a field, if the field holds one.
    pub fn get_bytes(&self, field: &str, schema: &FilterSchema) -> (r: Option<&[u8]>)
        ensures
            match field_value(self@, field@, schema) {
                Some(SpecValue::Bytes(b)) => r is Some && r->0@ == b,
                _ => r is None,
            },
    {
        match self.get(field, schema) {
            Some(LiteralValue::Bytes(b)) => Some(b.as_slice()),
            _ => None,
        }
    }

    /// The array in a field, if the field holds one. The array is shared,
    /// not copied.
    pub fn get_array(&self, field: &str, schema: &FilterSchema) -> (r: Option<
        Arc<Vec<LiteralValue>>,
    >)
        ensures
            match field_value(self@, field@, schema) {
                Some(SpecValue::Array(items)) => r is Some && LiteralValue::Array(r->0)@
                    == SpecValue::Array(items),
                _ => r is None,
            },
    {
        match self.get(field, schema) {
            Some(LiteralValue::Array(items)) => Some(share(items)),
            _ => None,
        }
    }
}

/// A value that was written to a field is the value that the field holds
/// afterwards, and the write leaves every other field as it was.
pub proof fn lemma_written_value_is_held(
    slots: Seq<Option<SpecValue>>,
    field: Seq<char>,
    value: SpecValue,
    schema: &FilterSchema,
    other: Seq<char>,
)
    requires
        set_outcome(slots, field, value, schema).0 is Ok,
    ensures
        field_value(set_outcome(slots, field, value, schema).1, field, schema) == Some(value),
        other != field ==> field_value(set_outcome(slots, field, value, schema).1, other, schema)
            == field_value(slots, other, schema),
{
    let names = schema.names();
    let id = schema.id_of(utf8(field))->0;
    assert(0 <= id < names.len() && names[id] == utf8(field));
    if other != field {
        if utf8(other) == utf8(field) {
            lemma_utf8_injective(other, field);
        }
        if schema.id_of(utf8(other)) is Some {
            let at = schema.id_of(utf8(other))->0;
            assert(names[at] == utf8(other));
        }
    }
}

impl Clone for FilterContext {
    fn clone(&self) -> (r: Self)
        ensures
            r@ == self@,
    {
        let mut field_values: Vec<Option<LiteralValue>> = Vec::new();
        let mut i: usize = 0;
        while i < self.field_values.len()
            invariant
                i <= self.field_values@.len(),
                field_values@.len() == i,
                forall|k: int| 0 <= k < i ==> #[trigger] field_values@[k] == self.field_values@[k],
            decreases self.field_values@.len() - i,
        {
            let slot = match &self.field_values[i] {
                Some(v) => Some(v.clone()),
                None => None,
            };
            field_values.push(slot);
            i += 1;
        }
        let r = FilterContext { field_values };
        r
    }
}

/// Fills a context for one schema.
pub struct FilterContextBuilder<'a> {
    ctx: FilterContext,
    schema: &'a FilterSchema,
}

impl<'a> FilterContextBuilder<'a> {
    /// The slots filled so far.
    pub closed spec fn slots(&self) -> Seq<Option<SpecValue>> {
        self.ctx@
    }

    /// The schema that the context is filled for.
    pub closed spec fn schema(&self) -> &FilterSchema {
        self.schema
    }

    /// A builder with an empty context.
    pub fn new(schema: &'a FilterSchema) -> (r: Self)
        ensures
            r.slots().len() == 0,
            r.schema() == schema,
    {
        FilterContextBuilder { ctx: FilterContext::new(), schema }
    }

    /// The context that was filled.
    pub fn build(self) -> (r: FilterContext)
        ensures
            r@ == self.slots(),
    {
        self.ctx
    }

    /// Whether `r` is what a write of `value` to `field` through this
    /// builder gives: the error of a rejected write, or else the builder
    /// for the same schema with the value written.
    pub open spec fn written(
        &self,
        field: Seq<char>,
        value: SpecValue,
        r: Result<Self, WirerustError>,
    ) -> bool {
        match set_outcome(self.slots(), field, value, self.schema()).0 {
            Ok(_) => {
                &&& r is Ok
                &&& r->Ok_0.schema() == self.schema()
                &&& r->Ok_0.slots() == set_outcome(self.slots(), field, value, self.schema()).1
            },
            Err(e) => r is Err && r->Err_0@ == e,
        }
    }

    /// Writes a value to a field. A rejected write is an error.
    fn write(self, field: &str, value: LiteralValue) -> (r: Result<Self, WirerustError>)
        ensures
            self.written(field@, value@, r),
    {
        let mut this = self;
        match this.ctx.set(field, value, this.schema) {
            Ok(_) => Ok(this),
            Err(e) => Err(e),
        }
    }

    /// Writes an integer to a field. A rejected write is an error.
    pub fn set_int(self, field: &str, value: i64) -> (r: Result<Self, WirerustError>)
        ensures
            self.written(field@, SpecValue::Int(value), r),
    {
        self.write(field, LiteralValue::Int(value))
    }

    /// Writes a boolean to a field. A rejected write is an error.
    pub fn set_bool(self, field: &str, value: bool) -> (r: Result<Self, WirerustError>)
        ensures
            self.written(field@, SpecValue::Bool(value), r),
    {
        self.write(field, LiteralValue::Bool(value))
    }

    /// Writes an address to a field. A rejected write is an error.
    pub fn set_ip(self, field: &str, value: IpAddress) -> (r: Result<Self, WirerustError>)
        ensures
            self.written(field@, SpecValue::Ip(value), r),
    {
        self.write(field, LiteralValue::Ip(value))
    }

    /// Writes a byte string to a field. A rejected write is an error.
    pub fn set_bytes(self, field: &str, value: &[u8]) -> (r: Result<Self, WirerustError>)
        ensures
            self.written(field@, SpecValue::Bytes(value@), r),
    {
        self.write(field, LiteralValue::Bytes(Arc::new(slice_to_vec(value))))
    }

    /// Writes an array to a field. A rejected write is an error.
    pub fn set_array(self, field: &str, value: Vec<LiteralValue>) -> (r: Result<
        Self,
        WirerustError,
    >)
        ensures
            self.written(field@, LiteralValue::Array(Arc::new(value))@, r),
    {
        self.write(field, LiteralValue::Array(Arc::new(value)))
    }
}

} // verus!

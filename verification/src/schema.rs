//! Schemas: the fields that a filter may name, with their types and ids.

use crate::keys::{
    find_key, has_key, key_bytes, key_index, keys_sorted, lemma_insert_sorted, lemma_key_index_at,
    lemma_lower_bound, lemma_sorted_distinct, lemma_sorted_unique, lower_bound, same_keys,
};
use crate::text::utf8;
use crate::types::FieldType;
use vstd::prelude::*;
use vstd::string::*;

verus! {

/// A map from field names to field types. The entries stand in the
/// lexicographic order of the names, so the place of a name depends on the
/// set of names alone.
#[derive(Debug)]
pub struct FieldMap {
    names: Vec<String>,
    types: Vec<FieldType>,
}

/// The type registered under the key, if there is one.
pub open spec fn type_at_key(names: Seq<Seq<u8>>, types: Seq<FieldType>, key: Seq<u8>) -> Option<
    FieldType,
> {
    match key_index(names, key) {
        Some(i) => Some(types[i]),
        None => None,
    }
}

impl FieldMap {
    /// The invariant of the type: each name has one type, and the names
    /// strictly increase.
    #[verifier::type_invariant]
    pub closed spec fn wf(self) -> bool {
        &&& self.names@.len() == self.types@.len()
        &&& keys_sorted(key_bytes(self.names@))
    }

    /// The names, as UTF-8 bytes, in their order.
    pub closed spec fn names(&self) -> Seq<Seq<u8>> {
        key_bytes(self.names@)
    }

    /// The type of each name, in the order of the names.
    pub closed spec fn types(&self) -> Seq<FieldType> {
        self.types@
    }

    /// The type registered under a name, if there is one.
    pub open spec fn type_of(&self, key: Seq<u8>) -> Option<FieldType> {
        type_at_key(self.names(), self.types(), key)
    }

    /// The names strictly increase, and each has one type.
    pub proof fn lemma_sorted(&self)
        requires
            self.wf(),
        ensures
            self.names().len() == self.types().len(),
            keys_sorted(self.names()),
    {
    }

    /// The number of names fits a machine word.
    pub proof fn lemma_count(&self)
        ensures
            self.names().len() <= usize::MAX,
    {
        assert(self.names.len() == self.names@.len());
    }

    /// The empty map.
    pub fn new() -> (r: Self)
        ensures
            r.wf(),
            r.names().len() == 0,
            r.types().len() == 0,
    {
        let r = FieldMap { names: Vec::new(), types: Vec::new() };
        r
    }

    /// The number of names.
    pub fn len(&self) -> (n: usize)
        ensures
            n == self.names().len(),
    {
        self.names.len()
    }

    /// Whether the map has no name.
    pub fn is_empty(&self) -> (r: bool)
        ensures
            r == (self.names().len() == 0),
    {
        self.names.len() == 0
    }

    /// The place of a name in the order, if the map has it.
    pub fn index_of(&self, name: &[u8]) -> (r: Option<usize>)
        ensures
            match r {
                Some(i) => key_index(self.names(), name@) == Some(i as int) && i
                    < self.names().len() && self.names()[i as int] == name@,
                None => !has_key(self.names(), name@),
            },
    {
        proof {
            use_type_invariant(self);
            lemma_lower_bound(self.names(), name@);
        }
        let (i, found) = find_key(&self.names, name);
        if found {
            Some(i)
        } else {
            None
        }
    }

    /// Whether the map has the name.
    pub fn contains_key(&self, name: &str) -> (r: bool)
        ensures
            r == has_key(self.names(), utf8(name@)),
    {
        self.index_of(name.as_bytes()).is_some()
    }

    /// The type registered under the name.
    pub fn get(&self, name: &str) -> (r: Option<&FieldType>)
        ensures
            match r {
                Some(t) => self.type_of(utf8(name@)) == Some(*t),
                None => self.type_of(utf8(name@)) is None,
            },
    {
        proof {
            use_type_invariant(self);
        }
        match self.index_of(name.as_bytes()) {
            Some(i) => Some(&self.types[i]),
            None => None,
        }
    }

    /// The name at a place in the order.
    pub fn name_at(&self, i: usize) -> (r: Option<&str>)
        ensures
            match r {
                Some(name) => i < self.names().len() && utf8(name@) == self.names()[i as int],
                None => i >= self.names().len(),
            },
    {
        if i < self.names.len() {
            Some(self.names[i].as_str())
        } else {
            None
        }
    }

    /// Registers a type under a name. A name that the map has already keeps
    /// its place and takes the new type; a new name is put at its place in
    /// the order.
    pub fn insert(&mut self, name: &str, ty: FieldType)
        ensures
            final(self).wf(),
            has_key(old(self).names(), utf8(name@)) ==> {
                &&& final(self).names() == old(self).names()
                &&& final(self).types() == old(self).types().update(
                    lower_bound(old(self).names(), utf8(name@)),
                    ty,
                )
            },
            !has_key(old(self).names(), utf8(name@)) ==> {
                &&& final(self).names() == old(self).names().insert(
                    lower_bound(old(self).names(), utf8(name@)),
                    utf8(name@),
                )
                &&& final(self).types() == old(self).types().insert(
                    lower_bound(old(self).names(), utf8(name@)),
                    ty,
                )
            },
            forall|key: Seq<u8>|
                #[trigger] final(self).type_of(key) == if key == utf8(name@) {
                    Some(ty)
                } else {
                    old(self).type_of(key)
                },
    {
        proof {
            use_type_invariant(&*self);
        }
        let ghost old_names = self.names();
        let ghost old_types = self.types();
        let ghost key = utf8(name@);
        let mut taken = FieldMap::new();
        std::mem::swap(self, &mut taken);
        let FieldMap { mut names, mut types } = taken;
        let (i, found) = find_key(&names, name.as_bytes());
        proof {
            lemma_lower_bound(old_names, key);
        }
        if found {
            types.set(i, ty);
            proof {
                assert forall|k: Seq<u8>| #[trigger]
                    type_at_key(old_names, types@, k) == if k == key {
                        Some(ty)
                    } else {
                        type_at_key(old_names, old_types, k)
                    } by {
                    if has_key(old_names, k) {
                        let j = key_index(old_names, k)->0;
                        if k == key {
                            lemma_sorted_distinct(old_names, j, i as int);
                        }
                    }
                }
            }
        } else {
            names.insert(i, name.to_owned());
            types.insert(i, ty);
            proof {
                lemma_insert_sorted(old_names, key);
                let new_names = old_names.insert(i as int, key);
                assert(key_bytes(names@) =~= new_names);
                assert forall|k: Seq<u8>| #[trigger]
                    type_at_key(new_names, types@, k) == if k == key {
                        Some(ty)
                    } else {
                        type_at_key(old_names, old_types, k)
                    } by {
                    if k == key {
                        lemma_key_index_at(new_names, i as int);
                    } else if has_key(old_names, k) {
                        let j = key_index(old_names, k)->0;
                        let j2 = if j < i {
                            j
                        } else {
                            j + 1
                        };
                        lemma_key_index_at(new_names, j2);
                    } else if has_key(new_names, k) {
                    }
                }
            }
        }
        *self = FieldMap { names, types };
    }
}

impl Clone for FieldMap {
    fn clone(&self) -> (r: Self)
        ensures
            r.wf(),
            r.names() == self.names(),
            r.types() == self.types(),
    {
        proof {
            use_type_invariant(self);
        }
        let mut names: Vec<String> = Vec::new();
        let mut types: Vec<FieldType> = Vec::new();
        let mut i: usize = 0;
        while i < self.names.len()
            invariant
                self.names@.len() == self.types@.len(),
                i <= self.names@.len(),
                names@.len() == i,
                types@.len() == i,
                forall|k: int| 0 <= k < i ==> #[trigger] names@[k]@ == self.names@[k]@,
                forall|k: int| 0 <= k < i ==> #[trigger] types@[k] == self.types@[k],
            decreases self.names@.len() - i,
        {
            names.push(self.names[i].clone());
            types.push(self.types[i].clone());
            i += 1;
        }
        proof {
            assert(key_bytes(names@) =~= key_bytes(self.names@));
        }
        FieldMap { names, types }
    }
}

/// The fields of a schema: their names, their types and their ids. The id
/// of a field is the place of its name in lexicographic order, so the ids
/// are `0..N` and depend on the set of names alone.
#[derive(Debug)]
pub struct FilterSchema {
    fields: FieldMap,
}

impl FilterSchema {
    /// The field names, as UTF-8 bytes; the id of a field is its index.
    pub closed spec fn names(&self) -> Seq<Seq<u8>> {
        self.fields.names()
    }

    /// The type of each field, by id.
    pub closed spec fn types(&self) -> Seq<FieldType> {
        self.fields.types()
    }

    /// The id of the field with the given name, if there is one.
    pub open spec fn id_of(&self, key: Seq<u8>) -> Option<int> {
        key_index(self.names(), key)
    }

    /// The type of the field with the given name, if there is one.
    pub open spec fn type_of(&self, key: Seq<u8>) -> Option<FieldType> {
        type_at_key(self.names(), self.types(), key)
    }

    /// The invariant of the type: that of its map.
    pub closed spec fn wf(&self) -> bool {
        self.fields.wf()
    }

    /// The names strictly increase: no name has two ids, and the ids follow
    /// the lexicographic order of the names.
    pub proof fn lemma_sorted(&self)
        requires
            self.wf(),
        ensures
            self.names().len() == self.types().len(),
            keys_sorted(self.names()),
    {
        self.fields.lemma_sorted();
    }

    /// The number of fields fits a machine word, so every field id is below
    /// the largest one.
    pub proof fn lemma_count(&self)
        ensures
            self.names().len() <= usize::MAX,
    {
        self.fields.lemma_count();
    }

    /// The type of a field.
    pub fn get_field_type(&self, name: &str) -> (r: Option<&FieldType>)
        ensures
            match r {
                Some(t) => self.type_of(utf8(name@)) == Some(*t),
                None => self.type_of(utf8(name@)) is None,
            },
    {
        self.fields.get(name)
    }

    /// The map from names to types.
    pub fn fields(&self) -> (r: &FieldMap)
        ensures
            r.names() == self.names(),
            r.types() == self.types(),
    {
        &self.fields
    }

    /// The id of a field.
    pub fn field_id(&self, name: &str) -> (r: Option<usize>)
        ensures
            match r {
                Some(id) => self.id_of(utf8(name@)) == Some(id as int) && id < self.names().len()
                    && self.names()[id as int] == utf8(name@),
                None => self.id_of(utf8(name@)) is None,
            },
    {
        self.fields.index_of(name.as_bytes())
    }

    /// The id of the field whose name has the given UTF-8 bytes.
    pub fn field_id_of_bytes(&self, name: &[u8]) -> (r: Option<usize>)
        ensures
            match r {
                Some(id) => self.id_of(name@) == Some(id as int) && id < self.names().len()
                    && self.names()[id as int] == name@,
                None => self.id_of(name@) is None,
            },
    {
        self.fields.index_of(name)
    }

    /// The name of the field with the given id.
    pub fn field_name(&self, id: usize) -> (r: Option<&str>)
        ensures
            match r {
                Some(name) => id < self.names().len() && utf8(name@) == self.names()[id as int],
                None => id >= self.names().len(),
            },
    {
        self.fields.name_at(id)
    }

    /// The number of fields.
    pub fn num_fields(&self) -> (n: usize)
        ensures
            n == self.names().len(),
    {
        self.fields.len()
    }
}

impl Clone for FilterSchema {
    fn clone(&self) -> (r: Self)
        ensures
            r.wf(),
            r.names() == self.names(),
            r.types() == self.types(),
    {
        FilterSchema { fields: self.fields.clone() }
    }
}

/// Collects the fields of a schema.
#[derive(Debug)]
pub struct FilterSchemaBuilder {
    fields: FieldMap,
}

impl FilterSchemaBuilder {
    /// The names collected so far, as UTF-8 bytes, in lexicographic order.
    pub closed spec fn names(&self) -> Seq<Seq<u8>> {
        self.fields.names()
    }

    /// The type of each collected name.
    pub closed spec fn types(&self) -> Seq<FieldType> {
        self.fields.types()
    }

    /// The type collected for the given name, if there is one.
    pub open spec fn type_of(&self, key: Seq<u8>) -> Option<FieldType> {
        type_at_key(self.names(), self.types(), key)
    }

    /// A builder without fields.
    pub fn new() -> (r: Self)
        ensures
            r.names().len() == 0,
            r.types().len() == 0,
    {
        FilterSchemaBuilder { fields: FieldMap::new() }
    }

    /// Adds a field. A name that was added before keeps its place and takes
    /// the new type; a new name is put at its place in the order.
    pub fn field(self, name: &str, ty: FieldType) -> (r: Self)
        ensures
            has_key(self.names(), utf8(name@)) ==> {
                &&& r.names() == self.names()
                &&& r.types() == self.types().update(lower_bound(self.names(), utf8(name@)), ty)
            },
            !has_key(self.names(), utf8(name@)) ==> {
                &&& r.names() == self.names().insert(
                    lower_bound(self.names(), utf8(name@)),
                    utf8(name@),
                )
                &&& r.types() == self.types().insert(lower_bound(self.names(), utf8(name@)), ty)
            },
            forall|key: Seq<u8>|
                #[trigger] r.type_of(key) == if key == utf8(name@) {
                    Some(ty)
                } else {
                    self.type_of(key)
                },
            r.names().len() == if has_key(self.names(), utf8(name@)) {
                self.names().len()
            } else {
                self.names().len() + 1
            },
            has_key(r.names(), utf8(name@)),
            forall|key: Seq<u8>| has_key(self.names(), key) ==> has_key(r.names(), key),
    {
        let mut fields = self.fields;
        let ghost before = fields.names();
        proof {
            use_type_invariant(&fields);
            fields.lemma_sorted();
            lemma_lower_bound(before, utf8(name@));
        }
        let ghost before_map = fields;
        fields.insert(name, ty);
        proof {
            assert forall|key: Seq<u8>|
                type_at_key(fields.names(), fields.types(), key) == if key == utf8(name@) {
                    Some(ty)
                } else {
                    type_at_key(before_map.names(), before_map.types(), key)
                } by {
                assert(fields.type_of(key) == if key == utf8(name@) {
                    Some(ty)
                } else {
                    before_map.type_of(key)
                });
            }
            let p = lower_bound(before, utf8(name@));
            if !has_key(before, utf8(name@)) {
                assert(fields.names()[p] == utf8(name@));
            }
            assert forall|key: Seq<u8>| has_key(before, key) implies has_key(
                fields.names(),
                key,
            ) by {
                let j = key_index(before, key)->0;
                if !has_key(before, utf8(name@)) {
                    let j2 = if j < p {
                        j
                    } else {
                        j + 1
                    };
                    assert(fields.names()[j2] == key);
                }
            }
        }
        FilterSchemaBuilder { fields }
    }

    /// The schema of the collected fields.
    pub fn build(self) -> (r: FilterSchema)
        ensures
            r.wf(),
            r.names() == self.names(),
            r.types() == self.types(),
    {
        proof {
            use_type_invariant(&self.fields);
        }
        FilterSchema { fields: self.fields }
    }
}

impl Default for FilterSchemaBuilder {
    fn default() -> (r: Self)
        ensures
            r.names().len() == 0,
            r.types().len() == 0,
    {
        FilterSchemaBuilder::new()
    }
}

/// The ids of a schema depend on the set of its names alone: two schemas
/// with the same names give each name the same id.
pub proof fn lemma_ids_depend_on_names(a: &FilterSchema, b: &FilterSchema)
    requires
        a.wf(),
        b.wf(),
        same_keys(a.names(), b.names()),
    ensures
        a.names() == b.names(),
        forall|key: Seq<u8>| a.id_of(key) == b.id_of(key),
{
    a.lemma_sorted();
    b.lemma_sorted();
    lemma_sorted_unique(a.names(), b.names());
}

/// Ids and names are a bijection: the field named by an id has that id.
pub proof fn lemma_field_id_of_name(schema: &FilterSchema, id: int)
    requires
        schema.wf(),
        0 <= id < schema.names().len(),
    ensures
        schema.id_of(schema.names()[id]) == Some(id),
{
    schema.lemma_sorted();
    lemma_key_index_at(schema.names(), id);
}

/// The id of a name leads back to the name.
pub proof fn lemma_field_name_of_id(schema: &FilterSchema, key: Seq<u8>)
    requires
        schema.id_of(key) is Some,
    ensures
        0 <= schema.id_of(key)->0 < schema.names().len(),
        schema.names()[schema.id_of(key)->0] == key,
{
}

} // verus!

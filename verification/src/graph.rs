use vstd::prelude::*;
use crate::error::owned;
use crate::text::{to_lowercase, unicode_lowercase};
use crate::value::{FieldValue, ValueModel};

verus! {

broadcast use {
    vstd::std_specs::vec::axiom_vec_decreases_to_view,
    vstd::std_specs::vec::axiom_vec_index_decreases,
};

/// A field of an entity: its name and its value.
pub struct Field {
    pub name: String,
    pub value: FieldValue,
}

/// An entity of a workspace: an id, a type, and named fields.
pub struct Entity {
    pub id: String,
    pub entity_type: String,
    pub fields: Vec<Field>,
}

/// The position of the first field with the given name.
pub open spec fn field_position(fields: Seq<Field>, name: Seq<char>) -> Option<int>
    decreases fields.len(),
{
    if fields.len() == 0 {
        None
    } else if fields[0].name@ == name {
        Some(0)
    } else {
        match field_position(fields.drop_first(), name) {
            Some(i) => Some(i + 1),
            None => None,
        }
    }
}

/// The value of the first field with the given name.
pub open spec fn field_value(e: Entity, name: Seq<char>) -> Option<ValueModel> {
    match field_position(e.fields@, name) {
        Some(i) => Some(e.fields@[i].value@),
        None => None,
    }
}

pub proof fn lemma_field_position(fields: Seq<Field>, name: Seq<char>)
    ensures
        field_position(fields, name) matches Some(i) ==> 0 <= i < fields.len() && fields[i].name@
            == name && forall|j: int| 0 <= j < i ==> fields[j].name@ != name,
        field_position(fields, name) is None ==> forall|j: int|
            0 <= j < fields.len() ==> fields[j].name@ != name,
    decreases fields.len(),
{
    if fields.len() > 0 {
        lemma_field_position(fields.drop_first(), name);
        if fields[0].name@ != name {
            assert forall|j: int| 1 <= j < fields.len() implies fields[j] == fields.drop_first()[j
                - 1] by {}
        }
    }
}

impl FieldValue {
    /// A copy of the value.
    pub fn duplicate(&self) -> (r: FieldValue)
        ensures
            r@ == self@,
        decreases self,
    {
        match self {
            FieldValue::String(s) => FieldValue::String(s.clone()),
            FieldValue::Integer(i) => FieldValue::Integer(*i),
            FieldValue::Float(b) => FieldValue::Float(*b),
            FieldValue::Boolean(b) => FieldValue::Boolean(*b),
            FieldValue::Currency { amount, currency } => FieldValue::Currency {
                amount: amount.clone(),
                currency: currency.clone(),
            },
            FieldValue::Reference(r) => FieldValue::Reference(
                match r {
                    crate::value::ReferenceValue::Entity(id) => crate::value::ReferenceValue::Entity(
                        id.clone(),
                    ),
                    crate::value::ReferenceValue::Field(id, f) => crate::value::ReferenceValue::Field(
                        id.clone(),
                        f.clone(),
                    ),
                },
            ),
            FieldValue::List(items) => {
                let mut v: Vec<FieldValue> = Vec::new();
                let mut i: usize = 0;
                while i < items.len()
                    invariant
                        i <= items.len(),
                        v@.len() == i,
                        forall|j: int| 0 <= j < i ==> #[trigger] v@[j]@ == items@[j]@,
                        *self == FieldValue::List(*items),
                    decreases items.len() - i,
                {
                    assert(decreases_to!(*self => (*self)->List_0));
                    assert(decreases_to!(*items => items@[i as int]));
                    let x = items[i].duplicate();
                    v.push(x);
                    i = i + 1;
                }
                proof {
                    lemma_list_model_pointwise(v@, items@);
                }
                FieldValue::List(v)
            },
            FieldValue::DateTime(d) => FieldValue::DateTime(
                crate::value::DateTimeValue {
                    seconds: d.seconds,
                    nanos: d.nanos,
                    text: d.text.clone(),
                },
            ),
            FieldValue::Path(p) => FieldValue::Path(p.clone()),
        }
    }
}

/// Lists whose items have equal models have equal models.
pub proof fn lemma_list_model_pointwise(a: Seq<FieldValue>, b: Seq<FieldValue>)
    requires
        a.len() == b.len(),
        forall|j: int| 0 <= j < a.len() ==> #[trigger] a[j]@ == b[j]@,
    ensures
        crate::value::list_model(a) == crate::value::list_model(b),
    decreases a.len(),
{
    if a.len() > 0 {
        assert(a[0]@ == b[0]@);
        let a1 = a.subrange(1, a.len() as int);
        let b1 = b.subrange(1, b.len() as int);
        assert forall|j: int| 0 <= j < a1.len() implies #[trigger] a1[j]@ == b1[j]@ by {
            assert(a1[j] == a[j + 1]);
            assert(b1[j] == b[j + 1]);
        }
        lemma_list_model_pointwise(a1, b1);
    }
}

impl Entity {
    /// A new entity with no fields; its type is kept in lower case.
    pub fn new(id: &str, entity_type: &str) -> (r: Entity)
        ensures
            r.id@ == id@,
            r.entity_type@ == unicode_lowercase(entity_type@),
            r.fields@.len() == 0,
    {
        Entity { id: owned(id), entity_type: to_lowercase(entity_type), fields: Vec::new() }
    }

    /// The entity with the field set: an existing field of that name gets the value,
    /// otherwise the field is added at the end.
    pub fn with_field(self, name: &str, value: FieldValue) -> (r: Entity)
        ensures
            r.id == self.id,
            r.entity_type == self.entity_type,
            field_position(self.fields@, name@) matches Some(i) ==> r.fields@ == self.fields@.update(
                i,
                Field { name: self.fields@[i].name, value },
            ),
            field_position(self.fields@, name@) is None ==> r.fields@ == self.fields@.push(
                Field { name: r.fields@.last().name, value },
            ) && r.fields@.last().name@ == name@,
    {
        let mut e = self;
        match e.position_of(name) {
            Some(i) => {
                let n = e.fields[i].name.clone();
                e.fields.set(i, Field { name: n, value });
            },
            None => {
                e.fields.push(Field { name: owned(name), value });
            },
        }
        e
    }

    /// The position of the first field with the given name.
    pub fn position_of(&self, name: &str) -> (r: Option<usize>)
        ensures
            r matches Some(i) ==> i < self.fields.len() && field_position(self.fields@, name@) == Some(
                i as int,
            ),
            r is None ==> field_position(self.fields@, name@) is None,
    {
        let mut i: usize = 0;
        while i < self.fields.len()
            invariant
                i <= self.fields.len(),
                forall|j: int| 0 <= j < i ==> self.fields@[j].name@ != name@,
            decreases self.fields.len() - i,
        {
            if crate::text::str_equal(self.fields[i].name.as_str(), name) {
                proof {
                    lemma_field_position(self.fields@, name@);
                    match field_position(self.fields@, name@) {
                        Some(k) => {
                            assert(k == i);
                        },
                        None => {},
                    }
                }
                return Some(i);
            }
            i = i + 1;
        }
        proof {
            lemma_field_position(self.fields@, name@);
        }
        None
    }

    /// The value of the field with the given name.
    pub fn get_field(&self, name: &str) -> (r: Option<&FieldValue>)
        ensures
            r matches Some(v) ==> field_value(*self, name@) == Some(v@),
            r is None ==> field_value(*self, name@) is None,
    {
        match self.position_of(name) {
            Some(i) => Some(&self.fields[i].value),
            None => None,
        }
    }
}

/// A collection of entities, in the order in which they were added.
pub struct EntityGraph {
    pub entities: Vec<Entity>,
}

/// The position of the first entity with the given id.
pub open spec fn entity_position(es: Seq<Entity>, id: Seq<char>) -> Option<int>
    decreases es.len(),
{
    if es.len() == 0 {
        None
    } else if es[0].id@ == id {
        Some(0)
    } else {
        match entity_position(es.drop_first(), id) {
            Some(i) => Some(i + 1),
            None => None,
        }
    }
}

pub proof fn lemma_entity_position(es: Seq<Entity>, id: Seq<char>)
    ensures
        entity_position(es, id) matches Some(i) ==> 0 <= i < es.len() && es[i].id@ == id
            && forall|j: int| 0 <= j < i ==> es[j].id@ != id,
        entity_position(es, id) is None ==> forall|j: int| 0 <= j < es.len() ==> es[j].id@ != id,
    decreases es.len(),
{
    if es.len() > 0 {
        lemma_entity_position(es.drop_first(), id);
        if es[0].id@ != id {
            assert forall|j: int| 1 <= j < es.len() implies es[j] == es.drop_first()[j - 1] by {}
        }
    }
}

/// The positions of the entities of a type, in order.
pub open spec fn positions_of_type(es: Seq<Entity>, t: Seq<char>) -> Seq<nat>
    decreases es.len(),
{
    if es.len() == 0 {
        Seq::empty()
    } else {
        let rest = positions_of_type(es.drop_last(), t);
        if es.last().entity_type@ == t {
            rest.push((es.len() - 1) as nat)
        } else {
            rest
        }
    }
}

/// The distinct entity types, in the order in which they first occur.
pub open spec fn distinct_types(es: Seq<Entity>) -> Seq<Seq<char>>
    decreases es.len(),
{
    if es.len() == 0 {
        Seq::empty()
    } else {
        let rest = distinct_types(es.drop_last());
        if rest.contains(es.last().entity_type@) {
            rest
        } else {
            rest.push(es.last().entity_type@)
        }
    }
}

impl EntityGraph {
    /// An empty graph.
    pub fn new() -> (r: EntityGraph)
        ensures
            r.entities@.len() == 0,
    {
        EntityGraph { entities: Vec::new() }
    }

    /// Adds an entity; refused when an entity with the same id is already there.
    pub fn add_entity(&mut self, entity: Entity) -> (r: Result<(), String>)
        ensures
            entity_position(old(self).entities@, entity.id@) is None ==> r is Ok
                && final(self).entities@ == old(self).entities@.push(entity),
            entity_position(old(self).entities@, entity.id@) is Some ==> r is Err
                && final(self).entities@ == old(self).entities@,
    {
        match self.find_entity(entity.id.as_str()) {
            Some(_) => {
                let mut m = owned("Entity already exists: ");
                vstd::string::StringExecFns::append(&mut m, entity.id.as_str());
                Err(m)
            },
            None => {
                self.entities.push(entity);
                Ok(())
            },
        }
    }

    /// Prepares the graph for queries; entities are looked up directly, so there is
    /// nothing to build.
    pub fn build(&mut self)
        ensures
            final(self).entities@ == old(self).entities@,
    {
    }

    /// The position of the entity with the given id.
    pub fn find_entity(&self, id: &str) -> (r: Option<usize>)
        ensures
            r matches Some(i) ==> i < self.entities.len() && entity_position(self.entities@, id@)
                == Some(i as int),
            r is None ==> entity_position(self.entities@, id@) is None,
    {
        let mut i: usize = 0;
        while i < self.entities.len()
            invariant
                i <= self.entities.len(),
                forall|j: int| 0 <= j < i ==> self.entities@[j].id@ != id@,
            decreases self.entities.len() - i,
        {
            if crate::text::str_equal(self.entities[i].id.as_str(), id) {
                proof {
                    lemma_entity_position(self.entities@, id@);
                    match entity_position(self.entities@, id@) {
                        Some(k) => {
                            assert(k == i);
                        },
                        None => {},
                    }
                }
                return Some(i);
            }
            i = i + 1;
        }
        proof {
            lemma_entity_position(self.entities@, id@);
        }
        None
    }

    /// The positions of the entities of a type, in the order in which they were added.
    pub fn list_by_type(&self, entity_type: &str) -> (r: Vec<usize>)
        ensures
            r@.map_values(|i: usize| i as nat) == positions_of_type(self.entities@, entity_type@),
    {
        let mut r: Vec<usize> = Vec::new();
        let mut i: usize = 0;
        while i < self.entities.len()
            invariant
                i <= self.entities.len(),
                r@.map_values(|k: usize| k as nat) == positions_of_type(
                    self.entities@.take(i as int),
                    entity_type@,
                ),
            decreases self.entities.len() - i,
        {
            assert(self.entities@.take(i + 1).drop_last() == self.entities@.take(i as int));
            if crate::text::str_equal(self.entities[i].entity_type.as_str(), entity_type) {
                r.push(i);
                assert(r@.map_values(|k: usize| k as nat) == positions_of_type(
                    self.entities@.take(i as int),
                    entity_type@,
                ).push(i as nat));
            }
            i = i + 1;
        }
        assert(self.entities@.take(self.entities.len() as int) == self.entities@);
        r
    }

    /// The distinct entity types of the graph, in the order in which they first occur.
    pub fn get_all_entity_types(&self) -> (r: Vec<String>)
        ensures
            r@.map_values(|s: String| s@) == distinct_types(self.entities@),
    {
        let mut r: Vec<String> = Vec::new();
        let mut i: usize = 0;
        while i < self.entities.len()
            invariant
                i <= self.entities.len(),
                r@.map_values(|s: String| s@) == distinct_types(self.entities@.take(i as int)),
            decreases self.entities.len() - i,
        {
            assert(self.entities@.take(i + 1).drop_last() == self.entities@.take(i as int));
            let t = &self.entities[i].entity_type;
            let mut found = false;
            let mut k: usize = 0;
            while k < r.len()
                invariant
                    k <= r.len(),
                    found == exists|j: int| 0 <= j < k && r@[j]@ == t@,
                decreases r.len() - k,
            {
                if crate::text::str_equal(r[k].as_str(), t.as_str()) {
                    found = true;
                }
                k = k + 1;
            }
            let ghost seen = r@.map_values(|s: String| s@);
            assert(found == seen.contains(t@)) by {
                if found {
                    let j = choose|j: int| 0 <= j < r.len() && r@[j]@ == t@;
                    assert(seen[j] == t@);
                }
                if seen.contains(t@) {
                    let j = choose|j: int| 0 <= j < seen.len() && seen[j] == t@;
                    assert(r@[j]@ == t@);
                }
            }
            if !found {
                r.push(t.clone());
                assert(r@.map_values(|s: String| s@) == seen.push(t@));
            }
            i = i + 1;
        }
        assert(self.entities@.take(self.entities.len() as int) == self.entities@);
        r
    }
}

} // verus!

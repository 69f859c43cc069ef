//! The builder definition: the processed fields, the method table, and the
//! validation and assembly plan of the terminal `build` operation.

use vstd::prelude::*;
use crate::methods::{
    MethodEntry, SetterKind, build_table, find_method, method_map, table_map, table_names_unique,
};
use crate::schema::{
    FieldDescriptor, FieldSpec, RecordSchema, SchemaError, describes, field_fault, indexes_exactly,
    parser_decides,
};
use crate::shape::{TypeShape, element_of, item_of};

verus! {

/// Everything the emission backend needs to write a builder for one record.
pub struct BuilderDef {
    pub schema: RecordSchema,
    /// The generated setters, keyed by name.
    pub methods: Vec<MethodEntry>,
    /// The mandatory fields, in field order: `build` fails if any is unset.
    pub mandatory: Vec<usize>,
    /// The optional fields, in field order: `build` passes their slots on.
    pub optional: Vec<usize>,
}

impl BuilderDef {
    pub open spec fn fields(&self) -> Seq<FieldDescriptor> {
        self.schema.fields@
    }

    /// The method table as a map from method name to field index and kind.
    pub open spec fn method_map(&self) -> Map<Seq<char>, (usize, SetterKind)> {
        table_map(self.methods@)
    }

    pub open spec fn wf(&self) -> bool {
        &&& self.schema.wf()
        &&& table_names_unique(self.methods@)
        &&& table_map(self.methods@) == method_map(self.fields())
        &&& forall|k: int|
            0 <= k < self.methods@.len() ==> (#[trigger] self.methods@[k]).field
                < self.fields().len()
        &&& indexes_exactly(self.mandatory@, self.fields(), false)
        &&& indexes_exactly(self.optional@, self.fields(), true)
    }

    /// Every method of the table sets a field of the record.
    pub proof fn lemma_setter_field(&self, name: Seq<char>)
        requires
            self.wf(),
            self.method_map().contains_key(name),
        ensures
            self.method_map()[name].0 < self.fields().len(),
    {
        crate::methods::lemma_table_entries(self.methods@);
        let k = choose|k: int| 0 <= k < self.methods@.len() && self.methods@[k].name@ == name;
        assert(self.methods@[k].field < self.fields().len());
    }

    /// Composes the classifier's partition and the method table over a
    /// processed schema.
    pub fn from_schema(schema: RecordSchema) -> (r: BuilderDef)
        requires
            schema.wf(),
        ensures
            r.wf(),
            r.schema == schema,
    {
        let methods = build_table(&schema.fields);
        let mandatory = schema.mandatory_fields();
        let optional = schema.optional_fields();
        BuilderDef { schema, methods, mandatory, optional }
    }

    /// Processes the fields and composes the builder definition; fails as
    /// schema processing does (see `RecordSchema::process`), and emits
    /// nothing then.
    pub fn derive(specs: Vec<FieldSpec>) -> (r: Result<BuilderDef, SchemaError>)
        ensures
            r matches Ok(d) ==> {
                &&& d.wf()
                &&& d.fields().len() == specs@.len()
                &&& forall|i: int|
                    0 <= i < specs@.len() ==> describes(#[trigger] d.fields()[i], specs@[i])
            },
            r is Ok ==> forall|i: int| 0 <= i < specs@.len() ==> field_fault(specs@, i) is None,
            (forall|i: int|
                0 <= i < specs@.len() ==> field_fault(specs@, i) is None && !parser_decides(
                    #[trigger] specs@[i],
                )) ==> r is Ok,
            r matches Err(e) ==> exists|i: int|
                0 <= i < specs@.len() && (field_fault(specs@, i) == Some(e) || (parser_decides(
                    specs@[i],
                ) && e == SchemaError::Attribute(specs@[i].name))) && forall|j: int|
                    0 <= j < i ==> field_fault(specs@, j) is None,
    {
        match RecordSchema::process(specs) {
            Ok(schema) => Ok(BuilderDef::from_schema(schema)),
            Err(e) => Err(e),
        }
    }

    /// The index of the method named `name`, if there is one.
    pub fn method(&self, name: &str) -> (r: Option<usize>)
        requires
            self.wf(),
        ensures
            r matches Some(k) ==> k < self.methods@.len() && self.methods@[k as int].name@
                == name@,
            r is None <==> !self.method_map().contains_key(name@),
    {
        find_method(&self.methods, name)
    }

    /// The parameter type of method `m`: the field's element type for a
    /// replacing setter, the item type of that element type (the sequence's
    /// item) for an accumulating one.
    pub fn param_type(&self, m: usize) -> (r: &TypeShape)
        requires
            self.wf(),
            m < self.methods@.len(),
        ensures
            ({
                let e = self.methods@[m as int];
                let d = self.fields()[e.field as int];
                *r == match e.kind {
                    SetterKind::Replace => element_of(d.declared),
                    SetterKind::Append => item_of(element_of(d.declared)),
                }
            }),
    {
        let e = &self.methods[m];
        let d = &self.schema.fields[e.field];
        assert(d.wf());
        proof {
            crate::methods::lemma_table_entries(self.methods@);
            crate::methods::lemma_append_has_directive(self.fields());
            assert(self.method_map().contains_key(e.name@));
        }
        match e.kind {
            SetterKind::Replace => d.declared.element_type(),
            SetterKind::Append => d.declared.element_type().item_type(),
        }
    }
}

} // verus!

//! A record schema: the fields of a record type as the schema provider gives
//! them, processed in one pass into field descriptors.

use vstd::prelude::*;
use crate::directive::{Attribute, each_directive, extract_each, opt_view};
use crate::shape::{TypeShape, element_of, has_item_type, is_optional_shape, shape_ok};

verus! {

/// A field as the schema provider gives it.
pub struct FieldSpec {
    pub name: String,
    pub ty: TypeShape,
    pub attrs: Vec<Attribute>,
}

/// A processed field: its name, declared type, whether it is optional, and the
/// name of its accumulating setter, if it has one.
pub struct FieldDescriptor {
    pub name: String,
    pub declared: TypeShape,
    pub optional: bool,
    pub each: Option<String>,
}

/// The ordered fields of one record type.
pub struct RecordSchema {
    pub fields: Vec<FieldDescriptor>,
}

/// Why a schema cannot be processed; each names the field at fault.
#[derive(Debug, PartialEq, Eq)]
pub enum SchemaError {
    /// The declared type is not a recognised named-path shape.
    TypeShape(String),
    /// The field's directive is malformed, or it has more than one.
    Attribute(String),
    /// The field's name is used by an earlier field.
    DuplicateField(String),
}

/// What is wrong with the field at `i`, checked in this order: its shape,
/// the shape of its directives, an item type for a field with a directive,
/// the uniqueness of its name among the fields before it.
pub open spec fn field_fault(specs: Seq<FieldSpec>, i: int) -> Option<SchemaError> {
    let f = specs[i];
    if !shape_ok(f.ty) {
        Some(SchemaError::TypeShape(f.name))
    } else if each_directive(f.attrs@) is Err {
        Some(SchemaError::Attribute(f.name))
    } else if each_directive(f.attrs@) matches Ok(Some(_)) && !has_item_type(element_of(f.ty)) {
        Some(SchemaError::TypeShape(f.name))
    } else if exists|j: int| 0 <= j < i && #[trigger] specs[j].name@ == f.name@ {
        Some(SchemaError::DuplicateField(f.name))
    } else {
        None
    }
}

/// Whether the identifier parser has a say on the field: its type is
/// recognised and it has one directive of the accepted shape, whose literal
/// the parser must read back unchanged.
pub open spec fn parser_decides(f: FieldSpec) -> bool {
    shape_ok(f.ty) && each_directive(f.attrs@) matches Ok(Some(_))
}

/// The descriptor that a sound field spec yields.
pub open spec fn describes(d: FieldDescriptor, f: FieldSpec) -> bool {
    &&& d.name == f.name
    &&& d.declared == f.ty
    &&& d.optional == is_optional_shape(f.ty)
    &&& each_directive(f.attrs@) == Ok::<_, ()>(opt_view(d.each))
}

/// Field names are unique.
pub open spec fn names_unique(fields: Seq<FieldDescriptor>) -> bool {
    forall|i: int, j: int|
        0 <= i < fields.len() && 0 <= j < fields.len() && i != j ==> #[trigger] fields[i].name@
            != #[trigger] fields[j].name@
}

/// `r` lists, in increasing order, exactly the indices of the fields whose
/// optionality is `optional`.
pub open spec fn indexes_exactly(r: Seq<usize>, fields: Seq<FieldDescriptor>, optional: bool) -> bool {
    &&& forall|a: int, b: int| 0 <= a < b < r.len() ==> r[a] < r[b]
    &&& forall|k: int| 0 <= k < r.len() ==> #[trigger] r[k] < fields.len() && fields[r[k] as int].optional == optional
    &&& forall|i: int|
        0 <= i < fields.len() && #[trigger] fields[i].optional == optional ==> lists(r, i)
}

/// `r` holds the index `i`.
pub open spec fn lists(r: Seq<usize>, i: int) -> bool {
    exists|k: int| 0 <= k < r.len() && #[trigger] r[k] as int == i
}

impl FieldDescriptor {
    pub open spec fn wf(&self) -> bool {
        &&& shape_ok(self.declared)
        &&& self.optional == is_optional_shape(self.declared)
        &&& self.each is Some ==> has_item_type(element_of(self.declared))
    }
}

impl RecordSchema {
    /// Well-formed: every descriptor is, and names are unique.
    pub open spec fn wf(&self) -> bool {
        &&& forall|i: int| 0 <= i < self.fields@.len() ==> (#[trigger] self.fields@[i]).wf()
        &&& names_unique(self.fields@)
        &&& self.fields@.len() <= usize::MAX
    }

    /// The indices of the fields with the given optionality, in field order.
    fn indices_where(&self, optional: bool) -> (r: Vec<usize>)
        ensures
            indexes_exactly(r@, self.fields@, optional),
    {
        let mut r: Vec<usize> = Vec::new();
        let mut i: usize = 0;
        while i < self.fields.len()
            invariant
                i <= self.fields@.len(),
                forall|a: int, b: int| 0 <= a < b < r@.len() ==> r@[a] < r@[b],
                forall|k: int|
                    0 <= k < r@.len() ==> #[trigger] r@[k] < i && self.fields@[r@[k] as int].optional
                        == optional,
                forall|j: int|
                    0 <= j < i && #[trigger] self.fields@[j].optional == optional ==> lists(r@, j),
            decreases self.fields@.len() - i,
        {
            if self.fields[i].optional == optional {
                let ghost before = r@;
                r.push(i);
                assert(forall|k: int| 0 <= k < before.len() ==> r@[k] == before[k]);
                assert(r@[r@.len() - 1] == i);
                assert(lists(r@, i as int));
            }
            i = i + 1;
        }
        r
    }

    /// The mandatory fields, by index in field order.
    pub fn mandatory_fields(&self) -> (r: Vec<usize>)
        ensures
            indexes_exactly(r@, self.fields@, false),
    {
        self.indices_where(false)
    }

    /// The optional fields, by index in field order.
    pub fn optional_fields(&self) -> (r: Vec<usize>)
        ensures
            indexes_exactly(r@, self.fields@, true),
    {
        self.indices_where(true)
    }

    /// Processes the fields in one pass, and stops at the first field with a
    /// fault, or whose directive's literal the identifier parser does not
    /// read back unchanged (an `Attribute` error). Otherwise yields one
    /// descriptor per field, in order.
    pub fn process(specs: Vec<FieldSpec>) -> (r: Result<RecordSchema, SchemaError>)
        ensures
            r matches Ok(s) ==> {
                &&& s.wf()
                &&& s.fields@.len() == specs@.len()
                &&& forall|i: int|
                    0 <= i < specs@.len() ==> describes(#[trigger] s.fields@[i], specs@[i])
            },
            r is Ok ==> forall|i: int| 0 <= i < specs@.len() ==> field_fault(specs@, i) is None,
            (forall|i: int|
                0 <= i < specs@.len() ==> field_fault(specs@, i) is None && !parser_decides(
                    #[trigger] specs@[i],
                )) ==> r is Ok,
            r matches Err(e) ==> exists|i: int|
                0 <= i < specs@.len() && (field_fault(specs@, i) == Some(e) || (parser_decides(
                    specs@[i],
                ) && e == SchemaError::Attribute(specs@[i].name))) && forall|j: int|
                    0 <= j < i ==> field_fault(specs@, j) is None,
    {
        let ghost orig = specs@;
        let n = specs.len();
        let mut rest = specs;
        let mut fields: Vec<FieldDescriptor> = Vec::new();
        let mut i: usize = 0;
        while i < n
            invariant
                orig == specs@,
                n == orig.len(),
                i <= n,
                rest@ == orig.subrange(i as int, n as int),
                fields@.len() == i,
                forall|k: int| 0 <= k < i ==> field_fault(orig, k) is None,
                forall|k: int| 0 <= k < i ==> describes(#[trigger] fields@[k], orig[k]),
                forall|k: int| 0 <= k < i ==> (#[trigger] fields@[k]).wf(),
                names_unique(fields@),
            decreases n - i,
        {
            let f = rest.remove(0);
            assert(f == orig[i as int]);
            if !f.ty.is_well_formed() {
                assert(field_fault(orig, i as int) == Some(SchemaError::TypeShape(f.name)));
                return Err(SchemaError::TypeShape(f.name));
            }
            let each = match extract_each(&f.attrs) {
                Ok(e) => e,
                Err(()) => {
                    return Err(SchemaError::Attribute(f.name));
                },
            };
            if each.is_some() && !f.ty.element_type().has_item_type() {
                assert(field_fault(orig, i as int) == Some(SchemaError::TypeShape(f.name)));
                return Err(SchemaError::TypeShape(f.name));
            }
            let mut j: usize = 0;
            while j < i
                invariant
                    j <= i,
                    i == fields@.len(),
                    i < orig.len(),
                    orig == specs@,
                    f == orig[i as int],
                    forall|k: int| 0 <= k < i ==> field_fault(orig, k) is None,
                    shape_ok(f.ty),
                    each_directive(f.attrs@) == Ok::<_, ()>(opt_view(each)),
                    each is Some ==> has_item_type(element_of(f.ty)),
                    forall|k: int| 0 <= k < i ==> describes(#[trigger] fields@[k], orig[k]),
                    forall|k: int| 0 <= k < j ==> orig[k].name@ != f.name@,
                decreases i - j,
            {
                if fields[j].name == f.name {
                    assert(describes(fields@[j as int], orig[j as int]));
                    assert(orig[j as int].name@ == orig[i as int].name@);
                    assert(field_fault(orig, i as int) == Some(
                        SchemaError::DuplicateField(f.name),
                    ));
                    return Err(SchemaError::DuplicateField(f.name));
                }
                j = j + 1;
            }
            let optional = f.ty.is_optional();
            let d = FieldDescriptor { name: f.name, declared: f.ty, optional, each };
            proof {
                assert(field_fault(orig, i as int) is None);
                assert(forall|k: int| 0 <= k < i ==> fields@[k].name@ != d.name@);
            }
            fields.push(d);
            i = i + 1;
        }
        Ok(RecordSchema { fields })
    }
}

} // verus!

//! Running a builder: slots that start unset, setters that fill them, and a
//! terminal `build` that validates the mandatory fields and assembles the
//! record.

use vstd::prelude::*;
use crate::definition::BuilderDef;
use crate::methods::SetterKind;
use crate::schema::{FieldDescriptor, lists};

verus! {

/// A value stored in a slot: a single value, or a sequence of elements.
#[derive(Debug, PartialEq, Eq)]
pub enum Value<T> {
    One(T),
    Many(Vec<T>),
}

/// The mathematical form of a `Value`.
pub enum ValueModel<T> {
    One(T),
    Many(Seq<T>),
}

impl<T> Value<T> {
    pub open spec fn model(&self) -> ValueModel<T> {
        match self {
            Value::One(x) => ValueModel::One(*x),
            Value::Many(xs) => ValueModel::Many(xs@),
        }
    }
}

pub open spec fn slot_model<T>(s: Option<Value<T>>) -> Option<ValueModel<T>> {
    match s {
        Some(v) => Some(v.model()),
        None => None,
    }
}

/// Whether a slot holds a single value rather than a sequence.
pub open spec fn holds_single<T>(s: Option<ValueModel<T>>) -> bool {
    s matches Some(ValueModel::One(_))
}

/// The sequence that appending extends: the one in the slot, or none where
/// the slot is unset.
pub open spec fn accumulated<T>(s: Option<ValueModel<T>>) -> Seq<T> {
    match s {
        Some(ValueModel::Many(xs)) => xs,
        _ => Seq::empty(),
    }
}

/// The slot after one element is appended to an unset slot or a sequence:
/// the sequence gains the element at its end.
pub open spec fn appended<T>(s: Option<ValueModel<T>>, x: T) -> ValueModel<T> {
    ValueModel::Many(accumulated(s).push(x))
}

/// The slots of one builder instance, one per field of its definition.
pub struct BuilderState<T> {
    pub slots: Vec<Option<Value<T>>>,
}

impl<T> View for BuilderState<T> {
    type V = Seq<Option<ValueModel<T>>>;

    open spec fn view(&self) -> Seq<Option<ValueModel<T>>> {
        self.slots@.map_values(|s: Option<Value<T>>| slot_model(s))
    }
}

/// Why a setter call was refused.
#[derive(Debug, PartialEq, Eq)]
pub enum CallError {
    /// The name is no setter of the kind called.
    NoSuchSetter,
    /// An element was to be appended to a slot that holds a single value.
    NotASequence,
}

/// The failure of `build`: the mandatory fields still unset, in field order.
#[derive(Debug, PartialEq, Eq)]
pub enum BuildError {
    MissingMandatoryFields(Vec<String>),
}

impl BuildError {
    pub open spec fn model(&self) -> Seq<Seq<char>> {
        match self {
            BuildError::MissingMandatoryFields(names) => names@.map_values(|s: String| s@),
        }
    }
}

/// One field of an assembled record, in field order.
#[derive(Debug, PartialEq, Eq)]
pub enum FieldValue<T> {
    /// A mandatory field's value.
    Mandatory(Value<T>),
    /// An optional field's slot: absent where it was never set.
    Optional(Option<Value<T>>),
}

pub enum FieldModel<T> {
    Mandatory(ValueModel<T>),
    Optional(Option<ValueModel<T>>),
}

impl<T> FieldValue<T> {
    pub open spec fn model(&self) -> FieldModel<T> {
        match self {
            FieldValue::Mandatory(v) => FieldModel::Mandatory(v.model()),
            FieldValue::Optional(o) => FieldModel::Optional(slot_model(*o)),
        }
    }
}

/// An assembled record: one value per field, in field order.
#[derive(Debug, PartialEq, Eq)]
pub struct Record<T> {
    pub fields: Vec<FieldValue<T>>,
}

impl<T> Record<T> {
    pub open spec fn model(&self) -> Seq<FieldModel<T>> {
        self.fields@.map_values(|f: FieldValue<T>| f.model())
    }
}

/// The slots after the setter `name` is called with `v`, where it is a
/// replacing setter.
pub open spec fn after_set<T>(
    def: BuilderDef,
    s: Seq<Option<ValueModel<T>>>,
    name: Seq<char>,
    v: ValueModel<T>,
) -> Seq<Option<ValueModel<T>>> {
    s.update(def.method_map()[name].0 as int, Some(v))
}

/// The slots after the setter `name` is called with `x`, where it is an
/// accumulating setter.
pub open spec fn after_push<T>(
    def: BuilderDef,
    s: Seq<Option<ValueModel<T>>>,
    name: Seq<char>,
    x: T,
) -> Seq<Option<ValueModel<T>>> {
    let f = def.method_map()[name].0 as int;
    s.update(f, Some(appended(s[f], x)))
}

pub open spec fn is_setter(def: BuilderDef, name: Seq<char>, kind: SetterKind) -> bool {
    def.method_map().contains_key(name) && def.method_map()[name].1 == kind
}

/// The names of the fields listed in `mandatory` whose slots are unset, in
/// the order of that list.
pub open spec fn missing_names<T>(
    fields: Seq<FieldDescriptor>,
    mandatory: Seq<usize>,
    s: Seq<Option<ValueModel<T>>>,
) -> Seq<Seq<char>>
    decreases mandatory.len(),
{
    if mandatory.len() == 0 {
        Seq::empty()
    } else {
        let prior = missing_names(fields, mandatory.drop_last(), s);
        let i = mandatory.last() as int;
        if s[i] is None {
            prior.push(fields[i].name@)
        } else {
            prior
        }
    }
}

/// The record assembled from the slots: each mandatory field's value taken
/// from its slot, each optional field's slot passed on as it is.
pub open spec fn assembled<T>(fields: Seq<FieldDescriptor>, s: Seq<Option<ValueModel<T>>>) -> Seq<
    FieldModel<T>,
> {
    Seq::new(
        fields.len(),
        |i: int|
            if fields[i].optional {
                FieldModel::Optional(s[i])
            } else {
                FieldModel::Mandatory(s[i]->Some_0)
            },
    )
}

/// What `build` yields on slots `s`: the missing mandatory fields, if there
/// are any, and the assembled record otherwise.
pub open spec fn build_outcome<T>(def: BuilderDef, s: Seq<Option<ValueModel<T>>>) -> Result<
    Seq<FieldModel<T>>,
    Seq<Seq<char>>,
> {
    let missing = missing_names(def.fields(), def.mandatory@, s);
    if missing.len() > 0 {
        Err(missing)
    } else {
        Ok(assembled(def.fields(), s))
    }
}

impl BuilderDef {
    /// A fresh builder: one slot per field, all unset.
    pub fn builder<T>(&self) -> (r: BuilderState<T>)
        ensures
            r@.len() == self.fields().len(),
            forall|i: int| 0 <= i < r@.len() ==> (#[trigger] r@[i]) is None,
    {
        let mut slots: Vec<Option<Value<T>>> = Vec::new();
        let mut i: usize = 0;
        while i < self.schema.fields.len()
            invariant
                i <= self.fields().len(),
                slots@.len() == i,
                forall|k: int| 0 <= k < i ==> (#[trigger] slots@[k]) is None,
            decreases self.fields().len() - i,
        {
            slots.push(None);
            i = i + 1;
        }
        BuilderState { slots }
    }
}

impl<T> BuilderState<T> {
    /// Whether this builder has one slot per field of `def`.
    pub open spec fn fits(&self, def: BuilderDef) -> bool {
        self@.len() == def.fields().len()
    }

    /// Calls the replacing setter `name` with `value`: the field's slot then
    /// holds `value`, whatever it held before. Fails, changing nothing, where
    /// `name` is not a replacing setter.
    pub fn set(&mut self, def: &BuilderDef, name: &str, value: Value<T>) -> (r: Result<
        (),
        CallError,
    >)
        requires
            def.wf(),
            old(self).fits(*def),
        ensures
            final(self).fits(*def),
            r is Ok <==> is_setter(*def, name@, SetterKind::Replace),
            r matches Err(e) ==> e == CallError::NoSuchSetter,
            r is Ok ==> final(self)@ == after_set(*def, old(self)@, name@, value.model()),
            r is Err ==> final(self)@ == old(self)@,
    {
        match def.method(name) {
            Some(m) => {
                proof {
                    crate::methods::lemma_table_entries(def.methods@);
                }
                if def.methods[m].kind != SetterKind::Replace {
                    return Err(CallError::NoSuchSetter);
                }
                let f = def.methods[m].field;
                self.slots.set(f, Some(value));
                assert(self@ =~= after_set(*def, old(self)@, name@, value.model()));
                Ok(())
            },
            None => Err(CallError::NoSuchSetter),
        }
    }

    /// Calls the accumulating setter `name` with one element `item`, which is
    /// appended to the field's sequence (see `appended`). Fails, changing
    /// nothing, where `name` is not an accumulating setter, or where the
    /// field's slot holds a single value.
    pub fn push(&mut self, def: &BuilderDef, name: &str, item: T) -> (r: Result<(), CallError>)
        requires
            def.wf(),
            old(self).fits(*def),
        ensures
            final(self).fits(*def),
            !is_setter(*def, name@, SetterKind::Append) ==> r == Err::<(), CallError>(
                CallError::NoSuchSetter,
            ),
            is_setter(*def, name@, SetterKind::Append) ==> r == if holds_single(
                old(self)@[def.method_map()[name@].0 as int],
            ) {
                Err::<(), CallError>(CallError::NotASequence)
            } else {
                Ok::<(), CallError>(())
            },
            r is Ok ==> final(self)@ == after_push(*def, old(self)@, name@, item),
            r is Err ==> final(self)@ == old(self)@,
    {
        match def.method(name) {
            Some(m) => {
                proof {
                    crate::methods::lemma_table_entries(def.methods@);
                }
                if def.methods[m].kind != SetterKind::Append {
                    return Err(CallError::NoSuchSetter);
                }
                let f = def.methods[m].field;
                assert(self@[f as int] == slot_model(self.slots@[f as int]));
                if let Some(Value::One(_)) = &self.slots[f] {
                    return Err(CallError::NotASequence);
                }
                let mut slot: Option<Value<T>> = None;
                self.slots.set_and_swap(f, &mut slot);
                let ghost prior = slot_model(slot);
                assert(prior == old(self)@[f as int]);
                let next = match slot {
                    Some(Value::Many(mut xs)) => {
                        xs.push(item);
                        Value::Many(xs)
                    },
                    _ => {
                        let mut xs: Vec<T> = Vec::new();
                        xs.push(item);
                        assert(xs@ =~= Seq::<T>::empty().push(item));
                        Value::Many(xs)
                    },
                };
                assert(next.model() == appended(prior, item));
                self.slots.set(f, Some(next));
                assert(self@ =~= after_push(*def, old(self)@, name@, item));
                Ok(())
            },
            None => Err(CallError::NoSuchSetter),
        }
    }
}

/// Where no listed field is missing, every listed field's slot is set.
pub(crate) proof fn lemma_none_missing<T>(
    fields: Seq<FieldDescriptor>,
    mandatory: Seq<usize>,
    s: Seq<Option<ValueModel<T>>>,
)
    requires
        missing_names(fields, mandatory, s).len() == 0,
    ensures
        forall|k: int| 0 <= k < mandatory.len() ==> s[#[trigger] mandatory[k] as int] is Some,
    decreases mandatory.len(),
{
    if mandatory.len() > 0 {
        let p = mandatory.drop_last();
        if s[mandatory.last() as int] is None {
            assert(missing_names(fields, mandatory, s).len() > 0);
        }
        lemma_none_missing(fields, p, s);
        assert forall|k: int| 0 <= k < mandatory.len() implies s[#[trigger] mandatory[k] as int] is Some by {
            if k < p.len() {
                assert(p[k] == mandatory[k]);
            }
        }
    }
}

/// Where a listed field is missing, some listed field's slot is unset.
pub(crate) proof fn lemma_some_missing<T>(
    fields: Seq<FieldDescriptor>,
    mandatory: Seq<usize>,
    s: Seq<Option<ValueModel<T>>>,
)
    requires
        missing_names(fields, mandatory, s).len() > 0,
    ensures
        exists|k: int| 0 <= k < mandatory.len() && s[#[trigger] mandatory[k] as int] is None,
    decreases mandatory.len(),
{
    let p = mandatory.drop_last();
    if s[mandatory.last() as int] is None {
        assert(s[mandatory[mandatory.len() - 1] as int] is None);
    } else {
        lemma_some_missing(fields, p, s);
        let k = choose|k: int| 0 <= k < p.len() && s[#[trigger] p[k] as int] is None;
        assert(mandatory[k] == p[k]);
    }
}

impl<T> BuilderState<T> {
    /// The terminal operation. Where a mandatory field is unset it fails with
    /// every such field's name, in field order, and hands this builder back
    /// unchanged for further setter calls; otherwise it consumes the builder
    /// and yields the assembled record.
    pub fn build(self, def: &BuilderDef) -> (r: Result<Record<T>, (BuildError, BuilderState<T>)>)
        requires
            def.wf(),
            self.fits(*def),
        ensures
            r matches Ok(rec) ==> build_outcome(*def, self@) == Ok::<_, Seq<Seq<char>>>(
                rec.model(),
            ),
            r matches Err((e, b)) ==> build_outcome(*def, self@) == Err::<Seq<FieldModel<T>>, _>(
                e.model(),
            ),
            r matches Err((e, b)) ==> b@ == self@ && build_outcome(*def, b@) == Err::<
                Seq<FieldModel<T>>,
                _,
            >(e.model()),
    {
        let ghost s0 = self@;
        let mut missing: Vec<String> = Vec::new();
        let mut k: usize = 0;
        while k < def.mandatory.len()
            invariant
                def.wf(),
                self@ == s0,
                self.fits(*def),
                k <= def.mandatory@.len(),
                missing@.map_values(|s: String| s@) == missing_names(
                    def.fields(),
                    def.mandatory@.take(k as int),
                    s0,
                ),
            decreases def.mandatory@.len() - k,
        {
            assert(def.mandatory@.take(k + 1).drop_last() == def.mandatory@.take(k as int));
            let i = def.mandatory[k];
            assert(i < def.fields().len());
            assert(self@[i as int] == slot_model(self.slots@[i as int]));
            if self.slots[i].is_none() {
                let ghost before = missing@;
                missing.push(def.schema.fields[i].name.clone());
                assert(missing@.map_values(|s: String| s@) =~= before.map_values(|s: String| s@).push(
                    def.fields()[i as int].name@,
                ));
            }
            k = k + 1;
        }
        assert(def.mandatory@.take(k as int) == def.mandatory@);
        if missing.len() > 0 {
            let e = BuildError::MissingMandatoryFields(missing);
            return Err((e, self));
        }
        proof {
            lemma_none_missing(def.fields(), def.mandatory@, s0);
        }
        let n = def.schema.fields.len();
        let mut slots = self.slots;
        let mut out: Vec<FieldValue<T>> = Vec::new();
        let mut i: usize = 0;
        while i < n
            invariant
                def.wf(),
                n == def.fields().len(),
                s0.len() == n,
                i <= n,
                slots@.len() == n,
                forall|j: int| i <= j < n ==> slot_model(#[trigger] slots@[j]) == s0[j],
                forall|j: int| 0 <= j < n && !def.fields()[j].optional ==> (#[trigger] s0[j]) is Some,
                out@.map_values(|f: FieldValue<T>| f.model()) == assembled(def.fields(), s0).take(
                    i as int,
                ),
            decreases n - i,
        {
            let mut slot: Option<Value<T>> = None;
            slots.set_and_swap(i, &mut slot);
            assert(slot_model(slot) == s0[i as int]);
            let ghost before = out@;
            let fv = if def.schema.fields[i].optional {
                FieldValue::Optional(slot)
            } else {
                proof {
                    assert(lists(def.mandatory@, i as int));
                    let k = choose|k: int| 0 <= k < def.mandatory@.len() && #[trigger] def.mandatory@[k] as int == i;
                    assert(s0[def.mandatory@[k] as int] is Some);
                }
                match slot {
                    Some(v) => FieldValue::Mandatory(v),
                    None => {
                        proof {
                            assert(false);
                        }
                        FieldValue::Optional(None)
                    },
                }
            };
            assert(fv.model() == assembled(def.fields(), s0)[i as int]);
            out.push(fv);
            assert(out@.map_values(|f: FieldValue<T>| f.model()) =~= before.map_values(
                |f: FieldValue<T>| f.model(),
            ).push(fv.model()));
            assert(out@.map_values(|f: FieldValue<T>| f.model()) =~= assembled(def.fields(), s0).take(
                i + 1,
            ));
            i = i + 1;
        }
        assert(assembled(def.fields(), s0).take(n as int) =~= assembled(def.fields(), s0));
        Ok(Record { fields: out })
    }
}

} // verus!

//! Properties of the builder stated over several calls or all inputs.

use vstd::prelude::*;
use crate::state::{
    accumulated, holds_single, lemma_none_missing, lemma_some_missing, FieldModel, ValueModel, after_push, after_set, build_outcome, is_setter, missing_names,
};
use crate::definition::BuilderDef;
use crate::methods::{SetterKind, each_setters, method_map, plain_setters};
use crate::schema::{FieldDescriptor, lists};
use crate::shape::{TypeShape, is_optional_shape, optional_marker, outer_constructor};

verus! {

/// Every field is in exactly one of the mandatory and optional lists, and is
/// optional exactly when its outer type constructor is the optional wrapper.
pub proof fn law_partition(def: BuilderDef)
    requires
        def.wf(),
    ensures
        forall|i: int|
            0 <= i < def.fields().len() ==> {
                &&& lists(def.mandatory@, i) != lists(def.optional@, i)
                &&& lists(def.optional@, i) <==> outer_constructor(
                    #[trigger] def.fields()[i].declared,
                ) == Some(optional_marker())
            },
        forall|k: int| 0 <= k < def.mandatory@.len() ==> #[trigger] def.mandatory@[k] < def.fields().len(),
        forall|k: int| 0 <= k < def.optional@.len() ==> #[trigger] def.optional@[k] < def.fields().len(),
{
    assert forall|i: int| 0 <= i < def.fields().len() implies {
        &&& lists(def.mandatory@, i) != lists(def.optional@, i)
        &&& lists(def.optional@, i) <==> outer_constructor(
            #[trigger] def.fields()[i].declared,
        ) == Some(optional_marker())
    } by {
        let f = def.fields()[i];
        assert(f.wf());
        if lists(def.mandatory@, i) {
            let k = choose|k: int| 0 <= k < def.mandatory@.len() && #[trigger] def.mandatory@[k] as int == i;
            assert(!def.fields()[def.mandatory@[k] as int].optional);
        }
        if lists(def.optional@, i) {
            let k = choose|k: int| 0 <= k < def.optional@.len() && #[trigger] def.optional@[k] as int == i;
            assert(def.fields()[def.optional@[k] as int].optional);
        }
    }
}

/// Classification depends on the outer type constructor alone.
pub proof fn law_classified_by_outer_constructor(t1: TypeShape, t2: TypeShape)
    requires
        outer_constructor(t1) == outer_constructor(t2),
    ensures
        is_optional_shape(t1) == is_optional_shape(t2),
{
}

/// Setting a field twice keeps the second value: the slots are as if only
/// the second call was made, and a record built from them holds that value.
pub proof fn law_set_overwrites<T>(
    def: BuilderDef,
    s: Seq<Option<ValueModel<T>>>,
    name: Seq<char>,
    v1: ValueModel<T>,
    v2: ValueModel<T>,
)
    requires
        def.wf(),
        s.len() == def.fields().len(),
        is_setter(def, name, SetterKind::Replace),
    ensures
        after_set(def, after_set(def, s, name, v1), name, v2) == after_set(def, s, name, v2),
        ({
            let f = def.method_map()[name].0 as int;
            build_outcome(def, after_set(def, s, name, v2)) matches Ok(rec) ==> rec[f] == (if def.fields()[f].optional {
                FieldModel::Optional(Some(v2))
            } else {
                FieldModel::Mandatory(v2)
            })
        }),
{
    def.lemma_setter_field(name);
    assert(after_set(def, after_set(def, s, name, v1), name, v2) =~= after_set(def, s, name, v2));
}

/// The slots after the accumulating setter `name` is called with each of
/// `xs` in turn.
pub open spec fn after_pushes<T>(
    def: BuilderDef,
    s: Seq<Option<ValueModel<T>>>,
    name: Seq<char>,
    xs: Seq<T>,
) -> Seq<Option<ValueModel<T>>>
    decreases xs.len(),
{
    if xs.len() == 0 {
        s
    } else {
        after_push(def, after_pushes(def, s, name, xs.drop_last()), name, xs.last())
    }
}

/// Calling an accumulating setter with each of `xs`, on a field whose slot
/// is unset or holds a sequence, leaves in that field the sequence that was
/// there followed by exactly `xs`, in call order; from an unset slot, exactly
/// `xs`. Other slots keep what they held.
pub proof fn law_accumulates<T>(
    def: BuilderDef,
    s: Seq<Option<ValueModel<T>>>,
    name: Seq<char>,
    xs: Seq<T>,
)
    requires
        def.wf(),
        s.len() == def.fields().len(),
        is_setter(def, name, SetterKind::Append),
        !holds_single(s[def.method_map()[name].0 as int]),
        xs.len() > 0,
    ensures
        ({
            let f = def.method_map()[name].0 as int;
            let r = after_pushes(def, s, name, xs);
            &&& r.len() == s.len()
            &&& r[f] == Some(ValueModel::Many(accumulated(s[f]) + xs))
            &&& forall|j: int| 0 <= j < s.len() && j != f ==> #[trigger] r[j] == s[j]
        }),
    decreases xs.len(),
{
    let f = def.method_map()[name].0 as int;
    def.lemma_setter_field(name);
    let p = xs.drop_last();
    let x = xs.last();
    if p.len() == 0 {
        assert(after_pushes(def, s, name, p) == s);
        assert(xs =~= seq![x]);
        match s[f] {
            Some(ValueModel::Many(b)) => {
                assert(b.push(x) =~= b + xs);
            },
            _ => {
                assert(Seq::<T>::empty() + xs =~= seq![x]);
            },
        }
    } else {
        law_accumulates(def, s, name, p);
        let q = after_pushes(def, s, name, p);
        assert(q[f] == Some(ValueModel::Many(accumulated(s[f]) + p)));
        assert((accumulated(s[f]) + p).push(x) =~= accumulated(s[f]) + xs);
    }
}

/// The accumulating setters of the fields, over any base, map each
/// directive name to an accumulating setter of a field with that directive.
proof fn lemma_each_setters(
    fields: Seq<FieldDescriptor>,
    base: Map<Seq<char>, (usize, SetterKind)>,
    i: int,
    d: String,
)
    requires
        0 <= i < fields.len(),
        fields.len() <= usize::MAX,
        fields[i].each == Some(d),
    ensures
        each_setters(fields, base).contains_key(d@),
        each_setters(fields, base)[d@].1 == SetterKind::Append,
        ({
            let j = each_setters(fields, base)[d@].0 as int;
            0 <= j < fields.len() && (fields[j].each matches Some(e) && e@ == d@)
        }),
    decreases fields.len(),
{
    let p = fields.drop_last();
    if i < fields.len() - 1 {
        lemma_each_setters(p, base, i, d);
        let m = each_setters(p, base);
        let j = m[d@].0 as int;
        assert(p[j] == fields[j]);
    }
}

/// An each-directive always yields an accumulating setter under its name,
/// also where a replacing setter would take the same name: the accumulating
/// setter is registered last and wins.
pub proof fn law_each_directive_wins(def: BuilderDef, i: int)
    requires
        def.wf(),
        0 <= i < def.fields().len(),
        def.fields()[i].each is Some,
    ensures
        is_setter(def, def.fields()[i].each->Some_0@, SetterKind::Append),
        (def.fields()[def.method_map()[def.fields()[i].each->Some_0@].0 as int].each matches Some(e)
            && e@ == def.fields()[i].each->Some_0@),
{
    let d = def.fields()[i].each->Some_0;
    lemma_each_setters(def.fields(), plain_setters(def.fields()), i, d);
    assert(method_map(def.fields()) == each_setters(def.fields(), plain_setters(def.fields())));
}

/// The accumulating setter of the last field with a given directive name
/// holds that name, over any base.
proof fn lemma_last_directive(
    fields: Seq<FieldDescriptor>,
    base: Map<Seq<char>, (usize, SetterKind)>,
    i: int,
    d: Seq<char>,
)
    requires
        0 <= i < fields.len(),
        fields.len() <= usize::MAX,
        fields[i].each matches Some(e) && e@ == d,
        forall|j: int|
            i < j < fields.len() ==> !(#[trigger] fields[j].each matches Some(e) && e@ == d),
    ensures
        each_setters(fields, base).contains_key(d),
        each_setters(fields, base)[d] == (i as usize, SetterKind::Append),
    decreases fields.len(),
{
    let p = fields.drop_last();
    if i < fields.len() - 1 {
        assert forall|j: int| i < j < p.len() implies !(#[trigger] p[j].each matches Some(e) && e@
            == d) by {
            assert(p[j] == fields[j]);
        }
        lemma_last_directive(p, base, i, d);
        assert(!(fields[fields.len() - 1].each matches Some(e) && e@ == d));
    }
}

/// Where several fields share a directive name, or a replacing setter was
/// registered under it first, the name belongs to the accumulating setter
/// of the last field with that directive; no replacing setter stays under
/// it.
pub proof fn law_last_directive_wins(def: BuilderDef, i: int)
    requires
        def.wf(),
        0 <= i < def.fields().len(),
        def.fields()[i].each is Some,
        forall|j: int|
            i < j < def.fields().len() ==> !(#[trigger] def.fields()[j].each matches Some(e) && e@
                == def.fields()[i].each->Some_0@),
    ensures
        def.method_map().contains_key(def.fields()[i].each->Some_0@),
        def.method_map()[def.fields()[i].each->Some_0@] == (i as usize, SetterKind::Append),
{
    let d = def.fields()[i].each->Some_0@;
    lemma_last_directive(def.fields(), plain_setters(def.fields()), i, d);
}

/// `build` fails exactly when a mandatory field is unset, and then names
/// exactly the mandatory fields that are unset, in field order.
pub proof fn law_missing_exactly<T>(def: BuilderDef, s: Seq<Option<ValueModel<T>>>)
    requires
        def.wf(),
        s.len() == def.fields().len(),
    ensures
        build_outcome(def, s) is Err <==> exists|i: int|
            0 <= i < s.len() && !def.fields()[i].optional && #[trigger] s[i] is None,
        build_outcome(def, s) matches Err(names) ==> names == def.mandatory@.filter(
            |i: usize| s[i as int] is None,
        ).map_values(|i: usize| def.fields()[i as int].name@),
{
    lemma_missing_filter(def.fields(), def.mandatory@, s);
    let missing = missing_names(def.fields(), def.mandatory@, s);
    if exists|i: int| 0 <= i < s.len() && !def.fields()[i].optional && #[trigger] s[i] is None {
        let i = choose|i: int| 0 <= i < s.len() && !def.fields()[i].optional && #[trigger] s[i] is None;
        assert(lists(def.mandatory@, i));
        let k = choose|k: int| 0 <= k < def.mandatory@.len() && #[trigger] def.mandatory@[k] as int == i;
        if missing.len() == 0 {
            lemma_none_missing(def.fields(), def.mandatory@, s);
            assert(s[def.mandatory@[k] as int] is Some);
        }
    }
    if missing.len() > 0 {
        lemma_some_missing(def.fields(), def.mandatory@, s);
        let k = choose|k: int| 0 <= k < def.mandatory@.len() && s[#[trigger] def.mandatory@[k] as int] is None;
        let i = def.mandatory@[k] as int;
        assert(0 <= i < s.len() && !def.fields()[i].optional && s[i] is None);
    }
}

/// The missing names are the names of the listed fields whose slots are
/// unset, in list order.
proof fn lemma_missing_filter<T>(
    fields: Seq<FieldDescriptor>,
    mandatory: Seq<usize>,
    s: Seq<Option<ValueModel<T>>>,
)
    ensures
        missing_names(fields, mandatory, s) == mandatory.filter(|i: usize| s[i as int] is None).map_values(
            |i: usize| fields[i as int].name@,
        ),
    decreases mandatory.len(),
{
    reveal(Seq::filter);
    if mandatory.len() > 0 {
        lemma_missing_filter(fields, mandatory.drop_last(), s);
        let p = mandatory.drop_last().filter(|i: usize| s[i as int] is None);
        if s[mandatory.last() as int] is None {
            assert(p.push(mandatory.last()).map_values(|i: usize| fields[i as int].name@) =~= p.map_values(
                |i: usize| fields[i as int].name@,
            ).push(fields[mandatory.last() as int].name@));
        }
    } else {
        assert(mandatory.filter(|i: usize| s[i as int] is None) =~= Seq::<usize>::empty());
        assert(Seq::<usize>::empty().map_values(|i: usize| fields[i as int].name@) =~= Seq::<Seq<char>>::empty());
    }
}

/// A fresh builder of a record with a mandatory field fails to build, naming
/// every mandatory field in field order.
pub proof fn law_fresh_build_fails<T>(def: BuilderDef, s: Seq<Option<ValueModel<T>>>)
    requires
        def.wf(),
        s.len() == def.fields().len(),
        forall|i: int| 0 <= i < s.len() ==> (#[trigger] s[i]) is None,
        def.mandatory@.len() > 0,
    ensures
        build_outcome(def, s) == Err::<Seq<FieldModel<T>>, _>(
            def.mandatory@.map_values(|i: usize| def.fields()[i as int].name@),
        ),
{
    lemma_missing_filter(def.fields(), def.mandatory@, s);
    assert(def.mandatory@.filter(|i: usize| s[i as int] is None) =~= def.mandatory@) by {
        lemma_filter_all(def.mandatory@, |i: usize| s[i as int] is None);
    }
    assert(def.mandatory@.map_values(|i: usize| def.fields()[i as int].name@).len() > 0);
}

proof fn lemma_filter_all(xs: Seq<usize>, pred: spec_fn(usize) -> bool)
    requires
        forall|k: int| 0 <= k < xs.len() ==> pred(#[trigger] xs[k]),
    ensures
        xs.filter(pred) == xs,
    decreases xs.len(),
{
    reveal(Seq::filter);
    if xs.len() > 0 {
        lemma_filter_all(xs.drop_last(), pred);
        assert(xs.drop_last().push(xs.last()) =~= xs);
    } else {
        assert(xs.filter(pred) =~= xs);
    }
}

} // verus!

//! The builder's method table: one replacing setter per field, named after
//! the field, and one accumulating setter per each-directive, named after the
//! directive. The table is keyed by method name; where an each-directive
//! setter takes a name already in use, it replaces the entry there.

use vstd::prelude::*;
use crate::schema::FieldDescriptor;

verus! {

/// What a setter does to its field's slot.
#[derive(Clone, Copy, Debug, PartialEq, Eq, Structural)]
pub enum SetterKind {
    /// Stores the value, replacing any earlier one.
    Replace,
    /// Appends one element to the sequence in the slot.
    Append,
}

/// One generated method: its name, the index of its field, and its kind.
pub struct MethodEntry {
    pub name: String,
    pub field: usize,
    pub kind: SetterKind,
}

/// A method table as a map from method name to field index and kind; later
/// entries stand over earlier ones of the same name.
pub open spec fn table_map(t: Seq<MethodEntry>) -> Map<Seq<char>, (usize, SetterKind)>
    decreases t.len(),
{
    if t.len() == 0 {
        Map::empty()
    } else {
        table_map(t.drop_last()).insert(t.last().name@, (t.last().field, t.last().kind))
    }
}

pub open spec fn table_names_unique(t: Seq<MethodEntry>) -> bool {
    forall|i: int, j: int|
        0 <= i < t.len() && 0 <= j < t.len() && i != j ==> #[trigger] t[i].name@
            != #[trigger] t[j].name@
}

/// The replacing setters of the fields, registered in field order.
pub open spec fn plain_setters(fields: Seq<FieldDescriptor>) -> Map<
    Seq<char>,
    (usize, SetterKind),
>
    decreases fields.len(),
{
    if fields.len() == 0 {
        Map::empty()
    } else {
        plain_setters(fields.drop_last()).insert(
            fields.last().name@,
            ((fields.len() - 1) as usize, SetterKind::Replace),
        )
    }
}

/// The accumulating setters of the fields, registered in field order over
/// `base`.
pub open spec fn each_setters(
    fields: Seq<FieldDescriptor>,
    base: Map<Seq<char>, (usize, SetterKind)>,
) -> Map<Seq<char>, (usize, SetterKind)>
    decreases fields.len(),
{
    if fields.len() == 0 {
        base
    } else {
        let m = each_setters(fields.drop_last(), base);
        match fields.last().each {
            Some(d) => m.insert(d@, ((fields.len() - 1) as usize, SetterKind::Append)),
            None => m,
        }
    }
}

/// The method table of a record: every replacing setter first, then every
/// accumulating setter, so that an each-directive wins a name it shares.
pub open spec fn method_map(fields: Seq<FieldDescriptor>) -> Map<
    Seq<char>,
    (usize, SetterKind),
> {
    each_setters(fields, plain_setters(fields))
}

/// The replacing setters are all of kind `Replace`.
proof fn lemma_plain_setters_replace(fields: Seq<FieldDescriptor>)
    ensures
        forall|n: Seq<char>|
            #[trigger] plain_setters(fields).contains_key(n) ==> plain_setters(fields)[n].1
                == SetterKind::Replace,
    decreases fields.len(),
{
    if fields.len() > 0 {
        lemma_plain_setters_replace(fields.drop_last());
    }
}

/// Over a base of replacing setters, every accumulating setter sets a field
/// that has a directive.
proof fn lemma_each_setters_append(
    fields: Seq<FieldDescriptor>,
    base: Map<Seq<char>, (usize, SetterKind)>,
)
    requires
        fields.len() <= usize::MAX,
        forall|n: Seq<char>| #[trigger] base.contains_key(n) ==> base[n].1 == SetterKind::Replace,
    ensures
        forall|n: Seq<char>|
            #[trigger] each_setters(fields, base).contains_key(n) && each_setters(fields, base)[n].1
                == SetterKind::Append ==> each_setters(fields, base)[n].0 < fields.len()
                && fields[each_setters(fields, base)[n].0 as int].each is Some,
    decreases fields.len(),
{
    if fields.len() > 0 {
        let p = fields.drop_last();
        lemma_each_setters_append(p, base);
        let m = each_setters(p, base);
        assert forall|n: Seq<char>|
            #[trigger] each_setters(fields, base).contains_key(n) && each_setters(fields, base)[n].1
                == SetterKind::Append implies each_setters(fields, base)[n].0 < fields.len()
                && fields[each_setters(fields, base)[n].0 as int].each is Some by {
            if m.contains_key(n) && m[n] == each_setters(fields, base)[n] {
                assert(p[m[n].0 as int] == fields[m[n].0 as int]);
            }
        }
    }
}

/// Every accumulating setter of a record sets a field with a directive.
pub proof fn lemma_append_has_directive(fields: Seq<FieldDescriptor>)
    requires
        fields.len() <= usize::MAX,
    ensures
        forall|n: Seq<char>|
            #[trigger] method_map(fields).contains_key(n) && method_map(fields)[n].1
                == SetterKind::Append ==> method_map(fields)[n].0 < fields.len()
                && fields[method_map(fields)[n].0 as int].each is Some,
{
    lemma_plain_setters_replace(fields);
    lemma_each_setters_append(fields, plain_setters(fields));
}

/// Replacing the entry of a name in a table of unique names is inserting it.
proof fn lemma_update_is_insert(t: Seq<MethodEntry>, k: int, e: MethodEntry)
    requires
        table_names_unique(t),
        0 <= k < t.len(),
        t[k].name@ == e.name@,
    ensures
        table_map(t.update(k, e)) == table_map(t).insert(e.name@, (e.field, e.kind)),
    decreases t.len(),
{
    let u = t.update(k, e);
    if k == t.len() - 1 {
        assert(u.drop_last() == t.drop_last());
        assert(table_map(u) =~= table_map(t).insert(e.name@, (e.field, e.kind)));
    } else {
        assert(u.drop_last() == t.drop_last().update(k, e));
        lemma_update_is_insert(t.drop_last(), k, e);
        assert(t.last().name@ != e.name@);
        assert(table_map(u) =~= table_map(t).insert(e.name@, (e.field, e.kind)));
    }
}

/// In a table of unique names, each entry is what the map holds for its name,
/// and every name in the map has an entry.
pub proof fn lemma_table_entries(t: Seq<MethodEntry>)
    requires
        table_names_unique(t),
    ensures
        forall|k: int|
            #![trigger t[k]]
            0 <= k < t.len() ==> table_map(t).contains_key(t[k].name@) && table_map(t)[t[k].name@]
                == (t[k].field, t[k].kind),
        forall|n: Seq<char>|
            #[trigger] table_map(t).contains_key(n) ==> exists|k: int|
                0 <= k < t.len() && t[k].name@ == n,
    decreases t.len(),
{
    if t.len() > 0 {
        let p = t.drop_last();
        assert(table_names_unique(p)) by {
            assert(forall|j: int| 0 <= j < p.len() ==> p[j] == t[j]);
        }
        lemma_table_entries(p);
        assert forall|k: int| #![trigger t[k]] 0 <= k < t.len() implies table_map(t).contains_key(
            t[k].name@,
        ) && table_map(t)[t[k].name@] == (t[k].field, t[k].kind) by {
            if k < t.len() - 1 {
                assert(p[k] == t[k]);
                assert(table_map(p).contains_key(p[k].name@));
            }
        }
        assert forall|n: Seq<char>| #[trigger] table_map(t).contains_key(n) implies exists|k: int|
            0 <= k < t.len() && t[k].name@ == n by {
            if n != t.last().name@ {
                assert(table_map(p).contains_key(n));
                let k = choose|k: int| 0 <= k < p.len() && p[k].name@ == n;
                assert(t[k] == p[k]);
            }
        }
    }
}

/// Registers an entry: it replaces the entry of the same name, if there is
/// one, and is appended otherwise.
fn register(table: &mut Vec<MethodEntry>, e: MethodEntry)
    requires
        table_names_unique(old(table)@),
    ensures
        table_names_unique(final(table)@),
        table_map(final(table)@) == table_map(old(table)@).insert(e.name@, (e.field, e.kind)),
        forall|k: int|
            0 <= k < final(table)@.len() ==> (#[trigger] final(table)@[k]).field == e.field
                || exists|j: int| 0 <= j < old(table)@.len() && old(table)@[j].field
                == final(table)@[k].field,
{
    let mut k: usize = 0;
    while k < table.len()
        invariant
            k <= table@.len(),
            table@ == old(table)@,
            table_names_unique(old(table)@),
            forall|j: int| 0 <= j < k ==> table@[j].name@ != e.name@,
        decreases table@.len() - k,
    {
        if table[k].name == e.name {
            proof {
                lemma_update_is_insert(table@, k as int, e);
            }
            let ghost before = table@;
            table.set(k, e);
            assert(forall|j: int|
                0 <= j < table@.len() && j != k ==> table@[j] == before[j]);
            return;
        }
        k = k + 1;
    }
    let ghost before = table@;
    table.push(e);
    assert(table@.drop_last() == before);
    assert(forall|j: int| 0 <= j < before.len() ==> table@[j] == before[j]);
}

/// Builds the method table of a record: the replacing setters in field
/// order, then the accumulating ones.
pub fn build_table(fields: &Vec<FieldDescriptor>) -> (r: Vec<MethodEntry>)
    ensures
        table_names_unique(r@),
        table_map(r@) == method_map(fields@),
        forall|k: int| 0 <= k < r@.len() ==> (#[trigger] r@[k]).field < fields@.len(),
{
    let mut table: Vec<MethodEntry> = Vec::new();
    let mut i: usize = 0;
    while i < fields.len()
        invariant
            i <= fields@.len(),
            table_names_unique(table@),
            table_map(table@) == plain_setters(fields@.take(i as int)),
            forall|k: int| 0 <= k < table@.len() ==> (#[trigger] table@[k]).field < i,
        decreases fields@.len() - i,
    {
        assert(fields@.take(i + 1).drop_last() == fields@.take(i as int));
        let name = fields[i].name.clone();
        register(&mut table, MethodEntry { name, field: i, kind: SetterKind::Replace });
        i = i + 1;
    }
    assert(fields@.take(i as int) == fields@);
    let mut i: usize = 0;
    while i < fields.len()
        invariant
            i <= fields@.len(),
            table_names_unique(table@),
            table_map(table@) == each_setters(fields@.take(i as int), plain_setters(fields@)),
            forall|k: int| 0 <= k < table@.len() ==> (#[trigger] table@[k]).field < fields@.len(),
        decreases fields@.len() - i,
    {
        assert(fields@.take(i + 1).drop_last() == fields@.take(i as int));
        match &fields[i].each {
            Some(d) => {
                let name = d.clone();
                register(&mut table, MethodEntry { name, field: i, kind: SetterKind::Append });
            },
            None => {},
        }
        i = i + 1;
    }
    assert(fields@.take(i as int) == fields@);
    table
}

/// The index of the entry named `name`, if the table has one.
pub fn find_method(table: &Vec<MethodEntry>, name: &str) -> (r: Option<usize>)
    requires
        table_names_unique(table@),
    ensures
        r matches Some(k) ==> k < table@.len() && table@[k as int].name@ == name@,
        r is None <==> !table_map(table@).contains_key(name@),
{
    proof {
        lemma_table_entries(table@);
    }
    let key = name.to_owned();
    let mut k: usize = 0;
    while k < table.len()
        invariant
            k <= table@.len(),
            key@ == name@,
            table_names_unique(table@),
            forall|j: int| 0 <= j < k ==> table@[j].name@ != name@,
        decreases table@.len() - k,
    {
        if table[k].name == key {
            proof {
                lemma_table_entries(table@);
            }
            return Some(k);
        }
        k = k + 1;
    }
    None
}

} // verus!

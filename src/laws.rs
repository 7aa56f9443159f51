//! What holds of every conversion and every build.
use vstd::prelude::*;
use crate::value::{Val, get_spec, keys_unique, lemma_wf_remove_set, wf_object, lemma_get_remove, lemma_get_set, lemma_unique_push, lookup, remove_spec, set_spec};
use crate::typed::TV;
use crate::schema::{FieldSchema, PrimKind, RecordSchema, TypeShape};
use crate::convert::{build, build_fields, conv, conv_entries, conv_items, failing_entries, field_step};

verus! {

/// Whether a value's tag is the one a leaf kind reads.
pub open spec fn kind_matches(v: Val, k: PrimKind) -> bool {
    match k {
        PrimKind::Bool => v is Bool,
        PrimKind::Float => v is Float,
        PrimKind::Str => v is Str,
        _ => v is Int,
    }
}

/// A leaf conversion succeeds exactly when the value's tag matches the kind,
/// and then yields the value itself, narrowed to the target width.
pub proof fn law_primitive(v: Val, g: Val, k: PrimKind)
    ensures
        conv(v, g, TypeShape::Primitive(k)) is Some <==> kind_matches(v, k),
        kind_matches(v, k) ==> conv(v, g, TypeShape::Primitive(k)) == Some(
            match (k, v) {
                (PrimKind::Bool, Val::Bool(b)) => TV::Bool(b),
                (PrimKind::I16, Val::Int(i)) => TV::I16(i as i16),
                (PrimKind::U16, Val::Int(i)) => TV::U16(i as u16),
                (PrimKind::I32, Val::Int(i)) => TV::I32(i as i32),
                (PrimKind::U32, Val::Int(i)) => TV::U32(i as u32),
                (PrimKind::I64, Val::Int(i)) => TV::I64(i),
                (PrimKind::U64, Val::Int(i)) => TV::U64(i as u64),
                (PrimKind::Float, Val::Float(f)) => TV::Float(f),
                (_, Val::Str(s)) => TV::Str(s),
                _ => TV::Bool(false),
            },
        ),
{
}

/// Null converts to an absent optional, whatever the inner shape.
pub proof fn law_optional_null(g: Val, inner: TypeShape)
    ensures
        conv(Val::Null, g, TypeShape::Optional(Box::new(inner))) == Some(TV::Opt(None)),
{
}

/// An optional conversion never fails: a non-null value that does not
/// convert to the inner shape yields an absent optional, not a failure.
pub proof fn law_optional_never_fails(v: Val, g: Val, inner: TypeShape)
    ensures
        conv(v, g, TypeShape::Optional(Box::new(inner))) is Some,
        !(v is Null) && conv(v, g, inner) is None ==> conv(v, g, TypeShape::Optional(Box::new(inner)))
            == Some(TV::Opt(None)),
{
}

/// Whether an element converts to `inner`.
pub open spec fn converts(g: Val, inner: TypeShape) -> spec_fn(Val) -> bool {
    |x: Val| conv(x, g, inner) is Some
}

/// Whether a table entry converts to `inner`.
pub open spec fn entry_converts(g: Val, inner: TypeShape) -> spec_fn((Seq<char>, Val)) -> bool {
    |e: (Seq<char>, Val)| conv(e.1, g, inner) is Some
}

/// Whether a table entry fails to convert to `inner`.
pub open spec fn entry_fails(g: Val, inner: TypeShape) -> spec_fn((Seq<char>, Val)) -> bool {
    |e: (Seq<char>, Val)| conv(e.1, g, inner) is None
}

proof fn lemma_items_len(items: Seq<Val>, g: Val, inner: TypeShape)
    ensures
        conv_items(items, g, inner).len() == items.filter(converts(g, inner)).len(),
    decreases items.len(),
{
    reveal(Seq::filter);
    if items.len() > 0 {
        lemma_items_len(items.drop_last(), g, inner);
    }
}

/// A list conversion fails on anything but an array; on an array it keeps
/// one result for each element that converts, and drops the others.
pub proof fn law_list(v: Val, g: Val, inner: TypeShape)
    ensures
        !(v is Array) ==> conv(v, g, TypeShape::List(Box::new(inner))) is None,
        v is Array ==> conv(v, g, TypeShape::List(Box::new(inner))) is Some,
        v is Array ==> conv(v, g, TypeShape::List(Box::new(inner)))->0->List_0.len() == v->Array_0.filter(
            converts(g, inner),
        ).len(),
{
    if let Val::Array(items) = v {
        lemma_items_len(items, g, inner);
    }
}

/// A table conversion consumes exactly the entries that convert: what stays
/// of the table is its entries that fail, in order, and the result holds the
/// keys of the entries that convert, in order.
pub proof fn law_table(es: Seq<(Seq<char>, Val)>, g: Val, inner: TypeShape)
    ensures
        failing_entries(es, g, inner) == es.filter(entry_fails(g, inner)),
        conv_entries(es, g, inner).map_values(|p: (Seq<char>, TV)| p.0) == es.filter(
            entry_converts(g, inner),
        ).map_values(|e: (Seq<char>, Val)| e.0),
    decreases es.len(),
{
    reveal(Seq::filter);
    if es.len() > 0 {
        law_table(es.drop_last(), g, inner);
        let pre = conv_entries(es.drop_last(), g, inner);
        let kept = es.drop_last().filter(entry_converts(g, inner));
        if let Some(t) = conv(es.last().1, g, inner) {
            assert(pre.push((es.last().0, t)).map_values(|p: (Seq<char>, TV)| p.0) =~= pre.map_values(
                |p: (Seq<char>, TV)| p.0,
            ).push(es.last().0));
            assert(kept.push(es.last()).map_values(|e: (Seq<char>, Val)| e.0) =~= kept.map_values(
                |e: (Seq<char>, Val)| e.0,
            ).push(es.last().0));
        }
    }
}

/// What converting the entry under `key` gives, if there is one.
pub open spec fn converted_at(es: Seq<(Seq<char>, Val)>, g: Val, inner: TypeShape, key: Seq<char>) -> Option<TV> {
    match lookup(es, key) {
        Some(x) => conv(x, g, inner),
        None => None,
    }
}

/// The entry under `key`, if there is one and it fails to convert.
pub open spec fn failed_at(es: Seq<(Seq<char>, Val)>, g: Val, inner: TypeShape, key: Seq<char>) -> Option<Val> {
    match lookup(es, key) {
        Some(x) => if conv(x, g, inner) is None {
            Some(x)
        } else {
            None
        },
        None => None,
    }
}

/// On a table with distinct keys, converting it as a table is exact: the
/// result maps each key whose value converts to its converted value, and what
/// stays of the table is the table without exactly those keys. Both have
/// distinct keys.
pub proof fn law_table_exact(es: Seq<(Seq<char>, Val)>, g: Val, inner: TypeShape)
    requires
        keys_unique(es),
    ensures
        keys_unique(conv_entries(es, g, inner)),
        keys_unique(failing_entries(es, g, inner)),
        forall|k: Seq<char>| #[trigger] lookup(conv_entries(es, g, inner), k) == converted_at(es, g, inner, k),
        forall|k: Seq<char>| #[trigger] lookup(failing_entries(es, g, inner), k) == failed_at(es, g, inner, k),
    decreases es.len(),
{
    if es.len() > 0 {
        let pre = es.drop_last();
        let e = es.last();
        assert(pre.push(e) =~= es);
        lemma_unique_push(pre, e);
        law_table_exact(pre, g, inner);
        let ce = conv_entries(pre, g, inner);
        let fe = failing_entries(pre, g, inner);
        assert(lookup(ce, e.0) is None);
        assert(lookup(fe, e.0) is None);
        match conv(e.1, g, inner) {
            Some(t) => {
                lemma_unique_push(ce, (e.0, t));
                assert(ce.push((e.0, t)).drop_last() =~= ce);
                assert(conv_entries(es, g, inner) == ce.push((e.0, t)));
                assert(failing_entries(es, g, inner) == fe);
            },
            None => {
                lemma_unique_push(fe, e);
                assert(fe.push(e).drop_last() =~= fe);
                assert(conv_entries(es, g, inner) == ce);
                assert(failing_entries(es, g, inner) == fe.push(e));
            },
        }
        assert forall|k: Seq<char>| #[trigger] lookup(conv_entries(es, g, inner), k) == converted_at(es, g, inner, k) by {
            assert(lookup(es, k) == if e.0 == k { Some(e.1) } else { lookup(pre, k) });
            assert(converted_at(pre, g, inner, k) == lookup(ce, k));
        }
        assert forall|k: Seq<char>| #[trigger] lookup(failing_entries(es, g, inner), k) == failed_at(es, g, inner, k) by {
            assert(lookup(es, k) == if e.0 == k { Some(e.1) } else { lookup(pre, k) });
            assert(failed_at(pre, g, inner, k) == lookup(fe, k));
        }
    }
}

/// The root a field reads from, of a pair of roots.
pub open spec fn source_root(f: FieldSchema, local: Val, global: Val) -> Val {
    if f.scope is Global {
        global
    } else {
        local
    }
}

proof fn lemma_step_other_key(l: Val, g: Val, f: FieldSchema, key: Seq<char>)
    requires
        key != f.name@,
    ensures
        get_spec(field_step(l, g, f).local, key) == get_spec(l, key),
        get_spec(field_step(l, g, f).global, key) == get_spec(g, key),
{
    let name = f.name@;
    if !f.skip {
        lemma_get_remove(l, name, key);
        lemma_get_remove(g, name, key);
        lemma_get_remove(remove_spec(g, name), name, key);
        let l1 = if f.scope is Global { l } else { remove_spec(l, name) };
        let g1 = if f.scope is Global { remove_spec(g, name) } else { g };
        let first = get_spec(if f.scope is Global { g } else { l }, name);
        let fallback = f.shape is Dict && first is Null;
        let g2 = if fallback { remove_spec(g1, name) } else { g1 };
        assert(get_spec(l1, key) == get_spec(l, key));
        assert(get_spec(g2, key) == get_spec(g, key));
        assert forall|x: Val| get_spec(#[trigger] set_spec(l1, name, x), key) == get_spec(l1, key) by {
            lemma_get_set(l1, name, x, key);
        }
        assert forall|x: Val| get_spec(#[trigger] set_spec(g2, name, x), key) == get_spec(g2, key) by {
            lemma_get_set(g2, name, x, key);
        }
    }
}

proof fn lemma_step_same_key(l: Val, g: Val, f: FieldSchema)
    requires
        !f.skip,
        field_step(l, g, f).result is Ok,
    ensures
        get_spec(l, f.name@) == Val::Null ==> get_spec(field_step(l, g, f).local, f.name@) == Val::Null,
        get_spec(g, f.name@) == Val::Null ==> get_spec(field_step(l, g, f).global, f.name@) == Val::Null,
        get_spec(source_root(f, field_step(l, g, f).local, field_step(l, g, f).global), f.name@)
            == Val::Null,
{
    let name = f.name@;
    lemma_get_remove(l, name, name);
    lemma_get_remove(g, name, name);
    lemma_get_remove(remove_spec(g, name), name, name);
}

proof fn lemma_step_keeps_null(l: Val, g: Val, f: FieldSchema, key: Seq<char>)
    requires
        field_step(l, g, f).result is Ok,
    ensures
        get_spec(l, key) == Val::Null ==> get_spec(field_step(l, g, f).local, key) == Val::Null,
        get_spec(g, key) == Val::Null ==> get_spec(field_step(l, g, f).global, key) == Val::Null,
{
    if key != f.name@ {
        lemma_step_other_key(l, g, f, key);
    } else if !f.skip {
        lemma_step_same_key(l, g, f);
    }
}

proof fn lemma_consumed_prefix(l: Val, g: Val, schema: RecordSchema, i: int, n: nat)
    requires
        0 <= i < n <= schema.fields@.len(),
        !schema.fields@[i].skip,
        build_fields(l, g, schema, n).result is Ok,
    ensures
        get_spec(
            source_root(schema.fields@[i], build_fields(l, g, schema, n).local, build_fields(l, g, schema, n).global),
            schema.fields@[i].name@,
        ) == Val::Null,
    decreases n,
{
    let prev = build_fields(l, g, schema, (n - 1) as nat);
    if prev.result is Err {
        crate::convert::lemma_failure_sticks(l, g, schema, (n - 1) as nat, n);
    } else {
        let j = n - 1;
        if j == i {
            lemma_step_same_key(prev.local, prev.global, schema.fields@[i]);
        } else {
            lemma_consumed_prefix(l, g, schema, i, (n - 1) as nat);
            lemma_step_keeps_null(prev.local, prev.global, schema.fields@[j], schema.fields@[i].name@);
        }
    }
}

/// After a successful build, every field that is not skipped has had its key
/// consumed in the root it reads from, whether it was converted or
/// defaulted: a later read of that key yields null, so a second build finds
/// nothing of it.
pub proof fn law_consumed_keys(l: Val, g: Val, schema: RecordSchema, i: int)
    requires
        0 <= i < schema.fields@.len(),
        !schema.fields@[i].skip,
        build(l, g, schema).result is Ok,
    ensures
        get_spec(
            source_root(schema.fields@[i], build(l, g, schema).local, build(l, g, schema).global),
            schema.fields@[i].name@,
        ) == Val::Null,
{
    lemma_consumed_prefix(l, g, schema, i, schema.fields@.len());
}

/// A list field never fails: when what it reads does not convert (it is not
/// an array), it holds the empty list, whatever default it declares.
pub proof fn law_list_field(l: Val, g: Val, f: FieldSchema)
    requires
        !f.skip,
        f.shape is List,
    ensures
        field_step(l, g, f).result is Ok,
        !(get_spec(source_root(f, l, g), f.name@) is Array) ==> field_step(l, g, f).result == Ok::<
            Option<TV>,
            crate::convert::Failure,
        >(Some(TV::List(Seq::empty()))),
{
}

/// A local field that is not a list and fails to convert without a default
/// fails the build's step, and its key reads afterwards as it did before: the
/// value it took is put back.
pub proof fn law_failure_restores(l: Val, g: Val, f: FieldSchema)
    requires
        !f.skip,
        f.scope is Local,
        f.default is NoDefault,
        !(f.shape is List),
        !(f.shape is Dict),
        conv(get_spec(l, f.name@), g, f.shape) is None,
    ensures
        field_step(l, g, f).result == Err::<Option<TV>, crate::convert::Failure>(
            crate::convert::Failure::FieldTypeMismatch(f.name@),
        ),
        field_step(l, g, f).local == set_spec(remove_spec(l, f.name@), f.name@, get_spec(l, f.name@)),
        get_spec(field_step(l, g, f).local, f.name@) == get_spec(l, f.name@),
        field_step(l, g, f).global == g,
{
    let key = f.name@;
    lemma_get_remove(l, key, key);
    lemma_get_set(remove_spec(l, key), key, get_spec(l, key), key);
}

proof fn lemma_step_wf(l: Val, g: Val, f: FieldSchema)
    requires
        wf_object(l),
        wf_object(g),
    ensures
        wf_object(field_step(l, g, f).local),
        wf_object(field_step(l, g, f).global),
{
    if !f.skip {
        let key = f.name@;
        let from_global = f.scope is Global;
        let first = get_spec(if from_global { g } else { l }, key);
        let l1 = if from_global { l } else { remove_spec(l, key) };
        let g1 = if from_global { remove_spec(g, key) } else { g };
        let fallback = f.shape is Dict && first is Null;
        let raw = if fallback { get_spec(g1, key) } else { first };
        let g2 = if fallback { remove_spec(g1, key) } else { g1 };
        lemma_wf_remove_set(l, key, raw);
        lemma_wf_remove_set(g, key, raw);
        lemma_wf_remove_set(g1, key, raw);
        lemma_wf_remove_set(l1, key, raw);
        lemma_wf_remove_set(g2, key, raw);
        lemma_wf_remove_set(g2, key, crate::convert::leftover(raw, g2, f.shape));
    }
}

proof fn lemma_build_fields_wf(l: Val, g: Val, schema: RecordSchema, n: nat)
    requires
        wf_object(l),
        wf_object(g),
    ensures
        wf_object(build_fields(l, g, schema, n).local),
        wf_object(build_fields(l, g, schema, n).global),
    decreases n,
{
    if n > 0 && n <= schema.fields@.len() {
        lemma_build_fields_wf(l, g, schema, (n - 1) as nat);
        let prev = build_fields(l, g, schema, (n - 1) as nat);
        lemma_step_wf(prev.local, prev.global, schema.fields@[n - 1]);
    }
}

/// A build keeps both roots well-formed: if their keys were distinct, they
/// still are afterwards, whether the build succeeded or failed.
pub proof fn law_build_keeps_wf(l: Val, g: Val, schema: RecordSchema)
    requires
        wf_object(l),
        wf_object(g),
    ensures
        wf_object(build(l, g, schema).local),
        wf_object(build(l, g, schema).global),
{
    lemma_build_fields_wf(l, g, schema, schema.fields@.len());
}

} // verus!

//! The type-directed converter and the record builder: their meaning as spec
//! functions over the models, and their executable forms.
use vstd::prelude::*;
use crate::value::{DynValue, Val, entries_view, keys_unique, wf_object, get_spec, lemma_view_shapes, remove_spec, set_spec, values_view};
use crate::typed::{TV, Typed, lemma_typed_shapes, named_view, opt_view, tview, typed_view};
use crate::schema::{DefaultPolicy, FieldSchema, PrimKind, RecordSchema, Scope, TypeShape};

verus! {

/// Why building a record failed.
#[derive(Debug, PartialEq)]
pub enum BuildError {
    /// The value a record is built from is not an object.
    NotAnObject,
    /// The named field failed to convert and declares no default.
    FieldTypeMismatch(String),
}

/// The model of a build failure.
pub enum Failure {
    NotAnObject,
    FieldTypeMismatch(Seq<char>),
}

pub open spec fn error_view(e: BuildError) -> Failure {
    match e {
        BuildError::NotAnObject => Failure::NotAnObject,
        BuildError::FieldTypeMismatch(n) => Failure::FieldTypeMismatch(n@),
    }
}

/// A build's result together with the local and global roots it leaves.
pub struct Outcome {
    pub result: Result<Seq<(Seq<char>, TV)>, Failure>,
    pub local: Val,
    pub global: Val,
}

/// One field's result together with the roots it leaves. `Ok(None)` is a
/// skipped field.
pub struct StepOutcome {
    pub result: Result<Option<TV>, Failure>,
    pub local: Val,
    pub global: Val,
}

/// A leaf conversion: the matching projection, narrowed to the target width.
pub open spec fn prim_spec(v: Val, k: PrimKind) -> Option<TV> {
    match (k, v) {
        (PrimKind::Bool, Val::Bool(b)) => Some(TV::Bool(b)),
        (PrimKind::I16, Val::Int(i)) => Some(TV::I16(i as i16)),
        (PrimKind::U16, Val::Int(i)) => Some(TV::U16(i as u16)),
        (PrimKind::I32, Val::Int(i)) => Some(TV::I32(i as i32)),
        (PrimKind::U32, Val::Int(i)) => Some(TV::U32(i as u32)),
        (PrimKind::I64, Val::Int(i)) => Some(TV::I64(i)),
        (PrimKind::U64, Val::Int(i)) => Some(TV::U64(i as u64)),
        (PrimKind::Float, Val::Float(f)) => Some(TV::Float(f)),
        (PrimKind::Str, Val::Str(s)) => Some(TV::Str(s)),
        _ => None,
    }
}

/// The result of converting `v` to `shape`, with `g` as the global root that
/// nested records read from; `None` when the conversion fails.
pub open spec fn conv(v: Val, g: Val, shape: TypeShape) -> Option<TV>
    decreases shape, 0nat,
{
    match shape {
        TypeShape::Primitive(k) => prim_spec(v, k),
        TypeShape::Optional(inner) => if v is Null {
            Some(TV::Opt(None))
        } else {
            Some(
                TV::Opt(
                    match conv(v, g, *inner) {
                        Some(t) => Some(Box::new(t)),
                        None => None,
                    },
                ),
            )
        },
        TypeShape::List(inner) => match v {
            Val::Array(items) => Some(TV::List(conv_items(items, g, *inner))),
            _ => None,
        },
        TypeShape::Dict(inner) => match v {
            Val::Object(es) => Some(TV::Dict(conv_entries(es, g, *inner))),
            _ => None,
        },
        TypeShape::Nested(schema) => if v is Object {
            match build_fields(v, g, schema, schema.fields@.len()).result {
                Ok(fs) => Some(TV::Record(fs)),
                Err(_) => None,
            }
        } else {
            None
        },
    }
}

/// The results of the elements of `items` that convert to `inner`, in order.
pub open spec fn conv_items(items: Seq<Val>, g: Val, inner: TypeShape) -> Seq<TV>
    decreases inner, items.len() + 1,
{
    if items.len() == 0 {
        Seq::empty()
    } else {
        let pre = conv_items(items.drop_last(), g, inner);
        match conv(items.last(), g, inner) {
            Some(t) => pre.push(t),
            None => pre,
        }
    }
}

/// The entries of `es` whose values convert to `inner`, with their results.
pub open spec fn conv_entries(es: Seq<(Seq<char>, Val)>, g: Val, inner: TypeShape) -> Seq<(Seq<char>, TV)>
    decreases inner, es.len() + 1,
{
    if es.len() == 0 {
        Seq::empty()
    } else {
        let pre = conv_entries(es.drop_last(), g, inner);
        match conv(es.last().1, g, inner) {
            Some(t) => pre.push((es.last().0, t)),
            None => pre,
        }
    }
}

/// The first `n` fields of `schema`, built in order against `l` and `g`; the
/// first field that fails without a default stops the build.
pub open spec fn build_fields(l: Val, g: Val, schema: RecordSchema, n: nat) -> Outcome
    decreases schema, n,
{
    if n == 0 || n > schema.fields@.len() {
        Outcome { result: Ok(Seq::empty()), local: l, global: g }
    } else {
        let prev = build_fields(l, g, schema, (n - 1) as nat);
        match prev.result {
            Err(e) => prev,
            Ok(done) => {
                let f = schema.fields@[n - 1];
                let st = field_step(prev.local, prev.global, f);
                match st.result {
                    Err(e) => Outcome { result: Err(e), local: st.local, global: st.global },
                    Ok(None) => Outcome { result: Ok(done), local: st.local, global: st.global },
                    Ok(Some(t)) => Outcome {
                        result: Ok(done.push((f.name@, t))),
                        local: st.local,
                        global: st.global,
                    },
                }
            },
        }
    }
}

/// The entries of `es` whose values fail to convert to `inner`, in order.
pub open spec fn failing_entries(es: Seq<(Seq<char>, Val)>, g: Val, inner: TypeShape) -> Seq<(Seq<char>, Val)>
    decreases inner, es.len() + 1,
{
    if es.len() == 0 {
        Seq::empty()
    } else {
        let pre = failing_entries(es.drop_last(), g, inner);
        if conv(es.last().1, g, inner) is None {
            pre.push(es.last())
        } else {
            pre
        }
    }
}

/// What stays of a table once its converted entries are consumed.
pub open spec fn residue(raw: Val, g: Val, inner: TypeShape) -> Val {
    match raw {
        Val::Object(es) => Val::Object(failing_entries(es, g, inner)),
        _ => raw,
    }
}

/// What a table read from the global table gives back to it under its key:
/// the entries that did not convert, if any; otherwise nothing.
pub open spec fn leftover(raw: Val, g: Val, shape: TypeShape) -> Val
    decreases shape, 0nat,
{
    match (shape, raw) {
        (TypeShape::Dict(inner), Val::Object(es)) => if failing_entries(es, g, *inner).len() == 0 {
            Val::Null
        } else {
            Val::Object(failing_entries(es, g, *inner))
        },
        _ => Val::Null,
    }
}

/// `root` with `x` bound under `key` again, unless `x` is null.
pub open spec fn put_back(root: Val, key: Seq<char>, x: Val) -> Val {
    if x is Null {
        root
    } else {
        set_spec(root, key, x)
    }
}

/// The zero value of a shape.
pub open spec fn zero_of(shape: TypeShape) -> TV
    decreases shape, 0nat,
{
    match shape {
        TypeShape::Primitive(k) => match k {
            PrimKind::Bool => TV::Bool(false),
            PrimKind::I16 => TV::I16(0),
            PrimKind::U16 => TV::U16(0),
            PrimKind::I32 => TV::I32(0),
            PrimKind::U32 => TV::U32(0),
            PrimKind::I64 => TV::I64(0),
            PrimKind::U64 => TV::U64(0),
            PrimKind::Float => TV::Float(0),
            PrimKind::Str => TV::Str(Seq::empty()),
        },
        TypeShape::Optional(_) => TV::Opt(None),
        TypeShape::List(_) => TV::List(Seq::empty()),
        TypeShape::Dict(_) => TV::Dict(Seq::empty()),
        TypeShape::Nested(schema) => TV::Record(zero_fields(schema, schema.fields@.len())),
    }
}

/// The zero values of the first `n` unskipped fields of `schema`.
pub open spec fn zero_fields(schema: RecordSchema, n: nat) -> Seq<(Seq<char>, TV)>
    decreases schema, n,
{
    if n == 0 || n > schema.fields@.len() {
        Seq::empty()
    } else {
        let pre = zero_fields(schema, (n - 1) as nat);
        let f = schema.fields@[n - 1];
        if f.skip {
            pre
        } else {
            pre.push((f.name@, zero_of(f.shape)))
        }
    }
}

/// One field against the roots `l` and `g`.
pub open spec fn field_step(l: Val, g: Val, f: FieldSchema) -> StepOutcome
    decreases f, 1nat,
{
    if f.skip {
        StepOutcome { result: Ok(None), local: l, global: g }
    } else {
        let key = f.name@;
        let from_global = f.scope is Global;
        let src = if from_global { g } else { l };
        let first = get_spec(src, key);
        let l1 = if from_global { l } else { remove_spec(l, key) };
        let g1 = if from_global { remove_spec(g, key) } else { g };
        // A table that is absent where it is declared is read from the
        // global root instead.
        let fallback = f.shape is Dict && first is Null;
        let raw = if fallback { get_spec(g1, key) } else { first };
        let g2 = if fallback { remove_spec(g1, key) } else { g1 };
        match conv(raw, g2, f.shape) {
            Some(t) => StepOutcome {
                result: Ok(Some(t)),
                local: l1,
                // A table read from the global table gives back to it the
                // entries that did not convert.
                global: if fallback {
                    put_back(g2, key, leftover(raw, g2, f.shape))
                } else {
                    g2
                },
            },
            None => if f.shape is List {
                StepOutcome { result: Ok(Some(TV::List(Seq::empty()))), local: l1, global: g2 }
            } else {
                match f.default {
                    DefaultPolicy::UseTypeDefault => StepOutcome {
                        result: Ok(Some(zero_of(f.shape))),
                        local: l1,
                        global: g2,
                    },
                    DefaultPolicy::UseNamedDefault(d) => StepOutcome {
                        result: Ok(Some(tview(d.value))),
                        local: l1,
                        global: g2,
                    },
                    // The value taken is bound again under its key in the
                    // root it came from.
                    DefaultPolicy::NoDefault => StepOutcome {
                        result: Err(Failure::FieldTypeMismatch(key)),
                        local: if fallback || from_global {
                            l1
                        } else {
                            set_spec(l1, key, raw)
                        },
                        global: if fallback {
                            put_back(g2, key, raw)
                        } else if from_global {
                            set_spec(g2, key, raw)
                        } else {
                            g2
                        },
                    },
                }
            },
        }
    }
}

/// Building a record of `schema` from the local root `l` and global root `g`.
pub open spec fn build(l: Val, g: Val, schema: RecordSchema) -> Outcome {
    if l is Object {
        build_fields(l, g, schema, schema.fields@.len())
    } else {
        Outcome { result: Err(Failure::NotAnObject), local: l, global: g }
    }
}

pub open spec fn step_view(r: Result<Option<Typed>, BuildError>) -> Result<Option<TV>, Failure> {
    match r {
        Ok(Some(t)) => Ok(Some(tview(t))),
        Ok(None) => Ok(None),
        Err(e) => Err(error_view(e)),
    }
}

pub open spec fn record_view(r: Result<Vec<(String, Typed)>, BuildError>) -> Result<Seq<(Seq<char>, TV)>, Failure> {
    match r {
        Ok(fs) => Ok(named_view(fs@)),
        Err(e) => Err(error_view(e)),
    }
}

fn convert_prim(v: &DynValue, k: &PrimKind) -> (r: Option<Typed>)
    ensures
        opt_view(r) == prim_spec(v@, *k),
{
    match (k, v) {
        (PrimKind::Bool, DynValue::Bool(b)) => Some(Typed::Bool(*b)),
        (PrimKind::I16, DynValue::Int(i)) => Some(Typed::I16(#[verifier::truncate] (*i as i16))),
        (PrimKind::U16, DynValue::Int(i)) => Some(Typed::U16(#[verifier::truncate] (*i as u16))),
        (PrimKind::I32, DynValue::Int(i)) => Some(Typed::I32(#[verifier::truncate] (*i as i32))),
        (PrimKind::U32, DynValue::Int(i)) => Some(Typed::U32(#[verifier::truncate] (*i as u32))),
        (PrimKind::I64, DynValue::Int(i)) => Some(Typed::I64(*i)),
        (PrimKind::U64, DynValue::Int(i)) => Some(Typed::U64(#[verifier::truncate] (*i as u64))),
        (PrimKind::Float, DynValue::Float(f)) => Some(Typed::Float(*f)),
        (PrimKind::Str, DynValue::Str(s)) => Some(Typed::Str(s.clone())),
        _ => None,
    }
}

/// Converts `v` to `shape`; `g` is the global root that nested records read
/// from. `None` when the conversion fails. Neither value is changed.
pub fn convert(v: &DynValue, g: &DynValue, shape: &TypeShape) -> (r: Option<Typed>)
    ensures
        opt_view(r) == conv(v@, g@, *shape),
    decreases shape, 0nat,
{
    match shape {
        TypeShape::Primitive(k) => convert_prim(v, k),
        TypeShape::Optional(inner) => {
            if v.is_null() {
                Some(Typed::Opt(None))
            } else {
                match convert(v, g, inner) {
                    Some(t) => Some(Typed::Opt(Some(Box::new(t)))),
                    None => Some(Typed::Opt(None)),
                }
            }
        },
        TypeShape::List(inner) => {
            match v.as_array() {
                Some(items) => {
                    let ghost vs = values_view(items@);
                    let mut out: Vec<Typed> = Vec::new();
                    let mut i: usize = 0;
                    assert(vs.subrange(0, 0) =~= Seq::<Val>::empty());
                    assert(typed_view(out@) =~= Seq::<TV>::empty());
                    while i < items.len()
                        invariant
                            *shape == TypeShape::List(*inner),
                            vs == values_view(items@),
                            i <= items@.len(),
                            typed_view(out@) == conv_items(vs.subrange(0, i as int), g@, **inner),
                        decreases items@.len() - i,
                    {
                        assert(vs.subrange(0, i + 1).drop_last() =~= vs.subrange(0, i as int));
                        let ghost before = out@;
                        assert(decreases_to!(*shape => **inner)) by {
                            assert(decreases_to!(*shape => (*shape)->List_0));
                        }
                        match convert(&items[i], g, inner) {
                            Some(t) => {
                                out.push(t);
                                assert(typed_view(out@) =~= typed_view(before).push(tview(t)));
                            },
                            None => {},
                        }
                        i = i + 1;
                    }
                    assert(vs.subrange(0, items@.len() as int) =~= vs);
                    let r = Typed::List(out);
                    proof {
                        lemma_typed_shapes(r);
                    }
                    Some(r)
                },
                None => None,
            }
        },
        TypeShape::Dict(inner) => {
            let mut copy = v.deep_clone();
            convert_table(&mut copy, g, inner)
        },
        TypeShape::Nested(schema) => {
            if v.as_object().is_none() {
                return None;
            }
            let mut l = v.deep_clone();
            let mut gg = g.deep_clone();
            match build_into(&mut l, &mut gg, schema) {
                Ok(fs) => {
                    let r = Typed::Record(fs);
                    proof {
                        lemma_typed_shapes(r);
                    }
                    Some(r)
                },
                Err(_) => None,
            }
        },
    }
}

/// Converts the table `raw` entry by entry to `inner`, and removes from it
/// the entries that converted; the entries that did not stay as they were.
/// Fails, leaving `raw` as it is, when `raw` is not an object.
pub fn convert_table(raw: &mut DynValue, g: &DynValue, inner: &TypeShape) -> (r: Option<Typed>)
    ensures
        opt_view(r) == conv(old(raw)@, g@, TypeShape::Dict(Box::new(*inner))),
        final(raw)@ == residue(old(raw)@, g@, *inner),
        wf_object(old(raw)@) ==> wf_object(final(raw)@),
        wf_object(old(raw)@) && r is Some ==> keys_unique(tview(r->0)->Dict_0),
    decreases inner, 1nat,
{
    proof {
        lemma_view_shapes(*raw);
        if wf_object(raw@) && raw@ is Object {
            crate::laws::law_table_exact(raw@->Object_0, g@, *inner);
        }
    }
    let split = match &*raw {
        DynValue::Object(es) => {
            let ghost ev = entries_view(es@);
            let mut out: Vec<(String, Typed)> = Vec::new();
            let mut kept: Vec<(String, DynValue)> = Vec::new();
            let mut i: usize = 0;
            assert(ev.subrange(0, 0) =~= Seq::<(Seq<char>, Val)>::empty());
            assert(named_view(out@) =~= Seq::<(Seq<char>, TV)>::empty());
            assert(entries_view(kept@) =~= Seq::<(Seq<char>, Val)>::empty());
            while i < es.len()
                invariant
                    ev == entries_view(es@),
                    i <= es@.len(),
                    named_view(out@) == conv_entries(ev.subrange(0, i as int), g@, *inner),
                    entries_view(kept@) == failing_entries(ev.subrange(0, i as int), g@, *inner),
                decreases es@.len() - i,
            {
                assert(ev.subrange(0, i + 1).drop_last() =~= ev.subrange(0, i as int));
                let ghost out0 = out@;
                let ghost kept0 = kept@;
                match convert(&es[i].1, g, inner) {
                    Some(t) => {
                        let k = es[i].0.clone();
                        out.push((k, t));
                        assert(named_view(out@) =~= named_view(out0).push((ev[i as int].0, tview(t))));
                    },
                    None => {
                        let k = es[i].0.clone();
                        let x = es[i].1.deep_clone();
                        kept.push((k, x));
                        assert(entries_view(kept@) =~= entries_view(kept0).push(ev[i as int]));
                    },
                }
                i = i + 1;
            }
            assert(ev.subrange(0, es@.len() as int) =~= ev);
            Some((out, kept))
        },
        _ => None,
    };
    match split {
        Some((out, kept)) => {
            *raw = DynValue::Object(kept);
            let r = Typed::Dict(out);
            proof {
                lemma_view_shapes(*raw);
                lemma_typed_shapes(r);
            }
            Some(r)
        },
        None => None,
    }
}

/// Once a field has failed, the later fields change nothing.
pub proof fn lemma_failure_sticks(l: Val, g: Val, schema: RecordSchema, k: nat, m: nat)
    requires
        k <= m <= schema.fields@.len(),
        build_fields(l, g, schema, k).result is Err,
    ensures
        build_fields(l, g, schema, m) == build_fields(l, g, schema, k),
    decreases m - k,
{
    if m > k {
        lemma_failure_sticks(l, g, schema, k, (m - 1) as nat);
    }
}

/// Builds the fields of `schema` in order against the roots `l` and `g`,
/// stopping at the first field that fails without a default.
fn build_into(l: &mut DynValue, g: &mut DynValue, schema: &RecordSchema) -> (r: Result<
    Vec<(String, Typed)>,
    BuildError,
>)
    ensures
        record_view(r) == build_fields(old(l)@, old(g)@, *schema, schema.fields@.len()).result,
        final(l)@ == build_fields(old(l)@, old(g)@, *schema, schema.fields@.len()).local,
        final(g)@ == build_fields(old(l)@, old(g)@, *schema, schema.fields@.len()).global,
    decreases schema, 0nat,
{
    let ghost l0 = l@;
    let ghost g0 = g@;
    let mut out: Vec<(String, Typed)> = Vec::new();
    let mut i: usize = 0;
    assert(named_view(out@) =~= Seq::<(Seq<char>, TV)>::empty());
    while i < schema.fields.len()
        invariant
            l0 == old(l)@,
            g0 == old(g)@,
            i <= schema.fields@.len(),
            build_fields(l0, g0, *schema, i as nat).result == Ok::<Seq<(Seq<char>, TV)>, Failure>(named_view(out@)),
            build_fields(l0, g0, *schema, i as nat).local == l@,
            build_fields(l0, g0, *schema, i as nat).global == g@,
        decreases schema.fields@.len() - i,
    {
        let f = &schema.fields[i];
        let ghost out0 = out@;
        match convert_field(l, g, f) {
            Err(e) => {
                proof {
                    lemma_failure_sticks(l0, g0, *schema, (i + 1) as nat, schema.fields@.len());
                }
                return Err(e);
            },
            Ok(None) => {},
            Ok(Some(t)) => {
                out.push((f.name.clone(), t));
                assert(named_view(out@) =~= named_view(out0).push((f.name@, tview(t))));
            },
        }
        i = i + 1;
    }
    Ok(out)
}

/// Converts one field against the roots `l` and `g`, consuming its key.
fn convert_field(l: &mut DynValue, g: &mut DynValue, f: &FieldSchema) -> (r: Result<Option<Typed>, BuildError>)
    ensures
        step_view(r) == field_step(old(l)@, old(g)@, *f).result,
        final(l)@ == field_step(old(l)@, old(g)@, *f).local,
        final(g)@ == field_step(old(l)@, old(g)@, *f).global,
    decreases f, 1nat,
{
    if f.skip {
        return Ok(None);
    }
    let from_global = match f.scope {
        Scope::Global => true,
        Scope::Local => false,
    };
    let first = if from_global {
        g.take(&f.name)
    } else {
        l.take(&f.name)
    };
    let is_dict = match f.shape {
        TypeShape::Dict(_) => true,
        _ => false,
    };
    let fallback = is_dict && first.is_null();
    let mut raw = if fallback {
        g.take(&f.name)
    } else {
        first
    };
    let ghost raw0 = raw@;
    let converted = match &f.shape {
        TypeShape::Dict(inner) => convert_table(&mut raw, g, inner),
        _ => convert(&raw, g, &f.shape),
    };
    match converted {
        Some(t) => {
            let keep = match raw.as_object() {
                Some(es) => is_dict && es.len() > 0,
                None => false,
            };
            proof {
                lemma_view_shapes(raw);
            }
            if fallback && keep {
                g.set(f.name.clone(), raw);
            }
            Ok(Some(t))
        },
        None => {
            match f.shape {
                TypeShape::List(_) => {
                    let r = Typed::List(Vec::new());
                    proof {
                        lemma_typed_shapes(r);
                        assert(typed_view(r->List_0@) =~= Seq::<TV>::empty());
                    }
                    return Ok(Some(r));
                },
                _ => {},
            }
            match &f.default {
                DefaultPolicy::UseTypeDefault => Ok(Some(zero_value(&f.shape))),
                DefaultPolicy::UseNamedDefault(d) => Ok(Some(d.value.deep_clone())),
                DefaultPolicy::NoDefault => {
                    if fallback {
                        if !raw.is_null() {
                            g.set(f.name.clone(), raw);
                        }
                    } else if from_global {
                        g.set(f.name.clone(), raw);
                    } else {
                        l.set(f.name.clone(), raw);
                    }
                    Err(BuildError::FieldTypeMismatch(f.name.clone()))
                },
            }
        },
    }
}

/// The zero value of `shape`.
pub fn zero_value(shape: &TypeShape) -> (r: Typed)
    ensures
        r@ == zero_of(*shape),
    decreases shape, 0nat,
{
    let r = match shape {
        TypeShape::Primitive(k) => match k {
            PrimKind::Bool => Typed::Bool(false),
            PrimKind::I16 => Typed::I16(0),
            PrimKind::U16 => Typed::U16(0),
            PrimKind::I32 => Typed::I32(0),
            PrimKind::U32 => Typed::U32(0),
            PrimKind::I64 => Typed::I64(0),
            PrimKind::U64 => Typed::U64(0),
            PrimKind::Float => Typed::Float(0),
            PrimKind::Str => Typed::Str(String::new()),
        },
        TypeShape::Optional(_) => Typed::Opt(None),
        TypeShape::List(_) => Typed::List(Vec::new()),
        TypeShape::Dict(_) => Typed::Dict(Vec::new()),
        TypeShape::Nested(schema) => {
            let mut out: Vec<(String, Typed)> = Vec::new();
            let mut i: usize = 0;
            assert(named_view(out@) =~= Seq::<(Seq<char>, TV)>::empty());
            while i < schema.fields.len()
                invariant
                    *shape == TypeShape::Nested(*schema),
                    i <= schema.fields@.len(),
                    named_view(out@) == zero_fields(*schema, i as nat),
                decreases schema.fields@.len() - i,
            {
                let f = &schema.fields[i];
                assert(decreases_to!(*shape => f.shape)) by {
                    assert(decreases_to!(*shape => (*shape)->Nested_0));
                    assert(decreases_to!(*schema => schema.fields));
                    assert(decreases_to!(schema.fields => schema.fields@));
                    assert(decreases_to!(schema.fields@ => schema.fields@[i as int]));
                    assert(decreases_to!(schema.fields@[i as int] => schema.fields@[i as int].shape));
                }
                if !f.skip {
                    let ghost out0 = out@;
                    let z = zero_value(&f.shape);
                    out.push((f.name.clone(), z));
                    assert(named_view(out@) =~= named_view(out0).push((f.name@, tview(z))));
                }
                i = i + 1;
            }
            Typed::Record(out)
        },
    };
    proof {
        lemma_typed_shapes(r);
        if r is List {
            assert(typed_view(r->List_0@) =~= Seq::<TV>::empty());
        }
        if r is Dict {
            assert(named_view(r->Dict_0@) =~= Seq::<(Seq<char>, TV)>::empty());
        }
    }
    r
}

/// Builds a record of `schema` from the local root `local`, reading fields
/// marked global from `global`. Every key a field reads is consumed; a field
/// that fails without a default is put back and fails the whole build.
pub fn build_record(local: &mut DynValue, global: &mut DynValue, schema: &RecordSchema) -> (r: Result<
    Vec<(String, Typed)>,
    BuildError,
>)
    ensures
        record_view(r) == build(old(local)@, old(global)@, *schema).result,
        final(local)@ == build(old(local)@, old(global)@, *schema).local,
        final(global)@ == build(old(local)@, old(global)@, *schema).global,
        wf_object(old(local)@) && wf_object(old(global)@) ==> wf_object(final(local)@) && wf_object(
            final(global)@,
        ),
{
    proof {
        if wf_object(local@) && wf_object(global@) {
            crate::laws::law_build_keeps_wf(local@, global@, *schema);
        }
    }
    if local.as_object().is_none() {
        return Err(BuildError::NotAnObject);
    }
    build_into(local, global, schema)
}

/// Builds a record of `schema` from owned roots, which are dropped afterwards.
pub fn from_value(local: DynValue, global: DynValue, schema: &RecordSchema) -> (r: Result<
    Vec<(String, Typed)>,
    BuildError,
>)
    ensures
        record_view(r) == build(local@, global@, *schema).result,
{
    let mut l = local;
    let mut g = global;
    build_record(&mut l, &mut g, schema)
}

} // verus!

use etoml_convert::convert::{build_record, convert, convert_table, from_value, zero_value, BuildError};
use etoml_convert::schema::{
    DefaultPolicy, FieldSchema, NamedDefault, PrimKind, RecordSchema, Scope, TypeShape,
};
use etoml_convert::typed::Typed;
use etoml_convert::value::DynValue;

fn s(x: &str) -> String {
    x.to_string()
}

fn obj(entries: Vec<(&str, DynValue)>) -> DynValue {
    DynValue::Object(entries.into_iter().map(|(k, v)| (s(k), v)).collect())
}

fn dstr(x: &str) -> DynValue {
    DynValue::Str(s(x))
}

fn prim(k: PrimKind) -> TypeShape {
    TypeShape::Primitive(k)
}

fn field(name: &str, shape: TypeShape) -> FieldSchema {
    FieldSchema {
        name: s(name),
        shape,
        skip: false,
        scope: Scope::Local,
        default: DefaultPolicy::NoDefault,
    }
}

fn with_default(mut f: FieldSchema, d: DefaultPolicy) -> FieldSchema {
    f.default = d;
    f
}

fn named(entries: Vec<(&str, Typed)>) -> Vec<(String, Typed)> {
    entries.into_iter().map(|(k, v)| (s(k), v)).collect()
}

fn empty() -> DynValue {
    DynValue::Object(vec![])
}

#[test]
fn primitive_matching_values_convert_exactly() {
    let g = empty();
    assert_eq!(convert(&DynValue::Int(30), &g, &prim(PrimKind::I32)), Some(Typed::I32(30)));
    assert_eq!(convert(&DynValue::Int(-5), &g, &prim(PrimKind::I64)), Some(Typed::I64(-5)));
    assert_eq!(convert(&DynValue::Bool(true), &g, &prim(PrimKind::Bool)), Some(Typed::Bool(true)));
    assert_eq!(convert(&dstr("hi"), &g, &prim(PrimKind::Str)), Some(Typed::Str(s("hi"))));
    let bits = 2.5f64.to_bits();
    assert_eq!(convert(&DynValue::Float(bits), &g, &prim(PrimKind::Float)), Some(Typed::Float(bits)));
}

#[test]
fn primitive_narrowing_wraps_silently() {
    let g = empty();
    assert_eq!(convert(&DynValue::Int(70000), &g, &prim(PrimKind::I16)), Some(Typed::I16(4464)));
    assert_eq!(convert(&DynValue::Int(-1), &g, &prim(PrimKind::U16)), Some(Typed::U16(65535)));
    assert_eq!(convert(&DynValue::Int(-1), &g, &prim(PrimKind::U32)), Some(Typed::U32(u32::MAX)));
    assert_eq!(convert(&DynValue::Int(-1), &g, &prim(PrimKind::U64)), Some(Typed::U64(u64::MAX)));
    assert_eq!(
        convert(&DynValue::Int(1i64 << 32), &g, &prim(PrimKind::I32)),
        Some(Typed::I32(0))
    );
}

#[test]
fn primitive_mismatched_tags_fail() {
    let g = empty();
    assert_eq!(convert(&dstr("30"), &g, &prim(PrimKind::I32)), None);
    assert_eq!(convert(&DynValue::Int(1), &g, &prim(PrimKind::Bool)), None);
    assert_eq!(convert(&DynValue::Int(1), &g, &prim(PrimKind::Float)), None);
    assert_eq!(convert(&DynValue::Null, &g, &prim(PrimKind::Str)), None);
}

#[test]
fn optional_of_null_is_absent_for_every_inner_shape() {
    let g = empty();
    let shapes = vec![
        prim(PrimKind::I32),
        TypeShape::List(Box::new(prim(PrimKind::Str))),
        TypeShape::Dict(Box::new(prim(PrimKind::Bool))),
        TypeShape::Nested(RecordSchema { fields: vec![field("x", prim(PrimKind::I32))] }),
    ];
    for inner in shapes {
        let shape = TypeShape::Optional(Box::new(inner));
        assert_eq!(convert(&DynValue::Null, &g, &shape), Some(Typed::Opt(None)));
    }
}

#[test]
fn optional_of_present_value() {
    let g = empty();
    let shape = TypeShape::Optional(Box::new(prim(PrimKind::I32)));
    assert_eq!(
        convert(&DynValue::Int(7), &g, &shape),
        Some(Typed::Opt(Some(Box::new(Typed::I32(7)))))
    );
    // A mismatched non-null value does not fail the optional.
    assert_eq!(convert(&dstr("seven"), &g, &shape), Some(Typed::Opt(None)));
}

#[test]
fn list_of_non_array_fails() {
    let g = empty();
    let shape = TypeShape::List(Box::new(prim(PrimKind::I32)));
    assert_eq!(convert(&DynValue::Int(1), &g, &shape), None);
    assert_eq!(convert(&DynValue::Null, &g, &shape), None);
    assert_eq!(convert(&empty(), &g, &shape), None);
}

#[test]
fn list_drops_failing_elements() {
    let g = empty();
    let shape = TypeShape::List(Box::new(prim(PrimKind::I32)));
    let v = DynValue::Array(vec![DynValue::Int(1), dstr("x"), DynValue::Int(2), DynValue::Null]);
    assert_eq!(
        convert(&v, &g, &shape),
        Some(Typed::List(vec![Typed::I32(1), Typed::I32(2)]))
    );
    assert_eq!(convert(&DynValue::Array(vec![]), &g, &shape), Some(Typed::List(vec![])));
}

#[test]
fn table_consumes_exactly_the_converted_keys() {
    let g = empty();
    let mut raw = obj(vec![
        ("a", DynValue::Int(1)),
        ("b", dstr("x")),
        ("c", DynValue::Int(2)),
    ]);
    let r = convert_table(&mut raw, &g, &prim(PrimKind::I32));
    assert_eq!(
        r,
        Some(Typed::Dict(named(vec![("a", Typed::I32(1)), ("c", Typed::I32(2))])))
    );
    assert_eq!(raw, obj(vec![("b", dstr("x"))]));
}

#[test]
fn table_of_non_object_fails_and_stays() {
    let g = empty();
    let mut raw = DynValue::Array(vec![DynValue::Int(1)]);
    assert_eq!(convert_table(&mut raw, &g, &prim(PrimKind::I32)), None);
    assert_eq!(raw, DynValue::Array(vec![DynValue::Int(1)]));
}

#[test]
fn pure_table_conversion_leaves_value() {
    let g = empty();
    let v = obj(vec![("a", DynValue::Int(1)), ("b", dstr("x"))]);
    let shape = TypeShape::Dict(Box::new(prim(PrimKind::I32)));
    assert_eq!(
        convert(&v, &g, &shape),
        Some(Typed::Dict(named(vec![("a", Typed::I32(1))])))
    );
    assert_eq!(v, obj(vec![("a", DynValue::Int(1)), ("b", dstr("x"))]));
}

#[test]
fn take_removes_and_second_take_is_null() {
    let mut v = obj(vec![("k", DynValue::Int(3)), ("j", DynValue::Bool(false))]);
    assert_eq!(v.take(&s("k")), DynValue::Int(3));
    assert_eq!(v, obj(vec![("j", DynValue::Bool(false))]));
    assert_eq!(v.take(&s("k")), DynValue::Null);
    assert_eq!(v.take(&s("missing")), DynValue::Null);
    let mut n = DynValue::Int(1);
    assert_eq!(n.take(&s("k")), DynValue::Null);
    assert_eq!(n, DynValue::Int(1));
}

#[test]
fn set_inserts_and_overwrites() {
    let mut v = obj(vec![("k", DynValue::Int(3))]);
    v.set(s("k"), dstr("new"));
    v.set(s("m"), DynValue::Null);
    assert_eq!(v, obj(vec![("k", dstr("new")), ("m", DynValue::Null)]));
}

#[test]
fn projections_surface_absence() {
    assert_eq!(DynValue::Int(4).as_integer(), Some(4));
    assert_eq!(dstr("4").as_integer(), None);
    assert_eq!(dstr("4").as_string(), Some(s("4")));
    assert_eq!(DynValue::Bool(true).as_bool(), Some(true));
    assert_eq!(DynValue::Float(9).as_float(), Some(9));
    assert!(DynValue::Null.as_array().is_none());
    assert!(empty().as_object().is_some());
    assert!(DynValue::Null.is_null());
}

#[test]
fn scenario_simple_record() {
    let mut local = obj(vec![("name", dstr("alice")), ("age", DynValue::Int(30))]);
    let mut global = empty();
    let schema = RecordSchema {
        fields: vec![field("name", prim(PrimKind::Str)), field("age", prim(PrimKind::I32))],
    };
    let r = build_record(&mut local, &mut global, &schema);
    assert_eq!(
        r,
        Ok(named(vec![("name", Typed::Str(s("alice"))), ("age", Typed::I32(30))]))
    );
    assert_eq!(local, empty());
}

#[test]
fn scenario_table_falls_back_to_global() {
    let mut local = obj(vec![("tags", DynValue::Null)]);
    let mut global = obj(vec![(
        "tags",
        obj(vec![("a", DynValue::Int(1)), ("b", DynValue::Int(2))]),
    )]);
    let schema = RecordSchema {
        fields: vec![field("tags", TypeShape::Dict(Box::new(prim(PrimKind::I32))))],
    };
    let r = build_record(&mut local, &mut global, &schema);
    assert_eq!(
        r,
        Ok(named(vec![(
            "tags",
            Typed::Dict(named(vec![("a", Typed::I32(1)), ("b", Typed::I32(2))]))
        )]))
    );
    assert_eq!(global.take(&s("tags")), DynValue::Null);
}

#[test]
fn table_fallback_keeps_failing_entries_in_global() {
    let mut local = empty();
    let mut global = obj(vec![(
        "tags",
        obj(vec![("a", DynValue::Int(1)), ("b", dstr("two"))]),
    )]);
    let schema = RecordSchema {
        fields: vec![field("tags", TypeShape::Dict(Box::new(prim(PrimKind::I32))))],
    };
    let r = build_record(&mut local, &mut global, &schema);
    assert_eq!(
        r,
        Ok(named(vec![("tags", Typed::Dict(named(vec![("a", Typed::I32(1))])))]))
    );
    assert_eq!(global, obj(vec![("tags", obj(vec![("b", dstr("two"))]))]));
    assert_eq!(local, empty());
}

#[test]
fn scenario_named_default() {
    let mut local = empty();
    let mut global = empty();
    let f = with_default(
        field("count", prim(PrimKind::I32)),
        DefaultPolicy::UseNamedDefault(NamedDefault { name: s("zero"), value: Typed::I32(0) }),
    );
    let schema = RecordSchema { fields: vec![f] };
    let r = build_record(&mut local, &mut global, &schema);
    assert_eq!(r, Ok(named(vec![("count", Typed::I32(0))])));
}

#[test]
fn scenario_failure_restores_key() {
    let mut local = obj(vec![("count", dstr("oops"))]);
    let mut global = empty();
    let schema = RecordSchema { fields: vec![field("count", prim(PrimKind::I32))] };
    let r = build_record(&mut local, &mut global, &schema);
    assert_eq!(r, Err(BuildError::FieldTypeMismatch(s("count"))));
    assert_eq!(local, obj(vec![("count", dstr("oops"))]));
}

#[test]
fn failure_stops_later_fields() {
    let mut local = obj(vec![("a", dstr("bad")), ("b", DynValue::Int(2))]);
    let mut global = empty();
    let schema = RecordSchema {
        fields: vec![field("a", prim(PrimKind::I32)), field("b", prim(PrimKind::I32))],
    };
    let r = build_record(&mut local, &mut global, &schema);
    assert_eq!(r, Err(BuildError::FieldTypeMismatch(s("a"))));
    assert_eq!(local.take(&s("b")), DynValue::Int(2));
    assert_eq!(local.take(&s("a")), dstr("bad"));
}

fn item_schema() -> RecordSchema {
    RecordSchema { fields: vec![field("name", prim(PrimKind::Str))] }
}

#[test]
fn scenario_list_of_records_drops_failing_element() {
    let mut local = obj(vec![(
        "items",
        DynValue::Array(vec![
            obj(vec![("name", dstr("a"))]),
            obj(vec![("name", dstr("b"))]),
            dstr("x"),
        ]),
    )]);
    let mut global = empty();
    let schema = RecordSchema {
        fields: vec![field(
            "items",
            TypeShape::List(Box::new(TypeShape::Nested(item_schema()))),
        )],
    };
    let r = build_record(&mut local, &mut global, &schema).unwrap();
    assert_eq!(r.len(), 1);
    match &r[0].1 {
        Typed::List(items) => {
            assert_eq!(items.len(), 2);
            assert_eq!(items[0], Typed::Record(named(vec![("name", Typed::Str(s("a")))])));
            assert_eq!(items[1], Typed::Record(named(vec![("name", Typed::Str(s("b")))])));
        }
        other => panic!("unexpected {:?}", other),
    }
}

#[test]
fn list_field_of_non_array_defaults_to_empty() {
    let mut local = obj(vec![("items", dstr("none"))]);
    let mut global = empty();
    let schema = RecordSchema {
        fields: vec![field("items", TypeShape::List(Box::new(prim(PrimKind::I32))))],
    };
    let r = build_record(&mut local, &mut global, &schema);
    assert_eq!(r, Ok(named(vec![("items", Typed::List(vec![]))])));
}

#[test]
fn build_twice_finds_consumed_keys_absent() {
    let schema = RecordSchema {
        fields: vec![field("name", prim(PrimKind::Str)), field("age", prim(PrimKind::I32))],
    };
    let mut local = obj(vec![
        ("name", dstr("bob")),
        ("age", DynValue::Int(4)),
        ("extra", DynValue::Bool(true)),
    ]);
    let mut global = empty();
    assert!(build_record(&mut local, &mut global, &schema).is_ok());
    assert_eq!(local, obj(vec![("extra", DynValue::Bool(true))]));
    let second = build_record(&mut local, &mut global, &schema);
    assert_eq!(second, Err(BuildError::FieldTypeMismatch(s("name"))));
    // The null read for the failing field is bound back under its key.
    assert_eq!(local, obj(vec![("extra", DynValue::Bool(true)), ("name", DynValue::Null)]));
}

#[test]
fn build_of_non_object_fails() {
    let schema = RecordSchema { fields: vec![field("a", prim(PrimKind::I32))] };
    let r = from_value(DynValue::Int(1), empty(), &schema);
    assert_eq!(r, Err(BuildError::NotAnObject));
}

#[test]
fn global_scope_field_reads_global_root() {
    let mut f = field("shared", prim(PrimKind::Str));
    f.scope = Scope::Global;
    let schema = RecordSchema { fields: vec![f] };
    let mut local = obj(vec![("shared", dstr("local"))]);
    let mut global = obj(vec![("shared", dstr("global"))]);
    let r = build_record(&mut local, &mut global, &schema);
    assert_eq!(r, Ok(named(vec![("shared", Typed::Str(s("global")))])));
    assert_eq!(local, obj(vec![("shared", dstr("local"))]));
    assert_eq!(global, empty());
}

#[test]
fn skipped_field_is_neither_read_nor_output() {
    let mut f = field("hidden", prim(PrimKind::I32));
    f.skip = true;
    let schema = RecordSchema { fields: vec![f, field("shown", prim(PrimKind::Bool))] };
    let mut local = obj(vec![("hidden", DynValue::Int(1)), ("shown", DynValue::Bool(true))]);
    let mut global = empty();
    let r = build_record(&mut local, &mut global, &schema);
    assert_eq!(r, Ok(named(vec![("shown", Typed::Bool(true))])));
    assert_eq!(local, obj(vec![("hidden", DynValue::Int(1))]));
}

#[test]
fn type_default_gives_zero_values() {
    let nested = TypeShape::Nested(RecordSchema {
        fields: vec![field("n", prim(PrimKind::U16)), field("s", prim(PrimKind::Str))],
    });
    let schema = RecordSchema {
        fields: vec![
            with_default(field("count", prim(PrimKind::I64)), DefaultPolicy::UseTypeDefault),
            with_default(field("inner", nested), DefaultPolicy::UseTypeDefault),
        ],
    };
    let mut local = obj(vec![("count", dstr("x"))]);
    let mut global = empty();
    let r = build_record(&mut local, &mut global, &schema);
    assert_eq!(
        r,
        Ok(named(vec![
            ("count", Typed::I64(0)),
            (
                "inner",
                Typed::Record(named(vec![("n", Typed::U16(0)), ("s", Typed::Str(s("")))]))
            ),
        ]))
    );
    assert_eq!(local, empty());
}

#[test]
fn zero_value_of_shapes() {
    assert_eq!(zero_value(&prim(PrimKind::Bool)), Typed::Bool(false));
    assert_eq!(zero_value(&TypeShape::Optional(Box::new(prim(PrimKind::I32)))), Typed::Opt(None));
    assert_eq!(zero_value(&TypeShape::Dict(Box::new(prim(PrimKind::I32)))), Typed::Dict(vec![]));
}

#[test]
fn nested_record_reads_global_for_its_global_fields() {
    let mut inner_field = field("url", prim(PrimKind::Str));
    inner_field.scope = Scope::Global;
    let schema = RecordSchema {
        fields: vec![field(
            "server",
            TypeShape::Nested(RecordSchema { fields: vec![inner_field] }),
        )],
    };
    let mut local = obj(vec![("server", empty())]);
    let mut global = obj(vec![("url", dstr("http://x"))]);
    let r = build_record(&mut local, &mut global, &schema);
    assert_eq!(
        r,
        Ok(named(vec![(
            "server",
            Typed::Record(named(vec![("url", Typed::Str(s("http://x")))]))
        )]))
    );
    // The nested pass works on copies: the global root keeps its entry.
    assert_eq!(global, obj(vec![("url", dstr("http://x"))]));
}

#[test]
fn deep_clone_copies_trees() {
    let v = obj(vec![("a", DynValue::Array(vec![DynValue::Int(1), dstr("z")]))]);
    assert_eq!(v.deep_clone(), v);
    let t = Typed::Dict(named(vec![("k", Typed::Opt(Some(Box::new(Typed::U64(3)))))]));
    assert_eq!(t.deep_clone(), t);
}

#[test]
fn failure_restores_null_value() {
    let mut local = obj(vec![("count", DynValue::Null)]);
    let mut global = empty();
    let schema = RecordSchema { fields: vec![field("count", prim(PrimKind::I32))] };
    let r = build_record(&mut local, &mut global, &schema);
    assert_eq!(r, Err(BuildError::FieldTypeMismatch(s("count"))));
    assert_eq!(local, obj(vec![("count", DynValue::Null)]));
}

#[test]
fn converted_table_field_consumes_its_key() {
    let mut local = obj(vec![(
        "m",
        obj(vec![("a", DynValue::Int(1)), ("b", dstr("x"))]),
    )]);
    let mut global = empty();
    let schema = RecordSchema {
        fields: vec![field("m", TypeShape::Dict(Box::new(prim(PrimKind::I32))))],
    };
    let r = build_record(&mut local, &mut global, &schema);
    assert_eq!(
        r,
        Ok(named(vec![("m", Typed::Dict(named(vec![("a", Typed::I32(1))])))]))
    );
    assert_eq!(local, empty());
    assert_eq!(global, empty());
}

#[test]
fn list_field_ignores_named_default() {
    let f = with_default(
        field("items", TypeShape::List(Box::new(prim(PrimKind::I32)))),
        DefaultPolicy::UseNamedDefault(NamedDefault {
            name: s("some"),
            value: Typed::List(vec![Typed::I32(9)]),
        }),
    );
    let schema = RecordSchema { fields: vec![f] };
    let mut local = obj(vec![("items", DynValue::Int(3))]);
    let mut global = empty();
    let r = build_record(&mut local, &mut global, &schema);
    assert_eq!(r, Ok(named(vec![("items", Typed::List(vec![]))])));
    assert_eq!(local, empty());
}

#[test]
fn global_field_failure_restores_into_global() {
    let mut f = field("shared", prim(PrimKind::I32));
    f.scope = Scope::Global;
    let schema = RecordSchema { fields: vec![f] };
    let mut local = obj(vec![("shared", DynValue::Int(1))]);
    let mut global = obj(vec![("shared", dstr("bad"))]);
    let r = build_record(&mut local, &mut global, &schema);
    assert_eq!(r, Err(BuildError::FieldTypeMismatch(s("shared"))));
    assert_eq!(global, obj(vec![("shared", dstr("bad"))]));
    assert_eq!(local, obj(vec![("shared", DynValue::Int(1))]));
}

#[test]
fn defaulted_fields_consume_their_keys_for_a_second_build() {
    let schema = RecordSchema {
        fields: vec![
            with_default(field("n", prim(PrimKind::I32)), DefaultPolicy::UseTypeDefault),
            field("opt", TypeShape::Optional(Box::new(prim(PrimKind::Str)))),
        ],
    };
    let mut local = obj(vec![("n", dstr("x")), ("opt", dstr("v"))]);
    let mut global = empty();
    let first = build_record(&mut local, &mut global, &schema);
    assert_eq!(
        first,
        Ok(named(vec![
            ("n", Typed::I32(0)),
            ("opt", Typed::Opt(Some(Box::new(Typed::Str(s("v")))))),
        ]))
    );
    let second = build_record(&mut local, &mut global, &schema);
    assert_eq!(
        second,
        Ok(named(vec![("n", Typed::I32(0)), ("opt", Typed::Opt(None))]))
    );
}

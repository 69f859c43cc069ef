use builder::definition::BuilderDef;
use builder::directive::{extract_each, requested_name_from, AttrBody, Attribute, Literal, NestedMeta};
use builder::methods::SetterKind;
use builder::schema::{FieldSpec, RecordSchema, SchemaError};
use builder::shape::{Segment, TypeShape};
use builder::state::{BuildError, BuilderState, CallError, FieldValue, Record, Value};

fn ty(name: &str, args: Vec<TypeShape>) -> TypeShape {
    TypeShape::Path(vec![Segment { name: name.to_string(), args }])
}

fn string_ty() -> TypeShape {
    ty("String", vec![])
}

fn each(name: &str) -> Attribute {
    Attribute {
        path: "builder".to_string(),
        body: AttrBody::List(vec![NestedMeta::NameValue {
            key: "each".to_string(),
            value: Literal::Str(name.to_string()),
        }]),
    }
}

fn field(name: &str, t: TypeShape, attrs: Vec<Attribute>) -> FieldSpec {
    FieldSpec { name: name.to_string(), ty: t, attrs }
}

/// The command record: executable, args (each "arg"), env, current_dir.
fn command_specs() -> Vec<FieldSpec> {
    vec![
        field("executable", string_ty(), vec![]),
        field("args", ty("Vec", vec![string_ty()]), vec![each("arg")]),
        field("env", ty("Option", vec![ty("Vec", vec![string_ty()])]), vec![]),
        field("current_dir", ty("Option", vec![string_ty()]), vec![]),
    ]
}

fn command_def() -> BuilderDef {
    BuilderDef::derive(command_specs()).unwrap()
}

fn s(x: &str) -> String {
    x.to_string()
}

fn missing(names: &[&str]) -> BuildError {
    BuildError::MissingMandatoryFields(names.iter().map(|n| n.to_string()).collect())
}

#[test]
fn fresh_command_builder_fails_naming_mandatory_fields() {
    let def = command_def();
    let b: BuilderState<String> = def.builder();
    match b.build(&def) {
        Err((e, _)) => assert_eq!(e, missing(&["executable", "args"])),
        Ok(_) => panic!("build of a fresh builder succeeded"),
    }
}

#[test]
fn command_with_accumulated_args_builds() {
    let def = command_def();
    let mut b: BuilderState<String> = def.builder();
    assert_eq!(b.set(&def, "executable", Value::One(s("ls"))), Ok(()));
    assert_eq!(b.push(&def, "arg", s("-l")), Ok(()));
    assert_eq!(b.push(&def, "arg", s("-a")), Ok(()));
    let rec = b.build(&def).ok().unwrap();
    assert_eq!(
        rec,
        Record {
            fields: vec![
                FieldValue::Mandatory(Value::One(s("ls"))),
                FieldValue::Mandatory(Value::Many(vec![s("-l"), s("-a")])),
                FieldValue::Optional(None),
                FieldValue::Optional(None),
            ]
        }
    );
}

#[test]
fn plain_setter_beside_each_setter_replaces() {
    let def = command_def();
    let mut b: BuilderState<String> = def.builder();
    b.set(&def, "executable", Value::One(s("ls"))).unwrap();
    b.set(&def, "args", Value::Many(vec![s("-l")])).unwrap();
    let rec = b.build(&def).ok().unwrap();
    assert_eq!(rec.fields[1], FieldValue::Mandatory(Value::Many(vec![s("-l")])));
}

#[test]
fn setting_twice_keeps_the_last_value() {
    let def = command_def();
    let mut b: BuilderState<String> = def.builder();
    b.set(&def, "executable", Value::One(s("ls"))).unwrap();
    b.set(&def, "executable", Value::One(s("cat"))).unwrap();
    b.set(&def, "current_dir", Value::One(s("/a"))).unwrap();
    b.set(&def, "current_dir", Value::One(s("/b"))).unwrap();
    b.set(&def, "args", Value::Many(vec![])).unwrap();
    let rec = b.build(&def).ok().unwrap();
    assert_eq!(rec.fields[0], FieldValue::Mandatory(Value::One(s("cat"))));
    assert_eq!(rec.fields[3], FieldValue::Optional(Some(Value::One(s("/b")))));
}

#[test]
fn each_setter_accumulates_in_call_order() {
    let def = command_def();
    let mut b: BuilderState<String> = def.builder();
    b.set(&def, "executable", Value::One(s("echo"))).unwrap();
    for x in ["1", "2", "3", "4", "5"] {
        b.push(&def, "arg", s(x)).unwrap();
    }
    let rec = b.build(&def).ok().unwrap();
    assert_eq!(
        rec.fields[1],
        FieldValue::Mandatory(Value::Many(vec![s("1"), s("2"), s("3"), s("4"), s("5")]))
    );
}

#[test]
fn each_setter_extends_a_sequence_set_before() {
    let def = command_def();
    let mut b: BuilderState<String> = def.builder();
    b.set(&def, "executable", Value::One(s("ls"))).unwrap();
    b.set(&def, "args", Value::Many(vec![s("-l")])).unwrap();
    b.push(&def, "arg", s("-a")).unwrap();
    let rec = b.build(&def).ok().unwrap();
    assert_eq!(rec.fields[1], FieldValue::Mandatory(Value::Many(vec![s("-l"), s("-a")])));
}

#[test]
fn each_setter_refuses_a_slot_holding_a_single_value() {
    let def = command_def();
    let mut b: BuilderState<String> = def.builder();
    b.set(&def, "executable", Value::One(s("ls"))).unwrap();
    b.set(&def, "args", Value::One(s("stale"))).unwrap();
    assert_eq!(b.push(&def, "arg", s("-a")), Err(CallError::NotASequence));
    assert_eq!(b.slots[1], Some(Value::One(s("stale"))));
    let rec = b.build(&def).ok().unwrap();
    assert_eq!(rec.fields[1], FieldValue::Mandatory(Value::One(s("stale"))));
}

#[test]
fn each_directive_named_like_its_field_wins() {
    let specs = vec![field("args", ty("Vec", vec![string_ty()]), vec![each("args")])];
    let def = BuilderDef::derive(specs).unwrap();
    assert_eq!(def.methods.len(), 1);
    assert_eq!(def.methods[0].kind, SetterKind::Append);
    let mut b: BuilderState<String> = def.builder();
    assert_eq!(b.set(&def, "args", Value::Many(vec![s("x")])), Err(CallError::NoSuchSetter));
    b.push(&def, "args", s("a")).unwrap();
    b.push(&def, "args", s("b")).unwrap();
    let rec = b.build(&def).ok().unwrap();
    assert_eq!(rec.fields[0], FieldValue::Mandatory(Value::Many(vec![s("a"), s("b")])));
}

#[test]
fn each_directive_named_like_another_field_wins() {
    let specs = vec![
        field("names", ty("Vec", vec![string_ty()]), vec![each("label")]),
        field("label", string_ty(), vec![]),
    ];
    let def = BuilderDef::derive(specs).unwrap();
    let k = def.method("label").unwrap();
    assert_eq!(def.methods[k].kind, SetterKind::Append);
    assert_eq!(def.methods[k].field, 0);
    assert_eq!(def.methods.len(), 2);
}

#[test]
fn unknown_setter_is_refused_and_changes_nothing() {
    let def = command_def();
    let mut b: BuilderState<String> = def.builder();
    assert_eq!(b.set(&def, "nope", Value::One(s("x"))), Err(CallError::NoSuchSetter));
    assert_eq!(b.push(&def, "executable", s("x")), Err(CallError::NoSuchSetter));
    assert!(b.slots.iter().all(|x| x.is_none()));
}

#[test]
fn failed_build_twice_gives_the_same_error() {
    let def = command_def();
    let mut b: BuilderState<String> = def.builder();
    b.set(&def, "executable", Value::One(s("ls"))).unwrap();
    let (e1, b) = b.build(&def).err().unwrap();
    let (e2, mut b) = b.build(&def).err().unwrap();
    assert_eq!(e1, missing(&["args"]));
    assert_eq!(e1, e2);
    b.push(&def, "arg", s("-l")).unwrap();
    assert!(b.build(&def).is_ok());
}

#[test]
fn build_names_only_the_unset_mandatory_fields() {
    let def = command_def();
    let mut b: BuilderState<String> = def.builder();
    b.push(&def, "arg", s("-l")).unwrap();
    b.set(&def, "env", Value::Many(vec![s("A=1")])).unwrap();
    let (e, _) = b.build(&def).err().unwrap();
    assert_eq!(e, missing(&["executable"]));
}

#[test]
fn optional_fields_are_passed_on() {
    let def = command_def();
    let mut b: BuilderState<String> = def.builder();
    b.set(&def, "executable", Value::One(s("ls"))).unwrap();
    b.push(&def, "arg", s("-l")).unwrap();
    b.set(&def, "env", Value::Many(vec![s("A=1"), s("B=2")])).unwrap();
    let rec = b.build(&def).ok().unwrap();
    assert_eq!(rec.fields[2], FieldValue::Optional(Some(Value::Many(vec![s("A=1"), s("B=2")]))));
    assert_eq!(rec.fields[3], FieldValue::Optional(None));
}

#[test]
fn schema_without_mandatory_fields_builds_at_once() {
    let specs = vec![field("note", ty("Option", vec![string_ty()]), vec![])];
    let def = BuilderDef::derive(specs).unwrap();
    let b: BuilderState<String> = def.builder();
    let rec = b.build(&def).ok().unwrap();
    assert_eq!(rec.fields, vec![FieldValue::Optional(None)]);
}

#[test]
fn empty_schema_builds_an_empty_record() {
    let def = BuilderDef::derive(vec![]).unwrap();
    assert!(def.methods.is_empty());
    let b: BuilderState<u32> = def.builder();
    assert_eq!(b.build(&def).ok().unwrap().fields, vec![]);
}

#[test]
fn classifier_partitions_by_outer_constructor() {
    let def = command_def();
    assert_eq!(def.mandatory, vec![0, 1]);
    assert_eq!(def.optional, vec![2, 3]);
    let flags: Vec<bool> = def.schema.fields.iter().map(|f| f.optional).collect();
    assert_eq!(flags, vec![false, false, true, true]);
}

#[test]
fn classifier_reads_the_last_path_segment() {
    let qualified = TypeShape::Path(vec![
        Segment { name: s("std"), args: vec![] },
        Segment { name: s("option"), args: vec![] },
        Segment { name: s("Option"), args: vec![ty("u8", vec![])] },
    ]);
    let inner_option = ty("Vec", vec![ty("Option", vec![ty("u8", vec![])])]);
    let specs = vec![field("a", qualified, vec![]), field("b", inner_option, vec![])];
    let schema = RecordSchema::process(specs).unwrap();
    assert!(schema.fields[0].optional);
    assert!(!schema.fields[1].optional);
    assert_eq!(schema.mandatory_fields(), vec![1]);
    assert_eq!(schema.optional_fields(), vec![0]);
}

#[test]
fn setter_parameter_types() {
    let def = command_def();
    let k = def.method("current_dir").unwrap();
    assert!(matches!(def.param_type(k), TypeShape::Path(segs) if segs[0].name == "String"));
    let k = def.method("env").unwrap();
    assert!(matches!(def.param_type(k), TypeShape::Path(segs) if segs[0].name == "Vec"));
    let k = def.method("arg").unwrap();
    assert!(matches!(def.param_type(k), TypeShape::Path(segs) if segs[0].name == "String"));
    let k = def.method("executable").unwrap();
    assert!(matches!(def.param_type(k), TypeShape::Path(segs) if segs[0].name == "String"));
}

#[test]
fn method_table_has_one_entry_per_name() {
    let def = command_def();
    let mut names: Vec<String> = def.methods.iter().map(|m| m.name.clone()).collect();
    names.sort();
    assert_eq!(names, vec![s("arg"), s("args"), s("current_dir"), s("env"), s("executable")]);
    assert_eq!(def.method("missing"), None);
}

#[test]
fn tuple_type_is_a_shape_error() {
    let specs = vec![
        field("ok", string_ty(), vec![]),
        field("pair", TypeShape::Other(s("(u8, u8)")), vec![]),
    ];
    assert_eq!(BuilderDef::derive(specs).err(), Some(SchemaError::TypeShape(s("pair"))));
}

#[test]
fn bare_option_is_a_shape_error() {
    let specs = vec![field("o", ty("Option", vec![]), vec![])];
    assert_eq!(RecordSchema::process(specs).err(), Some(SchemaError::TypeShape(s("o"))));
}

#[test]
fn empty_path_is_a_shape_error() {
    let specs = vec![field("e", TypeShape::Path(vec![]), vec![])];
    assert_eq!(RecordSchema::process(specs).err(), Some(SchemaError::TypeShape(s("e"))));
}

#[test]
fn malformed_directives_are_attribute_errors() {
    let bodies = vec![
        AttrBody::Bare,
        AttrBody::Unparsed,
        AttrBody::NameValue(Literal::Str(s("arg"))),
        AttrBody::List(vec![]),
        AttrBody::List(vec![NestedMeta::Path(s("each"))]),
        AttrBody::List(vec![NestedMeta::List(s("each"))]),
        AttrBody::List(vec![NestedMeta::Literal(Literal::Str(s("arg")))]),
        AttrBody::List(vec![NestedMeta::NameValue { key: s("each"), value: Literal::Other(s("3")) }]),
        AttrBody::List(vec![
            NestedMeta::NameValue { key: s("each"), value: Literal::Str(s("a")) },
            NestedMeta::NameValue { key: s("each"), value: Literal::Str(s("b")) },
        ]),
    ];
    for body in bodies {
        let attrs = vec![Attribute { path: s("builder"), body }];
        let specs = vec![field("v", ty("Vec", vec![string_ty()]), attrs)];
        assert_eq!(BuilderDef::derive(specs).err(), Some(SchemaError::Attribute(s("v"))));
    }
}

#[test]
fn two_directives_on_one_field_are_an_attribute_error() {
    let attrs = vec![each("a"), each("b")];
    assert_eq!(extract_each(&attrs), Err(()));
}

#[test]
fn directive_value_must_be_an_identifier() {
    assert_eq!(extract_each(&vec![each("arg")]), Ok(Some(s("arg"))));
    assert_eq!(extract_each(&vec![each("_x9")]), Ok(Some(s("_x9"))));
    assert_eq!(extract_each(&vec![each("1abc")]), Err(()));
    assert_eq!(extract_each(&vec![each("two words")]), Err(()));
    assert_eq!(extract_each(&vec![each("")]), Err(()));
    assert_eq!(extract_each(&vec![each("fn")]), Err(()));
    assert_eq!(extract_each(&vec![each("_")]), Err(()));
    assert_eq!(extract_each(&vec![each(" arg ")]), Err(()));
    assert_eq!(extract_each(&vec![each("a::b")]), Err(()));
}

#[test]
fn other_attributes_are_ignored() {
    let other = Attribute { path: s("serde"), body: AttrBody::Bare };
    assert_eq!(extract_each(&vec![other]), Ok(None));
    let other = Attribute { path: s("doc"), body: AttrBody::Unparsed };
    assert_eq!(extract_each(&vec![other, each("item")]), Ok(Some(s("item"))));
}

#[test]
fn duplicate_field_names_are_refused() {
    let specs = vec![
        field("a", string_ty(), vec![]),
        field("b", string_ty(), vec![]),
        field("a", string_ty(), vec![]),
    ];
    assert_eq!(BuilderDef::derive(specs).err(), Some(SchemaError::DuplicateField(s("a"))));
}

#[test]
fn first_faulty_field_decides_the_error() {
    let specs = vec![
        field("a", string_ty(), vec![]),
        field("bad_attr", string_ty(), vec![Attribute { path: s("builder"), body: AttrBody::Bare }]),
        field("bad_shape", TypeShape::Other(s("&str")), vec![]),
    ];
    assert_eq!(BuilderDef::derive(specs).err(), Some(SchemaError::Attribute(s("bad_attr"))));
}

#[test]
fn shape_fault_comes_before_attribute_fault_on_one_field() {
    let specs = vec![field(
        "x",
        TypeShape::Other(s("[u8; 4]")),
        vec![Attribute { path: s("builder"), body: AttrBody::Bare }],
    )];
    assert_eq!(BuilderDef::derive(specs).err(), Some(SchemaError::TypeShape(s("x"))));
}

#[test]
fn processed_descriptors_keep_field_order_and_directives() {
    let schema = RecordSchema::process(command_specs()).unwrap();
    let names: Vec<&str> = schema.fields.iter().map(|f| f.name.as_str()).collect();
    assert_eq!(names, vec!["executable", "args", "env", "current_dir"]);
    assert_eq!(schema.fields[1].each, Some(s("arg")));
    assert_eq!(schema.fields[0].each, None);
    let elem = schema.fields[3].declared.element_type();
    assert!(matches!(elem, TypeShape::Path(segs) if segs.len() == 1 && segs[0].name == "String"));
}

#[test]
fn directive_on_a_field_without_item_type_is_a_shape_error() {
    let specs = vec![field("name", string_ty(), vec![each("n")])];
    assert_eq!(BuilderDef::derive(specs).err(), Some(SchemaError::TypeShape(s("name"))));
}

#[test]
fn directive_on_an_optional_sequence_takes_its_items() {
    let specs = vec![field("tags", ty("Option", vec![ty("Vec", vec![ty("u8", vec![])])]), vec![each("tag")])];
    let def = BuilderDef::derive(specs).unwrap();
    let k = def.method("tag").unwrap();
    assert!(matches!(def.param_type(k), TypeShape::Path(segs) if segs[0].name == "u8"));
    let mut b: BuilderState<u8> = def.builder();
    b.push(&def, "tag", 7).unwrap();
    b.push(&def, "tag", 9).unwrap();
    let rec = b.build(&def).ok().unwrap();
    assert_eq!(rec.fields[0], FieldValue::Optional(Some(Value::Many(vec![7, 9]))));
}

#[test]
fn shared_directive_name_goes_to_the_last_field() {
    let specs = vec![
        field("a", ty("Vec", vec![string_ty()]), vec![each("item")]),
        field("b", ty("Vec", vec![string_ty()]), vec![each("item")]),
        field("item", ty("Vec", vec![string_ty()]), vec![]),
    ];
    let def = BuilderDef::derive(specs).unwrap();
    let k = def.method("item").unwrap();
    assert_eq!(def.methods[k].field, 1);
    assert_eq!(def.methods[k].kind, SetterKind::Append);
    let mut b: BuilderState<String> = def.builder();
    b.set(&def, "a", Value::Many(vec![])).unwrap();
    b.push(&def, "item", s("x")).unwrap();
    b.push(&def, "item", s("y")).unwrap();
    assert_eq!(b.slots[1], Some(Value::Many(vec![s("x"), s("y")])));
    assert_eq!(b.slots[2], None);
}

#[test]
fn requested_name_follows_the_parse_outcome() {
    let a = each("arg");
    assert_eq!(requested_name_from(&a, Some(s("arg"))), Some(s("arg")));
    assert_eq!(requested_name_from(&a, Some(s("other"))), None);
    assert_eq!(requested_name_from(&a, None), None);
    let bare = Attribute { path: s("builder"), body: AttrBody::Bare };
    assert_eq!(requested_name_from(&bare, Some(s("arg"))), None);
}

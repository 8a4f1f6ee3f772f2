use borsh::schema::BorshSchemaContainer;
use borsh::schema::Definition;
use borsh::schema::Fields;
use borsh_gen_ts::builder::build_roots;
use borsh_gen_ts::builder::build_world;
use borsh_gen_ts::builder::element_name;
use borsh_gen_ts::builder::insert;
use borsh_gen_ts::builder::primitive;
use borsh_gen_ts::builder::Parent;
use borsh_gen_ts::errors::Error;
use borsh_gen_ts::errors::Failure;
use borsh_gen_ts::ts::Class;
use borsh_gen_ts::ts::Enum;
use borsh_gen_ts::ts::Target;
use borsh_gen_ts::ts::Wellknowns;
use ordermap::OrderMap;

fn schema(root: &str, definitions: Vec<(&str, Definition)>) -> BorshSchemaContainer {
    BorshSchemaContainer::new(
        root.to_string(),
        definitions.into_iter().map(|(name, definition)| (name.to_string(), definition)).collect(),
    )
}

fn newtype(inner: &str) -> Definition {
    Definition::Struct { fields: Fields::UnnamedFields(vec![inner.to_string()]) }
}

fn record(fields: Vec<(&str, &str)>) -> Definition {
    Definition::Struct {
        fields: Fields::NamedFields(
            fields.into_iter().map(|(name, kind)| (name.to_string(), kind.to_string())).collect(),
        ),
    }
}

fn array(length: u64, elements: &str) -> Definition {
    Definition::Sequence { length_width: 0, length_range: length..=length, elements: elements.to_string() }
}

fn union(tag_width: u8, variants: Vec<(i64, &str, &str)>) -> Definition {
    Definition::Enum {
        tag_width,
        variants: variants
            .into_iter()
            .map(|(discriminant, name, data)| (discriminant, name.to_string(), data.to_string()))
            .collect(),
    }
}

fn wellknown(target: &Target) -> &Wellknowns {
    match target {
        Target::Wellknowns(wellknown) => wellknown,
        other => panic!("no well-known type: {:?}", other),
    }
}

fn class(target: &Target) -> &Class {
    match target {
        Target::Class(class) => class,
        other => panic!("no class: {:?}", other),
    }
}

fn enumeration(target: &Target) -> &Enum {
    match target {
        Target::Enum(enumeration) => enumeration,
        other => panic!("no enum: {:?}", other),
    }
}

fn keys(table: &OrderMap<String, Target>) -> Vec<String> {
    table.keys().cloned().collect()
}

fn failure(result: Result<Target, Failure>) -> Failure {
    match result {
        Ok(target) => panic!("resolved to {:?}", target),
        Err(failure) => failure,
    }
}

#[test]
fn primitive_table_maps_names_to_displays() {
    let empty = schema("u8", vec![]);
    let mut table = OrderMap::new();
    let wide = build_roots(&empty, "u64", &mut table, Parent::Irrelevant).unwrap();
    assert_eq!(wellknown(&wide).ts, "bigint");
    assert_eq!(wellknown(&wide).borsh_ts, "u64");
    assert_eq!(wellknown(&wide).fixed_array, None);
    assert!(!wellknown(&wide).option);
    let narrow = build_roots(&empty, "u32", &mut table, Parent::Irrelevant).unwrap();
    assert_eq!(wellknown(&narrow).ts, "number");
    assert_eq!(wellknown(&narrow).borsh_ts, "u32");
    let truth = build_roots(&empty, "bool", &mut table, Parent::Irrelevant).unwrap();
    assert_eq!(wellknown(&truth).ts, "number");
    assert_eq!(wellknown(&truth).borsh_ts, "bool");
    let nonzero = build_roots(&empty, "NonZeroU32", &mut table, Parent::Irrelevant).unwrap();
    assert_eq!(wellknown(&nonzero).ts, "number");
    assert_eq!(wellknown(&nonzero).borsh_ts, "u32");
    assert_eq!(keys(&table), vec!["u64", "u32", "bool", "NonZeroU32"]);
}

#[test]
fn primitive_table_covers_every_width() {
    for name in ["i64", "u64", "u128", "i128", "NonZeroU64", "NonZeroI64", "NonZeroU128", "NonZeroI128"] {
        let found = primitive(name).unwrap();
        assert_eq!(found.ts, "bigint");
        assert_eq!(found.borsh_ts, name.replace("NonZero", "").to_lowercase());
    }
    for name in [
        "u8", "u16", "u32", "i8", "i16", "i32", "NonZeroU8", "NonZeroU16", "NonZeroU32",
        "NonZeroI8", "NonZeroI16", "NonZeroI32",
    ] {
        let found = primitive(name).unwrap();
        assert_eq!(found.ts, "number");
        assert_eq!(found.borsh_ts, name.replace("NonZero", "").to_lowercase());
    }
    assert_eq!(primitive("NonZeroI128").unwrap().borsh_ts, "i128");
    assert!(primitive("f32").is_none());
    assert!(primitive("String").is_none());
    assert!(primitive("").is_none());
}

#[test]
fn option_of_u32_is_an_optional_number() {
    let empty = schema("u8", vec![]);
    let mut table = OrderMap::new();
    let target = build_roots(&empty, "Option<u32>", &mut table, Parent::Irrelevant).unwrap();
    let found = wellknown(&target);
    assert_eq!(found.ts, "number | undefined");
    assert!(found.option);
    assert_eq!(found.borsh_ts, "u32");
    assert_eq!(found.fixed_array, None);
    assert_eq!(target.ts_name(), "number | undefined");
    assert_eq!(keys(&table), vec!["u32", "Option<u32>"]);
}

#[test]
fn option_goes_before_its_own_definition() {
    let defined = schema(
        "Option<u8>",
        vec![("Option<u8>", union(1, vec![(0, "None", "()"), (1, "Some", "u8")]))],
    );
    let mut table = OrderMap::new();
    let target = build_roots(&defined, "Option<u8>", &mut table, Parent::Struct).unwrap();
    assert_eq!(wellknown(&target).ts, "number | undefined");
}

#[test]
fn fixed_sequence_of_bytes_is_a_byte_array() {
    let bytes = schema("[u8; 32]", vec![("[u8; 32]", array(32, "u8"))]);
    let mut table = OrderMap::new();
    let target = build_roots(&bytes, "[u8; 32]", &mut table, Parent::Irrelevant).unwrap();
    let found = wellknown(&target);
    assert_eq!(found.ts, "Uint8Array");
    assert_eq!(found.fixed_array, Some(32));
    assert_eq!(found.borsh_ts, "u8");
    assert!(!found.option);
    assert_eq!(keys(&table), vec!["u8"]);
}

#[test]
fn fixed_sequence_of_records_is_an_array_of_the_record() {
    let records = schema(
        "[Point; 3]",
        vec![("[Point; 3]", array(3, "Point")), ("Point", record(vec![("x", "u8")]))],
    );
    let mut table = OrderMap::new();
    let target = build_roots(&records, "[Point; 3]", &mut table, Parent::Irrelevant).unwrap();
    let found = wellknown(&target);
    assert_eq!(found.ts, "Point[]");
    assert_eq!(found.fixed_array, Some(3));
    assert_eq!(found.borsh_ts, "Point");
    assert_eq!(keys(&table), vec!["u8", "Point"]);
}

#[test]
fn fixed_sequence_states_its_whole_length() {
    let arrays = schema(
        "Long",
        vec![
            ("Long", array(65536, "u8")),
            ("Longer", array(65536 + 7, "u16")),
            ("Longest", array(u64::MAX, "u64")),
            ("None", array(0, "u16")),
        ],
    );
    let mut table = OrderMap::new();
    let long = build_roots(&arrays, "Long", &mut table, Parent::Irrelevant).unwrap();
    assert_eq!(wellknown(&long).fixed_array, Some(65536));
    assert_eq!(wellknown(&long).ts, "Uint8Array");
    let longer = build_roots(&arrays, "Longer", &mut table, Parent::Irrelevant).unwrap();
    assert_eq!(wellknown(&longer).fixed_array, Some(65543));
    assert_eq!(wellknown(&longer).ts, "number[]");
    let longest = build_roots(&arrays, "Longest", &mut table, Parent::Irrelevant).unwrap();
    assert_eq!(wellknown(&longest).fixed_array, Some(18446744073709551615));
    let none = build_roots(&arrays, "None", &mut table, Parent::Irrelevant).unwrap();
    assert_eq!(wellknown(&none).fixed_array, Some(0));
}

#[test]
fn world_of_one_long_byte_array() {
    let world = schema(
        "([u8; 65536],)",
        vec![
            ("([u8; 65536],)", Definition::Tuple { elements: vec!["[u8; 65536]".to_string()] }),
            ("[u8; 65536]", array(65536, "u8")),
            ("u8", Definition::Primitive(1)),
        ],
    );
    let (targets, table) = build_world(&world).unwrap();
    assert_eq!(wellknown(&targets[0]).ts, "Uint8Array");
    assert_eq!(wellknown(&targets[0]).fixed_array, Some(65536));
    assert_eq!(keys(&table), vec!["u8"]);
}

#[test]
fn fixed_sequence_of_wrappers_is_named_by_what_they_wrap() {
    let wrapped = schema(
        "Ids",
        vec![("Ids", array(2, "Id")), ("Id", newtype("u64"))],
    );
    let mut table = OrderMap::new();
    let target = build_roots(&wrapped, "Ids", &mut table, Parent::Irrelevant).unwrap();
    assert_eq!(wellknown(&target).ts, "bigint[]");
    assert_eq!(wellknown(&target).borsh_ts, "Id");
}

#[test]
fn fixed_sequence_of_text_or_enum_is_reserved() {
    let texts = schema(
        "Names",
        vec![
            ("Names", array(2, "String")),
            ("String", Definition::Sequence { length_width: 4, length_range: 0..=10, elements: "u8".to_string() }),
            ("Kinds", array(2, "Kind")),
            ("Kind", union(1, vec![])),
            ("Deep", array(2, "Outer")),
            ("Outer", newtype("Inner")),
            ("Inner", newtype("u8")),
        ],
    );
    let mut table = OrderMap::new();
    assert_eq!(failure(build_roots(&texts, "Names", &mut table, Parent::Irrelevant)), Failure::Reserved);
    assert_eq!(failure(build_roots(&texts, "Kinds", &mut table, Parent::Irrelevant)), Failure::Reserved);
    assert_eq!(
        failure(build_roots(&texts, "Deep", &mut table, Parent::Irrelevant)),
        Failure::Rejected(Error::E0001)
    );
}

#[test]
fn variable_sequence_is_text() {
    let texts = schema(
        "Vec<u8>",
        vec![("Vec<u8>", Definition::Sequence { length_width: 4, length_range: 0..=4294967295, elements: "u8".to_string() })],
    );
    let mut table = OrderMap::new();
    let target = build_roots(&texts, "Vec<u8>", &mut table, Parent::Irrelevant).unwrap();
    assert!(matches!(target, Target::String));
    assert_eq!(target.ts_name(), "string");
    assert!(table.is_empty());
}

#[test]
fn wrapper_takes_its_name_from_the_place() {
    let wrapper = schema("Id", vec![("Id", newtype("u64"))]);
    for (parent, name) in [(Parent::Enum, "bigint"), (Parent::Struct, "Id"), (Parent::Irrelevant, "Id")] {
        let mut table = OrderMap::new();
        let target = build_roots(&wrapper, "Id", &mut table, parent).unwrap();
        match &target {
            Target::Transparent(shown, inner) => {
                assert_eq!(shown, name);
                assert_eq!(wellknown(inner).ts, "bigint");
            }
            other => panic!("no wrapper: {:?}", other),
        }
        assert_eq!(target.ts_name(), name);
        assert_eq!(keys(&table), vec!["u64", "Id"]);
    }
}

#[test]
fn wrapper_of_wrapper_is_refused_by_the_resolver() {
    let nested = schema("Outer", vec![("Outer", newtype("Inner")), ("Inner", newtype("u8"))]);
    for parent in [Parent::Enum, Parent::Struct, Parent::Irrelevant] {
        let mut table = OrderMap::new();
        assert_eq!(
            failure(build_roots(&nested, "Outer", &mut table, parent)),
            Failure::Rejected(Error::E0001)
        );
        assert_eq!(keys(&table), vec!["u8", "Inner"]);
    }
    let world = schema(
        "(Outer,)",
        vec![
            ("(Outer,)", Definition::Tuple { elements: vec!["Outer".to_string()] }),
            ("Outer", newtype("Inner")),
            ("Inner", newtype("u64")),
        ],
    );
    assert_eq!(build_world(&world).err(), Some(Failure::Rejected(Error::E0001)));
}

#[test]
fn option_parameter_is_resolved_as_a_whole_declaration() {
    let nested = schema(
        "Option<[u8; 4]>",
        vec![("Vec<u8>", Definition::Sequence { length_width: 4, length_range: 0..=10, elements: "u8".to_string() })],
    );
    let mut table = OrderMap::new();
    let text = build_roots(&nested, "Option<Vec<u8>>", &mut table, Parent::Irrelevant).unwrap();
    assert_eq!(wellknown(&text).ts, "string | undefined");
    assert_eq!(wellknown(&text).borsh_ts, "Vec<u8>");
    let twice = build_roots(&nested, "Option<Option<u8>>", &mut table, Parent::Irrelevant).unwrap();
    assert_eq!(wellknown(&twice).ts, "number | undefined | undefined");
    assert_eq!(wellknown(&twice).borsh_ts, "Option<u8>");
    assert!(wellknown(&twice).option);
    assert_eq!(keys(&table), vec!["Option<Vec<u8>>", "u8", "Option<u8>", "Option<Option<u8>>"]);
    assert_eq!(
        failure(build_roots(&nested, "Option<u8, u16>", &mut table, Parent::Irrelevant)),
        Failure::Undefined
    );
}

#[test]
fn union_keeps_its_variants_and_drops_their_data_from_the_table() {
    let kinds = schema(
        "Kind",
        vec![
            ("Kind", union(1, vec![(0, "A", "KindA"), (1, "B", "u32")])),
            ("KindA", Definition::Struct { fields: Fields::Empty }),
            ("u32", Definition::Primitive(4)),
        ],
    );
    let mut table = OrderMap::new();
    let target = build_roots(&kinds, "Kind", &mut table, Parent::Irrelevant).unwrap();
    let found = enumeration(&target);
    assert_eq!(found.ts_symbol, "KindEnum");
    assert_eq!(found.variants.len(), 2);
    assert_eq!(found.variants[0].ts_symbol, "AVariant");
    assert_eq!(found.variants[0].discriminant, 0);
    assert!(found.variants[0].inner.is_none());
    assert_eq!(found.variants[1].ts_symbol, "BVariant");
    assert_eq!(found.variants[1].discriminant, 1);
    assert_eq!(wellknown(found.variants[1].inner.as_ref().unwrap()).ts, "number");
    assert!(table.get("u32").is_none());
    assert_eq!(keys(&table), vec!["Kind"]);
    assert_eq!(target.ts_name(), "KindEnum");
}

#[test]
fn union_takes_data_away_that_the_table_held_before() {
    let kinds = schema(
        "Kind",
        vec![("Kind", union(1, vec![(300, "B", "u32")])), ("u32", Definition::Primitive(4))],
    );
    let mut table = OrderMap::new();
    build_roots(&kinds, "u32", &mut table, Parent::Irrelevant).unwrap();
    build_roots(&kinds, "u8", &mut table, Parent::Irrelevant).unwrap();
    let target = build_roots(&kinds, "Kind", &mut table, Parent::Irrelevant).unwrap();
    assert_eq!(enumeration(&target).variants[0].discriminant, 44);
    assert_eq!(keys(&table), vec!["u8", "Kind"]);
}

#[test]
fn record_resolves_its_fields_in_order() {
    let point = schema(
        "Point",
        vec![("Point", record(vec![("x", "u8"), ("y", "u64"), ("z", "u8"), ("next", "Id")])), ("Id", newtype("u8"))],
    );
    let mut table = OrderMap::new();
    let target = build_roots(&point, "Point", &mut table, Parent::Enum).unwrap();
    let found = class(&target);
    assert_eq!(found.ts_symbol, "Point");
    let names: Vec<&str> = found.fields.iter().map(|field| field.name.as_str()).collect();
    assert_eq!(names, vec!["x", "y", "z", "next"]);
    assert_eq!(wellknown(&found.fields[0].target).ts, "number");
    assert_eq!(wellknown(&found.fields[1].target).ts, "bigint");
    assert!(!found.fields[0]._option);
    assert_eq!(found.fields[3].target.ts_name(), "Id");
    assert_eq!(keys(&table), vec!["u8", "u64", "Id", "Point"]);
}

#[test]
fn unsupported_shapes_fail_with_their_codes() {
    let shapes = schema(
        "Pair",
        vec![
            ("Pair", Definition::Tuple { elements: vec!["u8".to_string(), "u8".to_string()] }),
            ("Triple", Definition::Struct { fields: Fields::UnnamedFields(vec!["u8".to_string(); 3]) }),
            ("None", Definition::Struct { fields: Fields::UnnamedFields(vec![]) }),
            ("Wide", union(2, vec![(0, "A", "u8")])),
            ("Unit", Definition::Struct { fields: Fields::Empty }),
            ("f32", Definition::Primitive(4)),
            ("Holder", record(vec![("pair", "Pair")])),
            ("Dangling", record(vec![("gone", "Gone")])),
            ("Choice", union(1, vec![(0, "A", "Gone")])),
        ],
    );
    let expected = [
        ("Pair", Failure::Rejected(Error::E0002)),
        ("Triple", Failure::Rejected(Error::E0010)),
        ("None", Failure::Rejected(Error::E0010)),
        ("Wide", Failure::Reserved),
        ("Unit", Failure::Rejected(Error::E0005)),
        ("f32", Failure::Reserved),
        ("Holder", Failure::Rejected(Error::E0002)),
        ("Dangling", Failure::Undefined),
        ("Choice", Failure::Undefined),
        ("Gone", Failure::Undefined),
    ];
    for (name, code) in expected {
        let mut table = OrderMap::new();
        assert_eq!(failure(build_roots(&shapes, name, &mut table, Parent::Irrelevant)), code);
        assert!(table.is_empty());
    }
}

#[test]
fn recursive_types_are_refused() {
    let list = schema(
        "Node",
        vec![
            ("Node", record(vec![("value", "u8"), ("next", "Option<Node>")])),
            ("Loop", newtype("Loop")),
            ("Tree", record(vec![("children", "[Tree; 2]")])),
            ("[Tree; 2]", array(2, "Tree")),
        ],
    );
    for name in ["Node", "Loop", "Tree", "[Tree; 2]", "Option<Node>"] {
        let mut table = OrderMap::new();
        assert_eq!(
            failure(build_roots(&list, name, &mut table, Parent::Irrelevant)),
            Failure::Rejected(Error::E0004)
        );
    }
}

#[test]
fn resolving_twice_answers_from_the_table() {
    let wrapper = schema("Id", vec![("Id", newtype("u64")), ("Ids", array(4, "Id"))]);
    let mut table = OrderMap::new();
    let first = build_roots(&wrapper, "Id", &mut table, Parent::Enum).unwrap();
    let held = keys(&table);
    let second = build_roots(&wrapper, "Id", &mut table, Parent::Struct).unwrap();
    assert_eq!(format!("{:?}", first), format!("{:?}", second));
    assert_eq!(keys(&table), held);
    let array_first = build_roots(&wrapper, "Ids", &mut table, Parent::Irrelevant).unwrap();
    let array_second = build_roots(&wrapper, "Ids", &mut table, Parent::Irrelevant).unwrap();
    assert_eq!(format!("{:?}", array_first), format!("{:?}", array_second));
    assert_eq!(keys(&table), held);
}

#[test]
fn insert_refuses_a_declaration_that_is_held() {
    let mut table = OrderMap::new();
    let stored = insert(&mut table, "A", Target::String).unwrap();
    assert!(matches!(stored, Target::String));
    let again = insert(&mut table, "A", Target::Wellknowns(Wellknowns::number("u8".to_string())));
    assert_eq!(failure(again), Failure::Duplicate);
    assert!(matches!(table.get("A"), Some(Target::String)));
    assert_eq!(table.len(), 1);
    insert(&mut table, "B", Target::String).unwrap();
    assert_eq!(keys(&table), vec!["A", "B"]);
}

#[test]
fn element_name_looks_through_one_wrapper() {
    let number = Target::Wellknowns(Wellknowns::number("u8".to_string()));
    assert_eq!(element_name(&number).unwrap(), "number");
    let wrapped = Target::Transparent("Id".to_string(), Box::new(number.clone()));
    assert_eq!(element_name(&wrapped).unwrap(), "number");
    let twice = Target::Transparent("Outer".to_string(), Box::new(wrapped));
    assert_eq!(element_name(&twice), Err(Failure::Rejected(Error::E0001)));
    assert_eq!(element_name(&Target::String), Err(Failure::Reserved));
    let class = Target::Class(Class { ts_symbol: "Point".to_string(), fields: vec![] });
    assert_eq!(element_name(&class).unwrap(), "Point");
}

#[test]
fn world_resolves_its_elements_against_one_table() {
    let world = schema(
        "(Id, Point)",
        vec![
            ("(Id, Point)", Definition::Tuple { elements: vec!["Id".to_string(), "Point".to_string()] }),
            ("Id", newtype("u64")),
            ("Point", record(vec![("id", "Id"), ("x", "u8")])),
        ],
    );
    let (targets, table) = build_world(&world).unwrap();
    assert_eq!(targets.len(), 2);
    assert_eq!(targets[0].ts_name(), "Id");
    assert_eq!(targets[1].ts_name(), "Point");
    assert_eq!(keys(&table), vec!["u64", "Id", "u8", "Point"]);
}

#[test]
fn world_must_be_a_defined_tuple() {
    let record_root = schema("Point", vec![("Point", record(vec![("x", "u8")]))]);
    assert_eq!(build_world(&record_root).err(), Some(Failure::NotWorld));
    let missing = schema("World", vec![]);
    assert_eq!(build_world(&missing).err(), Some(Failure::Undefined));
    let broken = schema(
        "World",
        vec![("World", Definition::Tuple { elements: vec!["u8".to_string(), "Unit".to_string()] }), ("Unit", Definition::Struct { fields: Fields::Empty })],
    );
    assert_eq!(build_world(&broken).err(), Some(Failure::Rejected(Error::E0005)));
    let empty = schema("()", vec![("()", Definition::Tuple { elements: vec![] })]);
    let (targets, table) = build_world(&empty).unwrap();
    assert!(targets.is_empty());
    assert!(table.is_empty());
}

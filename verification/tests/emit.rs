use borsh::schema::BorshSchemaContainer;
use borsh::schema::Definition;
use borsh::schema::Fields;
use borsh_gen_ts::builder::build_world;
use borsh_gen_ts::errors::Error;
use borsh_gen_ts::generator::generate_ts;
use borsh_gen_ts::ts::Class;
use borsh_gen_ts::ts::Enum;
use borsh_gen_ts::ts::Field;
use borsh_gen_ts::ts::Target;
use borsh_gen_ts::ts::Variant;
use borsh_gen_ts::ts::Wellknowns;
use borsh_gen_ts::ts::IMPORTS;
use ordermap::OrderMap;

fn table(entries: Vec<(&str, Target)>) -> OrderMap<String, Target> {
    let mut table = OrderMap::new();
    for (name, target) in entries {
        table.insert(name.to_string(), target);
    }
    table
}

fn body(entries: Vec<(&str, Target)>) -> String {
    let text = generate_ts(Vec::new(), table(entries)).unwrap();
    assert!(text.starts_with(IMPORTS));
    text[IMPORTS.len()..].to_string()
}

fn field(name: &str, target: Target) -> Field {
    Field { target, name: name.to_string(), _option: false }
}

fn number(declaration: &str) -> Target {
    Target::Wellknowns(Wellknowns::number(declaration.to_string()))
}

fn world_schema() -> BorshSchemaContainer {
    let definitions = vec![
        (
            "(EnumX, StructY)",
            Definition::Tuple { elements: vec!["EnumX".to_string(), "StructY".to_string()] },
        ),
        (
            "EnumX",
            Definition::Enum {
                tag_width: 1,
                variants: vec![
                    (0, "A".to_string(), "EnumXA".to_string()),
                    (1, "B".to_string(), "EnumXB".to_string()),
                ],
            },
        ),
        ("EnumXA", Definition::Struct { fields: Fields::Empty }),
        ("EnumXB", Definition::Struct { fields: Fields::UnnamedFields(vec!["u32".to_string()]) }),
        (
            "StructY",
            Definition::Struct {
                fields: Fields::NamedFields(vec![
                    ("id".to_string(), "u64".to_string()),
                    ("tag".to_string(), "Option<u8>".to_string()),
                ]),
            },
        ),
        ("u32", Definition::Primitive(4)),
        ("u64", Definition::Primitive(8)),
        ("u8", Definition::Primitive(1)),
    ];
    BorshSchemaContainer::new(
        "(EnumX, StructY)".to_string(),
        definitions.into_iter().map(|(name, definition)| (name.to_string(), definition)).collect(),
    )
}

const ENUM_X: &str = "@variant([0,1,])\nexport class EnumXEnum { }\n@variant(0)\nexport class AVariant extends EnumXEnum {\n}\n@variant(1)\nexport class BVariant extends EnumXEnum {\n@field({type: \"number\" })\n_0: number;\n}\n";

const STRUCT_Y: &str = "export class StructY { @field({type: \"u64\" })id: bigint;@field({type: option(\"u8\") })tag: number | undefined;constructor(data: StructY) {Object.assign(this, data);} }";

#[test]
fn world_of_enum_and_struct_end_to_end() {
    let (targets, generates) = build_world(&world_schema()).unwrap();
    let order: Vec<String> = generates.keys().cloned().collect();
    assert_eq!(order, vec!["u32", "EnumX", "u64", "u8", "Option<u8>", "StructY"]);
    let text = generate_ts(targets, generates).unwrap();
    assert_eq!(text, format!("{}{}{}", IMPORTS, ENUM_X, STRUCT_Y));
}

#[test]
fn generation_is_repeatable() {
    let (first_targets, first) = build_world(&world_schema()).unwrap();
    let (second_targets, second) = build_world(&world_schema()).unwrap();
    assert_eq!(generate_ts(first_targets, first), generate_ts(second_targets, second));
}

#[test]
fn empty_table_gives_the_imports_alone() {
    assert_eq!(generate_ts(Vec::new(), OrderMap::new()).unwrap(), IMPORTS);
    assert_eq!(body(vec![("u8", number("u8")), ("String", Target::String)]), "");
}

#[test]
fn class_members_are_annotated_by_kind() {
    let inner = Class { ts_symbol: "Inner".to_string(), fields: vec![] };
    let kind = Enum { ts_symbol: "KindEnum".to_string(), variants: vec![] };
    let members = vec![
        field("plain", number("u16")),
        field("bytes", Target::Wellknowns(Wellknowns::fixed_length_array("u8".to_string(), 32, "number".to_string()))),
        field("maybe", Target::Wellknowns(Wellknowns::option("u64".to_string(), "bigint".to_string()))),
        field("text", Target::String),
        field("inner", Target::Class(inner)),
        field("id", Target::Transparent("Id".to_string(), Box::new(number("u8")))),
        field("kind", Target::Enum(kind)),
    ];
    let class = Target::Class(Class { ts_symbol: "Ignored".to_string(), fields: members });
    assert_eq!(
        body(vec![("Outer", class)]),
        "export class Outer { \
         @field({type: \"u16\" })plain: number;\
         @field({type: fixedArray(\"u8\", 32) })bytes: Uint8Array;\
         @field({type: option(\"u64\") })maybe: bigint | undefined;\
         @field({type: 'string' })text: string;\
         @field({type: Inner })inner: Inner;\
         @field({type: Id })id: Id;\
         @field({type: KindEnum })kind: KindEnum;\
         constructor(data: Outer) {Object.assign(this, data);} }"
    );
}

#[test]
fn class_without_members_has_its_helper_only() {
    let class = Target::Class(Class { ts_symbol: "Empty".to_string(), fields: vec![] });
    assert_eq!(
        body(vec![("Empty", class)]),
        "export class Empty { constructor(data: Empty) {Object.assign(this, data);} }"
    );
}

#[test]
fn wrapper_has_one_member_annotated_as_a_member_of_a_class() {
    let wrap = |inner: Target| body(vec![("W", Target::Transparent("Shown".to_string(), Box::new(inner)))]);
    let tail = "constructor(data: W) {Object.assign(this, data);} }";
    assert_eq!(wrap(number("u8")), format!("export class W {{ @field({{type: \"u8\" }})_0: number;{}", tail));
    assert_eq!(
        wrap(Target::Wellknowns(Wellknowns::bigint("u64".to_string()))),
        "export class W { @field({type: \"u64\" })_0: bigint;constructor(data: W) {Object.assign(this, data);} }"
    );
    assert_eq!(
        wrap(Target::Wellknowns(Wellknowns::fixed_length_array("Point".to_string(), 65536, "Point".to_string()))),
        format!("export class W {{ @field({{type: fixedArray(\"Point\", 65536) }})_0: Point[];{}", tail)
    );
    assert_eq!(
        wrap(Target::Wellknowns(Wellknowns::option("u8".to_string(), "number".to_string()))),
        format!("export class W {{ @field({{type: option(\"u8\") }})_0: number | undefined;{}", tail)
    );
    assert_eq!(wrap(Target::String), format!("export class W {{ @field({{type: 'string' }})_0: string;{}", tail));
    assert_eq!(
        wrap(Target::Class(Class { ts_symbol: "Point".to_string(), fields: vec![] })),
        format!("export class W {{ @field({{type: Point }})_0: Point;{}", tail)
    );
    assert_eq!(
        wrap(Target::Enum(Enum { ts_symbol: "KindEnum".to_string(), variants: vec![] })),
        format!("export class W {{ @field({{type: KindEnum }})_0: KindEnum;{}", tail)
    );
}

#[test]
fn wrapper_member_matches_the_member_of_a_class() {
    let targets = vec![
        number("u16"),
        Target::Wellknowns(Wellknowns::option("u64".to_string(), "bigint".to_string())),
        Target::Wellknowns(Wellknowns::fixed_length_array("u8".to_string(), 32, "number".to_string())),
        Target::String,
        Target::Class(Class { ts_symbol: "Point".to_string(), fields: vec![] }),
        Target::Enum(Enum { ts_symbol: "KindEnum".to_string(), variants: vec![] }),
    ];
    for target in targets {
        let wrapped = body(vec![("W", Target::Transparent("W".to_string(), Box::new(target.clone())))]);
        let class = Target::Class(Class { ts_symbol: "W".to_string(), fields: vec![field("_0", target)] });
        assert_eq!(wrapped, body(vec![("W", class)]));
    }
}

#[test]
fn wrapper_of_wrapper_is_refused() {
    let inner = Target::Transparent("Inner".to_string(), Box::new(number("u8")));
    let outer = Target::Transparent("Outer".to_string(), Box::new(inner));
    let class = Target::Class(Class { ts_symbol: "Point".to_string(), fields: vec![] });
    assert_eq!(
        generate_ts(Vec::new(), table(vec![("Point", class.clone()), ("Outer", outer.clone()), ("Late", class)])),
        Err(Error::E0001)
    );
    assert_eq!(generate_ts(Vec::new(), table(vec![("Outer", outer)])), Err(Error::E0001));
}

#[test]
fn variant_data_loses_the_name_of_its_enum() {
    let variants = vec![
        Variant {
            ts_symbol: "MoveVariant".to_string(),
            inner: Some(Target::Transparent("ActionMove".to_string(), Box::new(number("u8")))),
            discriminant: 7,
        },
        Variant {
            ts_symbol: "StopVariant".to_string(),
            inner: Some(Target::Class(Class { ts_symbol: "ActionStopAction".to_string(), fields: vec![] })),
            discriminant: 255,
        },
    ];
    let action = Target::Enum(Enum { ts_symbol: "ActionEnum".to_string(), variants });
    assert_eq!(
        body(vec![("Action", action)]),
        "@variant([7,255,])\nexport class ActionEnum { }\n\
         @variant(7)\nexport class MoveVariant extends ActionEnum {\n@field({type: \"Move\" })\n_0: Move;\n}\n\
         @variant(255)\nexport class StopVariant extends ActionEnum {\n@field({type: \"Stop\" })\n_0: Stop;\n}\n"
    );
}

#[test]
fn variant_data_loses_the_whole_name_of_an_enum_that_holds_enum() {
    let variants = vec![
        Variant {
            ts_symbol: "BVariant".to_string(),
            inner: Some(Target::Class(Class { ts_symbol: "EnumXB".to_string(), fields: vec![] })),
            discriminant: 1,
        },
        Variant {
            ts_symbol: "CVariant".to_string(),
            inner: Some(Target::Class(Class { ts_symbol: "XC".to_string(), fields: vec![] })),
            discriminant: 2,
        },
    ];
    let kind = Target::Enum(Enum { ts_symbol: "EnumXEnum".to_string(), variants });
    assert_eq!(
        body(vec![("EnumX", kind)]),
        "@variant([1,2,])\nexport class EnumXEnum { }\n\
         @variant(1)\nexport class BVariant extends EnumXEnum {\n@field({type: \"B\" })\n_0: B;\n}\n\
         @variant(2)\nexport class CVariant extends EnumXEnum {\n@field({type: \"XC\" })\n_0: XC;\n}\n"
    );
}

#[test]
fn variant_data_of_an_enum_named_enum_keeps_its_name() {
    let variants = vec![Variant { ts_symbol: "AVariant".to_string(), inner: Some(number("u8")), discriminant: 0 }];
    let plain = Target::Enum(Enum { ts_symbol: "Enum".to_string(), variants });
    assert_eq!(
        body(vec![("", plain)]),
        "@variant([0,])\nexport class Enum { }\n@variant(0)\nexport class AVariant extends Enum {\n@field({type: \"number\" })\n_0: number;\n}\n"
    );
}

#[test]
fn enum_without_variants_is_a_marker_alone() {
    let nothing = Target::Enum(Enum { ts_symbol: "NeverEnum".to_string(), variants: vec![] });
    assert_eq!(body(vec![("Never", nothing)]), "@variant([])\nexport class NeverEnum { }\n");
}

#[test]
fn blocks_follow_the_order_of_the_table() {
    let class = |name: &str| Target::Class(Class { ts_symbol: name.to_string(), fields: vec![] });
    let text = body(vec![("B", class("B")), ("u8", number("u8")), ("A", class("A"))]);
    assert_eq!(
        text,
        "export class B { constructor(data: B) {Object.assign(this, data);} }\
         export class A { constructor(data: A) {Object.assign(this, data);} }"
    );
}

//! Resolves the declarations of a schema into targets, depth first, and keeps each result
//! in a table so that no declaration is worked out twice.
use crate::errors::Error;
use crate::errors::Failure;
use crate::parser::parse_option_type;
use crate::parser::spec_parse_option_type;
use crate::schema::alternatives;
use crate::schema::declaration;
use crate::schema::defined;
use crate::schema::definitions;
use crate::schema::get_definition;
use crate::schema::named;
use crate::schema::root;
use crate::schema::texts;
use crate::schema::Definition;
use crate::schema::DefinitionView;
use crate::schema::Fields;
use crate::schema::FieldsView;
use crate::table::entries;
use crate::table::get;
use crate::table::has_key;
use crate::table::insert_entry;
use crate::table::lemma_lookup_has_key;
use crate::table::lookup;
use crate::table::new_table;
use crate::table::remove_entry;
use crate::table::without;
use crate::table::Entry;
use crate::text::angles;
use crate::text::count_angles;
use crate::text::followed_by;
use crate::text::same_text;
use crate::ts::field_view;
use crate::ts::fields_view;
use crate::ts::lemma_view_of_parts;
use crate::ts::spec_ts_non_zero;
use crate::ts::ts_non_zero;
use crate::ts::variant_view;
use crate::ts::variants_view;
use crate::ts::Class;
use crate::ts::ClassView;
use crate::ts::Enum;
use crate::ts::EnumView;
use crate::ts::Field;
use crate::ts::FieldView;
use crate::ts::Target;
use crate::ts::TargetView;
use crate::ts::Variant;
use crate::ts::VariantView;
use crate::ts::Wellknowns;
use crate::ts::WellknownsView;
use borsh::schema::BorshSchemaContainer;
use ordermap::OrderMap;
use vstd::prelude::*;

verus! {

/// Where a declaration is met. Rust and TypeScript have no one-to-one correspondence, so the
/// place decides which TypeScript pattern a wrapper around one unnamed field follows.
#[derive(Debug, Clone, Copy, PartialEq, Eq, Structural)]
pub enum Parent {
    /// As the data of an enum's variant.
    Enum,
    /// As a field of a struct.
    Struct,
    /// Anywhere else.
    Irrelevant,
}

/// A result together with the table as it stands afterwards.
pub type Outcome<T> = (Result<T, Failure>, Seq<Entry>);

/// The primitives that need a `bigint`.
pub open spec fn is_bigint_name(declaration: Seq<char>) -> bool {
    ||| declaration == "i64"@
    ||| declaration == "u64"@
    ||| declaration == "u128"@
    ||| declaration == "i128"@
    ||| declaration == "NonZeroU64"@
    ||| declaration == "NonZeroI64"@
    ||| declaration == "NonZeroU128"@
    ||| declaration == "NonZeroI128"@
}

/// The primitives that fit a `number`.
pub open spec fn is_number_name(declaration: Seq<char>) -> bool {
    ||| declaration == "u8"@
    ||| declaration == "u16"@
    ||| declaration == "u32"@
    ||| declaration == "i8"@
    ||| declaration == "i16"@
    ||| declaration == "i32"@
    ||| declaration == "NonZeroU8"@
    ||| declaration == "NonZeroU16"@
    ||| declaration == "NonZeroU32"@
    ||| declaration == "NonZeroI8"@
    ||| declaration == "NonZeroI16"@
    ||| declaration == "NonZeroI32"@
}

/// The table of primitives: what a declaration is in TypeScript where its name alone says so.
/// Integers of up to 32 bits are numbers, wider ones big integers, each under the name of its
/// plain form; `bool` is carried as a number.
pub open spec fn spec_primitive(declaration: Seq<char>) -> Option<WellknownsView> {
    if is_bigint_name(declaration) {
        Some(WellknownsView::plain(spec_ts_non_zero(declaration), "bigint"@))
    } else if is_number_name(declaration) {
        Some(WellknownsView::plain(spec_ts_non_zero(declaration), "number"@))
    } else if declaration == "bool"@ {
        Some(WellknownsView::plain(declaration, "number"@))
    } else {
        None
    }
}

/// The `T` of a declaration that reads as `Option<T>`. `T` stands between the angle brackets
/// of the declaration and so holds fewer `<` than it; a reading of which that does not hold
/// is not taken.
pub open spec fn spec_option_of(declaration: Seq<char>) -> Option<Seq<char>> {
    match spec_parse_option_type(declaration) {
        Ok(Some(parameter)) => if angles(parameter) < angles(declaration) {
            Some(parameter)
        } else {
            None
        },
        _ => None,
    }
}

/// How many definitions are not being resolved at the moment.
pub open spec fn idle(definitions: Seq<(Seq<char>, DefinitionView)>, busy: Seq<Seq<char>>) -> nat
    decreases definitions.len(),
{
    if definitions.len() == 0 {
        0
    } else {
        idle(definitions.drop_last(), busy) + if busy.contains(definitions.last().0) {
            0nat
        } else {
            1nat
        }
    }
}

/// A declaration that starts to be resolved leaves fewer definitions idle.
pub proof fn lemma_idle_decreases(
    definitions: Seq<(Seq<char>, DefinitionView)>,
    busy: Seq<Seq<char>>,
    declaration: Seq<char>,
)
    ensures
        idle(definitions, busy.push(declaration)) <= idle(definitions, busy),
        defined(definitions, declaration) is Some && !busy.contains(declaration) ==> idle(
            definitions,
            busy.push(declaration),
        ) < idle(definitions, busy),
    decreases definitions.len(),
{
    if definitions.len() > 0 {
        lemma_idle_decreases(definitions.drop_last(), busy, declaration);
        let key = definitions.last().0;
        if busy.contains(key) {
            let i = choose|i: int| 0 <= i < busy.len() && busy[i] == key;
            assert(busy.push(declaration)[i] == key);
        }
        if key == declaration {
            assert(busy.push(declaration)[busy.len() as int] == key);
        }
    }
}

/// The table after `target` was stored under `declaration`, which must be new to it.
pub open spec fn stored(table: Seq<Entry>, declaration: Seq<char>, target: TargetView) -> Outcome<
    TargetView,
> {
    if has_key(table, declaration) {
        (Err(Failure::Duplicate), table)
    } else {
        (Ok(target), table.push((declaration, target)))
    }
}

/// How the elements of an array are spelled: a well-known type and a class by their own
/// names, a wrapper by the name of what it wraps.
pub open spec fn spec_element_name(element: TargetView) -> Result<Seq<char>, Failure> {
    match element {
        TargetView::Wellknowns(wellknown) => Ok(wellknown.ts),
        TargetView::Class(class) => Ok(class.ts_symbol),
        TargetView::Transparent(_, inner) => match *inner {
            TargetView::Wellknowns(wellknown) => Ok(wellknown.ts),
            TargetView::Class(class) => Ok(class.ts_symbol),
            _ => Err(Failure::Rejected(Error::E0001)),
        },
        TargetView::String => Err(Failure::Reserved),
        TargetView::Enum(_) => Err(Failure::Reserved),
    }
}

/// What resolving `declaration` returns, and the table afterwards.
///
/// In this order: a declaration that the table holds is answered from it. A declaration that
/// is met again while it is being resolved is refused as recursive. A primitive is taken
/// from the table of primitives. An `Option<T>` becomes the optional form of what `T`
/// resolves to. Any other declaration goes by its definition.
pub open spec fn resolved(
    definitions: Seq<(Seq<char>, DefinitionView)>,
    table: Seq<Entry>,
    busy: Seq<Seq<char>>,
    declaration: Seq<char>,
    parent: Parent,
) -> Outcome<TargetView>
    decreases idle(definitions, busy), 0nat, angles(declaration),
{
    if lookup(table, declaration) is Some {
        (Ok(lookup(table, declaration)->0), table)
    } else if busy.contains(declaration) {
        (Err(Failure::Rejected(Error::E0004)), table)
    } else if spec_primitive(declaration) is Some {
        stored(table, declaration, TargetView::Wellknowns(spec_primitive(declaration)->0))
    } else if spec_option_of(declaration) is Some {
        proof {
            lemma_idle_decreases(definitions, busy, declaration);
        }
        let parameter = spec_option_of(declaration)->0;
        let inner = resolved(
            definitions,
            table,
            busy.push(declaration),
            parameter,
            Parent::Irrelevant,
        );
        match inner.0 {
            Ok(target) => stored(
                inner.1,
                declaration,
                TargetView::Wellknowns(WellknownsView::option(parameter, target.ts_name())),
            ),
            Err(failure) => (Err(failure), inner.1),
        }
    } else {
        match defined(definitions, declaration) {
            None => (Err(Failure::Undefined), table),
            Some(definition) => {
                proof {
                    lemma_idle_decreases(definitions, busy, declaration);
                }
                resolved_definition(
                    definitions,
                    table,
                    busy.push(declaration),
                    declaration,
                    definition,
                    parent,
                )
            },
        }
    }
}

/// What a declaration resolves to by its definition. `busy` holds the declaration already.
///
/// An array of fixed length is named after its elements, keeps its length whole, and is not
/// stored. A sequence with a written length is text. An enum with a tag of one byte
/// becomes the parent class `<declaration>Enum` with its variants. A struct with named
/// fields becomes a class. A struct with one unnamed field becomes a wrapper, shown under
/// the name of what it wraps where it is the data of a variant and under its own name
/// elsewhere; a wrapper around a wrapper is refused. Every other shape is refused too.
pub open spec fn resolved_definition(
    definitions: Seq<(Seq<char>, DefinitionView)>,
    table: Seq<Entry>,
    busy: Seq<Seq<char>>,
    declaration: Seq<char>,
    definition: DefinitionView,
    parent: Parent,
) -> Outcome<TargetView>
    decreases idle(definitions, busy), 2nat, 0nat,
{
    match definition {
        DefinitionView::Primitive(_) => (Err(Failure::Reserved), table),
        DefinitionView::Sequence { length_width, length_range, elements } => if length_width != 0 {
            (Ok(TargetView::String), table)
        } else {
            let element = resolved(definitions, table, busy, elements, Parent::Irrelevant);
            match element.0 {
                Ok(target) => match spec_element_name(target) {
                    Ok(name) => (
                        Ok(
                            TargetView::Wellknowns(
                                WellknownsView::fixed_length_array(
                                    elements,
                                    length_range.0,
                                    name,
                                ),
                            ),
                        ),
                        element.1,
                    ),
                    Err(failure) => (Err(failure), element.1),
                },
                Err(failure) => (Err(failure), element.1),
            }
        },
        DefinitionView::Tuple { elements } => (Err(Failure::Rejected(Error::E0002)), table),
        DefinitionView::Enum { tag_width, variants } => if tag_width == 1 {
            let done = resolved_variants(definitions, table, busy, variants);
            match done.0 {
                Ok(list) => stored(
                    done.1,
                    declaration,
                    TargetView::Enum(EnumView { ts_symbol: declaration + "Enum"@, variants: list }),
                ),
                Err(failure) => (Err(failure), done.1),
            }
        } else {
            (Err(Failure::Reserved), table)
        },
        DefinitionView::Struct { fields: FieldsView::NamedFields(fields) } => {
            let done = resolved_fields(definitions, table, busy, fields);
            match done.0 {
                Ok(list) => stored(
                    done.1,
                    declaration,
                    TargetView::Class(ClassView { ts_symbol: declaration, fields: list }),
                ),
                Err(failure) => (Err(failure), done.1),
            }
        },
        DefinitionView::Struct { fields: FieldsView::UnnamedFields(fields) } => if fields.len()
            == 1 {
            let inner = resolved(definitions, table, busy, fields[0], parent);
            match inner.0 {
                Ok(TargetView::Transparent(_, _)) => (Err(Failure::Rejected(Error::E0001)), inner.1),
                Ok(target) => stored(
                    inner.1,
                    declaration,
                    TargetView::Transparent(
                        if parent == Parent::Enum {
                            target.ts_name()
                        } else {
                            declaration
                        },
                        Box::new(target),
                    ),
                ),
                Err(failure) => (Err(failure), inner.1),
            }
        } else {
            (Err(Failure::Rejected(Error::E0010)), table)
        },
        DefinitionView::Struct { fields: FieldsView::Empty } => (
            Err(Failure::Rejected(Error::E0005)),
            table,
        ),
    }
}

/// The variants of an enum, resolved one after the other. A variant whose data is an empty
/// struct carries nothing. Any other data is resolved as the data of a variant, and its own
/// entry leaves the table: it lives inside the variant only.
pub open spec fn resolved_variants(
    definitions: Seq<(Seq<char>, DefinitionView)>,
    table: Seq<Entry>,
    busy: Seq<Seq<char>>,
    variants: Seq<(i64, Seq<char>, Seq<char>)>,
) -> Outcome<Seq<VariantView>>
    decreases idle(definitions, busy), 1nat, variants.len(),
{
    if variants.len() == 0 {
        (Ok(Seq::empty()), table)
    } else {
        let before = resolved_variants(definitions, table, busy, variants.drop_last());
        match before.0 {
            Ok(list) => {
                let (discriminant, name, data) = variants.last();
                match defined(definitions, data) {
                    None => (Err(Failure::Undefined), before.1),
                    Some(DefinitionView::Struct { fields: FieldsView::Empty }) => (
                        Ok(
                            list.push(
                                VariantView {
                                    ts_symbol: name + "Variant"@,
                                    inner: None,
                                    discriminant: discriminant as u8,
                                },
                            ),
                        ),
                        before.1,
                    ),
                    Some(_) => {
                        let inner = resolved(definitions, before.1, busy, data, Parent::Enum);
                        match inner.0 {
                            Ok(target) => (
                                Ok(
                                    list.push(
                                        VariantView {
                                            ts_symbol: name + "Variant"@,
                                            inner: Some(target),
                                            discriminant: discriminant as u8,
                                        },
                                    ),
                                ),
                                without(inner.1, data),
                            ),
                            Err(failure) => (Err(failure), inner.1),
                        }
                    },
                }
            },
            Err(failure) => (Err(failure), before.1),
        }
    }
}

/// The named fields of a struct, resolved one after the other as fields of a struct.
pub open spec fn resolved_fields(
    definitions: Seq<(Seq<char>, DefinitionView)>,
    table: Seq<Entry>,
    busy: Seq<Seq<char>>,
    fields: Seq<(Seq<char>, Seq<char>)>,
) -> Outcome<Seq<FieldView>>
    decreases idle(definitions, busy), 1nat, fields.len(),
{
    if fields.len() == 0 {
        (Ok(Seq::empty()), table)
    } else {
        let before = resolved_fields(definitions, table, busy, fields.drop_last());
        match before.0 {
            Ok(list) => {
                let (name, declaration) = fields.last();
                let inner = resolved(definitions, before.1, busy, declaration, Parent::Struct);
                match inner.0 {
                    Ok(target) => (
                        Ok(list.push(FieldView { target, name, option: false })),
                        inner.1,
                    ),
                    Err(failure) => (Err(failure), inner.1),
                }
            },
            Err(failure) => (Err(failure), before.1),
        }
    }
}

/// A result of resolving as a mathematical value.
pub open spec fn target_result(result: Result<Target, Failure>) -> Result<TargetView, Failure> {
    match result {
        Ok(target) => Ok(target@),
        Err(failure) => Err(failure),
    }
}

/// Looks a declaration up in the table of primitives.
pub fn primitive(declaration: &str) -> (found: Option<Wellknowns>)
    ensures
        match found {
            Some(wellknown) => spec_primitive(declaration@) == Some(wellknown@),
            None => spec_primitive(declaration@) is None,
        },
{
    if same_text(declaration, "i64") || same_text(declaration, "u64") || same_text(
        declaration,
        "u128",
    ) || same_text(declaration, "i128") || same_text(declaration, "NonZeroU64") || same_text(
        declaration,
        "NonZeroI64",
    ) || same_text(declaration, "NonZeroU128") || same_text(declaration, "NonZeroI128") {
        Some(Wellknowns::bigint(ts_non_zero(declaration)))
    } else if same_text(declaration, "u8") || same_text(declaration, "u16") || same_text(
        declaration,
        "u32",
    ) || same_text(declaration, "i8") || same_text(declaration, "i16") || same_text(
        declaration,
        "i32",
    ) || same_text(declaration, "NonZeroU8") || same_text(declaration, "NonZeroU16")
        || same_text(declaration, "NonZeroU32") || same_text(declaration, "NonZeroI8")
        || same_text(declaration, "NonZeroI16") || same_text(declaration, "NonZeroI32") {
        Some(Wellknowns::number(ts_non_zero(declaration)))
    } else if same_text(declaration, "bool") {
        Some(Wellknowns::number(declaration.to_owned()))
    } else {
        None
    }
}

/// Stores a target under a declaration that is new to the table, and hands the target back.
/// A table that holds the declaration already stays as it is.
pub fn insert(
    generates: &mut OrderMap<String, Target>,
    declaration: &str,
    target: Target,
) -> (result: Result<Target, Failure>)
    ensures
        target_result(result) == stored(entries(*old(generates)), declaration@, target@).0,
        entries(*final(generates)) == stored(entries(*old(generates)), declaration@, target@).1,
{
    proof {
        lemma_lookup_has_key(entries(*generates), declaration@);
    }
    if get(generates, declaration).is_some() {
        Err(Failure::Duplicate)
    } else {
        insert_entry(generates, declaration.to_owned(), target.clone());
        Ok(target)
    }
}

/// Names the type of an array's elements.
pub fn element_name(element: &Target) -> (name: Result<String, Failure>)
    ensures
        match name {
            Ok(text) => spec_element_name(element@) == Ok::<_, Failure>(text@),
            Err(failure) => spec_element_name(element@) == Err::<Seq<char>, _>(failure),
        },
{
    proof {
        lemma_view_of_parts(*element);
    }
    match element {
        Target::Wellknowns(wellknown) => Ok(wellknown.ts.clone()),
        Target::Class(class) => Ok(class.ts_symbol.clone()),
        Target::Transparent(_, inner) => {
            proof {
                lemma_view_of_parts(**inner);
            }
            match &**inner {
                Target::Wellknowns(wellknown) => Ok(wellknown.ts.clone()),
                Target::Class(class) => Ok(class.ts_symbol.clone()),
                _ => Err(Failure::Rejected(Error::E0001)),
            }
        },
        Target::String => Err(Failure::Reserved),
        Target::Enum(_) => Err(Failure::Reserved),
    }
}

/// Whether `name` is among `names`.
fn contains_name(names: &Vec<String>, name: &str) -> (found: bool)
    ensures
        found == texts(names@).contains(name@),
{
    let mut i: usize = 0;
    while i < names.len()
        invariant
            i <= names.len(),
            forall|j: int| 0 <= j < i ==> texts(names@)[j] != name@,
        decreases names.len() - i,
    {
        if same_text(names[i].as_str(), name) {
            assert(texts(names@)[i as int] == name@);
            return true;
        }
        i += 1;
    }
    false
}

/// The names with `name` behind them.
fn with_name(names: &Vec<String>, name: &str) -> (longer: Vec<String>)
    ensures
        texts(longer@) == texts(names@).push(name@),
{
    let mut longer: Vec<String> = Vec::new();
    let mut i: usize = 0;
    while i < names.len()
        invariant
            i <= names.len(),
            longer.len() == i,
            forall|j: int| 0 <= j < i ==> longer@[j]@ == names@[j]@,
        decreases names.len() - i,
    {
        longer.push(names[i].clone());
        i += 1;
    }
    longer.push(name.to_owned());
    assert(texts(longer@) =~= texts(names@).push(name@));
    longer
}

/// Resolves a declaration while the declarations in `busy` are under way.
fn resolve(
    schema: &BorshSchemaContainer,
    declaration: &str,
    generates: &mut OrderMap<String, Target>,
    parent: Parent,
    busy: &Vec<String>,
) -> (result: Result<Target, Failure>)
    ensures
        target_result(result) == resolved(
            definitions(*schema),
            entries(*old(generates)),
            texts(busy@),
            declaration@,
            parent,
        ).0,
        entries(*final(generates)) == resolved(
            definitions(*schema),
            entries(*old(generates)),
            texts(busy@),
            declaration@,
            parent,
        ).1,
    decreases idle(definitions(*schema), texts(busy@)), 0nat, angles(declaration@),
{
    if let Some(target) = get(generates, declaration) {
        return Ok(target.clone());
    }
    if contains_name(busy, declaration) {
        return Err(Failure::Rejected(Error::E0004));
    }
    if let Some(wellknown) = primitive(declaration) {
        return insert(generates, declaration, Target::Wellknowns(wellknown));
    }
    let deeper = with_name(busy, declaration);
    proof {
        lemma_idle_decreases(definitions(*schema), texts(busy@), declaration@);
    }
    if let Ok(Some(parameter)) = parse_option_type(declaration) {
        if count_angles(parameter.as_str()) < count_angles(declaration) {
            let inner = resolve(
                schema,
                parameter.as_str(),
                generates,
                Parent::Irrelevant,
                &deeper,
            );
            return match inner {
                Ok(target) => {
                    let optional = Wellknowns::option(parameter, target.ts_name());
                    insert(generates, declaration, Target::Wellknowns(optional))
                },
                Err(failure) => Err(failure),
            };
        }
    }
    match get_definition(schema, declaration) {
        None => Err(Failure::Undefined),
        Some(definition) => resolve_definition(
            schema,
            declaration,
            &definition,
            generates,
            parent,
            &deeper,
        ),
    }
}

/// Resolves a declaration by its definition. `busy` holds the declaration already.
fn resolve_definition(
    schema: &BorshSchemaContainer,
    declaration: &str,
    definition: &Definition,
    generates: &mut OrderMap<String, Target>,
    parent: Parent,
    busy: &Vec<String>,
) -> (result: Result<Target, Failure>)
    ensures
        target_result(result) == resolved_definition(
            definitions(*schema),
            entries(*old(generates)),
            texts(busy@),
            declaration@,
            definition@,
            parent,
        ).0,
        entries(*final(generates)) == resolved_definition(
            definitions(*schema),
            entries(*old(generates)),
            texts(busy@),
            declaration@,
            definition@,
            parent,
        ).1,
    decreases idle(definitions(*schema), texts(busy@)), 2nat, 0nat,
{
    match definition {
        Definition::Primitive(_) => Err(Failure::Reserved),
        Definition::Sequence { length_width, length_range, elements } => {
            if *length_width != 0 {
                Ok(Target::String)
            } else {
                let fixed_length = length_range.0;
                let element = resolve(
                    schema,
                    elements.as_str(),
                    generates,
                    Parent::Irrelevant,
                    busy,
                );
                match element {
                    Ok(target) => match element_name(&target) {
                        Ok(name) => Ok(
                            Target::Wellknowns(
                                Wellknowns::fixed_length_array(elements.clone(), fixed_length, name),
                            ),
                        ),
                        Err(failure) => Err(failure),
                    },
                    Err(failure) => Err(failure),
                }
            }
        },
        Definition::Tuple { elements: _ } => Err(Failure::Rejected(Error::E0002)),
        Definition::Enum { tag_width, variants } => {
            if *tag_width == 1 {
                match resolve_variants(schema, variants, generates, busy) {
                    Ok(list) => {
                        let target = Target::Enum(
                            Enum { ts_symbol: followed_by(declaration, "Enum"), variants: list },
                        );
                        proof {
                            lemma_view_of_parts(target);
                        }
                        insert(generates, declaration, target)
                    },
                    Err(failure) => Err(failure),
                }
            } else {
                Err(Failure::Reserved)
            }
        },
        Definition::Struct { fields: Fields::NamedFields(fields) } => {
            match resolve_fields(schema, fields, generates, busy) {
                Ok(list) => {
                    let target = Target::Class(
                        Class { ts_symbol: declaration.to_owned(), fields: list },
                    );
                    proof {
                        lemma_view_of_parts(target);
                    }
                    insert(generates, declaration, target)
                },
                Err(failure) => Err(failure),
            }
        },
        Definition::Struct { fields: Fields::UnnamedFields(fields) } => {
            if fields.len() == 1 {
                match resolve(schema, fields[0].as_str(), generates, parent, busy) {
                    Ok(Target::Transparent(_, _)) => Err(Failure::Rejected(Error::E0001)),
                    Ok(target) => {
                        let name = match parent {
                            Parent::Enum => target.ts_name(),
                            _ => declaration.to_owned(),
                        };
                        insert(generates, declaration, Target::Transparent(name, Box::new(target)))
                    },
                    Err(failure) => Err(failure),
                }
            } else {
                Err(Failure::Rejected(Error::E0010))
            }
        },
        Definition::Struct { fields: Fields::Empty } => Err(Failure::Rejected(Error::E0005)),
    }
}

/// Once a variant has failed, the variants behind it change nothing.
pub proof fn lemma_variants_failure_stays(
    definitions: Seq<(Seq<char>, DefinitionView)>,
    table: Seq<Entry>,
    busy: Seq<Seq<char>>,
    variants: Seq<(i64, Seq<char>, Seq<char>)>,
    count: int,
)
    requires
        0 <= count <= variants.len(),
        resolved_variants(definitions, table, busy, variants.take(count)).0 is Err,
    ensures
        resolved_variants(definitions, table, busy, variants) == resolved_variants(
            definitions,
            table,
            busy,
            variants.take(count),
        ),
    decreases variants.len(),
{
    if count == variants.len() {
        assert(variants.take(count) =~= variants);
    } else {
        assert(variants.drop_last().take(count) =~= variants.take(count));
        lemma_variants_failure_stays(definitions, table, busy, variants.drop_last(), count);
    }
}

/// Once a field has failed, the fields behind it change nothing.
pub proof fn lemma_fields_failure_stays(
    definitions: Seq<(Seq<char>, DefinitionView)>,
    table: Seq<Entry>,
    busy: Seq<Seq<char>>,
    fields: Seq<(Seq<char>, Seq<char>)>,
    count: int,
)
    requires
        0 <= count <= fields.len(),
        resolved_fields(definitions, table, busy, fields.take(count)).0 is Err,
    ensures
        resolved_fields(definitions, table, busy, fields) == resolved_fields(
            definitions,
            table,
            busy,
            fields.take(count),
        ),
    decreases fields.len(),
{
    if count == fields.len() {
        assert(fields.take(count) =~= fields);
    } else {
        assert(fields.drop_last().take(count) =~= fields.take(count));
        lemma_fields_failure_stays(definitions, table, busy, fields.drop_last(), count);
    }
}

/// Resolves the variants of an enum in their order.
fn resolve_variants(
    schema: &BorshSchemaContainer,
    variants: &Vec<(i64, String, String)>,
    generates: &mut OrderMap<String, Target>,
    busy: &Vec<String>,
) -> (result: Result<Vec<Variant>, Failure>)
    ensures
        match result {
            Ok(list) => resolved_variants(
                definitions(*schema),
                entries(*old(generates)),
                texts(busy@),
                alternatives(variants@),
            ).0 == Ok::<_, Failure>(variants_view(list@)),
            Err(failure) => resolved_variants(
                definitions(*schema),
                entries(*old(generates)),
                texts(busy@),
                alternatives(variants@),
            ).0 == Err::<Seq<VariantView>, _>(failure),
        },
        entries(*final(generates)) == resolved_variants(
            definitions(*schema),
            entries(*old(generates)),
            texts(busy@),
            alternatives(variants@),
        ).1,
    decreases idle(definitions(*schema), texts(busy@)), 1nat, 0nat,
{
    let ghost start = entries(*generates);
    let ghost all = alternatives(variants@);
    let mut list: Vec<Variant> = Vec::new();
    let mut i: usize = 0;
    assert(all.take(0) =~= Seq::empty());
    assert(variants_view(list@) =~= Seq::empty());
    while i < variants.len()
        invariant
            i <= variants.len(),
            list.len() == i,
            start == entries(*old(generates)),
            all == alternatives(variants@),
            resolved_variants(definitions(*schema), start, texts(busy@), all.take(i as int)) == (
                Ok::<_, Failure>(variants_view(list@)),
                entries(*generates),
            ),
        decreases variants.len() - i,
    {
        let ghost done = variants_view(list@);
        proof {
            assert(all.take(i + 1).drop_last() =~= all.take(i as int));
            assert(all.take(i + 1).last() == all[i as int]);
        }
        let discriminant = #[verifier::truncate] (variants[i].0 as u8);
        let data = variants[i].2.as_str();
        let inner = match get_definition(schema, data) {
            None => {
                proof {
                    lemma_variants_failure_stays(
                        definitions(*schema),
                        start,
                        texts(busy@),
                        all,
                        i + 1,
                    );
                }
                return Err(Failure::Undefined);
            },
            Some(Definition::Struct { fields: Fields::Empty }) => None,
            Some(_) => {
                match resolve(schema, data, generates, Parent::Enum, busy) {
                    Ok(target) => {
                        remove_entry(generates, data);
                        Some(target)
                    },
                    Err(failure) => {
                        proof {
                            lemma_variants_failure_stays(
                                definitions(*schema),
                                start,
                                texts(busy@),
                                all,
                                i + 1,
                            );
                        }
                        return Err(failure);
                    },
                }
            },
        };
        list.push(
            Variant { ts_symbol: followed_by(variants[i].1.as_str(), "Variant"), inner, discriminant },
        );
        proof {
            assert(variants_view(list@) =~= done.push(variant_view(list@[i as int])));
        }
        i += 1;
    }
    assert(all.take(variants.len() as int) =~= all);
    Ok(list)
}

/// Resolves the named fields of a struct in their order.
fn resolve_fields(
    schema: &BorshSchemaContainer,
    fields: &Vec<(String, String)>,
    generates: &mut OrderMap<String, Target>,
    busy: &Vec<String>,
) -> (result: Result<Vec<Field>, Failure>)
    ensures
        match result {
            Ok(list) => resolved_fields(
                definitions(*schema),
                entries(*old(generates)),
                texts(busy@),
                named(fields@),
            ).0 == Ok::<_, Failure>(fields_view(list@)),
            Err(failure) => resolved_fields(
                definitions(*schema),
                entries(*old(generates)),
                texts(busy@),
                named(fields@),
            ).0 == Err::<Seq<FieldView>, _>(failure),
        },
        entries(*final(generates)) == resolved_fields(
            definitions(*schema),
            entries(*old(generates)),
            texts(busy@),
            named(fields@),
        ).1,
    decreases idle(definitions(*schema), texts(busy@)), 1nat, 0nat,
{
    let ghost start = entries(*generates);
    let ghost all = named(fields@);
    let mut list: Vec<Field> = Vec::new();
    let mut i: usize = 0;
    assert(all.take(0) =~= Seq::empty());
    assert(fields_view(list@) =~= Seq::empty());
    while i < fields.len()
        invariant
            i <= fields.len(),
            list.len() == i,
            start == entries(*old(generates)),
            all == named(fields@),
            resolved_fields(definitions(*schema), start, texts(busy@), all.take(i as int)) == (
                Ok::<_, Failure>(fields_view(list@)),
                entries(*generates),
            ),
        decreases fields.len() - i,
    {
        let ghost done = fields_view(list@);
        proof {
            assert(all.take(i + 1).drop_last() =~= all.take(i as int));
            assert(all.take(i + 1).last() == all[i as int]);
        }
        match resolve(schema, fields[i].1.as_str(), generates, Parent::Struct, busy) {
            Ok(target) => {
                list.push(Field { target, name: fields[i].0.clone(), _option: false });
            },
            Err(failure) => {
                proof {
                    lemma_fields_failure_stays(
                        definitions(*schema),
                        start,
                        texts(busy@),
                        all,
                        i + 1,
                    );
                }
                return Err(failure);
            },
        }
        proof {
            assert(fields_view(list@) =~= done.push(field_view(list@[i as int])));
        }
        i += 1;
    }
    assert(all.take(fields.len() as int) =~= all);
    Ok(list)
}

/// What `build_roots` returns for a declaration, and the table afterwards: the declaration
/// is resolved with nothing else under way.
pub open spec fn spec_build_roots(
    definitions: Seq<(Seq<char>, DefinitionView)>,
    table: Seq<Entry>,
    declaration: Seq<char>,
    parent: Parent,
) -> Outcome<TargetView> {
    resolved(definitions, table, Seq::empty(), declaration, parent)
}

/// Resolves one declaration of the schema against the table. The table gains what the
/// declaration and everything it mentions resolve to, each declaration once, in the order in
/// which they are completed.
pub fn build_roots(
    schema: &BorshSchemaContainer,
    declaration: &str,
    generates: &mut OrderMap<String, Target>,
    parent: Parent,
) -> (result: Result<Target, Failure>)
    ensures
        target_result(result) == spec_build_roots(
            definitions(*schema),
            entries(*old(generates)),
            declaration@,
            parent,
        ).0,
        entries(*final(generates)) == spec_build_roots(
            definitions(*schema),
            entries(*old(generates)),
            declaration@,
            parent,
        ).1,
{
    let busy: Vec<String> = Vec::new();
    assert(texts(busy@) =~= Seq::empty());
    resolve(schema, declaration, generates, parent, &busy)
}

/// Targets as mathematical values, in their order.
pub open spec fn targets_view(targets: Seq<Target>) -> Seq<TargetView> {
    Seq::new(targets.len(), |i: int| targets[i]@)
}

/// The types of a world, resolved one after the other against one table.
pub open spec fn resolved_roots(
    definitions: Seq<(Seq<char>, DefinitionView)>,
    table: Seq<Entry>,
    elements: Seq<Seq<char>>,
) -> Outcome<Seq<TargetView>>
    decreases elements.len(),
{
    if elements.len() == 0 {
        (Ok(Seq::empty()), table)
    } else {
        let before = resolved_roots(definitions, table, elements.drop_last());
        match before.0 {
            Ok(list) => {
                let root = spec_build_roots(
                    definitions,
                    before.1,
                    elements.last(),
                    Parent::Irrelevant,
                );
                match root.0 {
                    Ok(target) => (Ok(list.push(target)), root.1),
                    Err(failure) => (Err(failure), root.1),
                }
            },
            Err(failure) => (Err(failure), before.1),
        }
    }
}

/// Once a type of the world has failed, the types behind it change nothing.
pub proof fn lemma_roots_failure_stays(
    definitions: Seq<(Seq<char>, DefinitionView)>,
    table: Seq<Entry>,
    elements: Seq<Seq<char>>,
    count: int,
)
    requires
        0 <= count <= elements.len(),
        resolved_roots(definitions, table, elements.take(count)).0 is Err,
    ensures
        resolved_roots(definitions, table, elements) == resolved_roots(
            definitions,
            table,
            elements.take(count),
        ),
    decreases elements.len(),
{
    if count == elements.len() {
        assert(elements.take(count) =~= elements);
    } else {
        assert(elements.drop_last().take(count) =~= elements.take(count));
        lemma_roots_failure_stays(definitions, table, elements.drop_last(), count);
    }
}

/// What `build_world` makes of a schema whose root is `world`: the root must be defined as a
/// tuple, and its elements are resolved in their order, starting from an empty table.
pub open spec fn spec_build_world(
    definitions: Seq<(Seq<char>, DefinitionView)>,
    world: Seq<char>,
) -> Outcome<Seq<TargetView>> {
    match defined(definitions, world) {
        None => (Err(Failure::Undefined), Seq::empty()),
        Some(DefinitionView::Tuple { elements }) => resolved_roots(
            definitions,
            Seq::empty(),
            elements,
        ),
        Some(_) => (Err(Failure::NotWorld), Seq::empty()),
    }
}

/// Resolves a world: a schema whose root is a tuple of the types to generate. Returns what
/// each type resolved to and the table of everything that was resolved on the way.
pub fn build_world(schema: &BorshSchemaContainer) -> (result: Result<
    (Vec<Target>, OrderMap<String, Target>),
    Failure,
>)
    ensures
        match result {
            Ok((targets, generates)) => spec_build_world(definitions(*schema), root(*schema)) == (
                Ok::<_, Failure>(targets_view(targets@)),
                entries(generates),
            ),
            Err(failure) => spec_build_world(definitions(*schema), root(*schema)).0 == Err::<
                Seq<TargetView>,
                _,
            >(failure),
        },
{
    let mut generates = new_table();
    let world = declaration(schema);
    let elements = match get_definition(schema, world.as_str()) {
        None => {
            return Err(Failure::Undefined);
        },
        Some(Definition::Tuple { elements }) => elements,
        Some(_) => {
            return Err(Failure::NotWorld);
        },
    };
    let ghost all = texts(elements@);
    let mut targets: Vec<Target> = Vec::new();
    let mut i: usize = 0;
    assert(all.take(0) =~= Seq::empty());
    assert(targets_view(targets@) =~= Seq::empty());
    while i < elements.len()
        invariant
            i <= elements.len(),
            targets.len() == i,
            all == texts(elements@),
            defined(definitions(*schema), root(*schema)) == Some(
                DefinitionView::Tuple { elements: all },
            ),
            resolved_roots(definitions(*schema), Seq::empty(), all.take(i as int)) == (
                Ok::<_, Failure>(targets_view(targets@)),
                entries(generates),
            ),
        decreases elements.len() - i,
    {
        let ghost done = targets_view(targets@);
        proof {
            assert(all.take(i + 1).drop_last() =~= all.take(i as int));
            assert(all.take(i + 1).last() == all[i as int]);
        }
        match build_roots(schema, elements[i].as_str(), &mut generates, Parent::Irrelevant) {
            Ok(target) => {
                targets.push(target);
            },
            Err(failure) => {
                proof {
                    lemma_roots_failure_stays(definitions(*schema), Seq::empty(), all, i + 1);
                }
                return Err(failure);
            },
        }
        proof {
            assert(targets_view(targets@) =~= done.push(targets@[i as int]@));
        }
        i += 1;
    }
    assert(all.take(elements.len() as int) =~= all);
    Ok((targets, generates))
}

} // verus!

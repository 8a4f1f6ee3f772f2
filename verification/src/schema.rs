//! The schema that is read: a Borsh container of definitions, looked at through values of
//! this library's own.
use borsh::schema::BorshSchemaContainer;
use vstd::prelude::*;

verus! {

/// `borsh::schema::BorshSchemaContainer`, carried as a type whose inside the verifier does
/// not see.
#[verifier::external_type_specification]
#[verifier::external_body]
pub struct ExBorshSchemaContainer(borsh::schema::BorshSchemaContainer);

/// The fields of a struct, by the declarations of their types.
#[derive(Debug)]
pub enum Fields {
    /// Each field with its name.
    NamedFields(Vec<(String, String)>),
    UnnamedFields(Vec<String>),
    Empty,
}

/// How one declared type is laid out.
#[derive(Debug)]
#[allow(inconsistent_fields)]
pub enum Definition {
    /// A fixed number of bytes that is not taken apart.
    Primitive(u8),
    /// Elements of one type. A `length_width` of zero means that no length is written; the
    /// range holds the least and the greatest number of elements.
    Sequence { length_width: u8, length_range: (u64, u64), elements: String },
    Tuple { elements: Vec<String> },
    /// Alternatives, each with its discriminant, its name and the declaration of its data.
    Enum { tag_width: u8, variants: Vec<(i64, String, String)> },
    Struct { fields: Fields },
}

/// `Fields` as a mathematical value.
pub enum FieldsView {
    NamedFields(Seq<(Seq<char>, Seq<char>)>),
    UnnamedFields(Seq<Seq<char>>),
    Empty,
}

/// `Definition` as a mathematical value.
#[allow(inconsistent_fields)]
pub enum DefinitionView {
    Primitive(u8),
    Sequence { length_width: u8, length_range: (u64, u64), elements: Seq<char> },
    Tuple { elements: Seq<Seq<char>> },
    Enum { tag_width: u8, variants: Seq<(i64, Seq<char>, Seq<char>)> },
    Struct { fields: FieldsView },
}

/// The texts of a list as sequences of characters.
pub open spec fn texts(list: Seq<String>) -> Seq<Seq<char>> {
    Seq::new(list.len(), |i: int| list[i]@)
}

/// Named fields as mathematical values.
pub open spec fn named(list: Seq<(String, String)>) -> Seq<(Seq<char>, Seq<char>)> {
    Seq::new(list.len(), |i: int| (list[i].0@, list[i].1@))
}

/// The variants of an enum as mathematical values.
pub open spec fn alternatives(list: Seq<(i64, String, String)>) -> Seq<(i64, Seq<char>, Seq<char>)> {
    Seq::new(list.len(), |i: int| (list[i].0, list[i].1@, list[i].2@))
}

impl View for Fields {
    type V = FieldsView;

    open spec fn view(&self) -> FieldsView {
        match self {
            Fields::NamedFields(fields) => FieldsView::NamedFields(named(fields@)),
            Fields::UnnamedFields(fields) => FieldsView::UnnamedFields(texts(fields@)),
            Fields::Empty => FieldsView::Empty,
        }
    }
}

impl View for Definition {
    type V = DefinitionView;

    open spec fn view(&self) -> DefinitionView {
        match self {
            Definition::Primitive(size) => DefinitionView::Primitive(*size),
            Definition::Sequence { length_width, length_range, elements } => {
                DefinitionView::Sequence {
                    length_width: *length_width,
                    length_range: *length_range,
                    elements: elements@,
                }
            },
            Definition::Tuple { elements } => DefinitionView::Tuple { elements: texts(elements@) },
            Definition::Enum { tag_width, variants } => DefinitionView::Enum {
                tag_width: *tag_width,
                variants: alternatives(variants@),
            },
            Definition::Struct { fields } => DefinitionView::Struct { fields: fields@ },
        }
    }
}

/// What a container holds: each declaration with its definition, in the container's order.
pub uninterp spec fn definitions(schema: BorshSchemaContainer) -> Seq<(Seq<char>, DefinitionView)>;

/// The declaration that a container was made for.
pub uninterp spec fn root(schema: BorshSchemaContainer) -> Seq<char>;

/// The definition that stands under `declaration`, if any.
pub open spec fn defined(
    definitions: Seq<(Seq<char>, DefinitionView)>,
    declaration: Seq<char>,
) -> Option<DefinitionView>
    decreases definitions.len(),
{
    if definitions.len() == 0 {
        None
    } else if definitions.last().0 == declaration {
        Some(definitions.last().1)
    } else {
        defined(definitions.drop_last(), declaration)
    }
}

/// `BorshSchemaContainer::declaration`: the declaration that the container was made for.
#[verifier::external_body]
pub(crate) fn declaration(schema: &BorshSchemaContainer) -> (name: String)
    ensures
        name@ == root(*schema),
{
    schema.declaration().clone()
}

/// `BorshSchemaContainer::get_definition`: the definition stored under the declaration, or
/// `None` where the container has none. The definition is handed out as a value of this
/// library, part for part; of a length range its two ends.
#[verifier::external_body]
pub(crate) fn get_definition(schema: &BorshSchemaContainer, declaration: &str) -> (found: Option<
    Definition,
>)
    ensures
        match found {
            Some(definition) => defined(definitions(*schema), declaration@) == Some(definition@),
            None => defined(definitions(*schema), declaration@) is None,
        },
{
    Some(match schema.get_definition(declaration)?.clone() {
        borsh::schema::Definition::Primitive(size) => Definition::Primitive(size),
        borsh::schema::Definition::Sequence { length_width, length_range, elements } => {
            Definition::Sequence { length_width, length_range: length_range.into_inner(), elements }
        },
        borsh::schema::Definition::Tuple { elements } => Definition::Tuple { elements },
        borsh::schema::Definition::Enum { tag_width, variants } => Definition::Enum { tag_width, variants },
        borsh::schema::Definition::Struct { fields } => Definition::Struct {
            fields: match fields {
                borsh::schema::Fields::NamedFields(fields) => Fields::NamedFields(fields),
                borsh::schema::Fields::UnnamedFields(fields) => Fields::UnnamedFields(fields),
                borsh::schema::Fields::Empty => Fields::Empty,
            },
        },
    })
}

} // verus!

//! The TypeScript side of the reconciliation: what a Rust type becomes there.
use crate::text::followed_by;
use crate::text::lowercase;
use crate::text::replace;
use crate::text::replaced;
use crate::text::same_text;
use crate::text::to_lowercase;
use vstd::prelude::*;

verus! {

/// What every generated file starts with: the decorators and helpers of the Borsh runtime.
pub const IMPORTS: &'static str =
    "import { field, fixedArray, option, variant } from \"@dao-xyz/borsh\";\n";

/// A symbol that TypeScript or the Borsh runtime already has, so nothing is generated for it.
#[derive(Debug)]
pub struct Wellknowns {
    /// The name that the Borsh runtime knows the type by.
    pub borsh_ts: String,
    /// The type as TypeScript spells it.
    pub ts: String,
    /// The length, where the type is an array of fixed length.
    pub fixed_array: Option<u64>,
    /// Whether the value may be absent.
    pub option: bool,
}

/// One named member of a class.
#[derive(Debug)]
pub struct Field {
    pub target: Target,
    pub name: String,
    pub _option: bool,
}

/// A class with its members in the order of the Rust struct.
#[derive(Debug)]
pub struct Class {
    pub ts_symbol: String,
    pub fields: Vec<Field>,
}

/// One alternative of an enum.
#[derive(Debug)]
pub struct Variant {
    pub ts_symbol: String,
    /// The data that the alternative carries, if any.
    pub inner: Option<Target>,
    pub discriminant: u8,
}

/// An enum, which TypeScript models as an open set of classes under one parent.
#[derive(Debug)]
pub struct Enum {
    /// The name of the parent class.
    pub ts_symbol: String,
    pub variants: Vec<Variant>,
}

/// What a declaration of the schema becomes in TypeScript.
#[derive(Debug)]
pub enum Target {
    /// A type that exists already.
    Wellknowns(Wellknowns),
    /// A wrapper around one unnamed field, under the name it shows to its users.
    Transparent(String, Box<Target>),
    Class(Class),
    Enum(Enum),
    /// Text, which is neither a primitive nor an array.
    String,
}

/// `Wellknowns` as a mathematical value.
pub struct WellknownsView {
    pub borsh_ts: Seq<char>,
    pub ts: Seq<char>,
    pub fixed_array: Option<u64>,
    pub option: bool,
}

/// `Field` as a mathematical value.
pub struct FieldView {
    pub target: TargetView,
    pub name: Seq<char>,
    pub option: bool,
}

/// `Class` as a mathematical value.
pub struct ClassView {
    pub ts_symbol: Seq<char>,
    pub fields: Seq<FieldView>,
}

/// `Variant` as a mathematical value.
pub struct VariantView {
    pub ts_symbol: Seq<char>,
    pub inner: Option<TargetView>,
    pub discriminant: u8,
}

/// `Enum` as a mathematical value.
pub struct EnumView {
    pub ts_symbol: Seq<char>,
    pub variants: Seq<VariantView>,
}

/// `Target` as a mathematical value.
pub enum TargetView {
    Wellknowns(WellknownsView),
    Transparent(Seq<char>, Box<TargetView>),
    Class(ClassView),
    Enum(EnumView),
    String,
}

/// A target as a mathematical value: its texts as sequences of characters, its lists as
/// sequences.
pub open spec fn target_view(target: Target) -> TargetView
    decreases target,
{
    match target {
        Target::Wellknowns(wellknown) => TargetView::Wellknowns(wellknown@),
        Target::Transparent(name, inner) => TargetView::Transparent(
            name@,
            Box::new(target_view(*inner)),
        ),
        Target::Class(class) => TargetView::Class(
            ClassView {
                ts_symbol: class.ts_symbol@,
                fields: Seq::new(
                    class.fields@.len(),
                    |i: int|
                        if 0 <= i < class.fields@.len() {
                            field_view(class.fields@[i])
                        } else {
                            arbitrary()
                        },
                ),
            },
        ),
        Target::Enum(enumeration) => TargetView::Enum(
            EnumView {
                ts_symbol: enumeration.ts_symbol@,
                variants: Seq::new(
                    enumeration.variants@.len(),
                    |i: int|
                        if 0 <= i < enumeration.variants@.len() {
                            variant_view(enumeration.variants@[i])
                        } else {
                            arbitrary()
                        },
                ),
            },
        ),
        Target::String => TargetView::String,
    }
}

/// A field as a mathematical value.
pub open spec fn field_view(field: Field) -> FieldView
    decreases field,
{
    FieldView { target: target_view(field.target), name: field.name@, option: field._option }
}

/// A variant as a mathematical value.
pub open spec fn variant_view(variant: Variant) -> VariantView
    decreases variant,
{
    VariantView {
        ts_symbol: variant.ts_symbol@,
        inner: match variant.inner {
            Some(target) => Some(target_view(target)),
            None => None,
        },
        discriminant: variant.discriminant,
    }
}

impl View for Wellknowns {
    type V = WellknownsView;

    open spec fn view(&self) -> WellknownsView {
        WellknownsView {
            borsh_ts: self.borsh_ts@,
            ts: self.ts@,
            fixed_array: self.fixed_array,
            option: self.option,
        }
    }
}

impl View for Target {
    type V = TargetView;

    open spec fn view(&self) -> TargetView {
        target_view(*self)
    }
}

impl View for Field {
    type V = FieldView;

    open spec fn view(&self) -> FieldView {
        field_view(*self)
    }
}

impl View for Variant {
    type V = VariantView;

    open spec fn view(&self) -> VariantView {
        variant_view(*self)
    }
}

impl View for Class {
    type V = ClassView;

    open spec fn view(&self) -> ClassView {
        ClassView { ts_symbol: self.ts_symbol@, fields: fields_view(self.fields@) }
    }
}

impl View for Enum {
    type V = EnumView;

    open spec fn view(&self) -> EnumView {
        EnumView { ts_symbol: self.ts_symbol@, variants: variants_view(self.variants@) }
    }
}

/// The members of a class as mathematical values, in their order.
pub open spec fn fields_view(fields: Seq<Field>) -> Seq<FieldView> {
    Seq::new(fields.len(), |i: int| field_view(fields[i]))
}

/// The alternatives of an enum as mathematical values, in their order.
pub open spec fn variants_view(variants: Seq<Variant>) -> Seq<VariantView> {
    Seq::new(variants.len(), |i: int| variant_view(variants[i]))
}

/// The view of a class or of an enum is made of the views of its parts.
pub proof fn lemma_view_of_parts(target: Target)
    ensures
        target matches Target::Class(class) ==> target@ == TargetView::Class(class@),
        target matches Target::Enum(enumeration) ==> target@ == TargetView::Enum(enumeration@),
{
    match target {
        Target::Class(class) => {
            assert(target@->Class_0.fields =~= fields_view(class.fields@));
        },
        Target::Enum(enumeration) => {
            assert(target@->Enum_0.variants =~= variants_view(enumeration.variants@));
        },
        _ => {},
    }
}

impl Clone for Wellknowns {
    fn clone(&self) -> (copy: Self)
        ensures
            copy@ == self@,
    {
        Wellknowns {
            borsh_ts: self.borsh_ts.clone(),
            ts: self.ts.clone(),
            fixed_array: self.fixed_array,
            option: self.option,
        }
    }
}

/// Copies the members of a class.
fn clone_fields(fields: &Vec<Field>) -> (copy: Vec<Field>)
    ensures
        fields_view(copy@) == fields_view(fields@),
    decreases fields,
{
    let mut copy: Vec<Field> = Vec::new();
    let mut i: usize = 0;
    while i < fields.len()
        invariant
            i <= fields.len(),
            copy.len() == i,
            forall|j: int| 0 <= j < i ==> field_view(#[trigger] copy@[j]) == field_view(fields@[j]),
        decreases fields.len() - i,
    {
        let field = &fields[i];
        copy.push(
            Field {
                target: field.target.clone(),
                name: field.name.clone(),
                _option: field._option,
            },
        );
        i += 1;
    }
    assert(fields_view(copy@) =~= fields_view(fields@));
    copy
}

/// Copies the alternatives of an enum.
fn clone_variants(variants: &Vec<Variant>) -> (copy: Vec<Variant>)
    ensures
        variants_view(copy@) == variants_view(variants@),
    decreases variants,
{
    let mut copy: Vec<Variant> = Vec::new();
    let mut i: usize = 0;
    while i < variants.len()
        invariant
            i <= variants.len(),
            copy.len() == i,
            forall|j: int|
                0 <= j < i ==> variant_view(#[trigger] copy@[j]) == variant_view(variants@[j]),
        decreases variants.len() - i,
    {
        let variant = &variants[i];
        let inner = match &variant.inner {
            Some(target) => Some(target.clone()),
            None => None,
        };
        copy.push(
            Variant {
                ts_symbol: variant.ts_symbol.clone(),
                inner,
                discriminant: variant.discriminant,
            },
        );
        i += 1;
    }
    assert(variants_view(copy@) =~= variants_view(variants@));
    copy
}

impl Clone for Target {
    fn clone(&self) -> (copy: Self)
        ensures
            copy@ == self@,
        decreases self,
    {
        let copy = match self {
            Target::Wellknowns(wellknown) => Target::Wellknowns(wellknown.clone()),
            Target::Transparent(name, inner) => Target::Transparent(
                name.clone(),
                Box::new((&**inner).clone()),
            ),
            Target::Class(class) => Target::Class(
                Class { ts_symbol: class.ts_symbol.clone(), fields: clone_fields(&class.fields) },
            ),
            Target::Enum(enumeration) => Target::Enum(
                Enum {
                    ts_symbol: enumeration.ts_symbol.clone(),
                    variants: clone_variants(&enumeration.variants),
                },
            ),
            Target::String => Target::String,
        };
        proof {
            lemma_view_of_parts(copy);
            lemma_view_of_parts(*self);
        }
        copy
    }
}

impl Clone for Field {
    fn clone(&self) -> (copy: Self)
        ensures
            copy@ == self@,
    {
        Field { target: self.target.clone(), name: self.name.clone(), _option: self._option }
    }
}

impl Clone for Class {
    fn clone(&self) -> (copy: Self)
        ensures
            copy@ == self@,
    {
        Class { ts_symbol: self.ts_symbol.clone(), fields: clone_fields(&self.fields) }
    }
}

impl Clone for Variant {
    fn clone(&self) -> (copy: Self)
        ensures
            copy@ == self@,
    {
        let inner = match &self.inner {
            Some(target) => Some(target.clone()),
            None => None,
        };
        Variant { ts_symbol: self.ts_symbol.clone(), inner, discriminant: self.discriminant }
    }
}

impl Clone for Enum {
    fn clone(&self) -> (copy: Self)
        ensures
            copy@ == self@,
    {
        Enum { ts_symbol: self.ts_symbol.clone(), variants: clone_variants(&self.variants) }
    }
}

impl TargetView {
    /// The name under which other generated code refers to the target.
    pub open spec fn ts_name(self) -> Seq<char> {
        match self {
            TargetView::Wellknowns(wellknown) => wellknown.ts,
            TargetView::Transparent(name, _) => name,
            TargetView::Class(class) => class.ts_symbol,
            TargetView::Enum(enumeration) => enumeration.ts_symbol,
            TargetView::String => "string"@,
        }
    }
}

impl Target {
    /// The name under which other generated code refers to the target.
    pub fn ts_name(&self) -> (name: String)
        ensures
            name@ == self@.ts_name(),
    {
        match self {
            Target::Wellknowns(wellknown) => wellknown.ts.clone(),
            Target::Transparent(name, _) => name.clone(),
            Target::Class(class) => class.ts_symbol.clone(),
            Target::Enum(enumeration) => enumeration.ts_symbol.clone(),
            Target::String => "string".to_owned(),
        }
    }
}

impl WellknownsView {
    /// A type that TypeScript spells `spelling`, neither an array nor optional.
    pub open spec fn plain(declaration: Seq<char>, spelling: Seq<char>) -> WellknownsView {
        WellknownsView { borsh_ts: declaration, ts: spelling, fixed_array: None, option: false }
    }

    /// An array of `fixed_length` elements. Bytes make a `Uint8Array`; any other element
    /// spelled `ts` makes a `ts[]`.
    pub open spec fn fixed_length_array(
        declaration: Seq<char>,
        fixed_length: u64,
        ts: Seq<char>,
    ) -> WellknownsView {
        WellknownsView {
            borsh_ts: declaration,
            ts: if declaration == "u8"@ {
                "Uint8Array"@
            } else {
                ts + "[]"@
            },
            fixed_array: Some(fixed_length),
            option: false,
        }
    }

    /// A value spelled `ts` that may be absent.
    pub open spec fn option(declaration: Seq<char>, ts: Seq<char>) -> WellknownsView {
        WellknownsView {
            borsh_ts: declaration,
            ts: ts + " | undefined"@,
            fixed_array: None,
            option: true,
        }
    }
}

impl Wellknowns {
    /// A number that fits a TypeScript `number`.
    pub fn number(declaration: String) -> (wellknown: Self)
        ensures
            wellknown@ == WellknownsView::plain(declaration@, "number"@),
    {
        Wellknowns {
            borsh_ts: declaration,
            ts: "number".to_owned(),
            fixed_array: None,
            option: false,
        }
    }

    /// A truth value.
    pub fn boolean(declaration: String) -> (wellknown: Self)
        ensures
            wellknown@ == WellknownsView::plain(declaration@, "boolean"@),
    {
        Wellknowns {
            borsh_ts: declaration,
            ts: "boolean".to_owned(),
            fixed_array: None,
            option: false,
        }
    }

    /// A number that needs a TypeScript `bigint`.
    pub fn bigint(declaration: String) -> (wellknown: Self)
        ensures
            wellknown@ == WellknownsView::plain(declaration@, "bigint"@),
    {
        Wellknowns {
            borsh_ts: declaration,
            ts: "bigint".to_owned(),
            fixed_array: None,
            option: false,
        }
    }

    /// An array of `fixed_length` elements of the type declared as `declaration` and spelled
    /// `ts`.
    pub fn fixed_length_array(declaration: String, fixed_length: u64, ts: String) -> (wellknown:
        Self)
        ensures
            wellknown@ == WellknownsView::fixed_length_array(declaration@, fixed_length, ts@),
    {
        if same_text(declaration.as_str(), "u8") {
            Wellknowns {
                borsh_ts: declaration,
                ts: "Uint8Array".to_owned(),
                fixed_array: Some(fixed_length),
                option: false,
            }
        } else {
            Wellknowns {
                borsh_ts: declaration,
                ts: followed_by(ts.as_str(), "[]"),
                fixed_array: Some(fixed_length),
                option: false,
            }
        }
    }

    /// A value of the type declared as `declaration` and spelled `ts` that may be absent.
    pub fn option(declaration: String, ts: String) -> (wellknown: Self)
        ensures
            wellknown@ == WellknownsView::option(declaration@, ts@),
    {
        Wellknowns {
            borsh_ts: declaration,
            ts: followed_by(ts.as_str(), " | undefined"),
            fixed_array: None,
            option: true,
        }
    }
}

/// The name of a primitive without the marker of its non-zero form, in lower case.
pub open spec fn spec_ts_non_zero(nonzero: Seq<char>) -> Seq<char> {
    lowercase(replaced(nonzero, "NonZero"@, ""@))
}

/// TypeScript has no non-zero primitives, so each goes by the name of its plain form.
pub fn ts_non_zero(nonzero: &str) -> (name: String)
    ensures
        name@ == spec_ts_non_zero(nonzero@),
{
    proof {
        reveal_strlit("NonZero");
    }
    let stripped = replace(nonzero, "NonZero", "");
    to_lowercase(stripped.as_str())
}

} // verus!

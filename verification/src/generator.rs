//! Renders a table of resolved declarations as TypeScript source text, entry by entry in the
//! table's order. The order is one of dependency: an entry is stored only after everything
//! that it mentions.
use crate::errors::Error;
use crate::table::entries;
use crate::table::into_pairs;
use crate::table::Entry;
use crate::text::decimal;
use crate::text::decimal_text;
use crate::text::replace;
use crate::text::replaced;
use crate::text::strip_suffix;
use crate::text::without_suffix;
use crate::ts::field_view;
use crate::ts::fields_view;
use crate::ts::lemma_view_of_parts;
use crate::ts::variant_view;
use crate::ts::variants_view;
use crate::ts::Class;
use crate::ts::Enum;
use crate::ts::Field;
use crate::ts::FieldView;
use crate::ts::Target;
use crate::ts::TargetView;
use crate::ts::Variant;
use crate::ts::VariantView;
use crate::ts::WellknownsView;
use crate::ts::IMPORTS;
use ordermap::OrderMap;
use vstd::prelude::*;

verus! {

/// One annotated member: the decorator with the Borsh type, then the member's name and its
/// TypeScript type.
pub open spec fn field_line(borsh_type: Seq<char>, name: Seq<char>, ts: Seq<char>) -> Seq<char> {
    "@field({type: "@ + borsh_type + " })"@ + name + ": "@ + ts + ";"@
}

/// The Borsh type of an array of fixed length.
pub open spec fn fixed_array_type(borsh_ts: Seq<char>, length: u64) -> Seq<char> {
    "fixedArray(\""@ + borsh_ts + "\", "@ + decimal(length as nat) + ")"@
}

/// The Borsh type of a well-known member of a class: an array of fixed length, an optional
/// value, or else the quoted name.
pub open spec fn member_type(wellknown: WellknownsView) -> Seq<char> {
    match wellknown.fixed_array {
        Some(length) => fixed_array_type(wellknown.borsh_ts, length),
        None => if wellknown.option {
            "option(\""@ + wellknown.borsh_ts + "\")"@
        } else {
            "\""@ + wellknown.borsh_ts + "\""@
        },
    }
}

/// A member named `name` that holds `target`, annotated by the kind of the target.
pub open spec fn annotated(target: TargetView, name: Seq<char>) -> Seq<char> {
    match target {
        TargetView::Wellknowns(wellknown) => field_line(member_type(wellknown), name, wellknown.ts),
        TargetView::String => field_line("'string'"@, name, "string"@),
        TargetView::Class(class) => field_line(class.ts_symbol, name, class.ts_symbol),
        TargetView::Transparent(shown, _) => field_line(shown, name, shown),
        TargetView::Enum(enumeration) => field_line(
            enumeration.ts_symbol,
            name,
            enumeration.ts_symbol,
        ),
    }
}

/// One member of a class.
pub open spec fn member(field: FieldView) -> Seq<char> {
    annotated(field.target, field.name)
}

/// The members of a class, one after the other.
pub open spec fn members(fields: Seq<FieldView>) -> Seq<char>
    decreases fields.len(),
{
    if fields.len() == 0 {
        Seq::empty()
    } else {
        members(fields.drop_last()) + member(fields.last())
    }
}

/// How a class opens.
pub open spec fn class_head(name: Seq<char>) -> Seq<char> {
    "export class "@ + name + " { "@
}

/// The helper that builds an instance from plain data, and the end of the class.
pub open spec fn class_tail(name: Seq<char>) -> Seq<char> {
    "constructor(data: "@ + name + ") {"@ + "Object.assign(this, data);"@ + "} }"@
}

/// The one member of a wrapper, which goes by the name `_0` and is annotated as a member of
/// a class would be. A wrapper around a wrapper is refused.
pub open spec fn wrapped_member(inner: TargetView) -> Result<Seq<char>, Error> {
    match inner {
        TargetView::Transparent(_, _) => Err(Error::E0001),
        _ => Ok(annotated(inner, "_0"@)),
    }
}

/// The discriminants of an enum, each followed by a comma.
pub open spec fn discriminants(variants: Seq<VariantView>) -> Seq<char>
    decreases variants.len(),
{
    if variants.len() == 0 {
        Seq::empty()
    } else {
        discriminants(variants.drop_last()) + decimal(variants.last().discriminant as nat) + ","@
    }
}

/// The name of a variant's data without the name of the enum in it. The name of the enum
/// is the symbol of its parent class without the `Enum` at its end.
pub open spec fn short_name(symbol: Seq<char>, name: Seq<char>) -> Seq<char> {
    let prefix = without_suffix(symbol, "Enum"@);
    if prefix.len() == 0 {
        name
    } else {
        replaced(name, prefix, ""@)
    }
}

/// The data of a variant as its one member `_0`; nothing where the variant carries none.
pub open spec fn variant_data(symbol: Seq<char>, inner: Option<TargetView>) -> Seq<char> {
    match inner {
        Some(target) => "@field({type: \""@ + short_name(symbol, target.ts_name()) + "\" })\n"@
            + "_0: "@ + short_name(symbol, target.ts_name()) + ";\n"@,
        None => Seq::empty(),
    }
}

/// One variant: a class under the enum's parent class, tagged with its discriminant.
pub open spec fn variant_class(symbol: Seq<char>, variant: VariantView) -> Seq<char> {
    "@variant("@ + decimal(variant.discriminant as nat) + ")\n"@ + "export class "@
        + variant.ts_symbol + " extends "@ + symbol + " {\n"@ + variant_data(
        symbol,
        variant.inner,
    ) + "}\n"@
}

/// The classes of an enum's variants, one after the other.
pub open spec fn variant_classes(symbol: Seq<char>, variants: Seq<VariantView>) -> Seq<char>
    decreases variants.len(),
{
    if variants.len() == 0 {
        Seq::empty()
    } else {
        variant_classes(symbol, variants.drop_last()) + variant_class(symbol, variants.last())
    }
}

/// What one entry of the table contributes. Well-known types and text need no declaration.
/// A class and a wrapper are declared under the entry's declaration, an enum under its own
/// symbol.
pub open spec fn block(entry: Entry) -> Result<Seq<char>, Error> {
    match entry.1 {
        TargetView::Wellknowns(_) => Ok(Seq::empty()),
        TargetView::String => Ok(Seq::empty()),
        TargetView::Class(class) => Ok(
            class_head(entry.0) + members(class.fields) + class_tail(entry.0),
        ),
        TargetView::Transparent(_, inner) => match wrapped_member(*inner) {
            Ok(text) => Ok(class_head(entry.0) + text + class_tail(entry.0)),
            Err(error) => Err(error),
        },
        TargetView::Enum(enumeration) => Ok(
            "@variant(["@ + discriminants(enumeration.variants) + "])\n"@ + "export class "@
                + enumeration.ts_symbol + " { }\n"@ + variant_classes(
                enumeration.ts_symbol,
                enumeration.variants,
            ),
        ),
    }
}

/// The generated source for a table: the imports, then the block of each entry in the
/// table's order. The first entry that is refused decides the error.
pub open spec fn rendered(entries: Seq<Entry>) -> Result<Seq<char>, Error>
    decreases entries.len(),
{
    if entries.len() == 0 {
        Ok(IMPORTS@)
    } else {
        match rendered(entries.drop_last()) {
            Ok(text) => match block(entries.last()) {
                Ok(more) => Ok(text + more),
                Err(error) => Err(error),
            },
            Err(error) => Err(error),
        }
    }
}

/// Once an entry has been refused, the entries behind it change nothing.
pub proof fn lemma_refusal_stays(entries: Seq<Entry>, count: int)
    requires
        0 <= count <= entries.len(),
        rendered(entries.take(count)) is Err,
    ensures
        rendered(entries) == rendered(entries.take(count)),
    decreases entries.len(),
{
    if count == entries.len() {
        assert(entries.take(count) =~= entries);
    } else {
        assert(entries.drop_last().take(count) =~= entries.take(count));
        lemma_refusal_stays(entries.drop_last(), count);
    }
}

/// Appends one annotated member.
fn write_field_line(output: &mut String, borsh_type: &str, name: &str, ts: &str)
    ensures
        final(output)@ == old(output)@ + field_line(borsh_type@, name@, ts@),
{
    let ghost before = output@;
    output.append("@field({type: ");
    output.append(borsh_type);
    output.append(" })");
    output.append(name);
    output.append(": ");
    output.append(ts);
    output.append(";");
    assert(output@ =~= before + field_line(borsh_type@, name@, ts@));
}

/// The Borsh type of an array of fixed length.
fn fixed_array_text(borsh_ts: &str, length: u64) -> (text: String)
    ensures
        text@ == fixed_array_type(borsh_ts@, length),
{
    let mut text = "fixedArray(\"".to_owned();
    text.append(borsh_ts);
    text.append("\", ");
    text.append(decimal_text(length).as_str());
    text.append(")");
    text
}

/// A text between double quotes.
fn quoted(text: &str) -> (quoted: String)
    ensures
        quoted@ == "\""@ + text@ + "\""@,
{
    let mut quoted = "\"".to_owned();
    quoted.append(text);
    quoted.append("\"");
    quoted
}

/// Appends a member named `name` that holds `target`.
fn write_annotated(output: &mut String, target: &Target, name: &str)
    ensures
        final(output)@ == old(output)@ + annotated(target@, name@),
{
    proof {
        lemma_view_of_parts(*target);
    }
    match target {
        Target::Wellknowns(wellknown) => {
            let borsh_type = match wellknown.fixed_array {
                Some(length) => fixed_array_text(wellknown.borsh_ts.as_str(), length),
                None => {
                    if wellknown.option {
                        let mut text = "option(\"".to_owned();
                        text.append(wellknown.borsh_ts.as_str());
                        text.append("\")");
                        text
                    } else {
                        quoted(wellknown.borsh_ts.as_str())
                    }
                },
            };
            write_field_line(output, borsh_type.as_str(), name, wellknown.ts.as_str());
        },
        Target::String => {
            write_field_line(output, "'string'", name, "string");
        },
        Target::Class(class) => {
            write_field_line(output, class.ts_symbol.as_str(), name, class.ts_symbol.as_str());
        },
        Target::Transparent(shown, _) => {
            write_field_line(output, shown.as_str(), name, shown.as_str());
        },
        Target::Enum(enumeration) => {
            write_field_line(
                output,
                enumeration.ts_symbol.as_str(),
                name,
                enumeration.ts_symbol.as_str(),
            );
        },
    }
}

/// Appends one member of a class.
fn write_member(output: &mut String, field: &Field)
    ensures
        final(output)@ == old(output)@ + member(field@),
{
    write_annotated(output, &field.target, field.name.as_str());
}

/// Appends the opening of a class.
fn write_class_head(output: &mut String, name: &str)
    ensures
        final(output)@ == old(output)@ + class_head(name@),
{
    let ghost before = output@;
    output.append("export class ");
    output.append(name);
    output.append(" { ");
    assert(output@ =~= before + class_head(name@));
}

/// Appends the helper that builds an instance, and the end of the class.
fn write_class_tail(output: &mut String, name: &str)
    ensures
        final(output)@ == old(output)@ + class_tail(name@),
{
    let ghost before = output@;
    output.append("constructor(data: ");
    output.append(name);
    output.append(") {");
    output.append("Object.assign(this, data);");
    output.append("} }");
    assert(output@ =~= before + class_tail(name@));
}

/// Appends a class with its members.
fn write_class(output: &mut String, name: &str, class: &Class)
    ensures
        final(output)@ == old(output)@ + (class_head(name@) + members(class@.fields) + class_tail(
            name@,
        )),
{
    let ghost before = output@;
    let ghost all = fields_view(class.fields@);
    write_class_head(output, name);
    let ghost opened = output@;
    let mut i: usize = 0;
    assert(all.take(0) =~= Seq::empty());
    assert(output@ =~= opened + members(all.take(0)));
    while i < class.fields.len()
        invariant
            i <= class.fields.len(),
            all == fields_view(class.fields@),
            output@ == opened + members(all.take(i as int)),
        decreases class.fields.len() - i,
    {
        proof {
            assert(all.take(i + 1).drop_last() =~= all.take(i as int));
            assert(all.take(i + 1).last() == field_view(class.fields@[i as int]));
        }
        write_member(output, &class.fields[i]);
        assert(output@ =~= opened + members(all.take(i + 1)));
        i += 1;
    }
    assert(all.take(class.fields.len() as int) =~= all);
    write_class_tail(output, name);
    assert(output@ =~= before + (class_head(name@) + members(class@.fields) + class_tail(name@)));
}

/// The name of a variant's data without the name of the enum in it.
fn short_name_text(symbol: &str, name: &str) -> (short: String)
    ensures
        short@ == short_name(symbol@, name@),
{
    let prefix = strip_suffix(symbol, "Enum");
    if prefix.as_str().unicode_len() == 0 {
        name.to_owned()
    } else {
        replace(name, prefix.as_str(), "")
    }
}

/// Appends the class of one variant.
fn write_variant_class(output: &mut String, symbol: &str, variant: &Variant)
    ensures
        final(output)@ == old(output)@ + variant_class(symbol@, variant@),
{
    let ghost before = output@;
    output.append("@variant(");
    output.append(decimal_text(variant.discriminant as u64).as_str());
    output.append(")\n");
    output.append("export class ");
    output.append(variant.ts_symbol.as_str());
    output.append(" extends ");
    output.append(symbol);
    output.append(" {\n");
    let ghost opened = output@;
    match &variant.inner {
        Some(target) => {
            let short = short_name_text(symbol, target.ts_name().as_str());
            output.append("@field({type: \"");
            output.append(short.as_str());
            output.append("\" })\n");
            output.append("_0: ");
            output.append(short.as_str());
            output.append(";\n");
            assert(output@ =~= opened + variant_data(symbol@, variant@.inner));
        },
        None => {
            assert(output@ =~= opened + variant_data(symbol@, variant@.inner));
        },
    }
    output.append("}\n");
    assert(output@ =~= before + variant_class(symbol@, variant@));
}

/// Appends the parent class of an enum and the classes of its variants.
fn write_enum(output: &mut String, enumeration: &Enum)
    ensures
        final(output)@ == old(output)@ + ("@variant(["@ + discriminants(enumeration@.variants)
            + "])\n"@ + "export class "@ + enumeration@.ts_symbol + " { }\n"@ + variant_classes(
            enumeration@.ts_symbol,
            enumeration@.variants,
        )),
{
    let ghost before = output@;
    let ghost all = variants_view(enumeration.variants@);
    let ghost symbol = enumeration.ts_symbol@;
    output.append("@variant([");
    let ghost opened = output@;
    let mut i: usize = 0;
    assert(all.take(0) =~= Seq::empty());
    assert(output@ =~= opened + discriminants(all.take(0)));
    while i < enumeration.variants.len()
        invariant
            i <= enumeration.variants.len(),
            all == variants_view(enumeration.variants@),
            output@ == opened + discriminants(all.take(i as int)),
        decreases enumeration.variants.len() - i,
    {
        proof {
            assert(all.take(i + 1).drop_last() =~= all.take(i as int));
            assert(all.take(i + 1).last() == variant_view(enumeration.variants@[i as int]));
        }
        output.append(decimal_text(enumeration.variants[i].discriminant as u64).as_str());
        output.append(",");
        assert(output@ =~= opened + discriminants(all.take(i + 1)));
        i += 1;
    }
    assert(all.take(enumeration.variants.len() as int) =~= all);
    output.append("])\n");
    output.append("export class ");
    output.append(enumeration.ts_symbol.as_str());
    output.append(" { }\n");
    let ghost declared = output@;
    let mut i: usize = 0;
    assert(output@ =~= declared + variant_classes(symbol, all.take(0)));
    while i < enumeration.variants.len()
        invariant
            i <= enumeration.variants.len(),
            all == variants_view(enumeration.variants@),
            symbol == enumeration.ts_symbol@,
            output@ == declared + variant_classes(symbol, all.take(i as int)),
        decreases enumeration.variants.len() - i,
    {
        proof {
            assert(all.take(i + 1).drop_last() =~= all.take(i as int));
            assert(all.take(i + 1).last() == variant_view(enumeration.variants@[i as int]));
        }
        write_variant_class(output, enumeration.ts_symbol.as_str(), &enumeration.variants[i]);
        assert(output@ =~= declared + variant_classes(symbol, all.take(i + 1)));
        i += 1;
    }
    assert(output@ =~= before + ("@variant(["@ + discriminants(all) + "])\n"@ + "export class "@
        + symbol + " { }\n"@ + variant_classes(symbol, all)));
}

/// Appends what one entry of the table contributes.
fn write_block(output: &mut String, name: &str, body: &Target) -> (done: Result<(), Error>)
    ensures
        match done {
            Ok(_) => block((name@, body@)) == Ok::<_, Error>(
                final(output)@.skip(old(output)@.len() as int),
            ) && final(output)@ == old(output)@ + block((name@, body@))->Ok_0,
            Err(error) => block((name@, body@)) == Err::<Seq<char>, _>(error),
        },
{
    let ghost before = output@;
    proof {
        lemma_view_of_parts(*body);
    }
    match body {
        Target::Wellknowns(_) => {
            assert(output@ =~= before + Seq::<char>::empty());
        },
        Target::String => {
            assert(output@ =~= before + Seq::<char>::empty());
        },
        Target::Class(class) => {
            write_class(output, name, class);
        },
        Target::Transparent(_, inner) => {
            match &**inner {
                Target::Transparent(_, _) => {
                    assert((**inner)@ is Transparent);
                    return Err(Error::E0001);
                },
                wrapped => {
                    assert(!(wrapped@ is Transparent)) by {
                        lemma_view_of_parts(*wrapped);
                    }
                    write_class_head(output, name);
                    write_annotated(output, wrapped, "_0");
                    write_class_tail(output, name);
                    assert(output@ =~= before + (class_head(name@) + annotated(wrapped@, "_0"@)
                        + class_tail(name@)));
                },
            }
        },
        Target::Enum(enumeration) => {
            write_enum(output, enumeration);
        },
    }
    assert(output@.skip(before.len() as int) =~= block((name@, body@))->Ok_0);
    Ok(())
}

/// Renders the table as TypeScript source. The targets of the roots are not needed: the
/// table holds them.
pub fn generate_ts(_ts_root: Vec<Target>, generates: OrderMap<String, Target>) -> (source: Result<
    String,
    Error,
>)
    ensures
        match source {
            Ok(text) => rendered(entries(generates)) == Ok::<_, Error>(text@),
            Err(error) => rendered(entries(generates)) == Err::<Seq<char>, _>(error),
        },
{
    let ghost all = entries(generates);
    let pairs = into_pairs(generates);
    let mut output = IMPORTS.to_owned();
    let mut i: usize = 0;
    assert(all.take(0) =~= Seq::empty());
    while i < pairs.len()
        invariant
            i <= pairs.len(),
            all == entries(generates),
            pairs@.len() == all.len(),
            forall|j: int|
                0 <= j < pairs@.len() ==> (#[trigger] pairs@[j]).0@ == all[j].0 && pairs@[j].1@
                    == all[j].1,
            rendered(all.take(i as int)) == Ok::<_, Error>(output@),
        decreases pairs.len() - i,
    {
        proof {
            assert(all.take(i + 1).drop_last() =~= all.take(i as int));
            assert(all.take(i + 1).last() == all[i as int]);
            assert(all[i as int] == (pairs@[i as int].0@, pairs@[i as int].1@));
        }
        match write_block(&mut output, pairs[i].0.as_str(), &pairs[i].1) {
            Ok(_) => {},
            Err(error) => {
                proof {
                    lemma_refusal_stays(all, i + 1);
                }
                return Err(error);
            },
        }
        i += 1;
    }
    assert(all.take(pairs.len() as int) =~= all);
    Ok(output)
}

} // verus!

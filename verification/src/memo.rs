//! What the table guarantees across resolutions: a declaration is stored at most once, and
//! asking for it again changes nothing.
use crate::builder::idle;
use crate::builder::lemma_idle_decreases;
use crate::builder::resolved;
use crate::builder::resolved_definition;
use crate::builder::resolved_fields;
use crate::builder::resolved_variants;
use crate::builder::spec_build_roots;
use crate::builder::spec_option_of;
use crate::builder::spec_primitive;
use crate::builder::stored;
use crate::builder::Parent;
use crate::errors::Failure;
use crate::schema::defined;
use crate::schema::DefinitionView;
use crate::schema::FieldsView;
use crate::table::lemma_lookup_has_key;
use crate::table::lookup;
use crate::table::without;
use crate::table::Entry;
use crate::text::angles;
use crate::ts::TargetView;
use vstd::prelude::*;

verus! {

/// An entry at the end answers for its own key and hides no other.
pub proof fn lemma_lookup_push(
    entries: Seq<Entry>,
    key: Seq<char>,
    value: TargetView,
    other: Seq<char>,
)
    ensures
        lookup(entries.push((key, value)), other) == if key == other {
            Some(value)
        } else {
            lookup(entries, other)
        },
{
    assert(entries.push((key, value)).drop_last() =~= entries);
}

/// Taking a key out leaves nothing under it and every other key as it was.
pub proof fn lemma_lookup_without(entries: Seq<Entry>, key: Seq<char>, other: Seq<char>)
    ensures
        lookup(without(entries, key), other) == if key == other {
            None
        } else {
            lookup(entries, other)
        },
    decreases entries.len(),
{
    if entries.len() > 0 {
        lemma_lookup_without(entries.drop_last(), key, other);
        if entries.last().0 != key {
            lemma_lookup_push(
                without(entries.drop_last(), key),
                entries.last().0,
                entries.last().1,
                other,
            );
        }
    }
}

/// Storing under one key changes no other key, and succeeds where the key is new.
pub proof fn lemma_stored(
    table: Seq<Entry>,
    declaration: Seq<char>,
    target: TargetView,
    other: Seq<char>,
)
    ensures
        declaration != other ==> lookup(stored(table, declaration, target).1, other) == lookup(
            table,
            other,
        ),
        lookup(table, declaration) is None ==> stored(table, declaration, target) == (
            Ok::<TargetView, Failure>(target),
            table.push((declaration, target)),
        ),
        stored(table, declaration, target).0 is Ok ==> lookup(
            stored(table, declaration, target).1,
            declaration,
        ) == Some(target),
{
    lemma_lookup_has_key(table, declaration);
    lemma_lookup_push(table, declaration, target, other);
    lemma_lookup_push(table, declaration, target, declaration);
}

proof fn lemma_push_contains(busy: Seq<Seq<char>>, declaration: Seq<char>, other: Seq<char>)
    ensures
        busy.push(declaration).contains(declaration),
        busy.contains(other) ==> busy.push(declaration).contains(other),
{
    assert(busy.push(declaration)[busy.len() as int] == declaration);
    if busy.contains(other) {
        let i = choose|i: int| 0 <= i < busy.len() && busy[i] == other;
        assert(busy.push(declaration)[i] == other);
    }
}

/// A declaration that is being resolved does not enter the table before it is done.
pub proof fn lemma_busy_stays_out(
    definitions: Seq<(Seq<char>, DefinitionView)>,
    table: Seq<Entry>,
    busy: Seq<Seq<char>>,
    declaration: Seq<char>,
    parent: Parent,
    waiting: Seq<char>,
)
    requires
        busy.contains(waiting),
        lookup(table, waiting) is None,
    ensures
        lookup(resolved(definitions, table, busy, declaration, parent).1, waiting) is None,
    decreases idle(definitions, busy), 0nat, angles(declaration),
{
    let deeper = busy.push(declaration);
    lemma_push_contains(busy, declaration, waiting);
    lemma_idle_decreases(definitions, busy, declaration);
    if lookup(table, declaration) is Some {
    } else if busy.contains(declaration) {
    } else if spec_primitive(declaration) is Some {
        lemma_stored(
            table,
            declaration,
            TargetView::Wellknowns(spec_primitive(declaration)->0),
            waiting,
        );
    } else if spec_option_of(declaration) is Some {
        let parameter = spec_option_of(declaration)->0;
        let inner = resolved(definitions, table, deeper, parameter, Parent::Irrelevant);
        lemma_busy_stays_out(
            definitions,
            table,
            deeper,
            parameter,
            Parent::Irrelevant,
            waiting,
        );
        if inner.0 is Ok {
            lemma_stored(
                inner.1,
                declaration,
                resolved(definitions, table, busy, declaration, parent).0->Ok_0,
                waiting,
            );
        }
    } else {
        match defined(definitions, declaration) {
            None => {},
            Some(definition) => {
                lemma_definition_busy_stays_out(
                    definitions,
                    table,
                    deeper,
                    declaration,
                    definition,
                    parent,
                    waiting,
                );
            },
        }
    }
}

/// The same for a declaration that goes by its definition.
pub proof fn lemma_definition_busy_stays_out(
    definitions: Seq<(Seq<char>, DefinitionView)>,
    table: Seq<Entry>,
    busy: Seq<Seq<char>>,
    declaration: Seq<char>,
    definition: DefinitionView,
    parent: Parent,
    waiting: Seq<char>,
)
    requires
        busy.contains(waiting),
        waiting != declaration,
        lookup(table, waiting) is None,
    ensures
        lookup(
            resolved_definition(definitions, table, busy, declaration, definition, parent).1,
            waiting,
        ) is None,
    decreases idle(definitions, busy), 2nat, 0nat,
{
    let outcome = resolved_definition(definitions, table, busy, declaration, definition, parent);
    match definition {
        DefinitionView::Primitive(_) => {},
        DefinitionView::Sequence { length_width, length_range, elements } => {
            if length_width == 0 {
                lemma_busy_stays_out(
                    definitions,
                    table,
                    busy,
                    elements,
                    Parent::Irrelevant,
                    waiting,
                );
            }
        },
        DefinitionView::Tuple { elements } => {},
        DefinitionView::Enum { tag_width, variants } => {
            if tag_width == 1 {
                let done = resolved_variants(definitions, table, busy, variants);
                lemma_variants_busy_stays_out(definitions, table, busy, variants, waiting);
                if done.0 is Ok {
                    lemma_stored(done.1, declaration, outcome.0->Ok_0, waiting);
                }
            }
        },
        DefinitionView::Struct { fields: FieldsView::NamedFields(fields) } => {
            let done = resolved_fields(definitions, table, busy, fields);
            lemma_fields_busy_stays_out(definitions, table, busy, fields, waiting);
            if done.0 is Ok {
                lemma_stored(done.1, declaration, outcome.0->Ok_0, waiting);
            }
        },
        DefinitionView::Struct { fields: FieldsView::UnnamedFields(fields) } => {
            if fields.len() == 1 {
                let inner = resolved(definitions, table, busy, fields[0], parent);
                lemma_busy_stays_out(definitions, table, busy, fields[0], parent, waiting);
                if inner.0 is Ok {
                    lemma_stored(inner.1, declaration, outcome.0->Ok_0, waiting);
                }
            }
        },
        DefinitionView::Struct { fields: FieldsView::Empty } => {},
    }
}

/// The same for the variants of an enum.
pub proof fn lemma_variants_busy_stays_out(
    definitions: Seq<(Seq<char>, DefinitionView)>,
    table: Seq<Entry>,
    busy: Seq<Seq<char>>,
    variants: Seq<(i64, Seq<char>, Seq<char>)>,
    waiting: Seq<char>,
)
    requires
        busy.contains(waiting),
        lookup(table, waiting) is None,
    ensures
        lookup(resolved_variants(definitions, table, busy, variants).1, waiting) is None,
    decreases idle(definitions, busy), 1nat, variants.len(),
{
    if variants.len() > 0 {
        let before = resolved_variants(definitions, table, busy, variants.drop_last());
        lemma_variants_busy_stays_out(definitions, table, busy, variants.drop_last(), waiting);
        if before.0 is Ok {
            let data = variants.last().2;
            let inner = resolved(definitions, before.1, busy, data, Parent::Enum);
            lemma_busy_stays_out(
                definitions,
                before.1,
                busy,
                data,
                Parent::Enum,
                waiting,
            );
            lemma_lookup_without(inner.1, data, waiting);
        }
    }
}

/// The same for the fields of a struct.
pub proof fn lemma_fields_busy_stays_out(
    definitions: Seq<(Seq<char>, DefinitionView)>,
    table: Seq<Entry>,
    busy: Seq<Seq<char>>,
    fields: Seq<(Seq<char>, Seq<char>)>,
    waiting: Seq<char>,
)
    requires
        busy.contains(waiting),
        lookup(table, waiting) is None,
    ensures
        lookup(resolved_fields(definitions, table, busy, fields).1, waiting) is None,
    decreases idle(definitions, busy), 1nat, fields.len(),
{
    if fields.len() > 0 {
        let before = resolved_fields(definitions, table, busy, fields.drop_last());
        lemma_fields_busy_stays_out(definitions, table, busy, fields.drop_last(), waiting);
        if before.0 is Ok {
            lemma_busy_stays_out(
                definitions,
                before.1,
                busy,
                fields.last().1,
                Parent::Struct,
                waiting,
            );
        }
    }
}

/// Resolving never tries to store a declaration that the table holds.
pub proof fn lemma_never_duplicate(
    definitions: Seq<(Seq<char>, DefinitionView)>,
    table: Seq<Entry>,
    busy: Seq<Seq<char>>,
    declaration: Seq<char>,
    parent: Parent,
)
    ensures
        !(resolved(definitions, table, busy, declaration, parent).0 matches Err(
            Failure::Duplicate,
        )),
    decreases idle(definitions, busy), 0nat, angles(declaration),
{
    let deeper = busy.push(declaration);
    lemma_push_contains(busy, declaration, declaration);
    lemma_idle_decreases(definitions, busy, declaration);
    if lookup(table, declaration) is Some {
    } else if busy.contains(declaration) {
    } else if spec_primitive(declaration) is Some {
        lemma_stored(
            table,
            declaration,
            TargetView::Wellknowns(spec_primitive(declaration)->0),
            declaration,
        );
    } else if spec_option_of(declaration) is Some {
        let parameter = spec_option_of(declaration)->0;
        let inner = resolved(definitions, table, deeper, parameter, Parent::Irrelevant);
        lemma_never_duplicate(definitions, table, deeper, parameter, Parent::Irrelevant);
        lemma_busy_stays_out(
            definitions,
            table,
            deeper,
            parameter,
            Parent::Irrelevant,
            declaration,
        );
        lemma_lookup_has_key(inner.1, declaration);
    } else {
        match defined(definitions, declaration) {
            None => {},
            Some(definition) => {
                lemma_definition_never_duplicate(
                    definitions,
                    table,
                    deeper,
                    declaration,
                    definition,
                    parent,
                );
            },
        }
    }
}

/// The same for a declaration that goes by its definition.
pub proof fn lemma_definition_never_duplicate(
    definitions: Seq<(Seq<char>, DefinitionView)>,
    table: Seq<Entry>,
    busy: Seq<Seq<char>>,
    declaration: Seq<char>,
    definition: DefinitionView,
    parent: Parent,
)
    requires
        busy.contains(declaration),
        lookup(table, declaration) is None,
    ensures
        !(resolved_definition(definitions, table, busy, declaration, definition, parent).0 matches Err(
            Failure::Duplicate,
        )),
    decreases idle(definitions, busy), 2nat, 0nat,
{
    match definition {
        DefinitionView::Primitive(_) => {},
        DefinitionView::Sequence { length_width, length_range, elements } => {
            if length_width == 0 {
                lemma_never_duplicate(
                    definitions,
                    table,
                    busy,
                    elements,
                    Parent::Irrelevant,
                );
            }
        },
        DefinitionView::Tuple { elements } => {},
        DefinitionView::Enum { tag_width, variants } => {
            if tag_width == 1 {
                let done = resolved_variants(definitions, table, busy, variants);
                lemma_variants_never_duplicate(definitions, table, busy, variants);
                lemma_variants_busy_stays_out(definitions, table, busy, variants, declaration);
                lemma_lookup_has_key(done.1, declaration);
            }
        },
        DefinitionView::Struct { fields: FieldsView::NamedFields(fields) } => {
            let done = resolved_fields(definitions, table, busy, fields);
            lemma_fields_never_duplicate(definitions, table, busy, fields);
            lemma_fields_busy_stays_out(definitions, table, busy, fields, declaration);
            lemma_lookup_has_key(done.1, declaration);
        },
        DefinitionView::Struct { fields: FieldsView::UnnamedFields(fields) } => {
            if fields.len() == 1 {
                let inner = resolved(definitions, table, busy, fields[0], parent);
                lemma_never_duplicate(definitions, table, busy, fields[0], parent);
                lemma_busy_stays_out(
                    definitions,
                    table,
                    busy,
                    fields[0],
                    parent,
                    declaration,
                );
                lemma_lookup_has_key(inner.1, declaration);
            }
        },
        DefinitionView::Struct { fields: FieldsView::Empty } => {},
    }
}

/// The same for the variants of an enum.
pub proof fn lemma_variants_never_duplicate(
    definitions: Seq<(Seq<char>, DefinitionView)>,
    table: Seq<Entry>,
    busy: Seq<Seq<char>>,
    variants: Seq<(i64, Seq<char>, Seq<char>)>,
)
    ensures
        !(resolved_variants(definitions, table, busy, variants).0 matches Err(Failure::Duplicate)),
    decreases idle(definitions, busy), 1nat, variants.len(),
{
    if variants.len() > 0 {
        let before = resolved_variants(definitions, table, busy, variants.drop_last());
        lemma_variants_never_duplicate(definitions, table, busy, variants.drop_last());
        if before.0 is Ok {
            lemma_never_duplicate(
                definitions,
                before.1,
                busy,
                variants.last().2,
                Parent::Enum,
            );
        }
    }
}

/// The same for the fields of a struct.
pub proof fn lemma_fields_never_duplicate(
    definitions: Seq<(Seq<char>, DefinitionView)>,
    table: Seq<Entry>,
    busy: Seq<Seq<char>>,
    fields: Seq<(Seq<char>, Seq<char>)>,
)
    ensures
        !(resolved_fields(definitions, table, busy, fields).0 matches Err(Failure::Duplicate)),
    decreases idle(definitions, busy), 1nat, fields.len(),
{
    if fields.len() > 0 {
        let before = resolved_fields(definitions, table, busy, fields.drop_last());
        lemma_fields_never_duplicate(definitions, table, busy, fields.drop_last());
        if before.0 is Ok {
            lemma_never_duplicate(
                definitions,
                before.1,
                busy,
                fields.last().1,
                Parent::Struct,
            );
        }
    }
}

/// A declaration that was resolved resolves to the same target when it is asked for again,
/// wherever it is met the second time, and the table stays as the first time left it.
pub proof fn lemma_resolved_again(
    definitions: Seq<(Seq<char>, DefinitionView)>,
    table: Seq<Entry>,
    busy: Seq<Seq<char>>,
    declaration: Seq<char>,
    first_parent: Parent,
    second_parent: Parent,
)
    ensures
        ({
            let first = resolved(definitions, table, busy, declaration, first_parent);
            first.0 is Ok ==> resolved(
                definitions,
                first.1,
                busy,
                declaration,
                second_parent,
            ) == first
        }),
    decreases idle(definitions, busy),
{
    reveal_with_fuel(resolved, 2);
    reveal_with_fuel(resolved_definition, 2);
    let first = resolved(definitions, table, busy, declaration, first_parent);
    let deeper = busy.push(declaration);
    lemma_push_contains(busy, declaration, declaration);
    lemma_idle_decreases(definitions, busy, declaration);
    if first.0 is Err {
    } else if lookup(table, declaration) is Some {
    } else if busy.contains(declaration) {
    } else if spec_primitive(declaration) is Some {
        lemma_stored(table, declaration, first.0->Ok_0, declaration);
    } else if spec_option_of(declaration) is Some {
        let parameter = spec_option_of(declaration)->0;
        let inner = resolved(definitions, table, deeper, parameter, Parent::Irrelevant);
        lemma_stored(inner.1, declaration, first.0->Ok_0, declaration);
    } else {
        match defined(definitions, declaration) {
            None => {},
            Some(DefinitionView::Sequence { length_width, length_range, elements }) => {
                if length_width == 0 {
                    let element = resolved(
                        definitions,
                        table,
                        deeper,
                        elements,
                        Parent::Irrelevant,
                    );
                    lemma_busy_stays_out(
                        definitions,
                        table,
                        deeper,
                        elements,
                        Parent::Irrelevant,
                        declaration,
                    );
                    lemma_resolved_again(
                        definitions,
                        table,
                        deeper,
                        elements,
                        Parent::Irrelevant,
                        Parent::Irrelevant,
                    );
                }
            },
            Some(DefinitionView::Enum { tag_width, variants }) => {
                let done = resolved_variants(definitions, table, deeper, variants);
                lemma_stored(done.1, declaration, first.0->Ok_0, declaration);
            },
            Some(DefinitionView::Struct { fields: FieldsView::NamedFields(fields) }) => {
                let done = resolved_fields(definitions, table, deeper, fields);
                lemma_stored(done.1, declaration, first.0->Ok_0, declaration);
            },
            Some(DefinitionView::Struct { fields: FieldsView::UnnamedFields(fields) }) => {
                let inner = resolved(definitions, table, deeper, fields[0], first_parent);
                lemma_stored(inner.1, declaration, first.0->Ok_0, declaration);
            },
            Some(_) => {},
        }
    }
}

/// Resolving the same declaration twice gives the same target both times, and the second
/// time stores nothing: the table is as the first time left it.
pub proof fn lemma_build_roots_again(
    definitions: Seq<(Seq<char>, DefinitionView)>,
    table: Seq<Entry>,
    declaration: Seq<char>,
    first_parent: Parent,
    second_parent: Parent,
)
    ensures
        ({
            let first = spec_build_roots(definitions, table, declaration, first_parent);
            first.0 is Ok ==> spec_build_roots(definitions, first.1, declaration, second_parent)
                == first
        }),
{
    lemma_resolved_again(
        definitions,
        table,
        Seq::empty(),
        declaration,
        first_parent,
        second_parent,
    );
}

/// Resolving a declaration never runs into an entry of its own making: whatever the schema
/// and the table, it does not fail for a duplicate.
pub proof fn lemma_build_roots_never_duplicate(
    definitions: Seq<(Seq<char>, DefinitionView)>,
    table: Seq<Entry>,
    declaration: Seq<char>,
    parent: Parent,
)
    ensures
        !(spec_build_roots(definitions, table, declaration, parent).0 matches Err(
            Failure::Duplicate,
        )),
{
    lemma_never_duplicate(definitions, table, Seq::empty(), declaration, parent);
}

/// Whether a variant carries data: its declaration is defined, and not as an empty struct.
pub open spec fn carries_data(
    definitions: Seq<(Seq<char>, DefinitionView)>,
    data: Seq<char>,
) -> bool {
    match defined(definitions, data) {
        None => false,
        Some(DefinitionView::Struct { fields: FieldsView::Empty }) => false,
        Some(_) => true,
    }
}

/// The variants of a resolved enum stand in the order of the schema. Each goes by the name
/// of its variant followed by `Variant` and by the low byte of its discriminant, and holds a
/// target exactly where the variant carries data.
pub proof fn lemma_variants_in_order(
    definitions: Seq<(Seq<char>, DefinitionView)>,
    table: Seq<Entry>,
    busy: Seq<Seq<char>>,
    variants: Seq<(i64, Seq<char>, Seq<char>)>,
)
    requires
        resolved_variants(definitions, table, busy, variants).0 is Ok,
    ensures
        ({
            let list = resolved_variants(definitions, table, busy, variants).0->Ok_0;
            &&& list.len() == variants.len()
            &&& forall|i: int|
                0 <= i < variants.len() ==> {
                    &&& (#[trigger] list[i]).ts_symbol == variants[i].1 + "Variant"@
                    &&& list[i].discriminant == variants[i].0 as u8
                    &&& (list[i].inner is Some <==> carries_data(definitions, variants[i].2))
                }
        }),
    decreases variants.len(),
{
    if variants.len() > 0 {
        lemma_variants_in_order(definitions, table, busy, variants.drop_last());
    }
}

/// Once a variant that carries data is resolved, the table holds no entry under the
/// declaration of that data, whether it held one before or not. This is said of the table as
/// it stands right after the variant: a later variant may store the declaration again.
pub proof fn lemma_variant_data_leaves(
    definitions: Seq<(Seq<char>, DefinitionView)>,
    table: Seq<Entry>,
    busy: Seq<Seq<char>>,
    variants: Seq<(i64, Seq<char>, Seq<char>)>,
    index: int,
)
    requires
        0 <= index < variants.len(),
        carries_data(definitions, variants[index].2),
        resolved_variants(definitions, table, busy, variants.take(index + 1)).0 is Ok,
    ensures
        lookup(
            resolved_variants(definitions, table, busy, variants.take(index + 1)).1,
            variants[index].2,
        ) is None,
{
    let upto = variants.take(index + 1);
    let data = variants[index].2;
    assert(upto.last() == variants[index]);
    let before = resolved_variants(definitions, table, busy, upto.drop_last());
    let inner = resolved(definitions, before.1, busy, data, Parent::Enum);
    lemma_lookup_without(inner.1, data, data);
}

/// After an enum is resolved by its definition, the table holds no entry under the
/// declaration of its last variant's data, whether it held one before or not. The enum
/// itself carries that data's target in the variant.
pub proof fn lemma_last_variant_data_leaves(
    definitions: Seq<(Seq<char>, DefinitionView)>,
    table: Seq<Entry>,
    declaration: Seq<char>,
    parent: Parent,
    tag_width: u8,
    variants: Seq<(i64, Seq<char>, Seq<char>)>,
)
    requires
        lookup(table, declaration) is None,
        spec_primitive(declaration) is None,
        spec_option_of(declaration) is None,
        defined(definitions, declaration) == Some(DefinitionView::Enum { tag_width, variants }),
        variants.len() > 0,
        carries_data(definitions, variants.last().2),
        spec_build_roots(definitions, table, declaration, parent).0 is Ok,
    ensures
        lookup(spec_build_roots(definitions, table, declaration, parent).1, variants.last().2)
            is None,
{
    reveal_with_fuel(resolved, 2);
    reveal_with_fuel(resolved_definition, 2);
    let busy = Seq::<Seq<char>>::empty().push(declaration);
    let data = variants.last().2;
    lemma_push_contains(Seq::empty(), declaration, declaration);
    let done = resolved_variants(definitions, table, busy, variants);
    let before = resolved_variants(definitions, table, busy, variants.drop_last());
    assert(variants.take(variants.len() as int) =~= variants);
    lemma_variant_data_leaves(definitions, table, busy, variants, variants.len() - 1);
    lemma_variants_busy_stays_out(definitions, table, busy, variants.drop_last(), declaration);
    let outcome = spec_build_roots(definitions, table, declaration, parent);
    assert(outcome == resolved_definition(
        definitions,
        table,
        busy,
        declaration,
        DefinitionView::Enum { tag_width, variants },
        parent,
    ));
    assert(tag_width == 1 && done.0 is Ok);
    if data == declaration {
        let inner = resolved(definitions, before.1, busy, data, Parent::Enum);
        assert(inner.0 is Err);
        assert(false);
    }
    lemma_stored(
        done.1,
        declaration,
        spec_build_roots(definitions, table, declaration, parent).0->Ok_0,
        data,
    );
}

/// An enum that is resolved by its definition becomes the parent class `<declaration>Enum`
/// with one variant for each of the schema's, in the schema's order: each under the name of
/// its variant followed by `Variant`, with the low byte of its discriminant, and with a
/// target exactly where it carries data.
pub proof fn lemma_enum_in_order(
    definitions: Seq<(Seq<char>, DefinitionView)>,
    table: Seq<Entry>,
    declaration: Seq<char>,
    parent: Parent,
    tag_width: u8,
    variants: Seq<(i64, Seq<char>, Seq<char>)>,
)
    requires
        lookup(table, declaration) is None,
        spec_primitive(declaration) is None,
        spec_option_of(declaration) is None,
        defined(definitions, declaration) == Some(DefinitionView::Enum { tag_width, variants }),
        spec_build_roots(definitions, table, declaration, parent).0 is Ok,
    ensures
        spec_build_roots(definitions, table, declaration, parent).0->Ok_0 is Enum,
        ({
            let union = spec_build_roots(definitions, table, declaration, parent).0->Ok_0->Enum_0;
            &&& union.ts_symbol == declaration + "Enum"@
            &&& union.variants.len() == variants.len()
            &&& forall|i: int|
                0 <= i < variants.len() ==> {
                    &&& (#[trigger] union.variants[i]).ts_symbol == variants[i].1 + "Variant"@
                    &&& union.variants[i].discriminant == variants[i].0 as u8
                    &&& (union.variants[i].inner is Some <==> carries_data(
                        definitions,
                        variants[i].2,
                    ))
                }
        }),
{
    reveal_with_fuel(resolved, 2);
    reveal_with_fuel(resolved_definition, 2);
    let busy = Seq::<Seq<char>>::empty().push(declaration);
    let done = resolved_variants(definitions, table, busy, variants);
    let outcome = spec_build_roots(definitions, table, declaration, parent);
    assert(outcome == resolved_definition(
        definitions,
        table,
        busy,
        declaration,
        DefinitionView::Enum { tag_width, variants },
        parent,
    ));
    assert(tag_width == 1 && done.0 is Ok);
    lemma_variants_in_order(definitions, table, busy, variants);
}

} // verus!

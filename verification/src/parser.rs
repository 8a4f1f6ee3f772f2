//! Recognises a declaration of the shape `Option<T>`. The text is read by a parser of Rust
//! syntax, so that no shape is guessed from its characters.
use crate::schema::texts;
use crate::text::same_text;
use syn::GenericArgument;
use syn::Path;
use syn::PathArguments;
use syn::Type;
use vstd::prelude::*;

verus! {

/// `syn::Path`, carried as a type whose inside the verifier does not see.
#[verifier::external_type_specification]
#[verifier::external_body]
pub struct ExPath(syn::Path);

/// One generic argument of a path's segment.
#[derive(Debug)]
pub enum Argument {
    /// A type that is a path, by its segments.
    Path(Vec<Segment>),
    /// Any other type: a tuple, an array, a reference.
    OtherType,
    /// No type: a lifetime, a constant, a binding.
    NotAType,
}

/// One segment of a path: its identifier, and its arguments where it has some in angle
/// brackets.
#[derive(Debug)]
pub struct Segment {
    pub ident: String,
    pub arguments: Option<Vec<Argument>>,
}

/// `Argument` as a mathematical value.
pub enum ArgumentView {
    Path(Seq<SegmentView>),
    OtherType,
    NotAType,
}

/// `Segment` as a mathematical value.
pub struct SegmentView {
    pub ident: Seq<char>,
    pub arguments: Option<Seq<ArgumentView>>,
}

/// An argument as a mathematical value.
pub open spec fn argument_view(argument: Argument) -> ArgumentView
    decreases argument,
{
    match argument {
        Argument::Path(segments) => ArgumentView::Path(
            Seq::new(
                segments@.len(),
                |i: int|
                    if 0 <= i < segments@.len() {
                        segment_view(segments@[i])
                    } else {
                        arbitrary()
                    },
            ),
        ),
        Argument::OtherType => ArgumentView::OtherType,
        Argument::NotAType => ArgumentView::NotAType,
    }
}

/// A segment as a mathematical value.
pub open spec fn segment_view(segment: Segment) -> SegmentView
    decreases segment,
{
    SegmentView {
        ident: segment.ident@,
        arguments: match segment.arguments {
            Some(list) => Some(
                Seq::new(
                    list@.len(),
                    |i: int|
                        if 0 <= i < list@.len() {
                            argument_view(list@[i])
                        } else {
                            arbitrary()
                        },
                ),
            ),
            None => None,
        },
    }
}

impl View for Argument {
    type V = ArgumentView;

    open spec fn view(&self) -> ArgumentView {
        argument_view(*self)
    }
}

impl View for Segment {
    type V = SegmentView;

    open spec fn view(&self) -> SegmentView {
        segment_view(*self)
    }
}

/// The segments of a path as mathematical values, in their order.
pub open spec fn segments_view(segments: Seq<Segment>) -> Seq<SegmentView> {
    Seq::new(segments.len(), |i: int| segment_view(segments[i]))
}

/// The arguments of a segment as mathematical values, in their order.
pub open spec fn arguments_view(arguments: Seq<Argument>) -> Seq<ArgumentView> {
    Seq::new(arguments.len(), |i: int| argument_view(arguments[i]))
}

/// The view of a path is made of the views of its segments.
pub proof fn lemma_view_of_path(argument: Argument)
    ensures
        argument matches Argument::Path(segments) ==> argument@ == ArgumentView::Path(
            segments_view(segments@),
        ),
{
    match argument {
        Argument::Path(segments) => {
            assert(argument@->Path_0 =~= segments_view(segments@));
        },
        _ => {},
    }
}

/// The view of a segment is made of the views of its arguments.
pub proof fn lemma_view_of_segment(segment: Segment)
    ensures
        segment@.ident == segment.ident@,
        segment.arguments matches Some(list) ==> segment@.arguments == Some(
            arguments_view(list@),
        ),
        segment.arguments is None ==> segment@.arguments is None,
{
    match segment.arguments {
        Some(list) => {
            assert(segment@.arguments->0 =~= arguments_view(list@));
        },
        None => {},
    }
}

/// What the parser makes of `text` as a Rust type: the parser's message where `text` is no
/// type; `None` where the type is no path; else the path's segments, each with its
/// identifier and its arguments, as they stand in the text.
pub uninterp spec fn parsed_type(text: Seq<char>) -> Result<Option<Seq<SegmentView>>, Seq<char>>;

/// What a `syn::Path` holds: its segments in their order, each with its identifier and,
/// where its arguments stand in angle brackets, every argument by its kind.
pub uninterp spec fn segments_of(path: Path) -> Seq<SegmentView>;

/// `syn::parse_str` for a `syn::Type`: the path of the type where it is one, `None` where
/// it is another type, and the parser's message where the text is no type.
#[verifier::external_body]
fn parse_path(text: &str) -> (found: Result<Option<Path>, String>)
    ensures
        match found {
            Ok(Some(path)) => parsed_type(text@) == Ok::<_, Seq<char>>(Some(segments_of(path))),
            Ok(None) => parsed_type(text@) == Ok::<Option<Seq<SegmentView>>, Seq<char>>(None),
            Err(message) => parsed_type(text@) == Err::<Option<Seq<SegmentView>>, _>(message@),
        },
{
    match syn::parse_str(text) {
        Ok(Type::Path(found)) => Ok(Some(found.path)),
        Ok(_) => Ok(None),
        Err(error) => Err(error.to_string()),
    }
}

/// The fields of a `syn::Path`, handed over one for one: every segment with its identifier
/// and, where its arguments stand in angle brackets, every argument by its kind; a path
/// among the arguments in the same way.
#[verifier::external_body]
fn path_segments(path: &Path) -> (segments: Vec<Segment>)
    ensures
        segments_view(segments@) == segments_of(*path),
{
    path.segments.iter().map(|part| Segment {
        ident: part.ident.to_string(),
        arguments: match &part.arguments {
            PathArguments::AngleBracketed(list) => Some(list.args.iter().map(|argument| match argument {
                GenericArgument::Type(Type::Path(inner)) => Argument::Path(path_segments(&inner.path)),
                GenericArgument::Type(_) => Argument::OtherType,
                _ => Argument::NotAType,
            }).collect()),
            _ => None,
        },
    }).collect()
}

/// The pieces with `separator` between each two of them.
pub open spec fn joined(pieces: Seq<Seq<char>>, separator: Seq<char>) -> Seq<char>
    decreases pieces.len(),
{
    if pieces.len() == 0 {
        Seq::empty()
    } else if pieces.len() == 1 {
        pieces[0]
    } else {
        joined(pieces.drop_last(), separator) + separator + pieces.last()
    }
}

/// Joins the pieces with `separator` between each two of them.
pub fn join(pieces: &Vec<String>, separator: &str) -> (text: String)
    ensures
        text@ == joined(texts(pieces@), separator@),
{
    let mut text = String::new();
    let mut i: usize = 0;
    while i < pieces.len()
        invariant
            i <= pieces.len(),
            text@ == joined(texts(pieces@).take(i as int), separator@),
        decreases pieces.len() - i,
    {
        proof {
            let before = texts(pieces@).take(i as int);
            let after = texts(pieces@).take(i + 1);
            assert(after.drop_last() =~= before);
            assert(after.last() == pieces@[i as int]@);
            assert(Seq::<char>::empty() + pieces@[i as int]@ =~= pieces@[i as int]@);
        }
        if i > 0 {
            text.append(separator);
        }
        text.append(pieces[i].as_str());
        i += 1;
    }
    assert(texts(pieces@).take(pieces.len() as int) =~= texts(pieces@));
    text
}

/// The names of the segments of a path, in their order; nothing for what is no path.
pub open spec fn names_of_segments(argument: ArgumentView) -> Seq<Seq<char>>
    decreases argument, 0nat,
{
    match argument {
        ArgumentView::Path(segments) => Seq::new(
            segments.len(),
            |i: int|
                if 0 <= i < segments.len() {
                    segment_name(segments[i])
                } else {
                    arbitrary()
                },
        ),
        _ => Seq::empty(),
    }
}

/// How a type is named in full. A path is named by its segments with `::` between them; any
/// other type, and what is no type, goes by `Unsupported`.
pub open spec fn spec_type_to_string(argument: ArgumentView) -> Seq<char>
    decreases argument, 1nat,
{
    match argument {
        ArgumentView::Path(_) => joined(names_of_segments(argument), "::"@),
        ArgumentView::OtherType => "Unsupported"@,
        ArgumentView::NotAType => "Unsupported"@,
    }
}

/// The names of the arguments of a segment, in their order; nothing for a segment without
/// arguments.
pub open spec fn names_of_arguments(segment: SegmentView) -> Seq<Seq<char>>
    decreases segment, 0nat,
{
    match segment.arguments {
        Some(list) => Seq::new(
            list.len(),
            |i: int|
                if 0 <= i < list.len() {
                    spec_type_to_string(list[i])
                } else {
                    arbitrary()
                },
        ),
        None => Seq::empty(),
    }
}

/// How a segment is named in full: its identifier, then, where it has arguments, their names
/// between angle brackets with `, ` between them.
pub open spec fn segment_name(segment: SegmentView) -> Seq<char>
    decreases segment, 1nat,
{
    match segment.arguments {
        Some(_) => segment.ident + "<"@ + joined(names_of_arguments(segment), ", "@) + ">"@,
        None => segment.ident,
    }
}

/// The names of the segments of a path, in their order.
pub open spec fn segment_names(segments: Seq<SegmentView>) -> Seq<Seq<char>> {
    Seq::new(segments.len(), |i: int| segment_name(segments[i]))
}

/// The names of the arguments of a segment, in their order.
pub open spec fn argument_names(arguments: Seq<ArgumentView>) -> Seq<Seq<char>> {
    Seq::new(arguments.len(), |i: int| spec_type_to_string(arguments[i]))
}

/// The name of a path is made of the names of its segments, and the name of a segment of
/// the names of its arguments.
pub proof fn lemma_names_of_parts(argument: ArgumentView, segment: SegmentView)
    ensures
        argument matches ArgumentView::Path(segments) ==> spec_type_to_string(argument)
            == joined(segment_names(segments), "::"@),
        segment.arguments matches Some(list) ==> segment_name(segment) == segment.ident + "<"@
            + joined(argument_names(list), ", "@) + ">"@,
{
    match argument {
        ArgumentView::Path(segments) => {
            assert(names_of_segments(argument) =~= segment_names(segments));
        },
        _ => {},
    }
    match segment.arguments {
        Some(list) => {
            assert(names_of_arguments(segment) =~= argument_names(list));
        },
        None => {},
    }
}

/// Names a type in full.
pub fn type_to_string(argument: &Argument) -> (name: String)
    ensures
        name@ == spec_type_to_string(argument@),
    decreases argument,
{
    proof {
        lemma_view_of_path(*argument);
        lemma_names_of_parts(argument@, SegmentView { ident: Seq::empty(), arguments: None });
    }
    match argument {
        Argument::Path(segments) => path_name(segments),
        Argument::OtherType => "Unsupported".to_owned(),
        Argument::NotAType => "Unsupported".to_owned(),
    }
}

/// Names a path in full.
fn path_name(segments: &Vec<Segment>) -> (name: String)
    ensures
        name@ == joined(segment_names(segments_view(segments@)), "::"@),
    decreases segments,
{
    let mut names: Vec<String> = Vec::new();
    let mut i: usize = 0;
    while i < segments.len()
        invariant
            i <= segments.len(),
            names.len() == i,
            forall|j: int|
                0 <= j < i ==> (#[trigger] names@[j])@ == segment_name(segment_view(segments@[j])),
        decreases segments.len() - i,
    {
        names.push(segment_name_text(&segments[i]));
        i += 1;
    }
    assert(texts(names@) =~= segment_names(segments_view(segments@)));
    join(&names, "::")
}

/// Names the arguments of a segment in full, with `, ` between them.
fn arguments_name(list: &Vec<Argument>) -> (name: String)
    ensures
        name@ == joined(argument_names(arguments_view(list@)), ", "@),
    decreases list,
{
    let mut names: Vec<String> = Vec::new();
    let mut i: usize = 0;
    while i < list.len()
        invariant
            i <= list.len(),
            names.len() == i,
            forall|j: int|
                0 <= j < i ==> (#[trigger] names@[j])@ == spec_type_to_string(
                    argument_view(list@[j]),
                ),
        decreases list.len() - i,
    {
        names.push(type_to_string(&list[i]));
        i += 1;
    }
    assert(texts(names@) =~= argument_names(arguments_view(list@)));
    join(&names, ", ")
}

/// Names a segment in full.
fn segment_name_text(segment: &Segment) -> (name: String)
    ensures
        name@ == segment_name(segment@),
    decreases segment,
{
    proof {
        lemma_view_of_segment(*segment);
        lemma_names_of_parts(ArgumentView::OtherType, segment@);
    }
    match &segment.arguments {
        Some(list) => {
            let mut name = segment.ident.clone();
            name.append("<");
            name.append(arguments_name(list).as_str());
            name.append(">");
            name
        },
        None => segment.ident.clone(),
    }
}

/// The parameter of an `Option`, given the segments of a type: the last segment is `Option`,
/// it has exactly one argument, and that argument is a type. The parameter is that type,
/// named in full.
pub open spec fn spec_option_parameter(segments: Option<Seq<SegmentView>>) -> Option<Seq<char>> {
    match segments {
        Some(list) => if list.len() > 0 && list.last().ident == "Option"@ {
            match list.last().arguments {
                Some(arguments) => if arguments.len() == 1 && !(arguments[0] is NotAType) {
                    Some(spec_type_to_string(arguments[0]))
                } else {
                    None
                },
                None => None,
            }
        } else {
            None
        },
        None => None,
    }
}

/// The segments of a parsed type as mathematical values.
pub open spec fn path_view(segments: Option<Vec<Segment>>) -> Option<Seq<SegmentView>> {
    match segments {
        Some(list) => Some(segments_view(list@)),
        None => None,
    }
}

/// Decides from the segments of a type whether it is an `Option<T>`, and names `T`.
pub fn option_parameter(segments: &Option<Vec<Segment>>) -> (parameter: Option<String>)
    ensures
        match parameter {
            Some(name) => spec_option_parameter(path_view(*segments)) == Some(name@),
            None => spec_option_parameter(path_view(*segments)) is None,
        },
{
    match segments {
        Some(list) => {
            if list.len() == 0 {
                return None;
            }
            let last = &list[list.len() - 1];
            proof {
                lemma_view_of_segment(*last);
            }
            if !same_text(last.ident.as_str(), "Option") {
                return None;
            }
            match &last.arguments {
                Some(arguments) => {
                    if arguments.len() != 1 {
                        return None;
                    }
                    match &arguments[0] {
                        Argument::NotAType => None,
                        argument => Some(type_to_string(argument)),
                    }
                },
                None => None,
            }
        },
        None => None,
    }
}

/// What `parse_option_type` returns for a text.
pub open spec fn spec_parse_option_type(text: Seq<char>) -> Result<Option<Seq<char>>, Seq<char>> {
    match parsed_type(text) {
        Ok(segments) => Ok(spec_option_parameter(segments)),
        Err(message) => Err(message),
    }
}

/// Reads `type_str` as a Rust type. Returns the name of `T` where the type is an
/// `Option<T>`, `None` where it is another type, and the parser's message where it is no
/// type at all.
pub fn parse_option_type(type_str: &str) -> (parameter: Result<Option<String>, String>)
    ensures
        match parameter {
            Ok(Some(name)) => spec_parse_option_type(type_str@) == Ok::<_, Seq<char>>(Some(name@)),
            Ok(None) => spec_parse_option_type(type_str@) == Ok::<Option<Seq<char>>, Seq<char>>(
                None,
            ),
            Err(message) => spec_parse_option_type(type_str@) == Err::<Option<Seq<char>>, _>(
                message@,
            ),
        },
{
    match parse_path(type_str) {
        Ok(Some(path)) => {
            let segments = Some(path_segments(&path));
            Ok(option_parameter(&segments))
        },
        Ok(None) => Ok(None),
        Err(message) => Err(message),
    }
}

} // verus!

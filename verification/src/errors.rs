//! The limits that keep generated types clear to readers of the TypeScript side.
use vstd::prelude::*;

verus! {

/// A shape of the Rust side that has no agreed TypeScript form.
#[derive(Debug, Clone, Copy, PartialEq, Eq, Structural)]
pub enum Error {
    /// Layers of single unnamed fields, as in `Foo(Bar(Baz))`.
    E0001,
    /// A tuple in the public surface.
    E0002,
    /// `f32` and `f64`, which are not deterministic.
    E0003,
    /// A type that refers to itself.
    E0004,
    /// A unit or empty type.
    E0005,
    /// A wrapper such as `Box`, `Arc` or `Mutex`.
    E0006,
    /// A Rust name that is no TypeScript symbol.
    E0007,
    /// More than one type parameter.
    E0008,
    /// A map or a set.
    E0009,
    /// Several unnamed fields in a struct or in a variant.
    E0010,
}

impl Error {
    /// The advice that goes with the code.
    pub open spec fn spec_message(self) -> Seq<char> {
        match self {
            Error::E0001 => "layers of unnamed stucts fields like  `Foo(Bar(Baz))` are not allowed. make less wrapping or write custom borsh schema"@,
            Error::E0002 => "tuples not to be in public API. replaces with named structs or fixed size arrays. 2-tuple is supported only in seqeunces (in this case first item may be considered key)"@,
            Error::E0003 => "f32 and f64 are not supported as non deterministic types"@,
            Error::E0004 => "recursive types are not supported. use custom borsh serialzied and schema or indexes approach to express recursion"@,
            Error::E0005 => "no unit or empty types"@,
            Error::E0006 => "wrappers like Box/Arc/Mutex/.. types are not supported. simplify, or use custom borsh serialize and schema"@,
            Error::E0007 => "all Rust identity name must also be valid TS symbols, in specific cases(generics), canonicalization algorithm used"@,
            Error::E0008 => "Only one type parameter is allowed per type, exclusion is key value like usage"@,
            Error::E0009 => "proper universal map and set support is hard, so not supported (replace with sequence and sequence of 2 tuples)"@,
            Error::E0010 => "enum variant can have 0 or one non empty(unit) field. similar to tuples error"@,
        }
    }

    /// The advice that goes with the code, as text to show.
    pub fn message(&self) -> (text: String)
        ensures
            text@ == self.spec_message(),
    {
        match self {
            Error::E0001 => "layers of unnamed stucts fields like  `Foo(Bar(Baz))` are not allowed. make less wrapping or write custom borsh schema".to_owned(),
            Error::E0002 => "tuples not to be in public API. replaces with named structs or fixed size arrays. 2-tuple is supported only in seqeunces (in this case first item may be considered key)".to_owned(),
            Error::E0003 => "f32 and f64 are not supported as non deterministic types".to_owned(),
            Error::E0004 => "recursive types are not supported. use custom borsh serialzied and schema or indexes approach to express recursion".to_owned(),
            Error::E0005 => "no unit or empty types".to_owned(),
            Error::E0006 => "wrappers like Box/Arc/Mutex/.. types are not supported. simplify, or use custom borsh serialize and schema".to_owned(),
            Error::E0007 => "all Rust identity name must also be valid TS symbols, in specific cases(generics), canonicalization algorithm used".to_owned(),
            Error::E0008 => "Only one type parameter is allowed per type, exclusion is key value like usage".to_owned(),
            Error::E0009 => "proper universal map and set support is hard, so not supported (replace with sequence and sequence of 2 tuples)".to_owned(),
            Error::E0010 => "enum variant can have 0 or one non empty(unit) field. similar to tuples error".to_owned(),
        }
    }
}

/// Why a schema could not be turned into TypeScript.
#[derive(Debug, Clone, Copy, PartialEq, Eq, Structural)]
pub enum Failure {
    /// The schema holds a shape that the rules reject.
    Rejected(Error),
    /// The schema holds a shape that is kept for later work: a primitive that has no
    /// TypeScript name yet, an enum whose tag is wider than one byte, or an array of enums or
    /// of texts.
    Reserved,
    /// The schema mentions a declaration that it does not define.
    Undefined,
    /// The table already holds the declaration that was about to be stored.
    Duplicate,
    /// The root of the schema is no tuple of the types to generate.
    NotWorld,
}

/// Something that went wrong around the generated file without spoiling it.
#[derive(Debug, Clone, Copy, PartialEq, Eq, Structural)]
pub enum Warning {
    /// The formatter for the generated code is not on the path.
    DenoNotFound,
}

impl Warning {
    /// What to tell the user.
    pub open spec fn spec_message(self) -> Seq<char> {
        "we use external formatter and checker for generated code TS code. now it is `deno`, please add to path\""@
    }

    /// What to tell the user, as text to show.
    pub fn message(&self) -> (text: String)
        ensures
            text@ == self.spec_message(),
    {
        "we use external formatter and checker for generated code TS code. now it is `deno`, please add to path\"".to_owned()
    }
}

/// How the start of the formatter for the generated code went.
#[derive(Debug, Clone, Copy, PartialEq, Eq, Structural)]
pub enum Launch {
    /// The formatter was started; how it ends is not waited for.
    Started,
    /// The formatter is not on the path.
    NotFound,
    /// The formatter could not be started for any other reason.
    Failed,
}

/// What follows from the start of the formatter. A formatter that is not installed is the one
/// thing that does not spoil a run: it gives a warning. Any other failure to start it ends the
/// run.
pub fn after_launch(outcome: Launch) -> (next: Result<Option<Warning>, ()>)
    ensures
        next == match outcome {
            Launch::Started => Ok::<Option<Warning>, ()>(None),
            Launch::NotFound => Ok(Some(Warning::DenoNotFound)),
            Launch::Failed => Err(()),
        },
{
    match outcome {
        Launch::Started => Ok(None),
        Launch::NotFound => Ok(Some(Warning::DenoNotFound)),
        Launch::Failed => Err(()),
    }
}

} // verus!

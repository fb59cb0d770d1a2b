use vstd::prelude::*;

verus! {

/// A location in source code that a diagnosed failure is attributed to.
#[derive(Clone, Copy, Debug, PartialEq, Eq, Structural)]
pub struct Span {
    pub id: u64,
}

/// The kind of a value, as named in error messages.
#[derive(Clone, Copy, Debug, PartialEq, Eq, Structural)]
pub enum Kind {
    Absent,
    Bool,
    Int,
    Str,
    Array,
}

impl Kind {
    /// What [`Kind::name`] gives.
    pub open spec fn spec_name(self) -> Seq<char> {
        match self {
            Kind::Absent => "none"@,
            Kind::Bool => "boolean"@,
            Kind::Int => "integer"@,
            Kind::Str => "string"@,
            Kind::Array => "array"@,
        }
    }

    /// The human-readable name of the kind.
    pub fn name(&self) -> (r: &'static str)
        ensures
            r@ == self.spec_name(),
    {
        match self {
            Kind::Absent => "none",
            Kind::Bool => "boolean",
            Kind::Int => "integer",
            Kind::Str => "string",
            Kind::Array => "array",
        }
    }
}

/// A failure computed from an array's own data, with no source location.
#[derive(Clone, Copy, Debug, PartialEq, Eq, Structural)]
pub enum ArrayError {
    /// The array has no element to give.
    Empty,
    /// The index does not resolve to a valid position; `len` is the array's length.
    OutOfBounds { index: i64, len: i64 },
    /// Two elements of these kinds cannot be ordered against each other.
    CannotOrder(Kind, Kind),
    /// The array cannot be repeated this many times.
    CannotRepeat(i64),
}

/// A failure attributed to a source location: raised by a callable, or about one.
#[derive(Clone, Debug)]
pub struct SourceError {
    pub span: Span,
    pub message: String,
}

impl SourceError {
    /// This error is located at `span` and says `msg`.
    pub open spec fn says(self, span: Span, msg: Seq<char>) -> bool {
        self.span == span && self.message@ == msg
    }

    /// An error at `span` that says `message`.
    pub fn new(span: Span, message: &str) -> (r: SourceError)
        ensures
            r.says(span, message@),
    {
        SourceError { span, message: message.to_owned() }
    }
}

} // verus!

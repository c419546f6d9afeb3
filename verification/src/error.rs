//! What can go wrong, and where.

use vstd::prelude::*;
use vstd::string::StringExecFns;
use crate::metadata::Metadata;
use crate::metadata::MetadataView;
use crate::value::Tag;

verus! {

/// The kinds of failure.
#[derive(Clone, Copy, Debug, PartialEq, Eq, Structural)]
pub enum Kind {
    /// A source failed to produce its data.
    SourceError,
    /// A required field has no value in the merged tree.
    MissingField,
    /// A value is there but has another shape than the one asked for.
    TypeMismatch,
    /// In strict mode: the tree holds a key that the shape does not name.
    UnknownField,
    /// The selected profile has an empty name.
    InvalidProfile,
}

/// A failure: its kind, the keys that lead to the place, the provenance of
/// the offending value where there is one, and for a failed source its own
/// message.
#[derive(Debug)]
pub struct Error {
    pub kind: Kind,
    pub path: Vec<String>,
    pub tag: Tag,
    pub message: String,
}

/// The mathematical model of an [`Error`].
pub struct ErrorView {
    pub kind: Kind,
    pub path: Seq<Seq<char>>,
    pub tag: Tag,
    pub message: Seq<char>,
}

/// The model of a sequence of keys.
pub open spec fn path_view(path: Seq<String>) -> Seq<Seq<char>> {
    Seq::new(path.len(), |i: int| path[i]@)
}

impl View for Error {
    type V = ErrorView;

    open spec fn view(&self) -> ErrorView {
        ErrorView {
            kind: self.kind,
            path: path_view(self.path@),
            tag: self.tag,
            message: self.message@,
        }
    }
}

/// The name of a kind, as reports spell it.
pub open spec fn kind_name(kind: Kind) -> Seq<char> {
    match kind {
        Kind::SourceError => "source error"@,
        Kind::MissingField => "missing field"@,
        Kind::TypeMismatch => "type mismatch"@,
        Kind::UnknownField => "unknown field"@,
        Kind::InvalidProfile => "invalid profile"@,
    }
}

/// The first `n` keys of a path, joined by dots.
pub open spec fn dotted_prefix(path: Seq<Seq<char>>, n: int) -> Seq<char>
    decreases n,
{
    if n <= 0 {
        Seq::empty()
    } else if n == 1 {
        path[0]
    } else {
        dotted_prefix(path, n - 1) + "."@ + path[n - 1]
    }
}

/// The keys of a path joined by dots.
pub open spec fn dotted(path: Seq<Seq<char>>) -> Seq<char> {
    dotted_prefix(path, path.len() as int)
}

/// The part of a report that names the source: its name in quotes, then its
/// origin in brackets where it has one.
pub open spec fn origin_text(m: MetadataView) -> Seq<char> {
    " sourced from \""@ + m.name + "\""@ + match m.source {
        Some(s) => " ("@ + s + ")"@,
        None => Seq::empty(),
    }
}

/// The report of a failure: its kind, the dotted path in quotes, and the
/// source where the failure has one.
pub open spec fn rendered(e: ErrorView, m: Option<MetadataView>) -> Seq<char> {
    kind_name(e.kind) + ": at key \""@ + dotted(e.path) + "\""@ + match m {
        Some(m) => origin_text(m),
        None => Seq::empty(),
    }
}

/// The model of an optional description.
pub open spec fn description_view(m: Option<&Metadata>) -> Option<MetadataView> {
    match m {
        Some(m) => Some(m@),
        None => None,
    }
}

/// The part of a report that names the source.
pub fn origin(m: &Metadata) -> (s: String)
    ensures
        s@ == origin_text(m@),
{
    let mut out = String::from_str(" sourced from \"");
    out.append(m.name.as_str());
    out.append("\"");
    match &m.source {
        Some(source) => {
            let mut tail = String::from_str(" (");
            tail.append(source.as_str());
            tail.append(")");
            out.append(tail.as_str());
        },
        None => {
            assert(out@ + Seq::<char>::empty() =~= out@);
        },
    }
    out
}

impl Kind {
    /// The name of the kind, as reports spell it.
    pub fn name(&self) -> (s: &'static str)
        ensures
            s@ == kind_name(*self),
    {
        match self {
            Kind::SourceError => "source error",
            Kind::MissingField => "missing field",
            Kind::TypeMismatch => "type mismatch",
            Kind::UnknownField => "unknown field",
            Kind::InvalidProfile => "invalid profile",
        }
    }
}

impl Error {
    /// The report of this failure, with the source that `metadata` describes.
    pub fn render(&self, metadata: Option<&Metadata>) -> (s: String)
        ensures
            s@ == rendered(self@, description_view(metadata)),
    {
        let mut out = String::from_str(self.kind.name());
        out.append(": at key \"");
        out.append(self.dotted_path().as_str());
        out.append("\"");
        match metadata {
            Some(m) => {
                out.append(origin(m).as_str());
            },
            None => {
                assert(out@ + Seq::<char>::empty() =~= out@);
            },
        }
        out
    }

    /// The keys of the path joined by dots.
    pub fn dotted_path(&self) -> (s: String)
        ensures
            s@ == dotted(self@.path),
    {
        let mut out = String::new();
        let mut i: usize = 0;
        while i < self.path.len()
            invariant
                i <= self.path@.len(),
                out@ == dotted_prefix(self@.path, i as int),
            decreases self.path@.len() - i,
        {
            if i > 0 {
                out.append(".");
            }
            out.append(self.path[i].as_str());
            proof {
                assert(Seq::<char>::empty() + self@.path[0] =~= self@.path[0]);
            }
            i += 1;
        }
        out
    }
}

} // verus!

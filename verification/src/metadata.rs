//! What a source says of itself, kept for error reports.

use vstd::prelude::*;
use vstd::string::StringExecFns;

verus! {

/// The description of one source.
#[derive(Debug)]
pub struct Metadata {
    /// The name under which the source is reported.
    pub name: String,
    /// Where the data came from, if the source can say.
    pub source: Option<String>,
    /// Whether keys of this source may be interpolated into reports.
    pub interpolatable: bool,
}

/// The mathematical model of a [`Metadata`].
pub struct MetadataView {
    pub name: Seq<char>,
    pub source: Option<Seq<char>>,
    pub interpolatable: bool,
}

impl MetadataView {
    /// The same description under another name.
    pub open spec fn renamed(self, name: Seq<char>) -> MetadataView {
        MetadataView { name, source: self.source, interpolatable: self.interpolatable }
    }
}

impl View for Metadata {
    type V = MetadataView;

    open spec fn view(&self) -> MetadataView {
        MetadataView {
            name: self.name@,
            source: match self.source {
                Some(s) => Some(s@),
                None => None,
            },
            interpolatable: self.interpolatable,
        }
    }
}

impl Metadata {
    /// A description with the name `name`, no origin, and interpolation on.
    pub fn named(name: &str) -> (m: Metadata)
        ensures
            m@ == (MetadataView { name: name@, source: None, interpolatable: true }),
    {
        Metadata { name: String::from_str(name), source: None, interpolatable: true }
    }

    /// The same description with the origin `source`.
    pub fn source(self, source: &str) -> (m: Metadata)
        ensures
            m@ == (MetadataView {
                name: self@.name,
                source: Some(source@),
                interpolatable: self@.interpolatable,
            }),
    {
        Metadata {
            name: self.name,
            source: Some(String::from_str(source)),
            interpolatable: self.interpolatable,
        }
    }

    /// A copy of the description.
    pub fn duplicate(&self) -> (m: Metadata)
        ensures
            m@ == self@,
    {
        Metadata {
            name: self.name.clone(),
            source: match &self.source {
                Some(s) => Some(s.clone()),
                None => None,
            },
            interpolatable: self.interpolatable,
        }
    }
}

} // verus!

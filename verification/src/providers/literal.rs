//! A source that holds its data in memory.

use vstd::prelude::*;
use crate::metadata::Metadata;
use crate::metadata::MetadataView;
use crate::profile::Profile;
use crate::provider::outcome_view;
use crate::provider::partitions_view;
use crate::provider::preference_view;
use crate::provider::Provider;
use crate::value::Dict;
use crate::value::Tag;

verus! {

/// A copy of a sequence of partitions.
pub fn duplicate_partitions(parts: &Vec<(Profile, Dict)>) -> (r: Vec<(Profile, Dict)>)
    ensures
        partitions_view(r@) == partitions_view(parts@),
{
    let mut out: Vec<(Profile, Dict)> = Vec::new();
    let mut i: usize = 0;
    while i < parts.len()
        invariant
            i <= parts@.len(),
            out@.len() == i,
            forall|j: int|
                0 <= j < i ==> (#[trigger] out@[j]).0@ == parts@[j].0@ && out@[j].1@
                    == parts@[j].1@,
        decreases parts@.len() - i,
    {
        out.push((parts[i].0.duplicate(), parts[i].1.duplicate()));
        i += 1;
    }
    assert(partitions_view(out@) =~= partitions_view(parts@));
    out
}

/// A source whose description, preference and data are given when it is
/// made, and handed out unchanged at every call.
#[derive(Debug)]
pub struct Literal {
    pub metadata: Metadata,
    pub profile: Option<Profile>,
    pub data: Result<Vec<(Profile, Dict)>, String>,
}

impl Literal {
    /// A source called `name` that holds `dict` in the default profile.
    pub fn defaults(name: &str, dict: Dict) -> (l: Literal)
        ensures
            l.metadata@ == (MetadataView { name: name@, source: None, interpolatable: true }),
            l.profile is None,
            l.data matches Ok(parts) && parts@.len() == 1 && parts@[0].0@
                == crate::profile::default_name() && parts@[0].1@ == dict@,
    {
        let mut parts: Vec<(Profile, Dict)> = Vec::new();
        parts.push((Profile::default_profile(), dict));
        Literal { metadata: Metadata::named(name), profile: None, data: Ok(parts) }
    }

    /// A source called `name` that fails with `message`.
    pub fn failing(name: &str, message: String) -> (l: Literal)
        ensures
            l.metadata@ == (MetadataView { name: name@, source: None, interpolatable: true }),
            l.profile is None,
            l.data == Err::<Vec<(Profile, Dict)>, String>(message),
    {
        Literal { metadata: Metadata::named(name), profile: None, data: Err(message) }
    }
}

impl Provider for Literal {
    /// A copy of the description.
    fn metadata(&self) -> (m: Metadata)
        ensures
            m@ == self.metadata@,
    {
        self.metadata.duplicate()
    }

    /// A copy of the data, or of the message.
    fn data(&self) -> (r: Result<Vec<(Profile, Dict)>, String>)
        ensures
            outcome_view(r) == outcome_view(self.data),
    {
        match &self.data {
            Ok(parts) => Ok(duplicate_partitions(parts)),
            Err(message) => Err(message.clone()),
        }
    }

    /// A copy of the preferred profile.
    fn profile(&self) -> (p: Option<Profile>)
        ensures
            preference_view(p) == preference_view(self.profile),
    {
        match &self.profile {
            Some(p) => Some(p.duplicate()),
            None => None,
        }
    }

    /// No table: the one description holds of all values.
    fn __metadata_map(&self) -> (t: Option<Vec<(Tag, Metadata)>>)
        ensures
            t is None,
    {
        None
    }
}

} // verus!

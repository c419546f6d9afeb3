//! The contract that every configuration source meets.

use vstd::prelude::*;
use crate::metadata::Metadata;
use crate::metadata::MetadataView;
use crate::profile::Profile;
use crate::value::Dict;
use crate::value::Entries;
use crate::value::Tag;

verus! {

/// The model of a source's data: one dictionary for each profile it declares.
pub type Partitions = Seq<(Seq<char>, Entries)>;

/// The model of what a source hands in: its partitions, or the message of
/// its failure.
pub type Outcome = Result<Partitions, Seq<char>>;

/// The model of a sequence of partitions.
pub open spec fn partitions_view(parts: Seq<(Profile, Dict)>) -> Partitions {
    Seq::new(parts.len(), |i: int| (parts[i].0@, parts[i].1@))
}

/// The model of the result of [`Provider::data`].
pub open spec fn outcome_view(r: Result<Vec<(Profile, Dict)>, String>) -> Outcome {
    match r {
        Ok(parts) => Ok(partitions_view(parts@)),
        Err(message) => Err(message@),
    }
}

/// The model of an optional profile.
pub open spec fn preference_view(p: Option<Profile>) -> Option<Seq<char>> {
    match p {
        Some(p) => Some(p@),
        None => None,
    }
}

/// The model of the rows of a table of descriptions by tag.
pub open spec fn rows_view(rows: Seq<(Tag, Metadata)>) -> Seq<(Tag, MetadataView)> {
    Seq::new(rows.len(), |i: int| (rows[i].0, rows[i].1@))
}

/// The model of an optional table of descriptions by tag.
pub open spec fn table_view(t: Option<Vec<(Tag, Metadata)>>) -> Option<Seq<(Tag, MetadataView)>> {
    match t {
        Some(rows) => Some(rows_view(rows@)),
        None => None,
    }
}

/// A source of configuration. What a source returns may differ from one
/// call to the next (a file may have changed), so nothing is promised here:
/// each source says in its own contract what its methods return.
pub trait Provider {
    /// The source's description of itself.
    fn metadata(&self) -> Metadata;

    /// The source's data, partitioned by profile, or the message of its
    /// failure.
    fn data(&self) -> Result<Vec<(Profile, Dict)>, String>;

    /// The profile that this source would have selected, if it has one.
    fn profile(&self) -> Option<Profile>;

    /// Descriptions for single subtrees, where the source gathers several
    /// origins; `None` where its one description holds of all its values.
    fn __metadata_map(&self) -> Option<Vec<(Tag, Metadata)>>;
}

/// Whether `metadata` may return `m` for the source `p`.
pub open spec fn may_describe<P: Provider>(p: P, m: Metadata) -> bool {
    call_ensures(P::metadata, (&p,), m)
}

/// Whether `data` may return `r` for the source `p`.
pub open spec fn may_yield<P: Provider>(p: P, r: Result<Vec<(Profile, Dict)>, String>) -> bool {
    call_ensures(P::data, (&p,), r)
}

/// Whether `profile` may return `r` for the source `p`.
pub open spec fn may_prefer<P: Provider>(p: P, r: Option<Profile>) -> bool {
    call_ensures(P::profile, (&p,), r)
}

/// Whether `__metadata_map` may return `r` for the source `p`.
pub open spec fn may_tabulate<P: Provider>(p: P, r: Option<Vec<(Tag, Metadata)>>) -> bool {
    call_ensures(P::__metadata_map, (&p,), r)
}

} // verus!

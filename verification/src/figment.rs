//! The aggregator: an append-only sequence of sources and the profile that
//! is selected among their partitions.

use vstd::prelude::*;
use crate::error::rendered;
use crate::error::Error;
use crate::error::ErrorView;
use crate::error::Kind;
use crate::metadata::Metadata;
use crate::metadata::MetadataView;
use crate::profile::default_name;
use crate::profile::Profile;
use crate::provider::may_describe;
use crate::provider::may_prefer;
use crate::provider::may_tabulate;
use crate::provider::may_yield;
use crate::provider::outcome_view;
use crate::provider::partitions_view;
use crate::provider::preference_view;
use crate::provider::rows_view;
use crate::provider::table_view;
use crate::provider::Outcome;
use crate::provider::Partitions;
use crate::provider::Provider;
use crate::value::merge_tree;
use crate::value::retag;
use crate::value::Dict;
use crate::value::Entries;
use crate::value::Tag;
use crate::value::Tree;
use crate::value::Value;

verus! {

/// What the aggregator keeps of one source: its description, its table of
/// descriptions by tag, and the data it handed in or the message of its
/// failure.
#[derive(Debug)]
pub struct Entry {
    pub metadata: Metadata,
    pub table: Option<Vec<(Tag, Metadata)>>,
    pub data: Result<Vec<(Profile, Dict)>, String>,
}

/// The mathematical model of an [`Entry`].
pub struct EntryView {
    pub metadata: MetadataView,
    pub table: Option<Seq<(Tag, MetadataView)>>,
    pub data: Outcome,
}

impl View for Entry {
    type V = EntryView;

    open spec fn view(&self) -> EntryView {
        EntryView {
            metadata: self.metadata@,
            table: table_view(self.table),
            data: outcome_view(self.data),
        }
    }
}

/// The aggregator. Sources are appended in the order of the calls and never
/// removed; the selected profile starts as the default one.
#[derive(Debug)]
pub struct Figment {
    selected: Profile,
    explicit: bool,
    entries: Vec<Entry>,
}

/// The mathematical model of a [`Figment`].
pub struct FigmentView {
    /// The folded name of the selected profile.
    pub selected: Seq<char>,
    /// Whether the caller selected it, rather than a source or nobody.
    pub explicit: bool,
    /// The sources, oldest first.
    pub entries: Seq<EntryView>,
}

/// The merged tree and the failures of the sources that produced no data.
#[derive(Debug)]
pub struct Resolved {
    pub tree: Value,
    pub errors: Vec<Error>,
}

/// The model of a sequence of entries.
pub open spec fn entries_model(entries: Seq<Entry>) -> Seq<EntryView> {
    Seq::new(entries.len(), |i: int| entries[i]@)
}

/// The model of a sequence of errors.
pub open spec fn errors_view(errors: Seq<Error>) -> Seq<ErrorView> {
    Seq::new(errors.len(), |i: int| errors[i]@)
}

/// The dictionary of the first partition at or after `from` whose profile is
/// `name`.
pub open spec fn partition_from(parts: Partitions, name: Seq<char>, from: int) -> Option<Entries>
    decreases parts.len() - from,
{
    if from < 0 || from >= parts.len() {
        None
    } else if parts[from].0 == name {
        Some(parts[from].1)
    } else {
        partition_from(parts, name, from + 1)
    }
}

/// The dictionary that a source declares for the profile `name`.
pub open spec fn partition(parts: Partitions, name: Seq<char>) -> Option<Entries> {
    partition_from(parts, name, 0)
}

/// `result` with the partition `name` of `parts` merged on top of it, every
/// node of the partition tagged with `tag`; `result` itself where the source
/// declares no such partition.
pub open spec fn layered(result: Tree, parts: Partitions, name: Seq<char>, tag: Tag) -> Tree {
    match partition(parts, name) {
        Some(entries) => merge_tree(result, retag(Tree::Dict(tag, entries), tag)),
        None => result,
    }
}

/// `result` with the partition `name` of a source folded in. A source that
/// failed adds nothing.
pub open spec fn folded(result: Tree, data: Outcome, name: Seq<char>, tag: Tag) -> Tree {
    match data {
        Err(_) => result,
        Ok(parts) => layered(result, parts, name, tag),
    }
}

/// The tag of the values that the source at position `index` holds in its
/// default partition.
pub open spec fn default_tag(index: int) -> Tag {
    Tag::Source { source: index as usize, selected: false }
}

/// The tag of the values that the source at position `index` holds in the
/// selected partition.
pub open spec fn selected_tag(index: int) -> Tag {
    Tag::Source { source: index as usize, selected: true }
}

/// The default layer of the first `n` sources: an untagged empty dictionary
/// with the default partition of each source folded in, oldest first.
pub open spec fn defaults_prefix(entries: Seq<EntryView>, n: int) -> Tree
    decreases n,
{
    if n <= 0 {
        Tree::Dict(Tag::Absent, Seq::empty())
    } else {
        folded(
            defaults_prefix(entries, n - 1),
            entries[n - 1].data,
            default_name(),
            default_tag(n - 1),
        )
    }
}

/// The default layer of all sources.
pub open spec fn defaults(entries: Seq<EntryView>) -> Tree {
    defaults_prefix(entries, entries.len() as int)
}

/// The default layer of all sources with the partition `selected` of each of
/// the first `n` sources folded in on top of it, oldest first.
pub open spec fn selected_prefix(entries: Seq<EntryView>, selected: Seq<char>, n: int) -> Tree
    decreases n,
{
    if n <= 0 {
        defaults(entries)
    } else {
        folded(
            selected_prefix(entries, selected, n - 1),
            entries[n - 1].data,
            selected,
            selected_tag(n - 1),
        )
    }
}

/// The tree that the sources give for the profile `selected`: the default
/// layer of all of them, and on top of it, where another profile than the
/// default one is selected, their partitions for that profile. Within a
/// layer a newer source lies over an older one; the selected layer lies over
/// the default layer whatever the order of the sources.
pub open spec fn effective(entries: Seq<EntryView>, selected: Seq<char>) -> Tree {
    if selected == default_name() {
        defaults(entries)
    } else {
        selected_prefix(entries, selected, entries.len() as int)
    }
}

/// The failure recorded for the source at position `index` with the message
/// `message`.
pub open spec fn source_failure(index: usize, message: Seq<char>) -> ErrorView {
    ErrorView {
        kind: Kind::SourceError,
        path: Seq::empty(),
        tag: Tag::Source { source: index, selected: false },
        message,
    }
}

/// The failures among the first `n` sources, oldest first.
pub open spec fn failures_prefix(entries: Seq<EntryView>, n: int) -> Seq<ErrorView>
    decreases n,
{
    if n <= 0 {
        Seq::empty()
    } else {
        let earlier = failures_prefix(entries, n - 1);
        match entries[n - 1].data {
            Err(message) => earlier.push(source_failure((n - 1) as usize, message)),
            Ok(_) => earlier,
        }
    }
}

/// The failures of all sources, oldest first.
pub open spec fn failures(entries: Seq<EntryView>) -> Seq<ErrorView> {
    failures_prefix(entries, entries.len() as int)
}

/// The aggregator after one more source: the source goes to the end, and the
/// profile it prefers becomes the selected one unless the caller has chosen.
pub open spec fn joined(
    f: FigmentView,
    metadata: MetadataView,
    preference: Option<Seq<char>>,
    table: Option<Seq<(Tag, MetadataView)>>,
    data: Outcome,
) -> FigmentView {
    FigmentView {
        selected: match preference {
            Some(p) if !f.explicit => p,
            _ => f.selected,
        },
        explicit: f.explicit,
        entries: f.entries.push(EntryView { metadata, table, data }),
    }
}

/// Whether `after` is `before` with the source `provider` appended: with a
/// description, a preference, a table and data that the source may return.
pub open spec fn takes_in<P: Provider>(before: FigmentView, provider: P, after: FigmentView) -> bool {
    exists|
        m: Metadata,
        p: Option<Profile>,
        t: Option<Vec<(Tag, Metadata)>>,
        d: Result<Vec<(Profile, Dict)>, String>,
    |
        #![trigger may_describe(provider, m), may_prefer(provider, p), may_tabulate(provider, t), may_yield(provider, d)]
        {
            &&& may_describe(provider, m)
            &&& may_prefer(provider, p)
            &&& may_tabulate(provider, t)
            &&& may_yield(provider, d)
            &&& after == joined(
                before,
                m@,
                preference_view(p),
                table_view(t),
                outcome_view(d),
            )
        }
}

/// The description in the first row at or after `from` whose tag is `tag`.
pub open spec fn row_from(rows: Seq<(Tag, MetadataView)>, tag: Tag, from: int) -> Option<
    MetadataView,
>
    decreases rows.len() - from,
{
    if from < 0 || from >= rows.len() {
        None
    } else if rows[from].0 == tag {
        Some(rows[from].1)
    } else {
        row_from(rows, tag, from + 1)
    }
}

/// The description that `tag` resolves to: none for a value that belongs to
/// no source; else the row for the tag in the source's table where it has
/// one, and the source's own description where it has not.
pub open spec fn described(entries: Seq<EntryView>, tag: Tag) -> Option<MetadataView> {
    match tag {
        Tag::Absent => None,
        Tag::Source { source, selected } => if source < entries.len() {
            match entries[source as int].table {
                Some(rows) if row_from(rows, tag, 0) is Some => row_from(rows, tag, 0),
                _ => Some(entries[source as int].metadata),
            }
        } else {
            None
        },
    }
}

/// The profile that `tag` belongs to: none for a value that belongs to no
/// source, the selected profile for a value of a selected partition, and the
/// default profile for a value of a default partition.
pub open spec fn profile_of(selected: Seq<char>, tag: Tag) -> Option<Seq<char>> {
    match tag {
        Tag::Absent => None,
        Tag::Source { source, selected: true } => Some(selected),
        Tag::Source { source, selected: false } => Some(default_name()),
    }
}

/// The partition that a source declares for `name`, if any.
pub fn find_partition<'a>(parts: &'a Vec<(Profile, Dict)>, name: &Profile) -> (r: Option<&'a Dict>)
    ensures
        match r {
            Some(d) => partition(partitions_view(parts@), name@) == Some(d@),
            None => partition(partitions_view(parts@), name@) is None,
        },
{
    let mut i: usize = 0;
    while i < parts.len()
        invariant
            i <= parts@.len(),
            partition(partitions_view(parts@), name@) == partition_from(
                partitions_view(parts@),
                name@,
                i as int,
            ),
        decreases parts@.len() - i,
    {
        if parts[i].0.same(name) {
            return Some(&parts[i].1);
        }
        i += 1;
    }
    None
}

/// The row of a table for `tag`, if any.
pub fn find_row<'a>(rows: &'a Vec<(Tag, Metadata)>, tag: Tag) -> (r: Option<&'a Metadata>)
    ensures
        match r {
            Some(m) => row_from(rows_view(rows@), tag, 0) == Some(m@),
            None => row_from(rows_view(rows@), tag, 0) is None,
        },
{
    let mut i: usize = 0;
    while i < rows.len()
        invariant
            i <= rows@.len(),
            row_from(rows_view(rows@), tag, 0) == row_from(
                rows_view(rows@),
                tag,
                i as int,
            ),
        decreases rows@.len() - i,
    {
        if rows[i].0 == tag {
            return Some(&rows[i].1);
        }
        i += 1;
    }
    None
}

/// Folds one partition of a source into `result`.
pub fn layer(result: Value, parts: &Vec<(Profile, Dict)>, name: &Profile, tag: Tag) -> (r: Value)
    ensures
        r@ == layered(result@, partitions_view(parts@), name@, tag),
{
    match find_partition(parts, name) {
        Some(d) => result.merge(d.tagged(tag)),
        None => result,
    }
}

/// Folds the partition `name` of a source into `result`.
pub fn fold(result: Value, entry: &Entry, name: &Profile, tag: Tag) -> (r: Value)
    ensures
        r@ == folded(result@, entry@.data, name@, tag),
{
    match &entry.data {
        Err(_) => result,
        Ok(parts) => layer(result, parts, name, tag),
    }
}

impl View for Figment {
    type V = FigmentView;

    closed spec fn view(&self) -> FigmentView {
        FigmentView {
            selected: self.selected@,
            explicit: self.explicit,
            entries: entries_model(self.entries@),
        }
    }
}

impl Figment {
    /// An aggregator without sources, with the default profile selected.
    pub fn new() -> (f: Figment)
        ensures
            f@ == (FigmentView {
                selected: default_name(),
                explicit: false,
                entries: Seq::empty(),
            }),
    {
        let f = Figment {
            selected: Profile::default_profile(),
            explicit: false,
            entries: Vec::new(),
        };
        assert(entries_model(f.entries@) =~= Seq::empty());
        f
    }

    /// Appends a source of which everything is already in hand: its
    /// description, the profile it prefers, its table and what its data call
    /// returned.
    pub fn join(
        self,
        metadata: Metadata,
        profile: Option<Profile>,
        table: Option<Vec<(Tag, Metadata)>>,
        data: Result<Vec<(Profile, Dict)>, String>,
    ) -> (f: Figment)
        ensures
            f@ == joined(
                self@,
                metadata@,
                preference_view(profile),
                table_view(table),
                outcome_view(data),
            ),
    {
        let ghost before = entries_model(self.entries@);
        let entry = Entry { metadata, table, data };
        let mut entries = self.entries;
        entries.push(entry);
        assert(entries_model(entries@) =~= before.push(entry@));
        let selected = match profile {
            Some(p) => if self.explicit {
                self.selected
            } else {
                p
            },
            None => self.selected,
        };
        Figment { selected, explicit: self.explicit, entries }
    }

    /// Appends `provider`: asks it for its description, its preferred
    /// profile, its table and its data, once each, and keeps what came back.
    /// A source that fails is kept with its failure.
    pub fn merge<P: Provider>(self, provider: P) -> (f: Figment)
        ensures
            takes_in(self@, provider, f@),
    {
        let metadata = provider.metadata();
        let profile = provider.profile();
        let table = provider.__metadata_map();
        let data = provider.data();
        assert(may_describe(provider, metadata) && may_prefer(provider, profile) && may_tabulate(
            provider,
            table,
        ) && may_yield(provider, data));
        self.join(metadata, profile, table, data)
    }

    /// An aggregator with `provider` as its only source.
    pub fn from<P: Provider>(provider: P) -> (f: Figment)
        ensures
            takes_in(
                FigmentView { selected: default_name(), explicit: false, entries: Seq::empty() },
                provider,
                f@,
            ),
    {
        Figment::new().merge(provider)
    }

    /// Selects `profile`. From then on no source's preference changes the
    /// selection.
    pub fn select_profile(self, profile: Profile) -> (f: Figment)
        ensures
            f@ == (FigmentView { selected: profile@, explicit: true, entries: self@.entries }),
    {
        Figment { selected: profile, explicit: true, entries: self.entries }
    }

    /// The selected profile.
    pub fn profile(&self) -> (p: &Profile)
        ensures
            p@ == self@.selected,
    {
        &self.selected
    }

    /// The profile that `tag` belongs to.
    pub fn profile_for(&self, tag: Tag) -> (p: Option<Profile>)
        ensures
            preference_view(p) == profile_of(self@.selected, tag),
    {
        match tag {
            Tag::Absent => None,
            Tag::Source { source, selected } => if selected {
                Some(self.selected.duplicate())
            } else {
                Some(Profile::default_profile())
            },
        }
    }

    /// The number of sources.
    pub fn len(&self) -> (n: usize)
        ensures
            n == self@.entries.len(),
    {
        self.entries.len()
    }

    /// The description that `tag` resolves to.
    pub fn metadata(&self, tag: Tag) -> (r: Option<&Metadata>)
        ensures
            match r {
                Some(m) => described(self@.entries, tag) == Some(m@),
                None => described(self@.entries, tag) is None,
            },
    {
        match tag {
            Tag::Absent => None,
            Tag::Source { source, selected } => {
                if source < self.entries.len() {
                    let entry = &self.entries[source];
                    match &entry.table {
                        Some(rows) => match find_row(rows, tag) {
                            Some(m) => Some(m),
                            None => Some(&entry.metadata),
                        },
                        None => Some(&entry.metadata),
                    }
                } else {
                    None
                }
            },
        }
    }

    /// The report of `error`, naming the source that its tag resolves to.
    pub fn report(&self, error: &Error) -> (s: String)
        ensures
            s@ == rendered(error@, described(self@.entries, error@.tag)),
    {
        error.render(self.metadata(error.tag))
    }

    /// Computes the merged tree for the selected profile, from scratch, and
    /// the failures of the sources that handed in no data. A failed source
    /// does not stop the others from being merged.
    pub fn resolve(&self) -> (r: Resolved)
        ensures
            r.tree@ == effective(self@.entries, self@.selected),
            r.tree@ is Dict,
            errors_view(r.errors@) == failures(self@.entries),
    {
        proof {
            crate::laws::law_merged_tree_is_dict(self@.entries, self@.selected);
        }
        let mut tree = Value::Dict(Tag::Absent, Dict::new());
        let mut errors: Vec<Error> = Vec::new();
        proof {
            crate::value::lemma_view_unfold(tree);
            assert(errors_view(errors@) =~= failures_prefix(self@.entries, 0));
        }
        let default = Profile::default_profile();
        let mut i: usize = 0;
        while i < self.entries.len()
            invariant
                i <= self.entries@.len(),
                self@.entries.len() == self.entries@.len(),
                default@ == default_name(),
                tree@ == defaults_prefix(self@.entries, i as int),
                errors_view(errors@) == failures_prefix(self@.entries, i as int),
            decreases self.entries@.len() - i,
        {
            let entry = &self.entries[i];
            assert(self@.entries[i as int] == entry@);
            tree = fold(tree, entry, &default, Tag::Source { source: i, selected: false });
            if let Err(message) = &entry.data {
                let ghost before = errors_view(errors@);
                errors.push(
                    Error {
                        kind: Kind::SourceError,
                        path: Vec::new(),
                        tag: Tag::Source { source: i, selected: false },
                        message: message.clone(),
                    },
                );
                proof {
                    let e = errors@[errors@.len() - 1];
                    assert(e@.path =~= Seq::empty());
                    assert(errors_view(errors@) =~= before.push(source_failure(i, message@)));
                }
            }
            i += 1;
        }
        if !self.selected.is_default() {
            let mut k: usize = 0;
            while k < self.entries.len()
                invariant
                    k <= self.entries@.len(),
                    self@.entries.len() == self.entries@.len(),
                    tree@ == selected_prefix(self@.entries, self@.selected, k as int),
                decreases self.entries@.len() - k,
            {
                let entry = &self.entries[k];
                assert(self@.entries[k as int] == entry@);
                tree = fold(tree, entry, &self.selected, Tag::Source { source: k, selected: true });
                k += 1;
            }
        }
        Resolved { tree, errors }
    }
}

} // verus!

//! What holds of the merge rule and of the aggregator, for all inputs.

use vstd::prelude::*;
use crate::extract::extracted;
use crate::extract::Shape;
use crate::figment::default_tag;
use crate::figment::defaults;
use crate::figment::defaults_prefix;
use crate::figment::effective;
use crate::figment::failures;
use crate::figment::failures_prefix;
use crate::figment::folded;
use crate::figment::joined;
use crate::figment::partition;
use crate::figment::partition_from;
use crate::figment::selected_prefix;
use crate::figment::selected_tag;
use crate::figment::source_failure;
use crate::figment::takes_in;
use crate::figment::EntryView;
use crate::figment::FigmentView;
use crate::metadata::Metadata;
use crate::profile::default_name;
use crate::profile::Profile;
use crate::provider::may_describe;
use crate::provider::may_prefer;
use crate::provider::may_tabulate;
use crate::provider::may_yield;
use crate::provider::outcome_view;
use crate::provider::preference_view;
use crate::provider::table_view;
use crate::provider::Outcome;
use crate::provider::Partitions;
use crate::provider::Provider;
use crate::providers::named::Named;
use crate::value::has_key;
use crate::value::inserted;
use crate::value::lookup;
use crate::value::merge_entries;
use crate::value::merge_entry;
use crate::value::merge_shared;
use crate::value::merge_tree;
use crate::value::position;
use crate::value::position_from;
use crate::value::retag;
use crate::value::unique_keys;
use crate::value::well_formed;
use crate::value::Dict;
use crate::value::Entries;
use crate::value::Tag;
use crate::value::Tree;

verus! {

/// A search from `from` ends at the first entry with the key, or at the end
/// where no entry from there on has it.
pub proof fn lemma_position_from(entries: Entries, key: Seq<char>, from: int)
    requires
        0 <= from <= entries.len(),
    ensures
        from <= position_from(entries, key, from) <= entries.len(),
        position_from(entries, key, from) < entries.len() ==> entries[position_from(
            entries,
            key,
            from,
        )].0 == key,
        forall|j: int| from <= j < position_from(entries, key, from) ==> entries[j].0 != key,
    decreases entries.len() - from,
{
    if from < entries.len() && entries[from].0 != key {
        lemma_position_from(entries, key, from + 1);
    }
}

/// The position of a key is the index of the first entry that has it.
pub proof fn lemma_position_is(entries: Entries, key: Seq<char>, i: int)
    requires
        0 <= i < entries.len(),
        entries[i].0 == key,
        forall|j: int| 0 <= j < i ==> entries[j].0 != key,
    ensures
        position(entries, key) == i,
{
    lemma_position_from(entries, key, 0);
}

/// A key that no entry has is not found.
pub proof fn lemma_position_none(entries: Entries, key: Seq<char>)
    requires
        forall|j: int| 0 <= j < entries.len() ==> entries[j].0 != key,
    ensures
        !has_key(entries, key),
{
    lemma_position_from(entries, key, 0);
}

/// Lookup does not depend on the order of the entries: where no key occurs
/// twice, every entry is what a lookup of its key finds, wherever it stands.
pub proof fn law_lookup_finds_every_entry(entries: Entries, i: int)
    requires
        unique_keys(entries),
        0 <= i < entries.len(),
    ensures
        lookup(entries, entries[i].0) == Some(entries[i].1),
{
    lemma_position_is(entries, entries[i].0, i);
}

/// Looking a key up in two sequences laid end to end finds what the first
/// holds under it, and what the second holds where the first has none.
pub proof fn lemma_lookup_concat(a: Entries, b: Entries, key: Seq<char>)
    ensures
        lookup(a + b, key) == if has_key(a, key) {
            lookup(a, key)
        } else {
            lookup(b, key)
        },
{
    lemma_position_from(a, key, 0);
    lemma_position_from(b, key, 0);
    let pa = position(a, key);
    let pb = position(b, key);
    if pa < a.len() {
        lemma_position_is(a + b, key, pa);
    } else if pb < b.len() {
        assert forall|j: int| 0 <= j < a.len() + pb implies (a + b)[j].0 != key by {
            if j >= a.len() {
                assert((a + b)[j] == b[j - a.len()]);
            }
        }
        lemma_position_is(a + b, key, a.len() + pb);
    } else {
        assert forall|j: int| 0 <= j < (a + b).len() implies (a + b)[j].0 != key by {
            if j >= a.len() {
                assert((a + b)[j] == b[j - a.len()]);
            }
        }
        lemma_position_none(a + b, key);
    }
}

/// Leaving out entries with other keys does not change what is found under
/// `key`.
pub proof fn lemma_lookup_filter(
    entries: Entries,
    keep: spec_fn((Seq<char>, Tree)) -> bool,
    key: Seq<char>,
)
    requires
        forall|e: (Seq<char>, Tree)| e.0 == key ==> #[trigger] keep(e),
    ensures
        lookup(entries.filter(keep), key) == lookup(entries, key),
    decreases entries.len(),
{
    reveal(Seq::filter);
    if entries.len() > 0 {
        let init = entries.drop_last();
        let last = entries.last();
        lemma_lookup_filter(init, keep, key);
        assert(entries =~= init + seq![last]);
        lemma_lookup_concat(init, seq![last], key);
        if keep(last) {
            assert(entries.filter(keep) =~= init.filter(keep) + seq![last]);
            lemma_lookup_concat(init.filter(keep), seq![last], key);
        } else {
            assert(last.0 != key);
            lemma_position_none(seq![last], key);
        }
    }
}

/// The merged dictionary, key by key: a key of both sides holds the merge of
/// the two values; a key of one side holds that side's value; a key of
/// neither is not there.
pub proof fn law_merge_key_by_key(base: Entries, overlay: Entries, key: Seq<char>)
    ensures
        lookup(merge_entries(base, overlay), key) == match (
            lookup(base, key),
            lookup(overlay, key),
        ) {
            (Some(b), Some(o)) => Some(merge_tree(b, o)),
            (Some(b), None) => Some(b),
            (None, other) => other,
        },
{
    let shared = merge_shared(base, overlay);
    let keep = |e: (Seq<char>, Tree)| !has_key(base, e.0);
    let extra = overlay.filter(keep);
    lemma_lookup_concat(shared, extra, key);
    lemma_position_from(base, key, 0);
    let p = position(base, key);
    assert forall|j: int| 0 <= j < base.len() implies shared[j].0 == base[j].0 by {
        assert(shared[j] == merge_entry(base[j], overlay));
    }
    if p < base.len() {
        lemma_position_is(shared, key, p);
        assert(shared[p] == merge_entry(base[p], overlay));
    } else {
        lemma_position_none(shared, key);
        lemma_lookup_filter(overlay, keep, key);
    }
}

/// Later overrides earlier: a value of the overlay that is no dictionary
/// stands in the merged dictionary under its key, whatever the base held.
pub proof fn law_overlay_wins(base: Entries, overlay: Entries, key: Seq<char>)
    requires
        has_key(overlay, key),
        !(lookup(overlay, key)->0 is Dict),
    ensures
        lookup(merge_entries(base, overlay), key) == lookup(overlay, key),
{
    law_merge_key_by_key(base, overlay, key);
}

/// Unless both sides are dictionaries, the overlay replaces the base whole:
/// arrays are never merged item by item.
pub proof fn law_replaced_whole(base: Tree, overlay: Tree)
    requires
        !(base is Dict && overlay is Dict),
    ensures
        merge_tree(base, overlay) == overlay,
{
}

/// A key of the base keeps its place in the merged dictionary.
pub proof fn law_base_order_kept(base: Entries, overlay: Entries, i: int)
    requires
        0 <= i < base.len(),
    ensures
        merge_entries(base, overlay).len() >= base.len(),
        merge_entries(base, overlay)[i].0 == base[i].0,
{
    assert(merge_shared(base, overlay)[i] == merge_entry(base[i], overlay));
}

/// What is kept of unique keys is a selection of them, and so unique: every
/// entry kept is an entry of the whole that the test accepts.
pub proof fn lemma_filter_unique(entries: Entries, keep: spec_fn((Seq<char>, Tree)) -> bool)
    requires
        unique_keys(entries),
    ensures
        unique_keys(entries.filter(keep)),
        forall|i: int|
            0 <= i < entries.filter(keep).len() ==> keep(#[trigger] entries.filter(keep)[i])
                && entries.contains(entries.filter(keep)[i]),
    decreases entries.len(),
{
    reveal(Seq::filter);
    if entries.len() > 0 {
        let init = entries.drop_last();
        let last = entries.last();
        lemma_filter_unique(init, keep);
        let kept = init.filter(keep);
        assert forall|i: int| 0 <= i < kept.len() implies kept[i].0 != last.0 && entries.contains(
            kept[i],
        ) by {
            assert(init.contains(kept[i]));
            let j = choose|j: int| 0 <= j < init.len() && init[j] == kept[i];
            assert(entries[j] == kept[i]);
            assert(entries[entries.len() - 1] == last);
        }
        if keep(last) {
            assert(entries.filter(keep) =~= kept.push(last));
            assert(entries[entries.len() - 1] == last);
        }
    }
}

/// An entry's key is a key of the dictionary.
pub proof fn lemma_has_own_key(entries: Entries, i: int)
    requires
        0 <= i < entries.len(),
    ensures
        has_key(entries, entries[i].0),
{
    lemma_position_from(entries, entries[i].0, 0);
}

/// Merging keeps keys unique: the merge of two trees in which no dictionary
/// holds a key twice is such a tree.
pub proof fn law_merge_keeps_keys_unique(base: Tree, overlay: Tree)
    requires
        well_formed(base),
        well_formed(overlay),
    ensures
        well_formed(merge_tree(base, overlay)),
    decreases base,
{
    if let (Tree::Dict(t, b), Tree::Dict(_, o)) = (base, overlay) {
        let shared = merge_shared(b, o);
        let keep = |e: (Seq<char>, Tree)| !has_key(b, e.0);
        let extra = o.filter(keep);
        let merged = merge_entries(b, o);
        lemma_filter_unique(o, keep);
        assert forall|i: int| 0 <= i < b.len() implies shared[i].0 == b[i].0 && well_formed(
            shared[i].1,
        ) by {
            assert(shared[i] == merge_entry(b[i], o));
            lemma_position_from(o, b[i].0, 0);
            if has_key(o, b[i].0) {
                law_merge_keeps_keys_unique(b[i].1, lookup(o, b[i].0)->0);
            }
        }
        assert forall|i: int| 0 <= i < extra.len() implies !has_key(b, extra[i].0) && well_formed(
            extra[i].1,
        ) by {
            assert(keep(extra[i]));
            assert(o.contains(extra[i]));
        }
        assert forall|i: int, j: int| 0 <= i < j < merged.len() implies merged[i].0
            != merged[j].0 by {
            if j < b.len() {
            } else if i < b.len() {
                lemma_has_own_key(b, i);
                assert(merged[j] == extra[j - b.len()]);
            } else {
                assert(merged[i] == extra[i - b.len()]);
                assert(merged[j] == extra[j - b.len()]);
            }
        }
        assert forall|i: int| 0 <= i < merged.len() implies well_formed(merged[i].1) by {
            if i < b.len() {
                assert(merged[i] == shared[i]);
            } else {
                assert(merged[i] == extra[i - b.len()]);
            }
        }
    }
}

/// Storing a value under a key keeps keys unique, and the value is then what
/// the key holds.
pub proof fn law_insert(entries: Entries, key: Seq<char>, value: Tree)
    requires
        unique_keys(entries),
    ensures
        unique_keys(inserted(entries, key, value)),
        lookup(inserted(entries, key, value), key) == Some(value),
{
    lemma_position_from(entries, key, 0);
    let after = inserted(entries, key, value);
    if has_key(entries, key) {
        lemma_position_is(after, key, position(entries, key));
    } else {
        lemma_position_is(after, key, entries.len() as int);
    }
}

/// Tagging keeps keys unique.
pub proof fn law_retag_keeps_keys_unique(tree: Tree, tag: Tag)
    requires
        well_formed(tree),
    ensures
        well_formed(retag(tree, tag)),
    decreases tree,
{
    match tree {
        Tree::Array(_, items) => {
            let out = retag(tree, tag)->Array_1;
            assert forall|i: int| 0 <= i < out.len() implies well_formed(out[i]) by {
                law_retag_keeps_keys_unique(items[i], tag);
            }
        },
        Tree::Dict(_, entries) => {
            let out = retag(tree, tag)->Dict_1;
            assert forall|i: int| 0 <= i < out.len() implies well_formed(out[i].1) && out[i].0
                == entries[i].0 by {
                law_retag_keeps_keys_unique(entries[i].1, tag);
            }
        },
        _ => {},
    }
}

/// Every dictionary that the sources hand in has unique keys, all the way
/// down.
pub open spec fn sources_well_formed(entries: Seq<EntryView>) -> bool {
    forall|i: int, j: int|
        0 <= i < entries.len() && entries[i].data is Ok && 0 <= j < entries[i].data->Ok_0.len()
            ==> well_formed(Tree::Dict(Tag::Absent, (#[trigger] entries[i].data->Ok_0[j]).1))
}

/// A partition that is found is one of the partitions.
pub proof fn lemma_partition_is_member(parts: Partitions, name: Seq<char>, from: int)
    requires
        0 <= from,
        partition_from(parts, name, from) is Some,
    ensures
        exists|j: int|
            0 <= j < parts.len() && #[trigger] parts[j].1 == partition_from(parts, name, from)->0,
    decreases parts.len() - from,
{
    if from < parts.len() && parts[from].0 != name {
        lemma_partition_is_member(parts, name, from + 1);
    }
}

/// Folding a partition of well-formed data into a well-formed dictionary
/// gives a well-formed dictionary.
pub proof fn lemma_folded_well_formed(
    entries: Seq<EntryView>,
    result: Tree,
    i: int,
    name: Seq<char>,
    tag: Tag,
)
    requires
        sources_well_formed(entries),
        0 <= i < entries.len(),
        well_formed(result),
        result is Dict,
    ensures
        well_formed(folded(result, entries[i].data, name, tag)),
        folded(result, entries[i].data, name, tag) is Dict,
{
    if let Ok(parts) = entries[i].data {
        if partition(parts, name) is Some {
            lemma_partition_is_member(parts, name, 0);
            let d = partition(parts, name)->0;
            let j = choose|j: int| 0 <= j < parts.len() && #[trigger] parts[j].1 == d;
            assert(parts[j] == entries[i].data->Ok_0[j]);
            assert(well_formed(Tree::Dict(Tag::Absent, parts[j].1)));
            assert(well_formed(Tree::Dict(tag, d)));
            law_retag_keeps_keys_unique(Tree::Dict(tag, d), tag);
            law_merge_keeps_keys_unique(result, retag(Tree::Dict(tag, d), tag));
        }
    }
}

/// The default layer of well-formed sources is a well-formed dictionary.
pub proof fn lemma_defaults_well_formed(entries: Seq<EntryView>, n: int)
    requires
        sources_well_formed(entries),
        0 <= n <= entries.len(),
    ensures
        well_formed(defaults_prefix(entries, n)),
        defaults_prefix(entries, n) is Dict,
    decreases n,
{
    if n > 0 {
        lemma_defaults_well_formed(entries, n - 1);
        lemma_folded_well_formed(
            entries,
            defaults_prefix(entries, n - 1),
            n - 1,
            default_name(),
            default_tag(n - 1),
        );
    }
}

/// The selected layer over the default layer of well-formed sources is a
/// well-formed dictionary.
pub proof fn lemma_selected_well_formed(entries: Seq<EntryView>, selected: Seq<char>, n: int)
    requires
        sources_well_formed(entries),
        0 <= n <= entries.len(),
    ensures
        well_formed(selected_prefix(entries, selected, n)),
        selected_prefix(entries, selected, n) is Dict,
    decreases n,
{
    if n > 0 {
        lemma_selected_well_formed(entries, selected, n - 1);
        lemma_folded_well_formed(
            entries,
            selected_prefix(entries, selected, n - 1),
            n - 1,
            selected,
            selected_tag(n - 1),
        );
    } else {
        lemma_defaults_well_formed(entries, entries.len() as int);
    }
}

/// Where no source hands in a dictionary with a key twice, the merged tree
/// is a dictionary in which none has one.
pub proof fn law_merged_tree_is_well_formed(entries: Seq<EntryView>, selected: Seq<char>)
    requires
        sources_well_formed(entries),
    ensures
        well_formed(effective(entries, selected)),
        effective(entries, selected) is Dict,
{
    lemma_defaults_well_formed(entries, entries.len() as int);
    lemma_selected_well_formed(entries, selected, entries.len() as int);
}

/// The default layer is a dictionary, whatever the sources hand in.
pub proof fn lemma_defaults_is_dict(entries: Seq<EntryView>, n: int)
    ensures
        defaults_prefix(entries, n) is Dict,
    decreases n,
{
    if n > 0 {
        lemma_defaults_is_dict(entries, n - 1);
    }
}

/// The selected layer over the default layer is a dictionary, whatever the
/// sources hand in.
pub proof fn lemma_selected_is_dict(entries: Seq<EntryView>, selected: Seq<char>, n: int)
    ensures
        selected_prefix(entries, selected, n) is Dict,
    decreases n,
{
    if n > 0 {
        lemma_selected_is_dict(entries, selected, n - 1);
    } else {
        lemma_defaults_is_dict(entries, entries.len() as int);
    }
}

/// The merged tree is a dictionary, whatever the sources hand in.
pub proof fn law_merged_tree_is_dict(entries: Seq<EntryView>, selected: Seq<char>)
    ensures
        effective(entries, selected) is Dict,
{
    lemma_defaults_is_dict(entries, entries.len() as int);
    lemma_selected_is_dict(entries, selected, entries.len() as int);
}

/// Tagging leaves every key in its place, and what a key held is there
/// tagged.
pub proof fn lemma_retag_lookup(t: Tag, entries: Entries, tag: Tag, key: Seq<char>)
    ensures
        retag(Tree::Dict(t, entries), tag) is Dict,
        lookup(retag(Tree::Dict(t, entries), tag)->Dict_1, key) == match lookup(entries, key) {
            Some(v) => Some(retag(v, tag)),
            None => None,
        },
{
    let out = retag(Tree::Dict(t, entries), tag)->Dict_1;
    lemma_position_from(entries, key, 0);
    let p = position(entries, key);
    assert forall|j: int| 0 <= j < entries.len() implies out[j].0 == entries[j].0 by {}
    if p < entries.len() {
        lemma_position_is(out, key, p);
    } else {
        lemma_position_none(out, key);
    }
}

/// What a source declares under `key` in its partition `name`: nothing where
/// it failed, declares no such partition, or the partition lacks the key.
pub open spec fn declared(data: Outcome, name: Seq<char>, key: Seq<char>) -> Option<Tree> {
    match data {
        Err(_) => None,
        Ok(parts) => match partition(parts, name) {
            Some(d) => lookup(d, key),
            None => None,
        },
    }
}

/// What one fold does to one key: a key that the partition does not declare
/// keeps its value; a key that it declares holds the merge of the old value
/// and the declared one, tagged.
pub proof fn law_fold_key_by_key(
    result: Tree,
    data: Outcome,
    name: Seq<char>,
    tag: Tag,
    key: Seq<char>,
)
    requires
        result is Dict,
    ensures
        folded(result, data, name, tag) is Dict,
        lookup(folded(result, data, name, tag)->Dict_1, key) == match (
            lookup(result->Dict_1, key),
            declared(data, name, key),
        ) {
            (Some(b), Some(o)) => Some(merge_tree(b, retag(o, tag))),
            (Some(b), None) => Some(b),
            (None, Some(o)) => Some(retag(o, tag)),
            (None, None) => None,
        },
{
    if let Ok(parts) = data {
        if let Some(d) = partition(parts, name) {
            lemma_retag_lookup(tag, d, tag, key);
            law_merge_key_by_key(result->Dict_1, retag(Tree::Dict(tag, d), tag)->Dict_1, key);
        }
    }
}

/// The layers of the first `n` sources do not depend on a source that is
/// appended after them.
pub proof fn lemma_prefix_stable(entries: Seq<EntryView>, more: EntryView, n: int)
    requires
        0 <= n <= entries.len(),
    ensures
        defaults_prefix(entries.push(more), n) == defaults_prefix(entries, n),
        failures_prefix(entries.push(more), n) == failures_prefix(entries, n),
    decreases n,
{
    if n > 0 {
        lemma_prefix_stable(entries, more, n - 1);
    }
}

/// One more source changes the default layer by being folded into it, and
/// adds its failure, if it failed, to the end of the list.
pub proof fn law_append(entries: Seq<EntryView>, more: EntryView)
    ensures
        defaults(entries.push(more)) == folded(
            defaults(entries),
            more.data,
            default_name(),
            default_tag(entries.len() as int),
        ),
        failures(entries.push(more)) == match more.data {
            Err(message) => failures(entries).push(
                source_failure(entries.len() as usize, message),
            ),
            Ok(_) => failures(entries),
        },
{
    lemma_prefix_stable(entries, more, entries.len() as int);
}

/// A failed source adds nothing to either layer, wherever it stands.
pub proof fn law_failed_source_adds_nothing(
    entries: Seq<EntryView>,
    selected: Seq<char>,
    i: int,
)
    requires
        0 <= i < entries.len(),
        entries[i].data is Err,
    ensures
        defaults_prefix(entries, i + 1) == defaults_prefix(entries, i),
        selected_prefix(entries, selected, i + 1) == selected_prefix(entries, selected, i),
{
}

/// The selected layer of the first `n` sources does not depend on a failed
/// source that is appended after them.
pub proof fn lemma_selected_stable(
    entries: Seq<EntryView>,
    failed: EntryView,
    selected: Seq<char>,
    n: int,
)
    requires
        failed.data is Err,
        0 <= n <= entries.len(),
    ensures
        selected_prefix(entries.push(failed), selected, n) == selected_prefix(entries, selected, n),
    decreases n,
{
    if n > 0 {
        lemma_selected_stable(entries, failed, selected, n - 1);
    } else {
        law_append(entries, failed);
    }
}

/// A source that fails leaves the merged tree as it was, whichever profile is
/// selected, and adds exactly one failure, which carries its position.
pub proof fn law_failure_is_isolated(
    entries: Seq<EntryView>,
    failed: EntryView,
    selected: Seq<char>,
)
    requires
        failed.data is Err,
    ensures
        effective(entries.push(failed), selected) == effective(entries, selected),
        failures(entries.push(failed)) == failures(entries).push(
            source_failure(entries.len() as usize, failed.data->Err_0),
        ),
{
    law_append(entries, failed);
    lemma_selected_stable(entries, failed, selected, entries.len() as int);
}

/// One broken source does not block the others: an extraction gives the
/// same result, value or failure, with a failed source appended as without
/// it.
pub proof fn law_extraction_survives_failure(
    f: FigmentView,
    failed: EntryView,
    shape: Shape,
    strict: bool,
)
    requires
        failed.data is Err,
    ensures
        extracted(
            FigmentView {
                selected: f.selected,
                explicit: f.explicit,
                entries: f.entries.push(failed),
            },
            shape,
            strict,
        ) == extracted(f, shape, strict),
{
    law_failure_is_isolated(f.entries, failed, f.selected);
}

/// Priority is the order of appending: with the default profile selected, a
/// value that the newest source holds under a key of its default partition,
/// and that is no dictionary, is the value of that key in the merged tree,
/// tagged with the position of that source, whatever the older sources hold.
pub proof fn law_newest_source_wins(entries: Seq<EntryView>, newest: EntryView, key: Seq<char>)
    requires
        declared(newest.data, default_name(), key) is Some,
        !(declared(newest.data, default_name(), key)->0 is Dict),
    ensures
        effective(entries.push(newest), default_name()) is Dict,
        lookup(effective(entries.push(newest), default_name())->Dict_1, key) == Some(
            retag(
                declared(newest.data, default_name(), key)->0,
                default_tag(entries.len() as int),
            ),
        ),
{
    law_append(entries, newest);
    lemma_defaults_is_dict(entries, entries.len() as int);
    law_fold_key_by_key(
        defaults(entries),
        newest.data,
        default_name(),
        default_tag(entries.len() as int),
        key,
    );
}

/// A key that none of the sources from position `from` up to `n` declares in
/// the selected profile holds after them what it held before them.
pub proof fn lemma_selected_untouched(
    entries: Seq<EntryView>,
    selected: Seq<char>,
    key: Seq<char>,
    from: int,
    n: int,
)
    requires
        0 <= from <= n <= entries.len(),
        forall|j: int| from <= j < n ==> declared(#[trigger] entries[j].data, selected, key) is None,
    ensures
        selected_prefix(entries, selected, n) is Dict,
        lookup(selected_prefix(entries, selected, n)->Dict_1, key) == lookup(
            selected_prefix(entries, selected, from)->Dict_1,
            key,
        ),
    decreases n,
{
    lemma_selected_is_dict(entries, selected, n);
    if from < n {
        lemma_selected_untouched(entries, selected, key, from, n - 1);
        lemma_selected_is_dict(entries, selected, n - 1);
        law_fold_key_by_key(
            selected_prefix(entries, selected, n - 1),
            entries[n - 1].data,
            selected,
            selected_tag(n - 1),
            key,
        );
    }
}

/// Default underlies selected, whatever the order of the sources: a value
/// that a source holds under a key of its partition for the selected
/// profile, and that is no dictionary, is the value of that key in the
/// merged tree, unless a newer source declares the key in the same profile.
/// No default partition, of an older source or a newer one, changes that.
pub proof fn law_default_underlies_selected(
    entries: Seq<EntryView>,
    selected: Seq<char>,
    key: Seq<char>,
    i: int,
)
    requires
        selected != default_name(),
        0 <= i < entries.len(),
        declared(entries[i].data, selected, key) is Some,
        !(declared(entries[i].data, selected, key)->0 is Dict),
        forall|j: int|
            i < j < entries.len() ==> declared(#[trigger] entries[j].data, selected, key) is None,
    ensures
        effective(entries, selected) is Dict,
        lookup(effective(entries, selected)->Dict_1, key) == Some(
            retag(declared(entries[i].data, selected, key)->0, selected_tag(i)),
        ),
{
    lemma_selected_is_dict(entries, selected, i);
    law_fold_key_by_key(
        selected_prefix(entries, selected, i),
        entries[i].data,
        selected,
        selected_tag(i),
        key,
    );
    lemma_selected_untouched(entries, selected, key, i + 1, entries.len() as int);
}

/// The fallback: where no source declares the key in the selected profile,
/// the key holds what it holds with the default profile selected.
pub proof fn law_falls_back_to_default(
    entries: Seq<EntryView>,
    selected: Seq<char>,
    key: Seq<char>,
)
    requires
        forall|j: int|
            0 <= j < entries.len() ==> declared(#[trigger] entries[j].data, selected, key) is None,
    ensures
        effective(entries, selected) is Dict,
        effective(entries, default_name()) is Dict,
        lookup(effective(entries, selected)->Dict_1, key) == lookup(
            effective(entries, default_name())->Dict_1,
            key,
        ),
{
    law_merged_tree_is_dict(entries, selected);
    law_merged_tree_is_dict(entries, default_name());
    if selected != default_name() {
        lemma_selected_untouched(entries, selected, key, 0, entries.len() as int);
    }
}

/// The first `n` sources of two sequences that agree on the data give the
/// same default layer and the same failures.
pub proof fn lemma_same_defaults(a: Seq<EntryView>, b: Seq<EntryView>, n: int)
    requires
        0 <= n <= a.len(),
        a.len() == b.len(),
        forall|i: int| 0 <= i < a.len() ==> a[i].data == b[i].data,
    ensures
        defaults_prefix(a, n) == defaults_prefix(b, n),
        failures_prefix(a, n) == failures_prefix(b, n),
    decreases n,
{
    if n > 0 {
        lemma_same_defaults(a, b, n - 1);
    }
}

/// The first `n` sources of two sequences that agree on the data give the
/// same selected layer.
pub proof fn lemma_same_selected(a: Seq<EntryView>, b: Seq<EntryView>, selected: Seq<char>, n: int)
    requires
        0 <= n <= a.len(),
        a.len() == b.len(),
        forall|i: int| 0 <= i < a.len() ==> a[i].data == b[i].data,
    ensures
        selected_prefix(a, selected, n) == selected_prefix(b, selected, n),
    decreases n,
{
    if n > 0 {
        lemma_same_selected(a, b, selected, n - 1);
    } else {
        lemma_same_defaults(a, b, a.len() as int);
    }
}

/// The merged tree and the failures depend on the data of the sources and
/// their order, not on how the sources describe themselves.
pub proof fn law_descriptions_do_not_change_data(
    a: Seq<EntryView>,
    b: Seq<EntryView>,
    selected: Seq<char>,
)
    requires
        a.len() == b.len(),
        forall|i: int| 0 <= i < a.len() ==> a[i].data == b[i].data,
    ensures
        effective(a, selected) == effective(b, selected),
        failures(a) == failures(b),
{
    lemma_same_defaults(a, b, a.len() as int);
    lemma_same_selected(a, b, selected, a.len() as int);
}

/// A renamed source is the source it wraps in everything but the name:
/// whatever its methods return, the wrapped source's methods may return,
/// but for the name in the description.
pub proof fn law_renaming_forwards<T: Provider>(
    named: Named<T>,
    m: Metadata,
    p: Option<Profile>,
    t: Option<Vec<(Tag, Metadata)>>,
    d: Result<Vec<(Profile, Dict)>, String>,
)
    ensures
        may_yield(named, d) ==> may_yield(named.inner(), d),
        may_prefer(named, p) ==> may_prefer(named.inner(), p),
        may_tabulate(named, t) ==> may_tabulate(named.inner(), t),
        may_describe(named, m) ==> exists|inner: Metadata| #[trigger]
            may_describe(named.inner(), inner) && m@ == inner@.renamed(named.label()),
{
}

/// Renaming is transparent to the aggregator: whatever comes of appending a
/// renamed source could have come of appending the wrapped source itself in
/// the same place, but for the name in the last description. The selection,
/// the data of every source, the merged tree and the failures are the same.
pub proof fn law_renaming_is_transparent<T: Provider>(
    named: Named<T>,
    before: FigmentView,
    after: FigmentView,
    selected: Seq<char>,
)
    requires
        takes_in(before, named, after),
    ensures
        exists|plain: FigmentView|
            {
                &&& #[trigger] takes_in(before, named.inner(), plain)
                &&& plain.selected == after.selected
                &&& plain.explicit == after.explicit
                &&& plain.entries.len() == after.entries.len()
                &&& plain.entries.drop_last() == after.entries.drop_last()
                &&& plain.entries.last().data == after.entries.last().data
                &&& plain.entries.last().table == after.entries.last().table
                &&& plain.entries.last().metadata.renamed(named.label())
                    == after.entries.last().metadata
                &&& effective(plain.entries, selected) == effective(after.entries, selected)
                &&& failures(plain.entries) == failures(after.entries)
            },
{
    let (m, p, t, d) = choose|
        m: Metadata,
        p: Option<Profile>,
        t: Option<Vec<(Tag, Metadata)>>,
        d: Result<Vec<(Profile, Dict)>, String>,
    |
        #![trigger may_describe(named, m), may_prefer(named, p), may_tabulate(named, t), may_yield(named, d)]
        {
            &&& may_describe(named, m)
            &&& may_prefer(named, p)
            &&& may_tabulate(named, t)
            &&& may_yield(named, d)
            &&& after == joined(before, m@, preference_view(p), table_view(t), outcome_view(d))
        };
    law_renaming_forwards(named, m, p, t, d);
    let inner = choose|inner: Metadata| #[trigger]
        may_describe(named.inner(), inner) && m@ == inner@.renamed(named.label());
    let plain = joined(before, inner@, preference_view(p), table_view(t), outcome_view(d));
    assert(may_describe(named.inner(), inner) && may_prefer(named.inner(), p) && may_tabulate(
        named.inner(),
        t,
    ) && may_yield(named.inner(), d));
    assert(takes_in(before, named.inner(), plain));
    assert(plain.entries.drop_last() =~= before.entries);
    assert(after.entries.drop_last() =~= before.entries);
    law_descriptions_do_not_change_data(plain.entries, after.entries, selected);
}

} // verus!

//! The hierarchical value model and its merge rule.

use vstd::prelude::*;
use vstd::string::StringExecFns;

verus! {

/// Provenance of a value: which source it came from and whether it was taken
/// from that source's default partition or from the selected one.
#[derive(Clone, Copy, Debug, PartialEq, Eq, Structural)]
pub enum Tag {
    /// The value was built by hand and belongs to no source.
    Absent,
    /// The value came from the source at position `source` of the aggregator.
    Source { source: usize, selected: bool },
}

/// A number: signed or unsigned.
#[derive(Clone, Copy, Debug, PartialEq, Eq, Structural)]
pub enum Num {
    Signed(i64),
    Unsigned(u64),
}

impl Num {
    /// The mathematical integer that the number stands for.
    pub open spec fn as_int(self) -> int {
        match self {
            Num::Signed(i) => i as int,
            Num::Unsigned(u) => u as int,
        }
    }
}

/// An ordered mapping from keys to values.
#[derive(Debug, PartialEq)]
pub struct Dict {
    pub entries: Vec<(String, Value)>,
}

/// A node of the configuration tree.
#[derive(Debug, PartialEq)]
pub enum Value {
    Null(Tag),
    Bool(Tag, bool),
    Num(Tag, Num),
    Str(Tag, String),
    Array(Tag, Vec<Value>),
    Dict(Tag, Dict),
}

/// The entries of a dictionary as a mathematical sequence.
pub type Entries = Seq<(Seq<char>, Tree)>;

/// The mathematical model of a [`Value`].
pub enum Tree {
    Null(Tag),
    Bool(Tag, bool),
    Num(Tag, Num),
    Str(Tag, Seq<char>),
    Array(Tag, Seq<Tree>),
    Dict(Tag, Entries),
}

/// The model of a value, node by node.
pub open spec fn tree_of(v: Value) -> Tree
    decreases v,
{
    match v {
        Value::Null(t) => Tree::Null(t),
        Value::Bool(t, b) => Tree::Bool(t, b),
        Value::Num(t, n) => Tree::Num(t, n),
        Value::Str(t, s) => Tree::Str(t, s@),
        Value::Array(t, items) => Tree::Array(
            t,
            Seq::new(
                items@.len(),
                |i: int|
                    if 0 <= i < items@.len() {
                        tree_of(items@[i])
                    } else {
                        Tree::Null(Tag::Absent)
                    },
            ),
        ),
        Value::Dict(t, d) => Tree::Dict(
            t,
            Seq::new(
                d.entries@.len(),
                |i: int|
                    if 0 <= i < d.entries@.len() {
                        (d.entries@[i].0@, tree_of(d.entries@[i].1))
                    } else {
                        (Seq::empty(), Tree::Null(Tag::Absent))
                    },
            ),
        ),
    }
}

impl View for Value {
    type V = Tree;

    open spec fn view(&self) -> Tree {
        tree_of(*self)
    }
}

impl View for Dict {
    type V = Entries;

    open spec fn view(&self) -> Entries {
        entries_view(self.entries@)
    }
}

/// The model of a sequence of entries: each key's characters beside the model
/// of its value.
pub open spec fn entries_view(entries: Seq<(String, Value)>) -> Entries {
    Seq::new(entries.len(), |i: int| (entries[i].0@, entries[i].1@))
}

/// The model of a sequence of values.
pub open spec fn items_view(items: Seq<Value>) -> Seq<Tree> {
    Seq::new(items.len(), |i: int| items[i]@)
}

/// The model of an array node is the models of its items, and the model of a
/// dictionary node is the model of its dictionary.
pub proof fn lemma_view_unfold(v: Value)
    ensures
        v matches Value::Array(t, items) ==> v@ == Tree::Array(t, items_view(items@)),
        v matches Value::Dict(t, d) ==> v@ == Tree::Dict(t, d@),
{
    match v {
        Value::Array(t, items) => {
            assert(v@->Array_1 =~= items_view(items@));
        },
        Value::Dict(t, d) => {
            assert(v@->Dict_1 =~= d@);
        },
        _ => {},
    }
}

impl Tree {
    /// The tag at the root of the tree.
    pub open spec fn tag(self) -> Tag {
        match self {
            Tree::Null(t) => t,
            Tree::Bool(t, _) => t,
            Tree::Num(t, _) => t,
            Tree::Str(t, _) => t,
            Tree::Array(t, _) => t,
            Tree::Dict(t, _) => t,
        }
    }
}

/// A copy of a sequence of values, equal to it item by item.
pub fn duplicate_items(items: &Vec<Value>) -> (r: Vec<Value>)
    ensures
        items_view(r@) == items_view(items@),
    decreases items,
{
    let mut out: Vec<Value> = Vec::new();
    let mut i: usize = 0;
    while i < items.len()
        invariant
            i <= items@.len(),
            out@.len() == i,
            forall|j: int| 0 <= j < i ==> (#[trigger] out@[j])@ == items@[j]@,
        decreases items@.len() - i,
    {
        out.push(items[i].duplicate());
        i += 1;
    }
    assert(items_view(out@) =~= items_view(items@));
    out
}

/// Whether two sequences of values are equal item by item.
pub fn same_items(a: &Vec<Value>, b: &Vec<Value>) -> (r: bool)
    ensures
        r == (items_view(a@) == items_view(b@)),
    decreases a,
{
    if a.len() != b.len() {
        assert(items_view(a@).len() != items_view(b@).len());
        return false;
    }
    let mut i: usize = 0;
    while i < a.len()
        invariant
            a@.len() == b@.len(),
            i <= a@.len(),
            forall|j: int| 0 <= j < i ==> (#[trigger] a@[j])@ == b@[j]@,
        decreases a@.len() - i,
    {
        if !a[i].same(&b[i]) {
            assert(items_view(a@)[i as int] != items_view(b@)[i as int]);
            return false;
        }
        i += 1;
    }
    assert(items_view(a@) =~= items_view(b@));
    true
}

/// A copy of a sequence of values with `tag` on every node.
pub fn tag_items(items: &Vec<Value>, tag: Tag) -> (r: Vec<Value>)
    ensures
        r@.len() == items@.len(),
        forall|j: int| 0 <= j < items@.len() ==> (#[trigger] r@[j])@ == retag(items@[j]@, tag),
    decreases items,
{
    let mut out: Vec<Value> = Vec::new();
    let mut i: usize = 0;
    while i < items.len()
        invariant
            i <= items@.len(),
            out@.len() == i,
            forall|j: int| 0 <= j < i ==> (#[trigger] out@[j])@ == retag(items@[j]@, tag),
        decreases items@.len() - i,
    {
        out.push(items[i].tagged(tag));
        i += 1;
    }
    out
}

impl Dict {
    /// A copy of the dictionary as a node, with `tag` on it and on every node
    /// below it.
    pub fn tagged(&self, tag: Tag) -> (r: Value)
        ensures
            r@ == retag(Tree::Dict(tag, self@), tag),
        decreases self,
    {
        let mut out: Vec<(String, Value)> = Vec::new();
        let mut i: usize = 0;
        while i < self.entries.len()
            invariant
                i <= self.entries@.len(),
                out@.len() == i,
                forall|j: int|
                    0 <= j < i ==> (#[trigger] out@[j]).0@ == self.entries@[j].0@ && out@[j].1@
                        == retag(self.entries@[j].1@, tag),
            decreases self.entries@.len() - i,
        {
            let entry = &self.entries[i];
            out.push((entry.0.clone(), entry.1.tagged(tag)));
            i += 1;
        }
        let r = Value::Dict(tag, Dict { entries: out });
        proof {
            lemma_view_unfold(r);
            assert(r@->Dict_1 =~= retag(Tree::Dict(tag, self@), tag)->Dict_1);
        }
        r
    }

    /// Whether the two dictionaries hold equal keys and values in the same
    /// order.
    pub fn same(&self, other: &Dict) -> (r: bool)
        ensures
            r == (self@ == other@),
        decreases self,
    {
        if self.entries.len() != other.entries.len() {
            assert(self@.len() != other@.len());
            return false;
        }
        let mut i: usize = 0;
        while i < self.entries.len()
            invariant
                self.entries@.len() == other.entries@.len(),
                i <= self.entries@.len(),
                forall|j: int| 0 <= j < i ==> #[trigger] self@[j] == other@[j],
            decreases self.entries@.len() - i,
        {
            let mine = &self.entries[i];
            let theirs = &other.entries[i];
            assert(self@[i as int] == (mine.0@, mine.1@));
            assert(other@[i as int] == (theirs.0@, theirs.1@));
            if mine.0 != theirs.0 || !mine.1.same(&theirs.1) {
                return false;
            }
            i += 1;
        }
        assert(self@ =~= other@);
        true
    }

    /// Stores `value` under `key`: in the place of the entry with that key
    /// where there is one, else at the end.
    pub fn insert(&mut self, key: String, value: Value)
        ensures
            final(self)@ == inserted(old(self)@, key@, value@),
    {
        match self.find(&key) {
            Some(i) => {
                self.entries.set(i, (key, value));
                assert(self@ =~= inserted(old(self)@, key@, value@));
            },
            None => {
                self.entries.push((key, value));
                assert(self@ =~= inserted(old(self)@, key@, value@));
            },
        }
    }

    /// An empty dictionary.
    pub fn new() -> (d: Dict)
        ensures
            d@ == Seq::<(Seq<char>, Tree)>::empty(),
    {
        let d = Dict { entries: Vec::new() };
        assert(d@ =~= Seq::<(Seq<char>, Tree)>::empty());
        d
    }

    /// The position of the first entry with the key `key`, if there is one.
    pub fn find(&self, key: &String) -> (r: Option<usize>)
        ensures
            r is Some <==> has_key(self@, key@),
            r matches Some(i) ==> i == position(self@, key@) && i < self.entries@.len(),
    {
        let mut i: usize = 0;
        while i < self.entries.len()
            invariant
                i <= self.entries@.len(),
                self@.len() == self.entries@.len(),
                position(self@, key@) == position_from(self@, key@, i as int),
            decreases self.entries@.len() - i,
        {
            if self.entries[i].0 == *key {
                return Some(i);
            }
            i += 1;
        }
        None
    }

    /// The value stored under `key`, if any.
    pub fn get(&self, key: &String) -> (r: Option<&Value>)
        ensures
            r is Some <==> has_key(self@, key@),
            r matches Some(v) ==> lookup(self@, key@) == Some(v@),
    {
        match self.find(key) {
            Some(i) => Some(&self.entries[i].1),
            None => None,
        }
    }

    /// A copy of the dictionary, equal to it entry by entry.
    pub fn duplicate(&self) -> (r: Dict)
        ensures
            r@ == self@,
        decreases self,
    {
        let mut out: Vec<(String, Value)> = Vec::new();
        let mut i: usize = 0;
        while i < self.entries.len()
            invariant
                i <= self.entries@.len(),
                out@.len() == i,
                forall|j: int|
                    0 <= j < i ==> (#[trigger] out@[j]).0@ == self.entries@[j].0@ && out@[j].1@
                        == self.entries@[j].1@,
            decreases self.entries@.len() - i,
        {
            let entry = &self.entries[i];
            out.push((entry.0.clone(), entry.1.duplicate()));
            i += 1;
        }
        let r = Dict { entries: out };
        assert(r@ =~= self@);
        r
    }

    /// This dictionary merged with `overlay` on top of it.
    pub fn merge(&self, overlay: &Dict) -> (r: Dict)
        ensures
            r@ == merge_entries(self@, overlay@),
        decreases self,
    {
        let ghost absent = |e: (Seq<char>, Tree)| !has_key(self@, e.0);
        let mut out: Vec<(String, Value)> = Vec::new();
        let mut i: usize = 0;
        while i < self.entries.len()
            invariant
                i <= self.entries@.len(),
                out@.len() == i,
                forall|j: int|
                    0 <= j < i ==> (#[trigger] out@[j]).0@ == merge_entry(self@[j], overlay@).0
                        && out@[j].1@ == merge_entry(self@[j], overlay@).1,
            decreases self.entries@.len() - i,
        {
            let entry = &self.entries[i];
            let value = match overlay.get(&entry.0) {
                Some(v) => entry.1.merge_with(v),
                None => entry.1.duplicate(),
            };
            assert(self@[i as int] == (entry.0@, entry.1@));
            assert(value@ == merge_entry(self@[i as int], overlay@).1);
            out.push((entry.0.clone(), value));
            i += 1;
        }
        assert(entries_view(out@) =~= merge_shared(self@, overlay@));
        let mut k: usize = 0;
        assert(overlay@.take(0) =~= Seq::<(Seq<char>, Tree)>::empty());
        assert(entries_view(out@) + overlay@.take(0).filter(absent) =~= entries_view(out@));
        while k < overlay.entries.len()
            invariant
                k <= overlay.entries@.len(),
                overlay@.len() == overlay.entries@.len(),
                absent == |e: (Seq<char>, Tree)| !has_key(self@, e.0),
                entries_view(out@) == merge_shared(self@, overlay@) + overlay@.take(
                    k as int,
                ).filter(absent),
            decreases overlay.entries@.len() - k,
        {
            let entry = &overlay.entries[k];
            proof {
                reveal(Seq::filter);
                assert(overlay@.take(k + 1).drop_last() =~= overlay@.take(k as int));
                assert(overlay@.take(k + 1).last() == overlay@[k as int]);
            }
            if self.find(&entry.0).is_none() {
                let ghost before = entries_view(out@);
                out.push((entry.0.clone(), entry.1.duplicate()));
                assert(entries_view(out@) =~= before.push(overlay@[k as int]));
            }
            k += 1;
        }
        assert(overlay@.take(k as int) =~= overlay@);
        Dict { entries: out }
    }
}

impl Value {
    /// A copy of the value, equal to it node by node.
    pub fn duplicate(&self) -> (r: Value)
        ensures
            r@ == self@,
        decreases self,
    {
        match self {
            Value::Null(t) => Value::Null(*t),
            Value::Bool(t, b) => Value::Bool(*t, *b),
            Value::Num(t, n) => Value::Num(*t, *n),
            Value::Str(t, s) => Value::Str(*t, s.clone()),
            Value::Array(t, items) => {
                let r = Value::Array(*t, duplicate_items(items));
                proof {
                    lemma_view_unfold(r);
                    lemma_view_unfold(*self);
                }
                r
            },
            Value::Dict(t, d) => {
                let r = Value::Dict(*t, d.duplicate());
                proof {
                    lemma_view_unfold(r);
                    lemma_view_unfold(*self);
                }
                r
            },
        }
    }

    /// Whether the two values are equal node by node, tags included.
    pub fn same(&self, other: &Value) -> (r: bool)
        ensures
            r == (self@ == other@),
        decreases self,
    {
        proof {
            lemma_view_unfold(*self);
            lemma_view_unfold(*other);
        }
        match (self, other) {
            (Value::Null(a), Value::Null(b)) => *a == *b,
            (Value::Bool(a, x), Value::Bool(b, y)) => *a == *b && *x == *y,
            (Value::Num(a, x), Value::Num(b, y)) => *a == *b && *x == *y,
            (Value::Str(a, x), Value::Str(b, y)) => *a == *b && *x == *y,
            (Value::Array(a, x), Value::Array(b, y)) => *a == *b && same_items(x, y),
            (Value::Dict(a, x), Value::Dict(b, y)) => *a == *b && x.same(y),
            _ => false,
        }
    }

    /// An untagged null.
    pub fn null() -> (v: Value)
        ensures
            v@ == Tree::Null(Tag::Absent),
    {
        Value::Null(Tag::Absent)
    }

    /// An untagged boolean.
    pub fn from_bool(b: bool) -> (v: Value)
        ensures
            v@ == Tree::Bool(Tag::Absent, b),
    {
        Value::Bool(Tag::Absent, b)
    }

    /// An untagged signed number.
    pub fn from_i64(i: i64) -> (v: Value)
        ensures
            v@ == Tree::Num(Tag::Absent, Num::Signed(i)),
    {
        Value::Num(Tag::Absent, Num::Signed(i))
    }

    /// An untagged unsigned number.
    pub fn from_u64(u: u64) -> (v: Value)
        ensures
            v@ == Tree::Num(Tag::Absent, Num::Unsigned(u)),
    {
        Value::Num(Tag::Absent, Num::Unsigned(u))
    }

    /// An untagged string.
    pub fn from_str(s: &str) -> (v: Value)
        ensures
            v@ == Tree::Str(Tag::Absent, s@),
    {
        Value::Str(Tag::Absent, String::from_str(s))
    }

    /// An untagged array of the items.
    pub fn from_items(items: Vec<Value>) -> (v: Value)
        ensures
            v@ == Tree::Array(Tag::Absent, items_view(items@)),
    {
        let v = Value::Array(Tag::Absent, items);
        proof {
            lemma_view_unfold(v);
        }
        v
    }

    /// An untagged node that holds the dictionary.
    pub fn from_dict(d: Dict) -> (v: Value)
        ensures
            v@ == Tree::Dict(Tag::Absent, d@),
    {
        let v = Value::Dict(Tag::Absent, d);
        proof {
            lemma_view_unfold(v);
        }
        v
    }

    /// A copy of the value with `tag` on every node.
    pub fn tagged(&self, tag: Tag) -> (r: Value)
        ensures
            r@ == retag(self@, tag),
        decreases self,
    {
        match self {
            Value::Null(_) => Value::Null(tag),
            Value::Bool(_, b) => Value::Bool(tag, *b),
            Value::Num(_, n) => Value::Num(tag, *n),
            Value::Str(_, s) => Value::Str(tag, s.clone()),
            Value::Array(_, items) => {
                let r = Value::Array(tag, tag_items(items, tag));
                proof {
                    lemma_view_unfold(r);
                    lemma_view_unfold(*self);
                    assert(r@->Array_1 =~= retag(self@, tag)->Array_1);
                }
                r
            },
            Value::Dict(_, d) => {
                proof {
                    lemma_view_unfold(*self);
                }
                d.tagged(tag)
            },
        }
    }

    /// This value merged with `overlay` on top of it, both left as they are.
    pub fn merge_with(&self, overlay: &Value) -> (r: Value)
        ensures
            r@ == merge_tree(self@, overlay@),
        decreases self,
    {
        match (self, overlay) {
            (Value::Dict(t, b), Value::Dict(_, o)) => {
                let r = Value::Dict(*t, b.merge(o));
                proof {
                    lemma_view_unfold(r);
                    lemma_view_unfold(*self);
                    lemma_view_unfold(*overlay);
                }
                r
            },
            _ => overlay.duplicate(),
        }
    }

    /// Whether this node is a dictionary.
    pub fn is_dict(&self) -> (b: bool)
        ensures
            b == (self@ is Dict),
    {
        match self {
            Value::Dict(_, _) => true,
            _ => false,
        }
    }

    /// The merge of `overlay` onto this value: two dictionaries merge key by
    /// key, anything else is replaced by the overlay.
    pub fn merge(self, overlay: Value) -> (r: Value)
        ensures
            r@ == merge_tree(self@, overlay@),
    {
        if self.is_dict() && overlay.is_dict() {
            self.merge_with(&overlay)
        } else {
            overlay
        }
    }

    /// The tag attached to this node.
    pub fn tag(&self) -> (t: Tag)
        ensures
            t == self@.tag(),
    {
        match self {
            Value::Null(t) => *t,
            Value::Bool(t, _) => *t,
            Value::Num(t, _) => *t,
            Value::Str(t, _) => *t,
            Value::Array(t, _) => *t,
            Value::Dict(t, _) => *t,
        }
    }
}

/// The position of the first entry at or after `from` whose key is `key`, or
/// the number of entries where there is none.
pub open spec fn position_from(entries: Entries, key: Seq<char>, from: int) -> int
    decreases entries.len() - from,
{
    if from < 0 || from >= entries.len() {
        entries.len() as int
    } else if entries[from].0 == key {
        from
    } else {
        position_from(entries, key, from + 1)
    }
}

/// The position of the first entry whose key is `key`, or the number of
/// entries where there is none.
pub open spec fn position(entries: Entries, key: Seq<char>) -> int {
    position_from(entries, key, 0)
}

/// Whether some entry has the key `key`.
pub open spec fn has_key(entries: Entries, key: Seq<char>) -> bool {
    position(entries, key) < entries.len()
}

/// The value stored under `key`, if any.
pub open spec fn lookup(entries: Entries, key: Seq<char>) -> Option<Tree> {
    if has_key(entries, key) {
        Some(entries[position(entries, key)].1)
    } else {
        None
    }
}

/// No key occurs twice.
pub open spec fn unique_keys(entries: Entries) -> bool {
    forall|i: int, j: int|
        0 <= i < j < entries.len() ==> (#[trigger] entries[i]).0 != (#[trigger] entries[j]).0
}

/// Every dictionary in the tree has unique keys.
pub open spec fn well_formed(tree: Tree) -> bool
    decreases tree,
{
    match tree {
        Tree::Array(_, items) => forall|i: int|
            0 <= i < items.len() ==> well_formed(#[trigger] items[i]),
        Tree::Dict(_, entries) => unique_keys(entries) && forall|i: int|
            0 <= i < entries.len() ==> well_formed((#[trigger] entries[i]).1),
        _ => true,
    }
}

/// A dictionary after `value` has been stored under `key`: in the place of
/// the first entry with that key where there is one, else at the end.
pub open spec fn inserted(entries: Entries, key: Seq<char>, value: Tree) -> Entries {
    if has_key(entries, key) {
        entries.update(position(entries, key), (key, value))
    } else {
        entries.push((key, value))
    }
}

/// The same tree with `tag` on every node.
pub open spec fn retag(tree: Tree, tag: Tag) -> Tree
    decreases tree,
{
    match tree {
        Tree::Null(_) => Tree::Null(tag),
        Tree::Bool(_, b) => Tree::Bool(tag, b),
        Tree::Num(_, n) => Tree::Num(tag, n),
        Tree::Str(_, s) => Tree::Str(tag, s),
        Tree::Array(_, items) => Tree::Array(
            tag,
            Seq::new(
                items.len(),
                |i: int|
                    if 0 <= i < items.len() {
                        retag(items[i], tag)
                    } else {
                        Tree::Null(tag)
                    },
            ),
        ),
        Tree::Dict(_, entries) => Tree::Dict(
            tag,
            Seq::new(
                entries.len(),
                |i: int|
                    if 0 <= i < entries.len() {
                        (entries[i].0, retag(entries[i].1, tag))
                    } else {
                        (Seq::empty(), Tree::Null(tag))
                    },
            ),
        ),
    }
}

/// The merge rule. Two dictionaries merge key by key and keep the tag of the
/// base; in every other case the overlay replaces the base whole.
pub open spec fn merge_tree(base: Tree, overlay: Tree) -> Tree
    decreases base,
{
    match (base, overlay) {
        (Tree::Dict(t, b), Tree::Dict(_, o)) => Tree::Dict(t, merge_entries(b, o)),
        _ => overlay,
    }
}

/// The entry of the merged dictionary that stands where `entry` stood in the
/// base: merged with the overlay's value for the same key where there is one.
pub open spec fn merge_entry(entry: (Seq<char>, Tree), overlay: Entries) -> (Seq<char>, Tree)
    decreases entry, 0int,
{
    match lookup(overlay, entry.0) {
        Some(v) => (entry.0, merge_tree(entry.1, v)),
        None => entry,
    }
}

/// The entries of the base in their order, each merged with the overlay.
pub open spec fn merge_shared(base: Entries, overlay: Entries) -> Entries
    decreases base, 1int,
{
    Seq::new(
        base.len(),
        |i: int|
            if 0 <= i < base.len() {
                merge_entry(base[i], overlay)
            } else {
                (Seq::empty(), Tree::Null(Tag::Absent))
            },
    )
}

/// Key by key: the entries of the base in their order, each merged with the
/// overlay's value for its key, then the overlay's other entries in theirs.
pub open spec fn merge_entries(base: Entries, overlay: Entries) -> Entries
    decreases base, 2int,
{
    merge_shared(base, overlay) + overlay.filter(|e: (Seq<char>, Tree)| !has_key(base, e.0))
}

} // verus!

//! Decoding the merged tree against a declared shape.

use vstd::prelude::*;
use crate::error::path_view;
use crate::error::Error;
use crate::error::ErrorView;
use crate::error::Kind;
use crate::figment::effective;
use crate::figment::Figment;
use crate::figment::FigmentView;
use crate::value::entries_view;
use crate::value::items_view;
use crate::value::lemma_view_unfold;
use crate::value::lookup;
use crate::value::Dict;
use crate::value::Entries;
use crate::value::Num;
use crate::value::Tag;
use crate::value::Tree;
use crate::value::Value;

verus! {

/// The width of an integer type.
#[derive(Clone, Copy, Debug, PartialEq, Eq, Structural)]
pub enum Width {
    W8,
    W16,
    W32,
    W64,
}

/// The shape that the caller expects of a value.
#[derive(Debug)]
pub enum Shape {
    /// Any value, taken as it is.
    Any,
    /// A boolean.
    Bool,
    /// A string.
    Str,
    /// A number that a signed integer of the given width holds.
    Signed(Width),
    /// A number that an unsigned integer of the given width holds.
    Unsigned(Width),
    /// A sequence of values of one shape.
    Array(Box<Shape>),
    /// A dictionary with the given fields.
    Record(Vec<Field>),
}

/// One field of a record: its key, whether it must be there, and its shape.
#[derive(Debug)]
pub struct Field {
    pub name: String,
    pub required: bool,
    pub shape: Shape,
}

/// The least value of a signed integer of width `w`.
pub open spec fn least_signed(w: Width) -> int {
    match w {
        Width::W8 => -0x80,
        Width::W16 => -0x8000,
        Width::W32 => -0x8000_0000,
        Width::W64 => -0x8000_0000_0000_0000,
    }
}

/// The greatest value of a signed integer of width `w`.
pub open spec fn greatest_signed(w: Width) -> int {
    match w {
        Width::W8 => 0x7f,
        Width::W16 => 0x7fff,
        Width::W32 => 0x7fff_ffff,
        Width::W64 => 0x7fff_ffff_ffff_ffff,
    }
}

/// The greatest value of an unsigned integer of width `w`.
pub open spec fn greatest_unsigned(w: Width) -> int {
    match w {
        Width::W8 => 0xff,
        Width::W16 => 0xffff,
        Width::W32 => 0xffff_ffff,
        Width::W64 => 0xffff_ffff_ffff_ffff,
    }
}

/// The failure at `path` of kind `kind`, with the provenance `tag`.
pub open spec fn failure(kind: Kind, path: Seq<Seq<char>>, tag: Tag) -> ErrorView {
    ErrorView { kind, path, tag, message: Seq::empty() }
}

/// Whether some field among the first `n` has the name `key`.
pub open spec fn names(fields: Seq<Field>, key: Seq<char>, n: int) -> bool
    decreases n,
{
    if n <= 0 {
        false
    } else {
        fields[n - 1].name@ == key || names(fields, key, n - 1)
    }
}

/// The first of the first `n` entries whose key no field names, as a
/// failure; `None` where every key is named.
pub open spec fn unknown_among(
    entries: Entries,
    fields: Seq<Field>,
    path: Seq<Seq<char>>,
    n: int,
) -> Option<ErrorView>
    decreases n,
{
    if n <= 0 {
        None
    } else {
        match unknown_among(entries, fields, path, n - 1) {
            Some(e) => Some(e),
            None => if names(fields, entries[n - 1].0, fields.len() as int) {
                None
            } else {
                Some(
                    failure(Kind::UnknownField, path.push(entries[n - 1].0), entries[n - 1].1.tag()),
                )
            },
        }
    }
}

/// A scalar decoded against a scalar shape: the value itself where it has
/// the shape, a number in the form of the target where the target holds it
/// exactly, and a type mismatch with the value's tag in every other case.
pub open spec fn decoded_scalar(tree: Tree, shape: Shape, path: Seq<Seq<char>>) -> Result<
    Tree,
    ErrorView,
> {
    match (shape, tree) {
        (Shape::Any, _) => Ok(tree),
        (Shape::Bool, Tree::Bool(_, _)) => Ok(tree),
        (Shape::Str, Tree::Str(_, _)) => Ok(tree),
        (Shape::Signed(w), Tree::Num(t, n)) if least_signed(w) <= n.as_int() <= greatest_signed(w) => Ok(
            Tree::Num(t, Num::Signed(n.as_int() as i64)),
        ),
        (Shape::Unsigned(w), Tree::Num(t, n)) if 0 <= n.as_int() <= greatest_unsigned(w) => Ok(
            Tree::Num(t, Num::Unsigned(n.as_int() as u64)),
        ),
        _ => Err(failure(Kind::TypeMismatch, path, tree.tag())),
    }
}

/// The tree decoded against the shape. Walking stops at the first failure.
pub open spec fn decoded(tree: Tree, shape: Shape, path: Seq<Seq<char>>, strict: bool) -> Result<
    Tree,
    ErrorView,
>
    decreases shape, 1int, 0int,
{
    match (shape, tree) {
        (Shape::Array(item), Tree::Array(t, items)) => match decoded_items(
            items,
            *item,
            path,
            strict,
            items.len() as int,
        ) {
            Ok(out) => Ok(Tree::Array(t, out)),
            Err(e) => Err(e),
        },
        (Shape::Record(fields), Tree::Dict(t, entries)) => {
            let unknown = unknown_among(entries, fields@, path, entries.len() as int);
            if strict && unknown is Some {
                Err(unknown->0)
            } else {
                match decoded_fields(entries, shape, path, strict, fields@.len() as int) {
                    Ok(out) => Ok(Tree::Dict(t, out)),
                    Err(e) => Err(e),
                }
            }
        },
        (Shape::Array(_), _) => Err(failure(Kind::TypeMismatch, path, tree.tag())),
        (Shape::Record(_), _) => Err(failure(Kind::TypeMismatch, path, tree.tag())),
        _ => decoded_scalar(tree, shape, path),
    }
}

/// The first `n` items decoded against one shape, or the first failure.
pub open spec fn decoded_items(
    items: Seq<Tree>,
    shape: Shape,
    path: Seq<Seq<char>>,
    strict: bool,
    n: int,
) -> Result<Seq<Tree>, ErrorView>
    decreases shape, 2int, n,
{
    if n <= 0 {
        Ok(Seq::empty())
    } else {
        match decoded_items(items, shape, path, strict, n - 1) {
            Err(e) => Err(e),
            Ok(out) => match decoded(items[n - 1], shape, path, strict) {
                Err(e) => Err(e),
                Ok(v) => Ok(out.push(v)),
            },
        }
    }
}

/// The first `n` fields of a record shape decoded from the entries, in the
/// order of the fields, or the first failure. A field whose key is there is
/// decoded against its shape, with the key added to the path. A field whose
/// key is not there is a failure without provenance if it is required, and
/// is left out if it is not.
pub open spec fn decoded_fields(
    entries: Entries,
    record: Shape,
    path: Seq<Seq<char>>,
    strict: bool,
    n: int,
) -> Result<Entries, ErrorView>
    decreases record, 0int, n,
{
    match record {
        Shape::Record(fields) => if n <= 0 || n > fields@.len() {
            Ok(Seq::empty())
        } else {
            match decoded_fields(entries, record, path, strict, n - 1) {
                Err(e) => Err(e),
                Ok(out) => {
                    let here = path.push(fields@[n - 1].name@);
                    match lookup(entries, fields@[n - 1].name@) {
                        Some(v) => match decoded(v, fields@[n - 1].shape, here, strict) {
                            Err(e) => Err(e),
                            Ok(d) => Ok(out.push((fields@[n - 1].name@, d))),
                        },
                        None => if fields@[n - 1].required {
                            Err(failure(Kind::MissingField, here, Tag::Absent))
                        } else {
                            Ok(out)
                        },
                    }
                },
            }
        },
        _ => Ok(Seq::empty()),
    }
}

/// The model of the result of a decoding.
pub open spec fn decoding_view(r: Result<Value, Error>) -> Result<Tree, ErrorView> {
    match r {
        Ok(v) => Ok(v@),
        Err(e) => Err(e@),
    }
}

/// What an extraction gives: a failure where the selected profile has an
/// empty name, else the merged tree for that profile decoded from the root.
pub open spec fn extracted(f: FigmentView, shape: Shape, strict: bool) -> Result<Tree, ErrorView> {
    if f.selected.len() == 0 {
        Err(failure(Kind::InvalidProfile, Seq::empty(), Tag::Absent))
    } else {
        decoded(effective(f.entries, f.selected), shape, Seq::empty(), strict)
    }
}

/// Once an item has failed, the failure is that of every longer prefix.
pub proof fn lemma_item_failure_stays(
    items: Seq<Tree>,
    shape: Shape,
    path: Seq<Seq<char>>,
    strict: bool,
    i: int,
    n: int,
)
    requires
        0 <= i <= n,
        decoded_items(items, shape, path, strict, i) is Err,
    ensures
        decoded_items(items, shape, path, strict, n) == decoded_items(items, shape, path, strict, i),
    decreases n,
{
    if i < n {
        lemma_item_failure_stays(items, shape, path, strict, i, n - 1);
    }
}

/// Once a field has failed, the failure is that of every longer prefix.
pub proof fn lemma_field_failure_stays(
    entries: Entries,
    record: Shape,
    path: Seq<Seq<char>>,
    strict: bool,
    i: int,
    n: int,
)
    requires
        record is Record,
        0 <= i <= n <= record->Record_0@.len(),
        decoded_fields(entries, record, path, strict, i) is Err,
    ensures
        decoded_fields(entries, record, path, strict, n) == decoded_fields(
            entries,
            record,
            path,
            strict,
            i,
        ),
    decreases n,
{
    if i < n {
        lemma_field_failure_stays(entries, record, path, strict, i, n - 1);
    }
}

/// A required field that the merged tree lacks: where the first field of a
/// record is required and the dictionary has no such key, decoding fails
/// with a missing field at the path of that field, without provenance. In
/// strict mode this is stated of the empty dictionary.
pub proof fn law_missing_required_field(
    t: Tag,
    entries: Entries,
    record: Shape,
    path: Seq<Seq<char>>,
    strict: bool,
)
    requires
        record is Record,
        record->Record_0@.len() > 0,
        record->Record_0@[0].required,
        lookup(entries, record->Record_0@[0].name@) is None,
        !strict || entries.len() == 0,
    ensures
        decoded(Tree::Dict(t, entries), record, path, strict) == Err::<Tree, ErrorView>(
            failure(Kind::MissingField, path.push(record->Record_0@[0].name@), Tag::Absent),
        ),
{
    let fields = record->Record_0;
    assert(decoded_fields(entries, record, path, strict, 0) == Ok::<Entries, ErrorView>(
        Seq::empty(),
    ));
    assert(decoded_fields(entries, record, path, strict, 1) is Err);
    lemma_field_failure_stays(entries, record, path, strict, 1, fields@.len() as int);
}

/// Once an unknown key has been found, it is the one reported for every
/// longer prefix.
pub proof fn lemma_unknown_stays(
    entries: Entries,
    fields: Seq<Field>,
    path: Seq<Seq<char>>,
    i: int,
    n: int,
)
    requires
        0 <= i <= n,
        unknown_among(entries, fields, path, i) is Some,
    ensures
        unknown_among(entries, fields, path, n) == unknown_among(entries, fields, path, i),
    decreases n,
{
    if i < n {
        lemma_unknown_stays(entries, fields, path, i, n - 1);
    }
}

/// A copy of the path.
pub fn copy_path(path: &Vec<String>) -> (r: Vec<String>)
    ensures
        path_view(r@) == path_view(path@),
{
    let mut out: Vec<String> = Vec::new();
    let mut i: usize = 0;
    while i < path.len()
        invariant
            i <= path@.len(),
            out@.len() == i,
            forall|j: int| 0 <= j < i ==> (#[trigger] out@[j])@ == path@[j]@,
        decreases path@.len() - i,
    {
        out.push(path[i].clone());
        i += 1;
    }
    assert(path_view(out@) =~= path_view(path@));
    out
}

/// The path with one more key at its end.
pub fn extend(path: &Vec<String>, key: &String) -> (r: Vec<String>)
    ensures
        path_view(r@) == path_view(path@).push(key@),
{
    let mut out = copy_path(path);
    let ghost before = path_view(out@);
    out.push(key.clone());
    assert(path_view(out@) =~= before.push(key@));
    out
}

/// The failure of kind `kind` at `path`, with the provenance `tag`.
pub fn fail(kind: Kind, path: Vec<String>, tag: Tag) -> (e: Error)
    ensures
        e@ == failure(kind, path_view(path@), tag),
{
    Error { kind, path, tag, message: String::new() }
}

/// The failure of kind `kind` at the place that `path` leads to.
pub fn fail_at(kind: Kind, path: &Vec<String>, tag: Tag) -> (e: Error)
    ensures
        e@ == failure(kind, path_view(path@), tag),
{
    fail(kind, copy_path(path), tag)
}

/// The number as a signed integer of width `w`, where that holds it.
pub fn to_signed(n: Num, w: Width) -> (r: Option<i64>)
    ensures
        r == if least_signed(w) <= n.as_int() <= greatest_signed(w) {
            Some(n.as_int() as i64)
        } else {
            None
        },
{
    let (low, high): (i64, i64) = match w {
        Width::W8 => (-0x80, 0x7f),
        Width::W16 => (-0x8000, 0x7fff),
        Width::W32 => (-0x8000_0000, 0x7fff_ffff),
        Width::W64 => (i64::MIN, i64::MAX),
    };
    match n {
        Num::Signed(i) => if low <= i && i <= high {
            Some(i)
        } else {
            None
        },
        Num::Unsigned(u) => if u <= high as u64 {
            Some(u as i64)
        } else {
            None
        },
    }
}

/// The number as an unsigned integer of width `w`, where that holds it.
pub fn to_unsigned(n: Num, w: Width) -> (r: Option<u64>)
    ensures
        r == if 0 <= n.as_int() <= greatest_unsigned(w) {
            Some(n.as_int() as u64)
        } else {
            None
        },
{
    let high: u64 = match w {
        Width::W8 => 0xff,
        Width::W16 => 0xffff,
        Width::W32 => 0xffff_ffff,
        Width::W64 => u64::MAX,
    };
    match n {
        Num::Signed(i) => if i >= 0 && i as u64 <= high {
            Some(i as u64)
        } else {
            None
        },
        Num::Unsigned(u) => if u <= high {
            Some(u)
        } else {
            None
        },
    }
}

/// Whether some field has the name `key`.
pub fn is_named(fields: &Vec<Field>, key: &String) -> (b: bool)
    ensures
        b == names(fields@, key@, fields@.len() as int),
{
    let mut i: usize = 0;
    while i < fields.len()
        invariant
            i <= fields@.len(),
            !names(fields@, key@, i as int),
        decreases fields@.len() - i,
    {
        if fields[i].name == *key {
            proof {
                lemma_named_stays(fields@, key@, i + 1, fields@.len() as int);
            }
            return true;
        }
        i += 1;
    }
    false
}

/// A name found among the first `i` fields is found among the first `n`.
pub proof fn lemma_named_stays(fields: Seq<Field>, key: Seq<char>, i: int, n: int)
    requires
        0 <= i <= n,
        names(fields, key, i),
    ensures
        names(fields, key, n),
    decreases n,
{
    if i < n {
        lemma_named_stays(fields, key, i, n - 1);
    }
}

/// The first entry whose key no field names, as a failure.
pub fn find_unknown(d: &Dict, fields: &Vec<Field>, path: &Vec<String>) -> (r: Option<Error>)
    ensures
        match r {
            Some(e) => unknown_among(d@, fields@, path_view(path@), d@.len() as int) == Some(e@),
            None => unknown_among(d@, fields@, path_view(path@), d@.len() as int) is None,
        },
{
    let mut i: usize = 0;
    while i < d.entries.len()
        invariant
            i <= d.entries@.len(),
            d@.len() == d.entries@.len(),
            unknown_among(d@, fields@, path_view(path@), i as int) is None,
        decreases d.entries@.len() - i,
    {
        let entry = &d.entries[i];
        assert(d@[i as int] == (entry.0@, entry.1@));
        if !is_named(fields, &entry.0) {
            let e = fail(Kind::UnknownField, extend(path, &entry.0), entry.1.tag());
            proof {
                lemma_unknown_stays(d@, fields@, path_view(path@), i + 1, d@.len() as int);
            }
            return Some(e);
        }
        i += 1;
    }
    None
}

/// Decodes the items of an array against one shape.
pub fn decode_items(items: &Vec<Value>, shape: &Shape, path: &Vec<String>, strict: bool) -> (r:
    Result<Vec<Value>, Error>)
    ensures
        match r {
            Ok(out) => decoded_items(
                items_view(items@),
                *shape,
                path_view(path@),
                strict,
                items@.len() as int,
            ) == Ok::<Seq<Tree>, ErrorView>(items_view(out@)),
            Err(e) => decoded_items(
                items_view(items@),
                *shape,
                path_view(path@),
                strict,
                items@.len() as int,
            ) == Err::<Seq<Tree>, ErrorView>(e@),
        },
    decreases shape, 1int,
{
    let mut out: Vec<Value> = Vec::new();
    let mut i: usize = 0;
    assert(items_view(out@) =~= Seq::<Tree>::empty());
    while i < items.len()
        invariant
            i <= items@.len(),
            decoded_items(items_view(items@), *shape, path_view(path@), strict, i as int) == Ok::<
                Seq<Tree>,
                ErrorView,
            >(items_view(out@)),
        decreases items@.len() - i,
    {
        match decode(&items[i], shape, path, strict) {
            Ok(v) => {
                let ghost before = items_view(out@);
                out.push(v);
                assert(items_view(out@) =~= before.push(v@));
            },
            Err(e) => {
                proof {
                    lemma_item_failure_stays(
                        items_view(items@),
                        *shape,
                        path_view(path@),
                        strict,
                        i + 1,
                        items@.len() as int,
                    );
                }
                return Err(e);
            },
        }
        i += 1;
    }
    Ok(out)
}

/// Decodes the fields of a record from a dictionary.
pub fn decode_fields(d: &Dict, fields: &Vec<Field>, path: &Vec<String>, strict: bool) -> (r: Result<
    Dict,
    Error,
>)
    ensures
        match r {
            Ok(out) => decoded_fields(
                d@,
                Shape::Record(*fields),
                path_view(path@),
                strict,
                fields@.len() as int,
            ) == Ok::<Entries, ErrorView>(out@),
            Err(e) => decoded_fields(
                d@,
                Shape::Record(*fields),
                path_view(path@),
                strict,
                fields@.len() as int,
            ) == Err::<Entries, ErrorView>(e@),
        },
    decreases fields, 0int,
{
    let ghost record = Shape::Record(*fields);
    let mut out: Vec<(String, Value)> = Vec::new();
    let mut i: usize = 0;
    assert(entries_view(out@) =~= Seq::<(Seq<char>, Tree)>::empty());
    while i < fields.len()
        invariant
            i <= fields@.len(),
            record == Shape::Record(*fields),
            decoded_fields(d@, record, path_view(path@), strict, i as int) == Ok::<
                Entries,
                ErrorView,
            >(entries_view(out@)),
        decreases fields@.len() - i,
    {
        let field = &fields[i];
        let here = extend(path, &field.name);
        let ghost before = entries_view(out@);
        match d.get(&field.name) {
            Some(v) => match decode(v, &field.shape, &here, strict) {
                Ok(decoded_value) => {
                    out.push((field.name.clone(), decoded_value));
                    assert(entries_view(out@) =~= before.push((field.name@, decoded_value@)));
                },
                Err(e) => {
                    proof {
                        lemma_field_failure_stays(
                            d@,
                            record,
                            path_view(path@),
                            strict,
                            i + 1,
                            fields@.len() as int,
                        );
                    }
                    return Err(e);
                },
            },
            None => {
                if field.required {
                    let e = fail(Kind::MissingField, here, Tag::Absent);
                    proof {
                        lemma_field_failure_stays(
                            d@,
                            record,
                            path_view(path@),
                            strict,
                            i + 1,
                            fields@.len() as int,
                        );
                    }
                    return Err(e);
                }
            },
        }
        i += 1;
    }
    Ok(Dict { entries: out })
}

/// Decodes `value` against `shape`. `path` holds the keys that lead to the
/// value; `strict` makes a key that no field names a failure.
pub fn decode(value: &Value, shape: &Shape, path: &Vec<String>, strict: bool) -> (r: Result<
    Value,
    Error,
>)
    ensures
        decoding_view(r) == decoded(value@, *shape, path_view(path@), strict),
    decreases shape, 0int,
{
    proof {
        lemma_view_unfold(*value);
    }
    match shape {
        Shape::Any => Ok(value.duplicate()),
        Shape::Bool => match value {
            Value::Bool(_, _) => Ok(value.duplicate()),
            _ => Err(fail_at(Kind::TypeMismatch, path, value.tag())),
        },
        Shape::Str => match value {
            Value::Str(_, _) => Ok(value.duplicate()),
            _ => Err(fail_at(Kind::TypeMismatch, path, value.tag())),
        },
        Shape::Signed(w) => match value {
            Value::Num(t, n) => match to_signed(*n, *w) {
                Some(i) => Ok(Value::Num(*t, Num::Signed(i))),
                None => Err(fail_at(Kind::TypeMismatch, path, value.tag())),
            },
            _ => Err(fail_at(Kind::TypeMismatch, path, value.tag())),
        },
        Shape::Unsigned(w) => match value {
            Value::Num(t, n) => match to_unsigned(*n, *w) {
                Some(u) => Ok(Value::Num(*t, Num::Unsigned(u))),
                None => Err(fail_at(Kind::TypeMismatch, path, value.tag())),
            },
            _ => Err(fail_at(Kind::TypeMismatch, path, value.tag())),
        },
        Shape::Array(item) => match value {
            Value::Array(t, items) => match decode_items(items, item, path, strict) {
                Ok(out) => {
                    let r = Value::Array(*t, out);
                    proof {
                        lemma_view_unfold(r);
                    }
                    Ok(r)
                },
                Err(e) => Err(e),
            },
            _ => Err(fail_at(Kind::TypeMismatch, path, value.tag())),
        },
        Shape::Record(fields) => match value {
            Value::Dict(t, d) => {
                if strict {
                    if let Some(e) = find_unknown(d, fields, path) {
                        return Err(e);
                    }
                }
                match decode_fields(d, fields, path, strict) {
                    Ok(out) => {
                        let r = Value::Dict(*t, out);
                        proof {
                            lemma_view_unfold(r);
                        }
                        Ok(r)
                    },
                    Err(e) => Err(e),
                }
            },
            _ => Err(fail_at(Kind::TypeMismatch, path, value.tag())),
        },
    }
}

impl Figment {
    /// Merges the sources for the selected profile and decodes the result
    /// against `shape`. Nothing is kept between two calls.
    pub fn extract(&self, shape: &Shape, strict: bool) -> (r: Result<Value, Error>)
        ensures
            decoding_view(r) == extracted(self@, *shape, strict),
    {
        if self.profile().is_empty() {
            let root: Vec<String> = Vec::new();
            assert(path_view(root@) =~= Seq::<Seq<char>>::empty());
            return Err(fail(Kind::InvalidProfile, root, Tag::Absent));
        }
        let resolved = self.resolve();
        let path: Vec<String> = Vec::new();
        assert(path_view(path@) =~= Seq::<Seq<char>>::empty());
        decode(&resolved.tree, shape, &path, strict)
    }
}

} // verus!

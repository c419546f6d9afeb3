use figment2::error::Kind;
use figment2::extract::{decode, Field, Shape, Width};
use figment2::figment::Figment;
use figment2::metadata::Metadata;
use figment2::profile::Profile;
use figment2::provider::Provider;
use figment2::providers::{Literal, Named};
use figment2::value::{Dict, Num, Tag, Value};

fn s(text: &str) -> Value {
    Value::Str(Tag::Absent, text.to_string())
}

fn n(i: i64) -> Value {
    Value::Num(Tag::Absent, Num::Signed(i))
}

fn dict(entries: Vec<(&str, Value)>) -> Dict {
    Dict { entries: entries.into_iter().map(|(k, v)| (k.to_string(), v)).collect() }
}

fn node(entries: Vec<(&str, Value)>) -> Value {
    Value::Dict(Tag::Absent, dict(entries))
}

fn list(items: Vec<Value>) -> Value {
    Value::Array(Tag::Absent, items)
}

fn field(name: &str, required: bool, shape: Shape) -> Field {
    Field { name: name.to_string(), required, shape }
}

fn from(source: usize, selected: bool) -> Tag {
    Tag::Source { source, selected }
}

fn get<'a>(v: &'a Value, key: &str) -> &'a Value {
    match v {
        Value::Dict(_, d) => d.get(&key.to_string()).unwrap(),
        _ => panic!("not a dictionary"),
    }
}

#[test]
fn later_source_overrides_earlier() {
    let first = Literal::defaults("first", dict(vec![("base", s("x"))]));
    let second = Literal::defaults("second", dict(vec![("base", s("y"))]));
    let shape = Shape::Record(vec![field("base", true, Shape::Str)]);
    let out = Figment::new().merge(first).merge(second).extract(&shape, false).unwrap();
    assert_eq!(get(&out, "base"), &Value::Str(from(1, false), "y".to_string()));
}

#[test]
fn reversed_order_reverses_override() {
    let first = Literal::defaults("first", dict(vec![("base", s("x"))]));
    let second = Literal::defaults("second", dict(vec![("base", s("y"))]));
    let shape = Shape::Record(vec![field("base", true, Shape::Str)]);
    let out = Figment::new().merge(second).merge(first).extract(&shape, false).unwrap();
    assert_eq!(get(&out, "base"), &Value::Str(from(1, false), "x".to_string()));
}

#[test]
fn dictionaries_merge_recursively() {
    let base = node(vec![("a", node(vec![("x", n(1)), ("y", n(2))]))]);
    let overlay = node(vec![("a", node(vec![("y", n(3)), ("z", n(4))]))]);
    let merged = base.merge(overlay);
    assert_eq!(merged, node(vec![("a", node(vec![("x", n(1)), ("y", n(3)), ("z", n(4))]))]));
}

#[test]
fn merged_keys_keep_base_order_then_overlay_order() {
    let base = dict(vec![("b", n(1)), ("a", n(2))]);
    let overlay = dict(vec![("z", n(3)), ("a", n(4)), ("c", n(5))]);
    let merged = base.merge(&overlay);
    assert_eq!(merged, dict(vec![("b", n(1)), ("a", n(4)), ("z", n(3)), ("c", n(5))]));
}

#[test]
fn arrays_are_replaced_whole() {
    let base = node(vec![("list", list(vec![n(1), n(2), n(3)]))]);
    let overlay = node(vec![("list", list(vec![n(9)]))]);
    let merged = base.merge(overlay);
    assert_eq!(merged, node(vec![("list", list(vec![n(9)]))]));
}

#[test]
fn mismatched_kinds_are_replaced_by_the_overlay() {
    let base = node(vec![("k", node(vec![("x", n(1))]))]);
    let overlay = node(vec![("k", list(vec![n(7)]))]);
    assert_eq!(base.merge(overlay), node(vec![("k", list(vec![n(7)]))]));
    assert_eq!(n(1).merge(s("t")), s("t"));
    assert_eq!(node(vec![("x", n(1))]).merge(Value::Null(Tag::Absent)), Value::Null(Tag::Absent));
}

#[test]
fn merged_dictionary_keeps_the_tag_of_the_base() {
    let base = Value::Dict(from(0, false), dict(vec![]));
    let overlay = Value::Dict(from(1, false), dict(vec![("k", n(1))]));
    assert_eq!(base.merge(overlay), Value::Dict(from(0, false), dict(vec![("k", n(1))])));
}

fn profiled() -> Literal {
    Literal {
        metadata: Metadata::named("profiled"),
        profile: None,
        data: Ok(vec![
            (Profile::new("default"), dict(vec![("n", n(1))])),
            (Profile::new("prod"), dict(vec![("n", n(2))])),
        ]),
    }
}

#[test]
fn selected_profile_lies_over_default() {
    let shape = Shape::Record(vec![field("n", true, Shape::Signed(Width::W64))]);
    let out = Figment::new().merge(profiled()).select_profile(Profile::new("prod")).extract(&shape, false);
    assert_eq!(get(&out.unwrap(), "n"), &Value::Num(from(0, true), Num::Signed(2)));
}

#[test]
fn undeclared_profile_falls_back_to_default() {
    let shape = Shape::Record(vec![field("n", true, Shape::Signed(Width::W64))]);
    let out = Figment::new().merge(profiled()).select_profile(Profile::new("dev")).extract(&shape, false);
    assert_eq!(get(&out.unwrap(), "n"), &Value::Num(from(0, false), Num::Signed(1)));
}

#[test]
fn profile_names_ignore_ascii_case() {
    assert!(Profile::new("PROD").same(&Profile::new("prod")));
    assert!(Profile::new("Default").is_default());
    assert!(!Profile::new("prod").same(&Profile::new("prod2")));
    assert!(!Profile::new("prod").is_default());
    let shape = Shape::Record(vec![field("n", true, Shape::Signed(Width::W64))]);
    let out = Figment::new().merge(profiled()).select_profile(Profile::new("Prod")).extract(&shape, false);
    assert_eq!(get(&out.unwrap(), "n"), &Value::Num(from(0, true), Num::Signed(2)));
}

#[test]
fn last_declared_preference_wins_until_the_caller_selects() {
    let mut a = profiled();
    a.profile = Some(Profile::new("prod"));
    let mut b = Literal::defaults("b", dict(vec![]));
    b.profile = Some(Profile::new("dev"));
    let f = Figment::new().merge(a).merge(b);
    assert_eq!(f.profile().as_str(), "dev");
    let mut c = Literal::defaults("c", dict(vec![]));
    c.profile = Some(Profile::new("test"));
    let f = f.select_profile(Profile::new("prod")).merge(c);
    assert_eq!(f.profile().as_str(), "prod");
    assert_eq!(f.len(), 3);
    assert_eq!(Figment::new().profile().as_str(), "default");
}

#[test]
fn renaming_leaves_data_and_position_alone() {
    let shape = Shape::Any;
    let plain = Figment::new()
        .merge(Literal::defaults("zero", dict(vec![("k", n(0))])))
        .merge(profiled())
        .merge(Literal::defaults("two", dict(vec![("m", n(5))])))
        .select_profile(Profile::new("prod"));
    let renamed = Figment::new()
        .merge(Literal::defaults("zero", dict(vec![("k", n(0))])))
        .merge(Named::new("custom", profiled()))
        .merge(Literal::defaults("two", dict(vec![("m", n(5))])))
        .select_profile(Profile::new("prod"));
    assert_eq!(plain.extract(&shape, false).unwrap(), renamed.extract(&shape, false).unwrap());
    assert_eq!(plain.metadata(from(1, true)).unwrap().name, "profiled");
    assert_eq!(renamed.metadata(from(1, true)).unwrap().name, "custom");
}

#[test]
fn renaming_changes_only_the_name() {
    let inner = Literal {
        metadata: Metadata::named("inner").source("file.toml"),
        profile: Some(Profile::new("prod")),
        data: Ok(vec![(Profile::new("default"), dict(vec![("n", n(1))]))]),
    };
    let named = Named::new("custom", inner);
    let m = named.metadata();
    assert_eq!(m.name, "custom");
    assert_eq!(m.source, Some("file.toml".to_string()));
    assert!(m.interpolatable);
    assert_eq!(named.profile().unwrap().as_str(), "prod");
    assert!(named.__metadata_map().is_none());
    let data = named.data().unwrap();
    assert_eq!(data.len(), 1);
    assert_eq!(data[0].1, dict(vec![("n", n(1))]));
}

#[test]
fn reports_name_the_renamed_source() {
    let inner = Literal {
        metadata: Metadata::named("inner").source("file.toml"),
        profile: None,
        data: Ok(vec![(Profile::new("default"), dict(vec![("a", node(vec![("b", s("no"))]))]))]),
    };
    let f = Figment::new().merge(Named::new("custom", inner));
    let shape = Shape::Record(vec![field(
        "a",
        true,
        Shape::Record(vec![field("b", true, Shape::Bool)]),
    )]);
    let e = f.extract(&shape, false).unwrap_err();
    assert_eq!(e.kind, Kind::TypeMismatch);
    assert_eq!(e.path, vec!["a".to_string(), "b".to_string()]);
    assert_eq!(e.tag, from(0, false));
    assert_eq!(e.dotted_path(), "a.b");
    assert_eq!(
        f.report(&e),
        "type mismatch: at key \"a.b\" sourced from \"custom\" (file.toml)"
    );
}

#[test]
fn report_without_source_or_origin() {
    let f = Figment::new().merge(Literal::defaults("plain", dict(vec![("a", n(1))])));
    let shape = Shape::Record(vec![field("name", true, Shape::Str)]);
    let e = f.extract(&shape, false).unwrap_err();
    assert_eq!(f.report(&e), "missing field: at key \"name\"");
    let shape = Shape::Record(vec![field("a", true, Shape::Str)]);
    let e = f.extract(&shape, false).unwrap_err();
    assert_eq!(f.report(&e), "type mismatch: at key \"a\" sourced from \"plain\"");
}

#[test]
fn missing_required_field_has_path_and_no_tag() {
    let shape = Shape::Record(vec![field("name", true, Shape::Str)]);
    let e = Figment::new().extract(&shape, false).unwrap_err();
    assert_eq!(e.kind, Kind::MissingField);
    assert_eq!(e.path, vec!["name".to_string()]);
    assert_eq!(e.dotted_path(), "name");
    assert_eq!(e.tag, Tag::Absent);
}

#[test]
fn missing_optional_field_is_left_out() {
    let shape = Shape::Record(vec![
        field("name", false, Shape::Str),
        field("port", true, Shape::Unsigned(Width::W16)),
    ]);
    let f = Figment::new().merge(Literal::defaults("p", dict(vec![("port", n(8080))])));
    let out = f.extract(&shape, false).unwrap();
    assert_eq!(
        out,
        Value::Dict(
            Tag::Absent,
            dict(vec![("port", Value::Num(from(0, false), Num::Unsigned(8080)))])
        )
    );
}

#[test]
fn failed_source_does_not_block_the_others() {
    let first = Literal::failing("broken", "cannot read".to_string());
    let second = Literal::defaults("good", dict(vec![("name", s("app"))]));
    let f = Figment::new().merge(first).merge(second);
    let shape = Shape::Record(vec![field("name", true, Shape::Str)]);
    let out = f.extract(&shape, false).unwrap();
    assert_eq!(get(&out, "name"), &Value::Str(from(1, false), "app".to_string()));
    let resolved = f.resolve();
    assert_eq!(resolved.errors.len(), 1);
    assert_eq!(resolved.errors[0].kind, Kind::SourceError);
    assert_eq!(resolved.errors[0].tag, from(0, false));
    assert_eq!(resolved.errors[0].message, "cannot read");
    assert_eq!(f.metadata(resolved.errors[0].tag).unwrap().name, "broken");
    assert_eq!(
        f.report(&resolved.errors[0]),
        "source error: at key \"\" sourced from \"broken\""
    );
}

#[test]
fn resolve_of_nothing_is_an_empty_untagged_dictionary() {
    let resolved = Figment::new().resolve();
    assert_eq!(resolved.tree, Value::Dict(Tag::Absent, dict(vec![])));
    assert!(resolved.errors.is_empty());
}

#[test]
fn unknown_key_fails_only_in_strict_mode() {
    let f = Figment::new().merge(Literal::defaults("p", dict(vec![("a", n(1)), ("b", n(2))])));
    let shape = Shape::Record(vec![field("a", true, Shape::Signed(Width::W8))]);
    let out = f.extract(&shape, false).unwrap();
    assert_eq!(
        out,
        Value::Dict(Tag::Absent, dict(vec![("a", Value::Num(from(0, false), Num::Signed(1)))]))
    );
    let e = f.extract(&shape, true).unwrap_err();
    assert_eq!(e.kind, Kind::UnknownField);
    assert_eq!(e.path, vec!["b".to_string()]);
    assert_eq!(e.tag, from(0, false));
}

#[test]
fn empty_profile_name_is_invalid() {
    let f = Figment::new().select_profile(Profile::new(""));
    let e = f.extract(&Shape::Any, false).unwrap_err();
    assert_eq!(e.kind, Kind::InvalidProfile);
    assert!(e.path.is_empty());
    assert_eq!(e.tag, Tag::Absent);
}

#[test]
fn numbers_convert_only_where_nothing_is_lost() {
    let path: Vec<String> = Vec::new();
    let ok = decode(&n(127), &Shape::Signed(Width::W8), &path, false).unwrap();
    assert_eq!(ok, n(127));
    assert!(decode(&n(128), &Shape::Signed(Width::W8), &path, false).is_err());
    assert!(decode(&n(-128), &Shape::Signed(Width::W8), &path, false).is_ok());
    assert!(decode(&n(-129), &Shape::Signed(Width::W8), &path, false).is_err());
    let ok = decode(&n(255), &Shape::Unsigned(Width::W8), &path, false).unwrap();
    assert_eq!(ok, Value::Num(Tag::Absent, Num::Unsigned(255)));
    assert!(decode(&n(256), &Shape::Unsigned(Width::W8), &path, false).is_err());
    assert!(decode(&n(-1), &Shape::Unsigned(Width::W64), &path, false).is_err());
    let big = Value::Num(Tag::Absent, Num::Unsigned(u64::MAX));
    assert!(decode(&big, &Shape::Signed(Width::W64), &path, false).is_err());
    assert!(decode(&big, &Shape::Unsigned(Width::W64), &path, false).is_ok());
    let u = Value::Num(Tag::Absent, Num::Unsigned(70000));
    assert!(decode(&u, &Shape::Unsigned(Width::W16), &path, false).is_err());
    assert_eq!(decode(&u, &Shape::Signed(Width::W32), &path, false).unwrap(), n(70000));
    let e = decode(&s("7"), &Shape::Signed(Width::W32), &path, false).unwrap_err();
    assert_eq!(e.kind, Kind::TypeMismatch);
}

#[test]
fn arrays_decode_item_by_item_and_stop_at_the_first_failure() {
    let path = vec!["ports".to_string()];
    let shape = Shape::Array(Box::new(Shape::Unsigned(Width::W8)));
    let good = list(vec![n(1), n(2)]);
    assert_eq!(
        decode(&good, &shape, &path, false).unwrap(),
        list(vec![
            Value::Num(Tag::Absent, Num::Unsigned(1)),
            Value::Num(Tag::Absent, Num::Unsigned(2))
        ])
    );
    let bad = list(vec![n(1), Value::Num(from(3, false), Num::Signed(300)), s("x")]);
    let e = decode(&bad, &shape, &path, false).unwrap_err();
    assert_eq!(e.kind, Kind::TypeMismatch);
    assert_eq!(e.tag, from(3, false));
    assert_eq!(e.path, path);
    assert!(decode(&n(1), &shape, &path, false).is_err());
}

#[test]
fn tagging_reaches_every_node() {
    let d = dict(vec![("a", list(vec![n(1), node(vec![("b", s("x"))])]))]);
    let t = from(4, true);
    let tagged = d.tagged(t);
    let expected = Value::Dict(
        t,
        dict(vec![(
            "a",
            Value::Array(
                t,
                vec![
                    Value::Num(t, Num::Signed(1)),
                    Value::Dict(t, dict(vec![("b", Value::Str(t, "x".to_string()))])),
                ],
            ),
        )]),
    );
    assert_eq!(tagged, expected);
    assert_eq!(tagged.tag(), t);
}

#[test]
fn lookup_finds_the_first_entry_with_the_key() {
    let d = dict(vec![("a", n(1)), ("b", n(2))]);
    assert_eq!(d.find(&"b".to_string()), Some(1));
    assert_eq!(d.find(&"c".to_string()), None);
    assert_eq!(d.get(&"a".to_string()), Some(&n(1)));
    assert_eq!(d.duplicate(), d);
}

#[test]
fn table_rows_override_the_description_of_a_source() {
    let row = (from(0, false), Metadata::named("part"));
    let f = Figment::new().join(Metadata::named("whole"), None, Some(vec![row]), Ok(vec![]));
    assert_eq!(f.metadata(from(0, false)).unwrap().name, "part");
    assert_eq!(f.metadata(from(0, true)).unwrap().name, "whole");
    assert!(f.metadata(from(1, false)).is_none());
    assert!(f.metadata(Tag::Absent).is_none());
}

#[test]
fn tags_resolve_to_their_profile() {
    let f = Figment::new().merge(profiled()).select_profile(Profile::new("prod"));
    assert_eq!(f.profile_for(from(0, true)).unwrap().as_str(), "prod");
    assert_eq!(f.profile_for(from(0, false)).unwrap().as_str(), "default");
    assert!(f.profile_for(Tag::Absent).is_none());
}

#[test]
fn equality_is_node_by_node() {
    let a = node(vec![("a", list(vec![n(1), s("x")])), ("b", Value::from_bool(true))]);
    let b = node(vec![("a", list(vec![n(1), s("x")])), ("b", Value::from_bool(true))]);
    assert!(a.same(&b));
    assert!(a.same(&a.duplicate()));
    let c = node(vec![("a", list(vec![n(1), s("y")])), ("b", Value::from_bool(true))]);
    assert!(!a.same(&c));
    let d = node(vec![("b", Value::from_bool(true)), ("a", list(vec![n(1), s("x")]))]);
    assert!(!a.same(&d));
    assert!(!n(1).same(&Value::Num(from(0, false), Num::Signed(1))));
    assert!(!n(1).same(&Value::from_u64(1)));
    assert!(Value::null().same(&Value::Null(Tag::Absent)));
    assert!(!list(vec![n(1)]).same(&list(vec![n(1), n(2)])));
}

#[test]
fn constructors_build_untagged_values() {
    assert_eq!(Value::from_i64(-3), n(-3));
    assert_eq!(Value::from_u64(3), Value::Num(Tag::Absent, Num::Unsigned(3)));
    assert_eq!(Value::from_str("x"), s("x"));
    assert_eq!(Value::from_bool(false), Value::Bool(Tag::Absent, false));
    assert_eq!(Value::from_items(vec![n(1)]), list(vec![n(1)]));
    assert_eq!(Value::from_dict(dict(vec![("k", n(1))])), node(vec![("k", n(1))]));
    assert_eq!(Value::null().tag(), Tag::Absent);
}

#[test]
fn insert_replaces_in_place_or_appends() {
    let mut d = Dict::new();
    d.insert("a".to_string(), n(1));
    d.insert("b".to_string(), n(2));
    d.insert("a".to_string(), n(3));
    assert_eq!(d, dict(vec![("a", n(3)), ("b", n(2))]));
}

#[test]
fn selected_lies_over_a_newer_default() {
    let newer = Literal::defaults("newer", dict(vec![("n", n(7)), ("m", n(8))]));
    let shape = Shape::Record(vec![
        field("n", true, Shape::Signed(Width::W64)),
        field("m", true, Shape::Signed(Width::W64)),
    ]);
    let f = Figment::new().merge(profiled()).merge(newer);
    let out = f.extract(&shape, false).unwrap();
    assert_eq!(get(&out, "n"), &Value::Num(from(1, false), Num::Signed(7)));
    let f = f.select_profile(Profile::new("prod"));
    let out = f.extract(&shape, false).unwrap();
    assert_eq!(get(&out, "n"), &Value::Num(from(0, true), Num::Signed(2)));
    assert_eq!(get(&out, "m"), &Value::Num(from(1, false), Num::Signed(8)));
}

#[test]
fn one_value() {
    let source = Literal::defaults("inline", dict(vec![("foo", n(42))]));
    let shape = Shape::Record(vec![field("foo", true, Shape::Signed(Width::W64))]);
    let config = Figment::from(source).extract(&shape, false).unwrap();
    assert_eq!(
        config,
        Value::Dict(Tag::Absent, dict(vec![("foo", Value::Num(from(0, false), Num::Signed(42)))]))
    );
}

#[test]
fn each_extraction_starts_from_scratch() {
    let shape = Shape::Record(vec![field("n", true, Shape::Signed(Width::W64))]);
    let f = Figment::new().merge(profiled());
    let a = f.extract(&shape, false).unwrap();
    let f = f.select_profile(Profile::new("prod"));
    let b = f.extract(&shape, false).unwrap();
    let c = f.extract(&shape, false).unwrap();
    assert_eq!(get(&a, "n"), &Value::Num(from(0, false), Num::Signed(1)));
    assert_eq!(get(&b, "n"), &Value::Num(from(0, true), Num::Signed(2)));
    assert_eq!(b, c);
}

struct Counter {
    calls: std::cell::Cell<i64>,
}

impl Provider for Counter {
    fn metadata(&self) -> Metadata {
        Metadata::named("counter")
    }

    fn data(&self) -> Result<Vec<(Profile, Dict)>, String> {
        let seen = self.calls.get();
        self.calls.set(seen + 1);
        if seen == 0 {
            Ok(vec![(Profile::default_profile(), dict(vec![("calls", n(seen))]))])
        } else {
            Err("already read".to_string())
        }
    }

    fn profile(&self) -> Option<Profile> {
        Some(Profile::new("staging"))
    }

    fn __metadata_map(&self) -> Option<Vec<(Tag, Metadata)>> {
        None
    }
}

#[test]
fn a_source_is_asked_once_when_it_is_appended() {
    let f = Figment::new().merge(Named::new("renamed", Counter { calls: std::cell::Cell::new(0) }));
    assert_eq!(f.profile().as_str(), "staging");
    let shape = Shape::Record(vec![field("calls", true, Shape::Unsigned(Width::W8))]);
    let a = f.extract(&shape, false).unwrap();
    let b = f.extract(&shape, false).unwrap();
    assert_eq!(a, b);
    assert_eq!(get(&a, "calls"), &Value::Num(from(0, false), Num::Unsigned(0)));
    assert!(f.resolve().errors.is_empty());
    assert_eq!(f.metadata(from(0, false)).unwrap().name, "renamed");
}

#[test]
fn the_outermost_name_wins() {
    let inner = Literal::defaults("inner", dict(vec![("a", s("x"))]));
    let f = Figment::new().merge(Named::new("outer", Named::new("middle", inner)));
    let shape = Shape::Record(vec![field("a", true, Shape::Bool)]);
    let e = f.extract(&shape, false).unwrap_err();
    assert_eq!(f.report(&e), "type mismatch: at key \"a\" sourced from \"outer\"");
}

#[test]
fn lookup_does_not_depend_on_the_order_of_entries() {
    let a = dict(vec![("x", n(1)), ("y", n(2)), ("z", n(3))]);
    let b = dict(vec![("z", n(3)), ("x", n(1)), ("y", n(2))]);
    for key in ["x", "y", "z"] {
        assert_eq!(a.get(&key.to_string()), b.get(&key.to_string()));
    }
}

use zekuromu::data::{DataKey, RawData};
use zekuromu::engine::merge_all;

fn key(s: &str) -> DataKey {
    DataKey(s.to_owned())
}

fn num(x: f64) -> RawData {
    RawData::Number(x.to_bits())
}

fn text(s: &str) -> RawData {
    RawData::String(s.to_owned())
}

fn map(entries: Vec<(&str, RawData)>) -> RawData {
    RawData::Mapping(entries.into_iter().map(|(k, v)| (key(k), v)).collect())
}

fn entries(d: &RawData) -> &Vec<(DataKey, RawData)> {
    match d {
        RawData::Mapping(es) => es,
        _ => panic!("not a mapping"),
    }
}

fn keys(d: &RawData) -> Vec<String> {
    entries(d).iter().map(|(k, _)| k.0.clone()).collect()
}

fn get<'a>(d: &'a RawData, k: &str) -> &'a RawData {
    &entries(d).iter().find(|(key, _)| key.0 == k).unwrap().1
}

fn sample() -> RawData {
    map(vec![
        ("a", num(1.0)),
        ("b", map(vec![("x", num(1.0)), ("y", RawData::Sequence(vec![text("s"), RawData::Null]))])),
        ("c", RawData::Boolean(true)),
    ])
}

fn same(a: &RawData, b: &RawData) -> bool {
    format!("{:?}", a) == format!("{:?}", b)
}

#[test]
fn merge_with_itself_is_identity() {
    let merged = sample().recursive_merge(sample());
    assert!(same(&merged, &sample()));
    let leaf = num(2.5).recursive_merge(num(2.5));
    assert!(same(&leaf, &num(2.5)));
}

#[test]
fn merge_keys_are_the_union() {
    let a = map(vec![("a", num(1.0)), ("b", num(2.0))]);
    let b = map(vec![("c", num(3.0)), ("a", num(4.0))]);
    let merged = a.recursive_merge(b);
    assert_eq!(keys(&merged), vec!["a", "b", "c"]);
}

#[test]
fn merge_overlay_wins_on_leaves() {
    let a = map(vec![("a", num(1.0)), ("b", map(vec![("x", num(1.0))]))]);
    let b = map(vec![("a", text("over")), ("b", num(9.0))]);
    let merged = a.recursive_merge(b);
    assert!(same(get(&merged, "a"), &text("over")));
    assert!(same(get(&merged, "b"), &num(9.0)));
}

#[test]
fn merge_recurses_into_mappings() {
    let a = map(vec![("b", map(vec![("x", num(1.0)), ("z", num(3.0))]))]);
    let b = map(vec![("b", map(vec![("y", num(2.0)), ("x", num(5.0))]))]);
    let merged = a.recursive_merge(b);
    let inner = get(&merged, "b");
    assert_eq!(keys(inner), vec!["x", "z", "y"]);
    assert!(same(get(inner, "x"), &num(5.0)));
    assert!(same(get(inner, "z"), &num(3.0)));
    assert!(same(get(inner, "y"), &num(2.0)));
}

#[test]
fn merge_non_mapping_overlay_replaces() {
    let merged = sample().recursive_merge(RawData::Sequence(vec![num(1.0)]));
    assert!(same(&merged, &RawData::Sequence(vec![num(1.0)])));
    let merged = num(1.0).recursive_merge(sample());
    assert!(same(&merged, &sample()));
    let merged = RawData::Null.recursive_merge(RawData::Boolean(false));
    assert!(same(&merged, &RawData::Boolean(false)));
}

#[test]
fn merge_is_not_commutative() {
    let ab = num(1.0).recursive_merge(num(2.0));
    let ba = num(2.0).recursive_merge(num(1.0));
    assert!(same(&ab, &num(2.0)));
    assert!(same(&ba, &num(1.0)));
}

#[test]
fn merge_all_applies_overlays_in_order() {
    let base = map(vec![("a", num(1.0))]);
    let overlays = vec![map(vec![("a", num(2.0)), ("b", num(1.0))]), map(vec![("a", num(3.0))])];
    let merged = merge_all(base, &overlays);
    assert_eq!(keys(&merged), vec!["a", "b"]);
    assert!(same(get(&merged, "a"), &num(3.0)));
    let alone = merge_all(map(vec![("a", num(1.0))]), &vec![]);
    assert!(same(&alone, &map(vec![("a", num(1.0))])));
}

#[test]
fn well_formedness_is_checked() {
    assert!(sample().is_well_formed());
    let dup = map(vec![("a", map(vec![("y", num(2.0))])), ("a", map(vec![("x", num(1.0))]))]);
    assert!(!dup.is_well_formed());
    let nested_dup = RawData::Sequence(vec![map(vec![("k", num(1.0)), ("k", num(2.0))])]);
    assert!(!nested_dup.is_well_formed());
    // Merging such a document with itself does not give it back.
    let copy = map(vec![("a", map(vec![("y", num(2.0))])), ("a", map(vec![("x", num(1.0))]))]);
    assert!(!same(&dup.recursive_merge(copy), &map(vec![("a", map(vec![("y", num(2.0))])), ("a", map(vec![("x", num(1.0))]))])));
}

#[test]
fn merge_keeps_keys_unique() {
    let a = map(vec![("a", num(1.0)), ("b", map(vec![("x", num(1.0))]))]);
    let b = map(vec![("b", map(vec![("x", num(2.0)), ("y", num(3.0))])), ("c", num(4.0))]);
    assert!(a.recursive_merge(b).is_well_formed());
}

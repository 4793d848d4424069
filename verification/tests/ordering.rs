use diaryx_core::entry::ordering::{
    rename_property, sort_alphabetically, sort_by_pattern, text_less_exec,
};
use diaryx_core::yaml::Value;

fn fm(entries: Vec<(&str, i64)>) -> Vec<(String, Value)> {
    entries
        .into_iter()
        .map(|(k, v)| (k.to_string(), Value::Int(v)))
        .collect()
}

fn pairs(m: &[(String, Value)]) -> Vec<(String, i64)> {
    m.iter()
        .map(|(k, v)| {
            let n = match v {
                Value::Int(n) => *n,
                _ => -1,
            };
            (k.clone(), n)
        })
        .collect()
}

fn expect(v: Vec<(&str, i64)>) -> Vec<(String, i64)> {
    v.into_iter().map(|(k, n)| (k.to_string(), n)).collect()
}

#[test]
fn test_text_order_matches_str() {
    let words = ["", "a", "ab", "b", "B", "title", "tit", "é", "z", "_x"];
    for a in words {
        for b in words {
            assert_eq!(text_less_exec(a, b), a < b, "{a:?} < {b:?}");
        }
    }
}

#[test]
fn test_sort_alphabetically_keeps_values() {
    let m = fm(vec![("title", 1), ("author", 2), ("date", 3), ("Zeta", 4)]);
    let r = sort_alphabetically(m);
    assert_eq!(pairs(&r), expect(vec![("Zeta", 4), ("author", 2), ("date", 3), ("title", 1)]));
}

#[test]
fn test_sort_by_pattern_with_star() {
    let m = fm(vec![("tags", 1), ("description", 2), ("author", 3), ("title", 4)]);
    let r = sort_by_pattern(m, "title,description,*");
    assert_eq!(
        pairs(&r),
        expect(vec![("title", 4), ("description", 2), ("author", 3), ("tags", 1)])
    );
}

#[test]
fn test_sort_by_pattern_without_star_and_spaces() {
    let m = fm(vec![("b", 1), ("z", 2), ("a", 3), ("m", 4)]);
    let r = sort_by_pattern(m, " m , missing, z");
    assert_eq!(pairs(&r), expect(vec![("m", 4), ("z", 2), ("a", 3), ("b", 1)]));
}

#[test]
fn test_sort_by_pattern_ignores_keys_after_star() {
    let m = fm(vec![("b", 1), ("c", 2), ("a", 3)]);
    let r = sort_by_pattern(m, "c,*,b");
    assert_eq!(pairs(&r), expect(vec![("c", 2), ("a", 3), ("b", 1)]));
}

#[test]
fn test_rename_property_keeps_position() {
    let m = fm(vec![("a", 1), ("old", 2), ("c", 3)]);
    let r = rename_property(m, "old", "new").unwrap();
    assert_eq!(pairs(&r), expect(vec![("a", 1), ("new", 2), ("c", 3)]));
}

#[test]
fn test_rename_property_missing() {
    let m = fm(vec![("a", 1)]);
    assert!(rename_property(m, "old", "new").is_none());
}

#[test]
fn test_rename_property_onto_existing_keys() {
    // The new key already stands earlier: it keeps its place, takes the value.
    let m = fm(vec![("new", 1), ("x", 2), ("old", 3)]);
    let r = rename_property(m, "old", "new").unwrap();
    assert_eq!(pairs(&r), expect(vec![("new", 3), ("x", 2)]));
    // The new key stands later: the renamed pair keeps its place, the later value wins.
    let m = fm(vec![("old", 1), ("x", 2), ("new", 3)]);
    let r = rename_property(m, "old", "new").unwrap();
    assert_eq!(pairs(&r), expect(vec![("new", 3), ("x", 2)]));
}

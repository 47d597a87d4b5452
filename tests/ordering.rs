use ffplayout_core::media::Media;
use ffplayout_core::order::{
    assign_indices, natural_order_safe, path_le, raw_path_le, reorder, sort_by_source,
};

fn list_of(paths: &[&str]) -> Vec<Media> {
    paths.iter().map(|p| Media::new(0, p)).collect()
}

fn sources_of(list: &[Media]) -> Vec<String> {
    list.iter().map(|m| m.source.clone()).collect()
}

#[test]
fn raw_order_compares_bytes() {
    assert!(raw_path_le("a1.mp4", "b10.mp4"));
    assert!(raw_path_le("b10.mp4", "b2.mp4"));
    assert!(!raw_path_le("b2.mp4", "b10.mp4"));
    assert!(raw_path_le("abc", "abc"));
    assert!(raw_path_le("ab", "abc"));
    assert!(!raw_path_le("abc", "ab"));
    assert!(raw_path_le("", ""));
    assert!(raw_path_le("Z", "a"));
}

#[test]
fn natural_order_is_number_aware() {
    assert!(path_le(true, "b2.mp4", "b10.mp4"));
    assert!(!path_le(true, "b10.mp4", "b2.mp4"));
    assert!(path_le(false, "b10.mp4", "b2.mp4"));
}

#[test]
fn raw_sort_of_example() {
    let mut v = list_of(&["b2.mp4", "b10.mp4", "a1.mp4"]);
    sort_by_source(&mut v, false);
    assert_eq!(sources_of(&v), vec!["a1.mp4", "b10.mp4", "b2.mp4"]);
}

#[test]
fn natural_sort_of_example() {
    let mut v = list_of(&["b2.mp4", "b10.mp4", "a1.mp4"]);
    sort_by_source(&mut v, true);
    assert_eq!(sources_of(&v), vec!["a1.mp4", "b2.mp4", "b10.mp4"]);
}

#[test]
fn sort_is_deterministic_over_input_order() {
    let mut a = list_of(&["c.ts", "a.ts", "b.ts", "a.ts"]);
    let mut b = list_of(&["a.ts", "b.ts", "a.ts", "c.ts"]);
    sort_by_source(&mut a, false);
    sort_by_source(&mut b, false);
    assert_eq!(sources_of(&a), sources_of(&b));
    assert_eq!(sources_of(&a), vec!["a.ts", "a.ts", "b.ts", "c.ts"]);
}

#[test]
fn sort_of_empty_list() {
    let mut v: Vec<Media> = Vec::new();
    sort_by_source(&mut v, false);
    assert!(v.is_empty());
}

#[test]
fn indices_are_dense() {
    let mut v = list_of(&["x", "y", "z"]);
    assign_indices(&mut v);
    let idx: Vec<Option<usize>> = v.iter().map(|m| m.index).collect();
    assert_eq!(idx, vec![Some(0), Some(1), Some(2)]);
    assert_eq!(sources_of(&v), vec!["x", "y", "z"]);
}

#[test]
fn shuffle_keeps_every_path() {
    let paths = ["a", "b", "c", "d", "e", "f", "g", "h"];
    let mut v = list_of(&paths);
    let mut moved = false;
    for _ in 0..20 {
        reorder(&mut v, true, false);
        let mut got = sources_of(&v);
        got.sort();
        assert_eq!(got, paths.to_vec());
        let idx: Vec<Option<usize>> = v.iter().map(|m| m.index).collect();
        assert_eq!(idx, (0..8).map(Some).collect::<Vec<_>>());
        moved |= sources_of(&v) != paths.to_vec();
    }
    assert!(moved);
}

#[test]
fn reorder_sorted_reindexes() {
    let mut v = list_of(&["b2.mp4", "b10.mp4", "a1.mp4"]);
    reorder(&mut v, false, false);
    assert_eq!(sources_of(&v), vec!["a1.mp4", "b10.mp4", "b2.mp4"]);
    assert_eq!(v[2].index, Some(2));
}

#[test]
fn natural_safety_check() {
    assert!(natural_order_safe("clip_2024010112304512.ts"));
    assert!(natural_order_safe("1234567890123456789"));
    assert!(!natural_order_safe("12345678901234567890"));
    assert!(!natural_order_safe("clip_20240101123045123456.ts"));
    assert!(!natural_order_safe("caf\u{e9}.mp4"));
    assert!(natural_order_safe(""));
}

#[test]
fn sort_is_stable_and_idempotent() {
    let mut v = vec![Media::new(0, "b"), Media::new(1, "a"), Media::new(2, "b"), Media::new(3, "a")];
    sort_by_source(&mut v, false);
    let got: Vec<(String, Option<usize>)> = v.iter().map(|m| (m.source.clone(), m.index)).collect();
    assert_eq!(
        got,
        vec![
            ("a".to_string(), Some(1)),
            ("a".to_string(), Some(3)),
            ("b".to_string(), Some(0)),
            ("b".to_string(), Some(2))
        ]
    );
    sort_by_source(&mut v, false);
    let again: Vec<(String, Option<usize>)> = v.iter().map(|m| (m.source.clone(), m.index)).collect();
    assert_eq!(again, got);
}

#[test]
fn reorder_keeps_item_fields() {
    let mut v = list_of(&["b", "a"]);
    v[0].seek = 7;
    v[0].cmd = Some(vec!["-i".to_string(), "b".to_string()]);
    reorder(&mut v, false, false);
    assert_eq!(v[1].source, "b");
    assert_eq!(v[1].seek, 7);
    assert_eq!(v[1].cmd, Some(vec!["-i".to_string(), "b".to_string()]));
    assert_eq!(v[0].seek, 0);
}

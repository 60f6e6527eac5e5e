use rbob::grid::{get_usize_grid, last, next_axis};
use rbob::order::sort_by_key;
use rbob::selection::{get_index_of, Selection};
use rbob::text::{
    cat, cat3, contains_str, i64_to_string, join_strings, parse_i64, parse_usize, str_eq, strip_prefix,
    strip_suffix, usize_to_string,
};
use rbob::yaml::{get_path, split_path_exec, with_path_set, YamlValue};

#[test]
fn numbers_as_text() {
    assert_eq!(usize_to_string(0), "0");
    assert_eq!(usize_to_string(4096), "4096");
    assert_eq!(i64_to_string(-305), "-305");
    assert_eq!(i64_to_string(i64::MIN), "-9223372036854775808");
    assert_eq!(parse_usize("+17"), Some(17));
    assert_eq!(parse_usize("-1"), None);
    assert_eq!(parse_usize(""), None);
    assert_eq!(parse_usize("18446744073709551616"), None);
    assert_eq!(parse_i64("-42"), Some(-42));
    assert_eq!(parse_i64("4x"), None);
}

#[test]
fn text_pieces() {
    assert_eq!(cat("ab", "cd"), "abcd");
    assert_eq!(cat3("a", "/", "b"), "a/b");
    assert_eq!(join_strings(&vec!["x".to_owned(), "y".to_owned(), "z".to_owned()], ", "), "x, y, z");
    assert_eq!(join_strings(&vec![], ", "), "");
    assert!(str_eq("same", "same"));
    assert!(!str_eq("same", "other"));
    assert_eq!(strip_prefix("snap_001", "snap"), Some("_001".to_owned()));
    assert_eq!(strip_prefix("snap", "snapshot"), None);
    assert_eq!(strip_suffix("file.hdf5", ".hdf5"), Some("file".to_owned()));
    assert_eq!(strip_suffix("file.txt", ".hdf5"), None);
    assert!(contains_str("-v 21 x", "21"));
    assert!(!contains_str("-v 2 1", "21"));
    assert!(contains_str("abc", ""));
}

#[test]
fn yaml_paths() {
    let path = split_path_exec("a/b/c");
    assert_eq!(path, vec!["a".to_owned(), "b".to_owned(), "c".to_owned()]);
    assert_eq!(split_path_exec(""), vec![String::new()]);
    assert_eq!(split_path_exec("a//b"), vec!["a".to_owned(), String::new(), "b".to_owned()]);
    let doc = YamlValue::Mapping(vec![(
        YamlValue::Str("a".to_owned()),
        YamlValue::Mapping(vec![(YamlValue::Str("b".to_owned()), YamlValue::Int(1))]),
    )]);
    let p = split_path_exec("a/b");
    assert_eq!(get_path(&doc, &p, 0), Some(&YamlValue::Int(1)));
    let updated = with_path_set(&doc, &p, 0, &YamlValue::Bool(true));
    assert_eq!(get_path(&updated, &p, 0), Some(&YamlValue::Bool(true)));
    let missing = split_path_exec("a/c");
    assert_eq!(get_path(&doc, &missing, 0), None);
    assert!(doc.same(&doc.duplicate()));
    assert!(!doc.same(&updated));
}

#[test]
fn sorting() {
    let sorted = sort_by_key(vec!["pear".to_owned(), "apple".to_owned(), "fig".to_owned(), "Zoo".to_owned()]);
    assert_eq!(sorted, vec!["Zoo", "apple", "fig", "pear"]);
    let groups = sort_by_key(vec![vec!["b".to_owned()], vec!["a".to_owned(), "c".to_owned()], vec!["a".to_owned()]]);
    assert_eq!(groups, vec![vec!["a".to_owned()], vec!["a".to_owned(), "c".to_owned()], vec!["b".to_owned()]]);
    let pairs = sort_by_key(vec![(3usize, 'a'), (1, 'b'), (3, 'c'), (2, 'd')]);
    assert_eq!(pairs, vec![(1, 'b'), (2, 'd'), (3, 'a'), (3, 'c')]);
}

#[test]
fn selections_toggle() {
    let mut sel = Selection::new(vec!["a", "b", "c"]);
    assert_eq!(sel.num_selected(), 0);
    sel.add_or_remove_from_selection(2);
    sel.add_or_remove_from_selection(0);
    assert!(sel.contains(2) && sel.contains(0) && !sel.contains(1));
    assert_eq!(sel.get_selected(), vec![&"c", &"a"]);
    sel.add_or_remove_from_selection(2);
    assert!(!sel.contains(2));
    assert_eq!(sel.num_selected(), 1);
    assert_eq!(sel.iter(), &["a", "b", "c"]);
    assert_eq!(get_index_of(&[4, 7, 9], 7), Some(1));
    assert_eq!(get_index_of(&[4, 7, 9], 5), None);
    let from = Selection::from_vec(vec![1, 2]);
    assert_eq!(from.num_selected(), 0);
}

#[test]
fn grids() {
    assert_eq!(get_usize_grid(2, 3), vec![(0, 0), (0, 1), (0, 2), (1, 0), (1, 1), (1, 2)]);
    assert!(get_usize_grid(0, 5).is_empty());
}

#[test]
fn axes_cycle_and_last_items() {
    assert_eq!(next_axis(0), 1);
    assert_eq!(next_axis(1), 2);
    assert_eq!(next_axis(2), 0);
    assert_eq!(last(vec![3, 4, 5]), Some(5));
    assert_eq!(last::<u8>(vec![]), None);
}

#[test]
fn toggles_select_odd_counts() {
    let mut sel = Selection::new(vec!['a', 'b', 'c', 'd']);
    for x in [1usize, 3, 1, 2, 1, 3, 3] {
        sel.add_or_remove_from_selection(x);
    }
    // 1 three times, 3 three times, 2 once: all odd.
    assert!(sel.contains(1) && sel.contains(2) && sel.contains(3) && !sel.contains(0));
    assert_eq!(sel.num_selected(), 3);
    assert_eq!(sel.get_selected().len(), 3);
    assert_eq!(sel.iter(), &['a', 'b', 'c', 'd']);
    sel.add_or_remove_from_selection(2);
    assert!(!sel.contains(2));
    assert_eq!(sel.num_selected(), 2);
}

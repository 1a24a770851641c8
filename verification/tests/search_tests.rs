use textsearcher::evaluate::TextFile;
use textsearcher::query::{matches_text, QueryError, QueryGroup};
use textsearcher::scan::{search_text, search_text_context};
use textsearcher::window::approx_substring;

fn file(path: &str, contents: &str) -> TextFile {
    TextFile { path: String::from(path), contents: Some(String::from(contents)) }
}

fn group(and_of_or_atoms: Vec<Vec<&str>>) -> QueryGroup {
    let owned: Vec<Vec<String>> = and_of_or_atoms
        .iter()
        .map(|inner| inner.iter().map(|a| String::from(*a)).collect())
        .collect();
    QueryGroup::new(owned).unwrap()
}

#[test]
fn test_search_text() {
    let query_group = QueryGroup::new(vec![vec!["world".to_string()]]).unwrap();
    let files = vec![
        file("sample_texts/hello.txt", "hello there"),
        file("sample_texts/world.txt", "a world away"),
    ];
    let result = search_text(&query_group, &files, false);
    assert_eq!(result.len(), 1);
    assert_eq!(result.iter().next().unwrap().path, String::from("sample_texts/world.txt"));

    let query_group = QueryGroup::new(vec![
        vec!["bar".to_string()],
        vec!["baz".to_string(), "xxxx哈哈".to_string()],
    ])
    .unwrap();
    let files = vec![
        file("sample_texts/hello.txt", "bar baz"),
        file("sample_texts/world.txt", "world"),
    ];
    let result = search_text(&query_group, &files, false);
    assert_eq!(result.len(), 1);
    assert_eq!(result.iter().next().unwrap().path, String::from("sample_texts/hello.txt"));
}

#[test]
fn empty_query_is_a_configuration_error() {
    let r = QueryGroup::new(Vec::new());
    assert!(matches!(r, Err(QueryError::EmptyQuery)));
}

#[test]
fn one_pattern_per_outer_element() {
    let g = group(vec![vec!["a"], vec!["b", "c"], vec!["d"]]);
    assert_eq!(g.pattern_count(), 3);
}

#[test]
fn matches_text_is_an_and_over_patterns() {
    let g = group(vec![vec!["bar"], vec!["baz"]]);
    assert!(matches_text(&g, "baz then bar"));
    assert!(!matches_text(&g, "bar alone"));
    assert!(!matches_text(&g, "baz alone"));
    let reordered = group(vec![vec!["baz"], vec!["bar"]]);
    assert!(matches_text(&reordered, "baz then bar"));
    assert!(!matches_text(&reordered, "bar alone"));
    assert!(!matches_text(&reordered, "baz alone"));
}

#[test]
fn or_groups_accept_any_alternative() {
    let g = group(vec![vec!["bar"], vec!["baz", "xxxx哈哈"]]);
    assert!(matches_text(&g, "bar and baz"));
    assert!(matches_text(&g, "bar and xxxx哈哈"));
    assert!(matches_text(&g, "bar and xxxx 哈哈"));
    assert!(!matches_text(&g, "bar only"));
}

#[test]
fn matching_is_case_insensitive() {
    let g = group(vec![vec!["world"]]);
    assert!(matches_text(&g, "WORLD"));
    assert!(matches_text(&g, "WoRlD here"));
}

#[test]
fn blank_atom_matches_everything() {
    let g = group(vec![vec!["   "]]);
    assert!(matches_text(&g, ""));
    assert!(matches_text(&g, "anything at all"));
}

#[test]
fn cjk_atom_tolerates_inserted_whitespace() {
    let g = group(vec![vec!["中文"]]);
    assert!(matches_text(&g, "中文"));
    assert!(matches_text(&g, "中 文"));
    assert!(matches_text(&g, "中  文"));
    assert!(!matches_text(&g, "中x文"));
}

#[test]
fn escaped_atoms_match_literally() {
    let g = group(vec![vec!["a.b+c"]]);
    assert!(matches_text(&g, "xx a.b+c yy"));
    assert!(!matches_text(&g, "xx axb+c yy"));
}

#[test]
fn parallel_and_sequential_find_the_same_paths() {
    let g = group(vec![vec!["bar"], vec!["baz", "xxxx哈哈"]]);
    let files = vec![
        file("a.txt", "bar baz"),
        file("b.txt", "nothing here"),
        file("c.txt", "xxxx哈哈 with bar"),
        file("d.txt", "baz without the other word"),
        TextFile { path: String::from("e.txt"), contents: None },
        file("f.txt", "BAR and BAZ upper"),
    ];
    let sequential = search_text(&g, &files, false);
    let parallel = search_text(&g, &files, true);
    let mut seq_paths: Vec<String> = sequential.iter().map(|m| m.path.clone()).collect();
    let mut par_paths: Vec<String> = parallel.iter().map(|m| m.path.clone()).collect();
    seq_paths.sort();
    par_paths.sort();
    assert_eq!(seq_paths, vec!["a.txt", "c.txt", "f.txt"]);
    assert_eq!(seq_paths, par_paths);
}

#[test]
fn unreadable_files_are_silently_skipped() {
    let g = group(vec![vec!["world"]]);
    let files = vec![
        TextFile { path: String::from("missing.txt"), contents: None },
        file("present.txt", "world"),
    ];
    let result = search_text(&g, &files, false);
    assert_eq!(result.len(), 1);
    assert_eq!(result[0].path, "present.txt");
    assert!(result[0].context.is_none());
}

#[test]
fn context_window_around_leading_match() {
    let g = group(vec![vec!["world"]]);
    let files = vec![file("a.txt", "hello world again")];
    let result = search_text_context(&g, &files, 3, 2, false);
    assert_eq!(result.len(), 1);
    assert_eq!(result[0].context.as_deref(), Some("lo world a"));
}

#[test]
fn context_window_clamps_to_the_text() {
    let g = group(vec![vec!["world"]]);
    let files = vec![file("a.txt", "world")];
    let result = search_text_context(&g, &files, 100, 100, false);
    assert_eq!(result.len(), 1);
    assert_eq!(result[0].context.as_deref(), Some("world"));
}

#[test]
fn context_window_respects_character_boundaries() {
    let g = group(vec![vec!["世"]]);
    let files = vec![file("a.txt", "你好世界")];
    let result = search_text_context(&g, &files, 1, 1, false);
    assert_eq!(result.len(), 1);
    assert_eq!(result[0].context.as_deref(), Some("世"));
}

#[test]
fn context_requires_all_patterns_to_match() {
    let g = group(vec![vec!["world"], vec!["absent"]]);
    let files = vec![file("a.txt", "hello world")];
    let result = search_text_context(&g, &files, 2, 2, false);
    assert_eq!(result.len(), 0);
}

#[test]
fn context_scan_agrees_across_modes() {
    let g = group(vec![vec!["中文"]]);
    let files = vec![
        file("a.txt", "some 中 文 here"),
        file("b.txt", "nothing"),
        TextFile { path: String::from("c.txt"), contents: None },
    ];
    let sequential = search_text_context(&g, &files, 2, 2, false);
    let parallel = search_text_context(&g, &files, 2, 2, true);
    let mut seq_paths: Vec<String> = sequential.iter().map(|m| m.path.clone()).collect();
    let mut par_paths: Vec<String> = parallel.iter().map(|m| m.path.clone()).collect();
    seq_paths.sort();
    par_paths.sort();
    assert_eq!(seq_paths, vec!["a.txt"]);
    assert_eq!(seq_paths, par_paths);
}

#[test]
fn windower_adjusts_offsets_to_boundaries() {
    assert_eq!(approx_substring("中文", 0, 6), "中文");
    assert_eq!(approx_substring("中文", 0, 4), "中");
    assert_eq!(approx_substring("中文", 1, 6), "文");
    assert_eq!(approx_substring("中文", 1, 4), "");
    assert_eq!(approx_substring("abc", 1, 2), "b");
}

#[test]
fn windower_never_fails_on_wild_offsets() {
    assert_eq!(approx_substring("abc", 2, 1), "");
    assert_eq!(approx_substring("abc", 10, 20), "");
    assert_eq!(approx_substring("", 5, 5), "");
    assert_eq!(approx_substring("你好", 100, 0), "");
    assert_eq!(approx_substring("你好", 0, 100), "你好");
}

use dir2::completion::{auto_complete_single, completion_engine, get_common_prefix, MAX_CANDIDATES};
use dir2::state::{index_current_directory, FileSystemState};

fn state_with(names: &[&str]) -> FileSystemState {
    let mut st = FileSystemState::with_path("/home/u".to_string());
    let listing: Vec<Option<String>> = names.iter().map(|s| Some(s.to_string())).collect();
    index_current_directory(&mut st, listing);
    st
}

#[test]
fn completion_lists_sorted_unique_prefix_matches() {
    let st = state_with(&["src", "scripts", "docs", "src", "Setup"]);
    assert_eq!(completion_engine(&st, "cd s"), vec!["scripts".to_string(), "src".to_string()]);
}

#[test]
fn completion_of_empty_input_is_empty() {
    let st = state_with(&["a", "b"]);
    assert!(completion_engine(&st, "").is_empty());
}

#[test]
fn completion_after_space_offers_everything() {
    let st = state_with(&["b", "a"]);
    assert_eq!(completion_engine(&st, "cd "), vec!["a".to_string(), "b".to_string()]);
}

#[test]
fn auto_complete_single_applies_unique_match() {
    let st = state_with(&["readme.md", "src"]);
    let mut input = "rea".to_string();
    assert!(auto_complete_single(&st, &mut input));
    assert_eq!(input, "readme.md");
}

#[test]
fn auto_complete_single_refuses_ambiguous_match() {
    let st = state_with(&["src", "scripts"]);
    let mut input = "s".to_string();
    assert!(!auto_complete_single(&st, &mut input));
    assert_eq!(input, "s");
}

#[test]
fn common_prefix_of_candidates() {
    let st = state_with(&["program", "progress", "other"]);
    assert_eq!(get_common_prefix(&st, "pr"), "progr");
    assert_eq!(get_common_prefix(&st, "oth"), "other");
    assert_eq!(get_common_prefix(&st, "zz"), "zz");
}

#[test]
fn index_skips_names_that_are_not_unicode() {
    let mut st = FileSystemState::with_path("/".to_string());
    index_current_directory(&mut st, vec![Some("a".to_string()), None, Some("b".to_string())]);
    assert_eq!(st.get_all_indexed(), &vec!["a".to_string(), "b".to_string()]);
}

#[test]
fn state_selection_and_path() {
    let mut st = FileSystemState::with_path("/x".to_string());
    assert!(st.get_current_state().is_none());
    st.set_current_state("/x/f.txt".to_string());
    assert_eq!(st.get_current_state(), &Some("/x/f.txt".to_string()));
    st.set_index(vec!["q".to_string()]);
    st.set_current_path("/y".to_string());
    assert_eq!(st.get_current_path(), "/y");
    assert!(st.get_all_indexed().is_empty());
    st.clear_state();
    assert!(st.get_current_state().is_none());
    st.set_index(vec!["q".to_string()]);
    st.clear_index();
    assert!(st.get_all_indexed().is_empty());
}

#[test]
fn completion_is_capped_to_least_candidates() {
    let owned: Vec<String> = (0..25).map(|i| format!("f{:02}", 24 - i)).collect();
    let refs: Vec<&str> = owned.iter().map(|s| s.as_str()).collect();
    let st = state_with(&refs);
    let got = completion_engine(&st, "f");
    assert_eq!(got.len(), MAX_CANDIDATES);
    let expected: Vec<String> = (0..20).map(|i| format!("f{:02}", i)).collect();
    assert_eq!(got, expected);
    assert_eq!(get_common_prefix(&st, "f"), "f");
}

#[test]
fn completion_token_ends_at_unicode_space() {
    let st = state_with(&["x\u{3000}abc", "abc"]);
    assert_eq!(completion_engine(&st, "x\u{3000}ab"), vec!["abc".to_string()]);
}

#[test]
fn prompt_path_without_quotes() {
    assert_eq!(dir2::text::trim_quotes("\"C:\\a b\"\\c"), "C:\\a b\\c");
    assert_eq!(dir2::text::trim_quotes(""), "");
}

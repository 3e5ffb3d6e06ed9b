use dir2::editor::{Effect, Key, LineEditor};

fn names(list: &[&str]) -> Vec<String> {
    list.iter().map(|s| s.to_string()).collect()
}

#[test]
fn insert_splices_character_at_cursor() {
    let none: Vec<String> = Vec::new();
    let mut ed = LineEditor::new("held");
    ed.handle_key(Key::Left, &none);
    ed.handle_key(Key::Left, &none);
    assert_eq!(ed.cursor(), 2);
    let effect = ed.handle_key(Key::Char('X'), &none);
    assert_eq!(effect, Effect::Redraw);
    assert_eq!(ed.line(), "heXld");
    assert_eq!(ed.cursor(), 3);
}

#[test]
fn insert_into_empty_buffer() {
    let none: Vec<String> = Vec::new();
    let mut ed = LineEditor::new("");
    ed.insert_char('a', &none);
    assert_eq!(ed.line(), "a");
    assert_eq!(ed.cursor(), 1);
}

#[test]
fn backspace_then_reinsert_restores_buffer() {
    let none: Vec<String> = Vec::new();
    let mut ed = LineEditor::new("abcd");
    ed.move_left();
    assert_eq!(ed.cursor(), 3);
    ed.backspace(&none);
    assert_eq!(ed.line(), "abd");
    assert_eq!(ed.cursor(), 2);
    ed.insert_char('c', &none);
    assert_eq!(ed.line(), "abcd");
    assert_eq!(ed.cursor(), 3);
}

#[test]
fn backspace_at_start_does_nothing() {
    let none: Vec<String> = Vec::new();
    let mut ed = LineEditor::new("ab");
    ed.handle_key(Key::Left, &none);
    ed.handle_key(Key::Left, &none);
    let effect = ed.handle_key(Key::Backspace, &none);
    assert_eq!(effect, Effect::Nothing);
    assert_eq!(ed.line(), "ab");
    assert_eq!(ed.cursor(), 0);
}

#[test]
fn tab_accepts_selected_candidate() {
    let index = names(&["alphabet", "alpha", "beta"]);
    let mut ed = LineEditor::new("cd al");
    let effect = ed.handle_key(Key::Tab, &index);
    assert_eq!(effect, Effect::Redraw);
    assert!(ed.dropdown_visible());
    assert_eq!(ed.candidates(), &names(&["alpha", "alphabet"]));
    assert_eq!(ed.selected(), 0);
    assert_eq!(ed.handle_key(Key::Down, &index), Effect::RedrawDropdown);
    assert_eq!(ed.selected(), 1);
    ed.handle_key(Key::Tab, &index);
    assert_eq!(ed.line(), "cd alphabet");
    assert_eq!(ed.cursor(), 11);
    assert!(!ed.dropdown_visible());
    assert!(ed.candidates().is_empty());
}

#[test]
fn tab_after_space_appends_candidate() {
    let index = names(&["docs"]);
    let mut ed = LineEditor::new("wd");
    ed.insert_char(' ', &index);
    assert_eq!(ed.candidates(), &names(&["docs"]));
    ed.tab(&index);
    assert_eq!(ed.line(), "wd docs");
    assert_eq!(ed.cursor(), 7);
}

#[test]
fn tab_without_dropdown_completes_unique_match() {
    let index = names(&["readme.md", "src"]);
    let mut ed = LineEditor::new("rea");
    ed.tab(&index);
    assert_eq!(ed.line(), "readme.md");
    assert_eq!(ed.cursor(), 9);
    assert!(!ed.dropdown_visible());
}

#[test]
fn tab_without_unique_match_shows_candidates() {
    let index = names(&["src", "scripts", "docs"]);
    let mut ed = LineEditor::new("s");
    ed.tab(&index);
    assert_eq!(ed.line(), "s");
    assert!(ed.dropdown_visible());
    assert_eq!(ed.candidates(), &names(&["scripts", "src"]));
}

#[test]
fn up_and_down_wrap_around() {
    let index = names(&["a1", "a2", "a3"]);
    let mut ed = LineEditor::new("");
    ed.insert_char('a', &index);
    assert_eq!(ed.candidates().len(), 3);
    ed.select_previous();
    assert_eq!(ed.selected(), 2);
    ed.select_next();
    assert_eq!(ed.selected(), 0);
}

#[test]
fn arrows_without_dropdown_do_nothing() {
    let none: Vec<String> = Vec::new();
    let mut ed = LineEditor::new("x");
    assert_eq!(ed.handle_key(Key::Up, &none), Effect::Nothing);
    assert_eq!(ed.handle_key(Key::Down, &none), Effect::Nothing);
    assert_eq!(ed.handle_key(Key::Right, &none), Effect::Nothing);
    assert_eq!(ed.handle_key(Key::Left, &none), Effect::MoveCursor);
    assert_eq!(ed.cursor(), 0);
    assert_eq!(ed.handle_key(Key::Right, &none), Effect::MoveCursor);
    assert_eq!(ed.cursor(), 1);
}

#[test]
fn esc_closes_dropdown_and_keeps_text() {
    let index = names(&["alpha"]);
    let mut ed = LineEditor::new("");
    ed.insert_char('a', &index);
    assert!(ed.dropdown_visible());
    assert_eq!(ed.handle_key(Key::Esc, &index), Effect::ClearDropdown);
    assert!(!ed.dropdown_visible());
    assert_eq!(ed.line(), "a");
    assert_eq!(ed.handle_key(Key::Esc, &index), Effect::Nothing);
}

#[test]
fn enter_submits_buffer_unchanged() {
    let index = names(&["alpha"]);
    let mut ed = LineEditor::new("");
    ed.insert_char('a', &index);
    assert_eq!(ed.handle_key(Key::Enter, &index), Effect::Submit);
    assert_eq!(ed.line(), "a");
    assert!(!ed.dropdown_visible());
}

#[test]
fn delete_word_removes_trailing_space_and_word() {
    let none: Vec<String> = Vec::new();
    let mut ed = LineEditor::new("cd some dir  ");
    let effect = ed.handle_key(Key::DeleteWord, &none);
    assert_eq!(effect, Effect::Redraw);
    assert_eq!(ed.line(), "cd some ");
    assert_eq!(ed.cursor(), 8);
    ed.delete_word(&none);
    assert_eq!(ed.line(), "cd ");
    ed.delete_word(&none);
    assert_eq!(ed.line(), "");
    assert_eq!(ed.cursor(), 0);
}

#[test]
fn delete_word_keeps_text_after_cursor() {
    let none: Vec<String> = Vec::new();
    let mut ed = LineEditor::new("one two");
    for _ in 0..4 {
        ed.move_left();
    }
    ed.delete_word(&none);
    assert_eq!(ed.line(), " two");
    assert_eq!(ed.cursor(), 0);
}

#[test]
fn completion_follows_cursor_word() {
    let index = names(&["apple", "banana"]);
    let mut ed = LineEditor::new("b apple");
    for _ in 0..6 {
        ed.move_left();
    }
    assert_eq!(ed.cursor(), 1);
    ed.insert_char('a', &index);
    assert_eq!(ed.line(), "ba apple");
    assert_eq!(ed.candidates(), &names(&["banana"]));
    ed.tab(&index);
    assert_eq!(ed.line(), "banana apple");
    assert_eq!(ed.cursor(), 6);
}

#[test]
fn delete_word_stops_at_unicode_space() {
    let none: Vec<String> = Vec::new();
    let mut ed = LineEditor::new("a\u{3000}b");
    ed.handle_key(Key::DeleteWord, &none);
    assert_eq!(ed.line(), "a\u{3000}");
    assert_eq!(ed.cursor(), 2);
}

#[test]
fn accepting_after_unicode_space_appends() {
    let index = names(&["docs"]);
    let mut ed = LineEditor::new("wd\u{3000}");
    ed.tab(&index);
    assert!(ed.dropdown_visible());
    ed.tab(&index);
    assert_eq!(ed.line(), "wd\u{3000}docs");
    assert_eq!(ed.cursor(), 7);
}

use make_gitignore::sync::CacheAction;
use make_gitignore::ui::app::{matching_indices, App};
use make_gitignore::ui::events::{handle_key, is_control, Key, KeyOutcome};
use make_gitignore::ui::render::list_view;
use make_gitignore::ui::{App as PlainApp, FetchStatus};

fn strings(items: &[&str]) -> Vec<String> {
    items.iter().map(|s| s.to_string()).collect()
}

fn langs() -> Vec<String> {
    strings(&["Rust", "Python", "Go", "C++", "VisualStudioCode", "Node"])
}

fn confirm(outcome: KeyOutcome) -> Vec<String> {
    match outcome {
        KeyOutcome::Confirm(sel) => sel,
        other => panic!("expected a confirmation, got {other:?}"),
    }
}

// ----- the picker with a search filter -----

#[test]
fn new_sorts_and_selects_nothing() {
    let app = App::new(langs());
    assert_eq!(app.get_filtered_indices(), vec![0, 1, 2, 3, 4, 5]);
    assert!(app.get_selected_languages().is_empty());
    let view = list_view(&app, 10);
    let labels: Vec<&str> = view.rows.iter().map(|r| r.label.as_str()).collect();
    assert_eq!(labels, vec!["[ ] C++", "[ ] Go", "[ ] Node", "[ ] Python", "[ ] Rust", "[ ] VisualStudioCode"]);
    assert!(view.rows[0].is_cursor);
}

#[test]
fn toggle_and_confirm() {
    let mut app = App::new(langs());
    assert!(matches!(handle_key(&mut app, Key::Char(' ')), KeyOutcome::Continue));
    handle_key(&mut app, Key::Down);
    handle_key(&mut app, Key::Char('j'));
    handle_key(&mut app, Key::Char(' '));
    assert_eq!(confirm(handle_key(&mut app, Key::Enter)), strings(&["C++", "Node"]));
}

#[test]
fn toggling_twice_restores() {
    let mut app = App::new(langs());
    app.toggle_selection();
    app.toggle_selection();
    assert!(app.get_selected_languages().is_empty());
}

#[test]
fn cursor_stops_at_ends() {
    let mut app = App::new(langs());
    app.move_cursor_up();
    app.toggle_selection();
    assert_eq!(app.get_selected_languages(), strings(&["C++"]));
    for _ in 0..10 {
        app.move_cursor_down();
    }
    app.toggle_selection();
    assert_eq!(app.get_selected_languages(), strings(&["C++", "VisualStudioCode"]));
}

#[test]
fn down_then_up_returns() {
    let mut app = App::new(langs());
    app.move_cursor_down();
    app.move_cursor_down();
    app.move_cursor_up();
    app.toggle_selection();
    assert_eq!(app.get_selected_languages(), strings(&["Go"]));
}

#[test]
fn search_is_case_insensitive() {
    let mut app = App::new(langs());
    for c in "PYT".chars() {
        app.add_to_search(c);
    }
    assert_eq!(app.get_filtered_indices(), vec![3]);
    // The cursor moved onto the only match.
    app.toggle_selection();
    assert_eq!(app.get_selected_languages(), strings(&["Python"]));
}

#[test]
fn search_filters_and_cursor_moves_among_matches() {
    let mut app = App::new(langs());
    app.add_to_search('o');
    // Go, Node, VisualStudioCode contain "o".
    assert_eq!(app.get_filtered_indices(), vec![1, 2, 3, 5]);
    let view = list_view(&app, 10);
    assert_eq!(view.title, "Languages (4 matches)");
    assert!(view.rows[0].is_cursor);
    assert_eq!(view.rows[0].label, "[ ] Go");
    app.move_cursor_down();
    app.move_cursor_down();
    app.toggle_selection();
    assert_eq!(app.get_selected_languages(), strings(&["Python"]));
}

#[test]
fn typing_then_deleting_restores_the_list() {
    let mut app = App::new(langs());
    let before = app.get_filtered_indices();
    app.add_to_search('x');
    assert!(app.get_filtered_indices().is_empty());
    let view = list_view(&app, 10);
    assert_eq!(view.title, "No matches");
    assert!(view.rows.is_empty());
    app.backspace_search();
    assert_eq!(app.get_filtered_indices(), before);
    app.backspace_search();
    assert_eq!(app.get_filtered_indices(), before);
}

#[test]
fn typing_never_adds_matches() {
    let mut app = App::new(langs());
    let mut before = app.get_filtered_indices();
    for c in "ODE".chars() {
        app.add_to_search(c);
        let after = app.get_filtered_indices();
        assert!(after.iter().all(|i| before.contains(i)));
        before = after;
    }
    // Node and VisualStudioCode contain "ode".
    assert_eq!(before, vec![2, 5]);
}

#[test]
fn command_keys_are_not_search_text() {
    let mut app = App::new(langs());
    assert!(matches!(handle_key(&mut app, Key::Char('q')), KeyOutcome::Cancel));
    assert!(matches!(handle_key(&mut app, Key::Esc), KeyOutcome::Cancel));
    handle_key(&mut app, Key::Char('n'));
    handle_key(&mut app, Key::Char('\u{7}'));
    handle_key(&mut app, Key::Other);
    let view = list_view(&app, 10);
    assert_eq!(view.search_text, "n");
    assert!(!view.search_is_placeholder);
    handle_key(&mut app, Key::Backspace);
    let view = list_view(&app, 10);
    assert_eq!(view.search_text, "Type to filter...");
    assert!(view.search_is_placeholder);
}

#[test]
fn window_follows_cursor() {
    let mut app = App::new(langs());
    for _ in 0..4 {
        app.move_cursor_down();
    }
    let view = list_view(&app, 2);
    let idx: Vec<usize> = view.rows.iter().map(|r| r.index).collect();
    assert_eq!(idx, vec![3, 4]);
    assert!(view.rows[1].is_cursor);
    app.toggle_selection();
    let view = list_view(&app, 2);
    assert!(view.rows[1].is_selected);
    assert_eq!(view.rows[1].label, "[\u{2713}] Rust");
    assert_eq!(view.footer, "Selected: 1 language(s)");
}

#[test]
fn scroll_keeps_cursor_visible() {
    let mut app = App::new(langs());
    for _ in 0..5 {
        app.move_cursor_down();
    }
    app.update_scroll(3);
    let view = list_view(&app, 3);
    let idx: Vec<usize> = view.rows.iter().map(|r| r.index).collect();
    assert_eq!(idx, vec![3, 4, 5]);
}

#[test]
fn matching_indices_on_lowered_names() {
    let lowered = strings(&["c++", "go", "node", "python"]);
    assert_eq!(matching_indices(&lowered, "o"), vec![1, 2, 3]);
    assert_eq!(matching_indices(&lowered, ""), vec![0, 1, 2, 3]);
    assert_eq!(matching_indices(&lowered, "zz"), Vec::<usize>::new());
}

#[test]
fn control_characters() {
    assert!(is_control('\n'));
    assert!(is_control('\u{7f}'));
    assert!(is_control('\u{9f}'));
    assert!(!is_control('a'));
    assert!(!is_control('\u{a0}'));
    for c in ['\0', ' ', 'q', '\u{85}', '\u{200b}'] {
        assert_eq!(is_control(c), c.is_control());
    }
}

#[test]
fn empty_picker() {
    let mut app = App::new(Vec::new());
    app.move_cursor_down();
    app.move_cursor_up();
    app.toggle_selection();
    assert!(confirm(handle_key(&mut app, Key::Enter)).is_empty());
    assert_eq!(list_view(&app, 5).title, "No matches");
}

// ----- the plain picker -----

#[test]
fn plain_picker_keys() {
    let mut app = PlainApp::new(langs());
    assert!(app.get_selected_languages().is_empty());
    app.handle_key(Key::Char(' '));
    app.handle_key(Key::Down);
    app.handle_key(Key::Char('j'));
    app.handle_key(Key::Char('k'));
    app.handle_key(Key::Char(' '));
    // Other characters do nothing in the plain picker.
    app.handle_key(Key::Char('x'));
    assert_eq!(confirm(app.handle_key(Key::Enter)), strings(&["C++", "Go"]));
    assert!(matches!(app.handle_key(Key::Char('q')), KeyOutcome::Cancel));
}

#[test]
fn plain_picker_view() {
    let mut app = PlainApp::new(langs());
    for _ in 0..5 {
        app.handle_key(Key::Down);
    }
    app.handle_key(Key::Char(' '));
    let view = app.list_view(2);
    let idx: Vec<usize> = view.rows.iter().map(|r| r.index).collect();
    assert_eq!(idx, vec![4, 5]);
    assert_eq!(view.rows[1].label, "[\u{2713}] VisualStudioCode");
    assert!(view.rows[1].is_cursor);
    assert_eq!(view.title, "Languages (6/6)");
    assert_eq!(view.footer, "Selected: 1 language(s)");
}

#[test]
fn fetch_status_at_start() {
    assert_eq!(FetchStatus::initial(CacheAction::UseCachedAndRefresh), FetchStatus::Fetching);
    assert_eq!(FetchStatus::initial(CacheAction::UseCached), FetchStatus::Idle);
    assert_eq!(FetchStatus::initial(CacheAction::Download), FetchStatus::Idle);
}

#[test]
fn down_space_enter_confirms_the_second_name() {
    let mut app = App::new(strings(&["Rust", "Go", "Python"]));
    handle_key(&mut app, Key::Down);
    handle_key(&mut app, Key::Char(' '));
    assert_eq!(confirm(handle_key(&mut app, Key::Enter)), strings(&["Python"]));
}

#[test]
fn typed_search_then_space_confirms_the_match() {
    let mut app = App::new(strings(&["Rust", "Go", "Python"]));
    handle_key(&mut app, Key::Char('r'));
    handle_key(&mut app, Key::Char('u'));
    handle_key(&mut app, Key::Char(' '));
    assert_eq!(list_view(&app, 5).search_text, "ru");
    assert_eq!(confirm(handle_key(&mut app, Key::Enter)), strings(&["Rust"]));
}

#[test]
fn cursor_skips_hidden_names() {
    let mut app = App::new(strings(&["Ada", "Go", "Rust", "Zig"]));
    app.add_to_search('g');
    assert_eq!(app.get_filtered_indices(), vec![1, 3]);
    app.move_cursor_down();
    app.move_cursor_down();
    app.toggle_selection();
    assert_eq!(app.get_selected_languages(), strings(&["Zig"]));
}

#[test]
fn selection_comes_out_sorted() {
    let mut app = App::new(strings(&["Rust", "Go", "Python"]));
    app.toggle_selection();
    app.move_cursor_down();
    app.move_cursor_down();
    app.toggle_selection();
    assert_eq!(app.get_selected_languages(), strings(&["Go", "Rust"]));
}

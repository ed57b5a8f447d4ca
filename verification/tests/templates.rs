use make_gitignore::templates::{
    created_message, general_ignores, join_strings, languages_line, render_gitignore,
    template_language, validate_languages, LanguageMap, RenderError, GENERAL_IGNORE_LINES,
};

fn strings(items: &[&str]) -> Vec<String> {
    items.iter().map(|s| s.to_string()).collect()
}

fn sample_map() -> LanguageMap {
    let mut m = LanguageMap::new();
    m.insert("Rust".to_string(), "/target\n".to_string());
    m.insert("Python".to_string(), "__pycache__/\n*.pyc".to_string());
    m.insert("Node".to_string(), "node_modules/\n".to_string());
    m
}

const GENERAL: &str = "\n# General\n.DS_Store\n*DS_Store\nThumbs.db\nDesktop.ini\n*.db\n*.sqlite\n*.sqlite3\n__trash__\n.Trashes\n*.log\n*.tmp\n*.temp\n*.bak\n*~\n*.swp\n*.swo\n";

#[test]
fn template_file_names() {
    assert_eq!(template_language("Python.gitignore"), Some("Python".to_string()));
    assert_eq!(template_language("C++.gitignore"), Some("C++".to_string()));
    assert_eq!(template_language(".gitignore"), Some(String::new()));
    assert_eq!(template_language("README.md"), None);
    assert_eq!(template_language("Python.gitignore.bak"), None);
    assert_eq!(template_language("gitignore"), None);
}

#[test]
fn map_insert_and_get() {
    let mut m = sample_map();
    assert_eq!(m.len(), 3);
    assert_eq!(m.get(&"Rust".to_string()), Some(&"/target\n".to_string()));
    assert_eq!(m.get(&"rust".to_string()), None);
    m.insert("Rust".to_string(), "target/\n".to_string());
    assert_eq!(m.len(), 3);
    assert_eq!(m.get(&"Rust".to_string()), Some(&"target/\n".to_string()));
    let mut keys = m.keys();
    keys.sort();
    assert_eq!(keys, strings(&["Node", "Python", "Rust"]));
    assert_eq!(LanguageMap::new().len(), 0);
}

#[test]
fn validation_ignores_ascii_case() {
    let m = sample_map();
    let (valid, invalid) = validate_languages(&strings(&["rust", "PYTHON", "node"]), &m);
    assert_eq!(valid, strings(&["Rust", "Python", "Node"]));
    assert!(invalid.is_empty());
}

#[test]
fn validation_reports_unknown_names_in_order() {
    let m = sample_map();
    let (valid, invalid) = validate_languages(&strings(&["Haskell", "rust", "Cobol"]), &m);
    assert_eq!(valid, strings(&["Rust"]));
    assert_eq!(invalid, strings(&["Haskell", "Cobol"]));
    let (valid, invalid) = validate_languages(&[], &m);
    assert!(valid.is_empty() && invalid.is_empty());
}

#[test]
fn validating_validated_names_gives_them_back() {
    let mut m = sample_map();
    m.insert("python".to_string(), "venv/\n".to_string());
    let (valid, _) = validate_languages(&strings(&["PYTHON", "rust", "Elm", "python"]), &m);
    let (again, invalid) = validate_languages(&valid, &m);
    assert_eq!(again, valid);
    assert!(invalid.is_empty());
}

#[test]
fn validated_languages_always_render() {
    let m = sample_map();
    let (valid, invalid) = validate_languages(&strings(&["NODE", "rUsT"]), &m);
    assert!(invalid.is_empty());
    let text = render_gitignore(&valid, &m, false).unwrap();
    assert_eq!(text, format!("node_modules/\n\n/target\n{GENERAL}"));
}

#[test]
fn general_section_text() {
    assert_eq!(general_ignores(), GENERAL);
    assert_eq!(GENERAL_IGNORE_LINES.len(), 16);
}

#[test]
fn render_single_template() {
    let m = sample_map();
    let text = render_gitignore(&strings(&["Rust"]), &m, false).unwrap();
    assert_eq!(text, format!("/target\n{GENERAL}"));
}

#[test]
fn render_adds_missing_final_newline() {
    let m = sample_map();
    let text = render_gitignore(&strings(&["Python"]), &m, false).unwrap();
    assert_eq!(text, format!("__pycache__/\n*.pyc\n{GENERAL}"));
    let mut empty = LanguageMap::new();
    empty.insert("Empty".to_string(), String::new());
    assert_eq!(render_gitignore(&strings(&["Empty"]), &empty, false).unwrap(), format!("\n{GENERAL}"));
}

#[test]
fn render_several_templates_in_order() {
    let m = sample_map();
    let text = render_gitignore(&strings(&["Python", "Rust", "Node"]), &m, false).unwrap();
    assert_eq!(
        text,
        format!("__pycache__/\n*.pyc\n\n/target\n\nnode_modules/\n{GENERAL}")
    );
    assert!(text.ends_with(GENERAL));
}

#[test]
fn render_needs_a_selection() {
    let m = sample_map();
    let err = render_gitignore(&[], &m, false).unwrap_err();
    assert!(matches!(err, RenderError::NoLanguagesSelected));
    assert_eq!(err.message(), "No languages selected");
    // An empty selection is refused before the output file is looked at.
    assert!(matches!(render_gitignore(&[], &m, true), Err(RenderError::NoLanguagesSelected)));
}

#[test]
fn render_never_replaces_an_existing_file() {
    let m = sample_map();
    let err = render_gitignore(&strings(&["Rust"]), &m, true).unwrap_err();
    assert!(matches!(err, RenderError::OutputExists));
    assert_eq!(err.message(), ".gitignore already exists; refusing to overwrite it");
    // The check comes before the lookup of the languages.
    assert!(matches!(
        render_gitignore(&strings(&["Elm"]), &m, true),
        Err(RenderError::OutputExists)
    ));
}

#[test]
fn render_stops_at_unknown_language() {
    let m = sample_map();
    let err = render_gitignore(&strings(&["Rust", "Python", "Elm", "Node"]), &m, false).unwrap_err();
    match &err {
        RenderError::LanguageNotFound { language, written } => {
            assert_eq!(language, "Elm");
            assert_eq!(written, "/target\n\n__pycache__/\n*.pyc\n");
        }
        other => panic!("unexpected {other:?}"),
    }
    assert_eq!(err.message(), "Language 'Elm' not found");
    // The lookup is exact: another case is not found.
    assert!(matches!(
        render_gitignore(&strings(&["rust"]), &m, false),
        Err(RenderError::LanguageNotFound { .. })
    ));
}

#[test]
fn messages() {
    assert_eq!(created_message(&strings(&["Rust"])), "\u{2713} Created .gitignore for Rust");
    assert_eq!(
        created_message(&strings(&["Rust", "Node", "Go"])),
        "\u{2713} Created .gitignore by appending 3 templates"
    );
    assert_eq!(languages_line(&strings(&["Rust", "Node"])), "Languages: Rust, Node");
    assert_eq!(languages_line(&strings(&["Rust"])), "Languages: Rust");
    assert_eq!(join_strings(&strings(&["a", "b", "c"]), "-"), "a-b-c");
    assert_eq!(join_strings(&[], ", "), "");
}

use cantus::config::SearchProvider;
use cantus::field::TextField;
use cantus::launcher::{apps_from_entries, DesktopApp, Entry, Launch, LauncherState, ListedEntry};

fn field_with(text: &str) -> TextField {
    let mut field = TextField::default();
    field.insert(text);
    field
}

#[test]
fn typing_moves_the_caret_after_the_text() {
    let field = field_with("hello");
    assert_eq!(field.text, "hello");
    assert_eq!(field.selection(), 5..5);
}

#[test]
fn caret_moves_by_grapheme_cluster() {
    let mut field = field_with("ae\u{301}b");
    assert_eq!(field.selection(), 5..5);
    field.move_cursor(false, false);
    assert_eq!(field.selection(), 4..4);
    field.move_cursor(false, false);
    assert_eq!(field.selection(), 1..1);
    field.move_cursor(true, true);
    assert_eq!(field.selection(), 1..4);
    field.move_cursor(false, false);
    assert_eq!(field.selection(), 1..1);
}

#[test]
fn erasing_removes_a_cluster_or_the_selection() {
    let mut field = field_with("ae\u{301}b");
    field.move_cursor(false, false);
    field.erase(false);
    assert_eq!(field.text, "ab");
    assert_eq!(field.selection(), 1..1);
    field.erase(true);
    assert_eq!(field.text, "a");
    field.set_cursor(0, false);
    field.move_cursor(true, true);
    field.erase(true);
    assert_eq!(field.text, "");
}

#[test]
fn caret_snaps_to_the_next_cluster_start() {
    let mut field = field_with("éa");
    field.set_cursor(1, false);
    assert_eq!(field.selection(), 2..2);
    field.set_cursor(0, true);
    assert_eq!(field.selection(), 0..2);
    field.set_cursor(99, false);
    assert_eq!(field.selection(), 3..3);
}

#[test]
fn field_holds_at_most_sixty_four_characters() {
    let mut field = field_with(&"x".repeat(70));
    assert_eq!(field.text.chars().count(), 64);
    field.insert("yz");
    assert_eq!(field.text.chars().count(), 64);
    field.set_cursor(0, false);
    field.move_cursor(true, true);
    field.insert("ab");
    assert_eq!(field.text.chars().count(), 64);
    assert!(field.text.starts_with('a'));
}

fn app(name: &str, command: &str, alternative: Option<&str>) -> DesktopApp {
    DesktopApp {
        name: name.into(),
        command: vec![command.into()],
        comment: String::new(),
        action: alternative.map(|alternative| ("New Window".to_string(), vec![alternative.to_string()])),
    }
}

fn launcher() -> LauncherState {
    let providers = vec![
        SearchProvider {
            name: "DuckDuckGo".into(),
            url: "https://duckduckgo.com/?q={searchTerms}".into(),
            icon: String::new(),
            alias: "!ddg".into(),
        },
        SearchProvider {
            name: "GitHub".into(),
            url: "https://github.com/search?q={searchTerms}".into(),
            icon: String::new(),
            alias: "!gh".into(),
        },
    ];
    let mut state = LauncherState::new(false, fend_core::Context::new(), providers);
    state.set_apps(vec![
        app("Firefox", "firefox", Some("firefox --new-window")),
        app("Profile Editor", "profiles", None),
        app("Files", "nautilus", None),
        app("Terminal", "foot", None),
    ]);
    state
}

fn type_text(state: &mut LauncherState, text: &str) {
    for c in text.chars() {
        assert!(state.input(&c.to_string(), false, false));
    }
}

#[test]
fn toggling_opens_a_fresh_session() {
    let mut state = launcher();
    assert!(!state.open);
    assert!(!state.input("a", false, false));
    state.toggle();
    assert!(state.open);
    assert_eq!(state.session, 1);
    type_text(&mut state, "fi");
    assert_eq!(state.field.text, "fi");
    state.toggle();
    assert!(!state.open);
    assert_eq!(state.field.text, "");
    assert_eq!(state.session, 2);
}

#[test]
fn apps_starting_with_the_query_come_first() {
    let mut state = launcher();
    state.toggle();
    type_text(&mut state, "fi");
    assert_eq!(state.entries(), [Entry::App(0), Entry::App(2), Entry::App(1), Entry::Search(0)]);
    assert!(state.input("Escape", false, false));
    assert!(!state.open);
}

#[test]
fn calculator_answers_come_first() {
    let mut state = launcher();
    state.toggle();
    type_text(&mut state, "2 * 3");
    assert_eq!(state.entries()[0], Entry::Answer("6".into()));
    assert_eq!(state.entries().last(), Some(&Entry::Search(0)));
    assert!(state.input("Enter", false, false));
    assert_eq!(state.pending_copy.as_deref(), Some("6"));
    assert_eq!(state.field.text, "");
}

#[test]
fn alias_chooses_the_provider() {
    let mut state = launcher();
    state.toggle();
    type_text(&mut state, "!gh rust lang");
    assert_eq!(state.entries(), [Entry::Search(1)]);
    state.activate(0, false);
    assert_eq!(state.pending_launch, Some(Launch::Open("https://github.com/search?q=rust+lang".into())));
    assert!(!state.open);
}

#[test]
fn activating_an_app_leaves_its_command() {
    let mut state = launcher();
    state.toggle();
    type_text(&mut state, "fire");
    assert_eq!(state.entries()[0], Entry::App(0));
    state.activate(0, true);
    assert_eq!(state.pending_launch, Some(Launch::Spawn(vec!["firefox --new-window".into()])));
    state.toggle();
    type_text(&mut state, "term");
    assert!(state.input("Enter", false, false));
    assert_eq!(state.pending_launch, Some(Launch::Spawn(vec!["foot".into()])));
    state.toggle();
    state.activate(7, false);
    assert!(state.open);
}

#[test]
fn highlight_stays_on_a_row() {
    let mut state = launcher();
    state.toggle();
    type_text(&mut state, "f");
    let rows = state.entries().len();
    assert!(state.input("ArrowDown", false, false));
    assert_eq!(state.selected, 1);
    state.move_selection(100);
    assert_eq!(state.selected, rows - 1);
    state.move_selection(i32::MIN);
    assert_eq!(state.selected, 0);
    assert!(state.input("ArrowUp", false, false));
    assert_eq!(state.selected, 0);
}

#[test]
fn editing_keys_work_on_the_field() {
    let mut state = launcher();
    state.toggle();
    type_text(&mut state, "files");
    assert!(state.input("Backspace", false, false));
    assert_eq!(state.field.text, "file");
    assert!(state.input("Home", false, false));
    assert!(state.input("Delete", false, false));
    assert_eq!(state.field.text, "ile");
    assert!(state.input("a", false, true));
    assert!(state.input("c", false, true));
    assert_eq!(state.pending_copy.as_deref(), Some("ile"));
    assert!(state.input("x", false, true));
    assert_eq!(state.field.text, "");
    assert!(!state.input("F5", false, false));
    assert!(!state.input("\u{7}", false, false));
    assert!(!state.input("q", false, true));
}

#[test]
fn pastes_into_the_current_session_only() {
    let mut state = launcher();
    state.toggle();
    state.paste(1, "two\nlines\r");
    assert_eq!(state.field.text, "two lines ");
    state.paste(0, "ignored");
    assert_eq!(state.field.text, "two lines ");
}

fn listed(id: &str, name: Option<&str>) -> ListedEntry {
    ListedEntry {
        id: id.to_string(),
        no_display: false,
        hidden: false,
        terminal: false,
        name: name.map(str::to_string),
        command: Some(vec![format!("{id}-bin")]),
        comment: format!("About {id}"),
        action: None,
    }
}

#[test]
fn lists_each_offered_desktop_entry_once() {
    let mut hidden = listed("editor", Some("Hidden Editor"));
    hidden.hidden = true;
    let mut terminal = listed("top", Some("Top"));
    terminal.terminal = true;
    let mut no_display = listed("helper", Some("Helper"));
    no_display.no_display = true;
    let mut no_command = listed("broken", Some("Broken"));
    no_command.command = None;
    let mut with_action = listed("browser", Some("Browser"));
    with_action.action = Some((String::from("New Private Window"), vec![String::from("browser"), String::from("--private")]));
    let entries = vec![
        listed("files", Some("Files")),
        hidden,
        listed("editor", Some("Editor")),
        terminal,
        no_display,
        no_command,
        listed("nameless", None),
        with_action,
        listed("files", Some("Files Again")),
    ];
    let apps = apps_from_entries(entries);
    let names: Vec<&str> = apps.iter().map(|app| app.name.as_str()).collect();
    // The hidden `editor` claims its id, so the later one is dropped too.
    assert_eq!(names, vec!["Files", "Browser"]);
    assert_eq!(apps[0].command, vec![String::from("files-bin")]);
    assert_eq!(apps[0].comment, "About files");
    assert_eq!(apps[1].action.as_ref().map(|(label, _)| label.as_str()), Some("New Private Window"));
}

use encore_compiler::program::{parse_usize, resolve_entry, EntryError, Program};
use encore_compiler::viewer::{step, Key, Panel, ViewerState};

fn program(names: Vec<(u8, &str)>) -> Program {
    Program {
        arity_table: vec![],
        globals: vec![0, 5],
        code: vec![0; 8],
        ctor_names: vec![],
        global_names: names.into_iter().map(|(i, n)| (i, n.to_string())).collect(),
    }
}

#[test]
fn parse_usize_like_std() {
    assert_eq!(parse_usize("42"), Some(42));
    assert_eq!(parse_usize("+7"), Some(7));
    assert_eq!(parse_usize("007"), Some(7));
    assert_eq!(parse_usize(""), None);
    assert_eq!(parse_usize("+"), None);
    assert_eq!(parse_usize("-1"), None);
    assert_eq!(parse_usize("4a"), None);
    assert_eq!(parse_usize(" 4"), None);
    assert_eq!(parse_usize(&usize::MAX.to_string()), Some(usize::MAX));
    assert_eq!(parse_usize(&format!("{}0", usize::MAX)), None);
    for s in ["0", "19", "+3", "x", "99999999999999999999999"] {
        assert_eq!(parse_usize(s), s.parse::<usize>().ok());
    }
}

#[test]
fn entry_by_index() {
    let p = program(vec![(0, "main"), (1, "helper")]);
    assert_eq!(resolve_entry("1", &p), Ok(1));
    assert_eq!(resolve_entry("2", &p), Err(EntryError::OutOfRange { idx: 2, count: 2 }));
}

#[test]
fn entry_by_name() {
    let p = program(vec![(0, "main"), (1, "helper")]);
    assert_eq!(resolve_entry("helper", &p), Ok(1));
    assert_eq!(
        resolve_entry("nope", &p),
        Err(EntryError::NotFound { available: vec!["main".to_string(), "helper".to_string()] })
    );
}

#[test]
fn entry_by_name_needs_names() {
    let p = program(vec![]);
    assert_eq!(resolve_entry("main", &p), Err(EntryError::NoMetadata));
    assert_eq!(resolve_entry("0", &p), Ok(0));
}

#[test]
fn viewer_moves_within_the_focused_panel() {
    let s = ViewerState::new(3, 10);
    let (s, quit) = step(s, Key::Down, 5);
    assert!(!quit);
    assert_eq!((s.focus, s.left_selected, s.right_selected), (Panel::Right, 0, 1));
    let (s, _) = step(s, Key::PageDown, 5);
    assert_eq!(s.right_selected, 6);
    let (s, _) = step(s, Key::PageDown, 5);
    assert_eq!(s.right_selected, 9);
    let (s, _) = step(s, Key::Down, 5);
    assert_eq!(s.right_selected, 9);
    let (s, _) = step(s, Key::FocusLeft, 5);
    let (s, _) = step(s, Key::Up, 5);
    assert_eq!((s.focus, s.left_selected, s.right_selected), (Panel::Left, 0, 9));
    let (s, _) = step(s, Key::PageDown, 5);
    assert_eq!(s.left_selected, 2);
    let (s, _) = step(s, Key::PageUp, 5);
    assert_eq!(s.left_selected, 0);
    let (s, quit) = step(s, Key::Quit, 5);
    assert!(quit);
    assert_eq!(s.left_selected, 0);
}

#[test]
fn viewer_on_empty_panels_stays_at_zero() {
    let s = ViewerState::new(0, 0);
    let (s, _) = step(s, Key::Down, 3);
    let (s, _) = step(s, Key::PageDown, 3);
    assert_eq!(s.right_selected, 0);
}

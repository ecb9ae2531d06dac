use encore_compiler::frontend::{BuiltinCtors, CtorRegistry, ParseError, MAX_CTORS};

fn builtins() -> BuiltinCtors {
    BuiltinCtors {
        tag_false: 0,
        arity_false: 0,
        tag_true: 1,
        arity_true: 0,
        tag_nil: 2,
        arity_nil: 0,
        tag_cons: 3,
        arity_cons: 2,
        tag_pair: 4,
        arity_pair: 2,
        first_user_tag: 5,
    }
}

#[test]
fn registry_knows_builtins() {
    let r = CtorRegistry::new(&builtins());
    assert_eq!(r.get("True"), Some((1, 0)));
    assert_eq!(r.get("Cons"), Some((3, 2)));
    assert_eq!(r.get_with_type("Pair"), Some((4, 2, 2)));
    assert_eq!(r.get_with_type("Nil"), Some((2, 0, 1)));
    assert_eq!(r.get("Zero"), None);
    let names: Vec<(u8, String)> = r.ctor_names();
    assert_eq!(
        names,
        vec![
            (3, "Cons".to_string()),
            (0, "False".to_string()),
            (2, "Nil".to_string()),
            (4, "Pair".to_string()),
            (1, "True".to_string()),
        ]
    );
    assert!(r.check_capacity().is_ok());
}

#[test]
fn resolve_hands_out_tags_in_turn() {
    let mut r = CtorRegistry::new(&builtins());
    let t = r.alloc_type_id();
    assert_eq!(t, 3);
    assert_eq!(r.resolve_with_type("Zero", 0, t), 5);
    assert_eq!(r.resolve_with_type("Succ", 1, t), 6);
    assert_eq!(r.resolve("Zero", 3), 5);
    assert_eq!(r.resolve("True", 2), 1);
    assert_eq!(r.get("Succ"), Some((6, 1)));
    assert_eq!(r.get_with_type("Zero"), Some((5, 0, 3)));
    assert_eq!(r.alloc_type_id(), 4);
    assert_eq!(r.ctors_of_type(3), vec![(5, 0), (6, 1)]);
    assert_eq!(r.ctors_of_type(0), vec![(0, 0), (1, 0)]);
    assert_eq!(r.ctors_of_type(1), vec![(2, 0), (3, 2)]);
    assert_eq!(r.ctors_of_type(9), vec![]);
    assert_eq!(r.name_of_tag(6), Some("Succ"));
    assert_eq!(r.name_of_tag(0), Some("False"));
    assert_eq!(r.name_of_tag(200), None);
    let names = r.ctor_names();
    let listed: Vec<&str> = names.iter().map(|(_, s)| s.as_str()).collect();
    assert_eq!(listed, vec!["Cons", "False", "Nil", "Pair", "Succ", "True", "Zero"]);
}

#[test]
fn resolve_saturates_and_capacity_fails() {
    let mut r = CtorRegistry::new(&builtins());
    for i in 0..250u32 {
        let tag = r.resolve(&format!("C{i}"), 0);
        assert_eq!(tag as u32, 5 + i);
    }
    assert!(r.check_capacity().is_ok());
    assert_eq!(r.resolve("Last", 0), 255);
    assert!(r.check_capacity().is_ok());
    assert_eq!(r.resolve("Over", 0), 255);
    assert_eq!(r.resolve("Over", 0), 255);
    match r.check_capacity() {
        Err(e) => assert_eq!(e.message, format!("too many constructors: 257 (max {MAX_CTORS}, tags are u8)")),
        Ok(()) => panic!("expected a capacity error"),
    }
}

#[test]
fn type_ids_stop_at_255() {
    let mut r = CtorRegistry::new(&builtins());
    let mut last = 0;
    for _ in 0..300 {
        last = r.alloc_type_id();
    }
    assert_eq!(last, 255);
    assert_eq!(r.alloc_type_id(), 255);
}

#[test]
fn parse_error_from_string() {
    let e: ParseError = "bad token".to_string().into();
    assert_eq!(e.message, "bad token");
}

#[test]
fn known_names_keep_their_entry() {
    let mut r = CtorRegistry::new(&builtins());
    let a = r.resolve_with_type("Zero", 0, 3);
    let b = r.resolve_with_type("Succ", 1, 3);
    let c = r.resolve_with_type("Zero", 7, 9);
    assert_eq!((a, b, c), (5, 6, 5));
    assert_eq!(r.get_with_type("Zero"), Some((5, 0, 3)));
    assert_eq!(r.resolve_with_type("True", 0, 0), 1);
}

#[test]
fn capacity_after_n_new_names() {
    for n in [0u32, 1, 250, 251, 252, 300] {
        let mut r = CtorRegistry::new(&builtins());
        for i in 0..n {
            let t = r.resolve_with_type(&format!("K{i}"), 0, 3);
            assert_eq!(t as u32, std::cmp::min(5 + i, 255));
        }
        assert_eq!(r.check_capacity().is_ok(), 5 + n <= 256);
    }
}

use zed_lean4_companion::convert::mix;
use zed_lean4_companion::state::{fnv1a, socket_dir, socket_path_for_root, InfoviewState};
use zed_lean4_companion::text::{decimal_text, parse_u64, split_text};

#[test]
fn the_hash_is_fnv1a() {
    assert_eq!(fnv1a(b""), 0xcbf29ce484222325);
    assert_eq!(fnv1a(b"a"), 0xaf63dc4c8601ec8c);
    assert_eq!(fnv1a(b"foobar"), 0x85944171f73967e8);
}

#[test]
fn mixing_wraps_around() {
    assert_eq!(mix(1, 2), 3298534884633);
    assert_eq!(mix(u64::MAX, 0), 18446742974197923405);
}

#[test]
fn the_socket_is_named_after_the_root() {
    assert_eq!(socket_dir(), "zed-lean4-companion");
    assert_eq!(
        socket_path_for_root("/home/u/proj"),
        "zed-lean4-companion/143becae573131b5.sock"
    );
    assert_eq!(socket_path_for_root(""), "zed-lean4-companion/cbf29ce484222325.sock");
}

#[test]
fn nothing_is_known_at_first() {
    let state = InfoviewState::default();
    assert_eq!(state.uri, None);
    assert_eq!(state.goals, None);
    assert!(state.diagnostics.is_empty());
    assert!(!state.server_alive);
    assert_eq!(state.clone(), state);
}

#[test]
fn numbers_read_back_from_their_notation() {
    for n in [0, 9, 10, 1234567890, u64::MAX] {
        assert_eq!(decimal_text(n), n.to_string());
        assert_eq!(parse_u64(&decimal_text(n)), Some(n));
    }
    assert_eq!(parse_u64("18446744073709551616"), None);
    assert_eq!(parse_u64("+7"), Some(7));
    assert_eq!(parse_u64("+"), None);
    assert_eq!(parse_u64(""), None);
    assert_eq!(parse_u64("1 "), None);
}

#[test]
fn pieces_put_together_give_the_text() {
    for s in ["", "\n", "a\nb", "a\n\n⊢ b\n"] {
        assert_eq!(split_text(s, '\n'), s.split('\n').map(String::from).collect::<Vec<_>>());
        assert_eq!(split_text(s, '\n').join("\n"), s);
    }
}

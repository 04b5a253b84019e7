use dua::text::{directory_suffix, emit_if_unfocused_to, fit_string_graphemes_with_ellipsis, path_for_output};

#[test]
fn fit_string_inputs() {
    assert_eq!(("aaa".into(), 3), fit_string_graphemes_with_ellipsis("aaa", 3, 4));
    assert_eq!(
        ("…a".to_string(), 2),
        fit_string_graphemes_with_ellipsis("abbbba", 6, 1),
        "even amount of chars, desired too small"
    );
    assert_eq!(
        ("…ca".to_string(), 3),
        fit_string_graphemes_with_ellipsis("abbbbca", 7, 3),
        "uneven amount of chars, desired too small"
    );
    assert_eq!(
        ("… a".to_string(), 3),
        fit_string_graphemes_with_ellipsis("a    a", 6, 3),
        "spaces are counted as graphemes, too"
    );
}

#[test]
fn graphemes_are_kept_whole_when_shortening() {
    // "e" with a combining acute accent is one grapheme of two characters.
    let text = "ab\u{65}\u{301}cd";
    assert_eq!(fit_string_graphemes_with_ellipsis(text, 5, 4), ("…\u{65}\u{301}cd".to_string(), 4));
}

#[test]
fn emits_sanitized_osc_777_notification() {
    let mut output = Vec::new();
    emit_if_unfocused_to(&mut output, true, false, "Done; unsafe\nmessage").expect("notification written");
    assert_eq!(output, b"\x1b]777;notify;DUA;Done, unsafe message\x1b\\");
}

#[test]
fn emits_only_when_enabled_and_unfocused() {
    let mut output = Vec::new();
    emit_if_unfocused_to(&mut output, true, true, "focused").expect("no-op succeeds");
    emit_if_unfocused_to(&mut output, false, false, "disabled").expect("no-op succeeds");
    assert!(output.is_empty());

    emit_if_unfocused_to(&mut output, true, false, "ready").expect("notification written");
    assert_eq!(
        output, b"\x1b]777;notify;DUA;ready\x1b\\",
        "enabled notifications in unfocussed terminals are emitted"
    );
}

#[test]
fn control_characters_in_paths_are_replaced() {
    assert_eq!(path_for_output("a\tb\u{7f}c"), "a\u{FFFD}b\u{FFFD}c");
    assert_eq!(path_for_output("plain/path"), "plain/path");
}

#[test]
fn directories_get_a_separator_once() {
    assert_eq!(directory_suffix("dir"), "/");
    assert_eq!(directory_suffix("dir/"), "");
}

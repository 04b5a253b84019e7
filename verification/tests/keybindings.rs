use dua::config::{Config, KeysConfig, NotificationsConfig};
use dua::dispatch::{is_user_input, key_action, KeyAction};
use dua::browse::{CursorDirection, FocussedPane};
use dua::keys::{Key, KeyBinding, KeyBindings, KeyPress, ALT, CONTROL, SHIFT};

fn bindings(texts: &[&str]) -> KeyBindings {
    KeyBindings::parse(&texts.iter().map(|t| t.to_string()).collect()).expect("valid bindings")
}

fn press(c: char, modifiers: u8) -> KeyPress {
    KeyPress { code: Key::Char(c), modifiers }
}

#[test]
fn keys_parse_characters_names_and_function_keys() {
    assert_eq!(Key::from_str("x"), Ok(Key::Char('x')));
    assert_eq!(Key::from_str("Space"), Ok(Key::Char(' ')));
    assert_eq!(Key::from_str("PAGE-DOWN"), Ok(Key::PageDown));
    assert_eq!(Key::from_str("f12"), Ok(Key::Function(12)));
    assert_eq!(Key::from_str("F255"), Ok(Key::Function(255)));
    assert_eq!(Key::from_str("f0"), Err("unknown key 'f0'".to_string()));
    assert_eq!(Key::from_str("f256"), Err("unknown key 'f256'".to_string()));
    assert_eq!(Key::from_str("definitely-not-a-key"), Err("unknown key 'definitely-not-a-key'".to_string()));
}

#[test]
fn keys_display_as_documented() {
    assert_eq!(Key::Char(' ').display(), "<Space>");
    assert_eq!(Key::Char('q').display(), "q");
    assert_eq!(Key::Function(7).display(), "<F7>");
    assert_eq!(Key::PageUp.display(), "<Page Up>");
}

#[test]
fn keybindings_report_each_kind_of_error() {
    assert_eq!(KeyBinding::from_str("").unwrap_err(), "keybinding cannot be empty");
    assert_eq!(KeyBinding::from_str("ctrl+").unwrap_err(), "keybinding 'ctrl+' has no key");
    assert_eq!(
        KeyBinding::from_str("hyper+x").unwrap_err(),
        "unknown modifier 'hyper' in keybinding 'hyper+x'"
    );
    assert_eq!(
        KeyBinding::from_str("ctrl+definitely-not-a-key").unwrap_err(),
        "unknown key 'definitely-not-a-key' in keybinding 'ctrl+definitely-not-a-key'"
    );
}

#[test]
fn keybindings_trim_deduplicate_and_keep_plus() {
    assert_eq!(KeyBinding::from_str(" Ctrl + ctrl + x ").unwrap().display(), "Ctrl + x");
    assert_eq!(KeyBinding::from_str("shift+alt+n").unwrap().display(), "Shift + Alt + n");
    assert_eq!(KeyBinding::from_str("+").unwrap().display(), "+");
    assert_eq!(KeyBinding::from_str("ctrl+plus").unwrap().display(), "Ctrl + +");
}

#[test]
fn keybindings_accept_strings_arrays_and_empty_arrays() {
    let quit = bindings(&["ctrl+q"]);
    let move_down = bindings(&["j", "down"]);
    let open_search = bindings(&[]);

    assert_eq!(quit.display(), "Ctrl + q");
    assert_eq!(move_down.display(), "j/<Down>");
    assert_eq!(open_search.display(), "<unmapped>");
    assert_eq!(open_search.primary(), "<unmapped>");
    assert!(open_search.is_empty());
    assert_eq!(move_down.primary(), "j");
}

#[test]
fn invalid_keybinding_is_rejected() {
    let err = KeyBindings::parse(&vec!["ctrl+definitely-not-a-key".to_string()]).unwrap_err();
    assert!(err.contains("unknown key"));
}

#[test]
fn the_first_invalid_binding_is_reported() {
    let err = KeyBindings::parse(&vec!["x".to_string(), "meta+y".to_string(), "".to_string()]).unwrap_err();
    assert_eq!(err, "unknown modifier 'meta' in keybinding 'meta+y'");
}

#[test]
fn keybindings_distinguish_modifiers_and_normalize_shifted_characters() {
    let toggle_help = bindings(&["x"]);
    let quit_immediately = bindings(&["ctrl+x"]);
    let sort_by_name = bindings(&["shift+n"]);
    let plain = press('x', 0);
    let control = press('x', CONTROL);

    assert!(toggle_help.matches(plain));
    assert!(!toggle_help.matches(control));
    assert!(quit_immediately.matches(control));
    assert!(KeysConfig::default().suspend.matches(press('z', CONTROL)));
    assert!(sort_by_name.matches(press('N', SHIFT)));
    assert!(sort_by_name.matches(press('n', SHIFT)));
}

#[test]
fn unmodified_punctuation_accepts_an_implicit_shift_modifier() {
    let keys = KeysConfig::default();
    assert!(keys.toggle_help.matches(press('?', SHIFT)));
    assert!(!keys.toggle_help.matches(press('?', SHIFT | CONTROL)));
    assert!(!keys.quit.matches(press('q', ALT)));
}

#[test]
fn configuration_defaults_enable_notifications_gitignore_and_heuristics() {
    let defaults = Config::default();
    assert!(defaults.notifications.scan_finished);
    assert!(defaults.notifications.delete_finished);
    assert_eq!(defaults.gitignore, None);
    assert_eq!(defaults.cleanup_heuristics, None);
    assert!(defaults.keys.esc_navigates_back);
}

#[test]
fn notifications_are_enabled_if_any_notification_is_enabled() {
    let disabled = NotificationsConfig { scan_finished: false, delete_finished: false };
    assert!(!disabled.any_enabled());
    let partly_enabled = NotificationsConfig { scan_finished: false, delete_finished: true };
    assert!(partly_enabled.any_enabled());
}

fn documented_value(value: &str) -> Vec<String> {
    let value = value.trim();
    if let Some(inner) = value.strip_prefix('[').and_then(|v| v.strip_suffix(']')) {
        inner
            .split(',')
            .map(|item| item.trim().trim_matches('"').to_string())
            .filter(|item| !item.is_empty())
            .collect()
    } else {
        vec![value.trim_matches('"').to_string()]
    }
}

#[test]
fn keybindings_keep_current_defaults_and_are_documented() {
    let defaults = Config::default_file_content();
    let keys = KeysConfig::default();
    let expected: Vec<(&str, &KeyBindings)> = vec![
        ("close_pane", &keys.close_pane),
        ("quit", &keys.quit),
        ("quit_immediately", &keys.quit_immediately),
        ("suspend", &keys.suspend),
        ("repaint", &keys.repaint),
        ("cycle_panes", &keys.cycle_panes),
        ("toggle_help", &keys.toggle_help),
        ("open_search", &keys.open_search),
        ("move_down", &keys.move_down),
        ("move_up", &keys.move_up),
        ("page_down", &keys.page_down),
        ("page_up", &keys.page_up),
        ("move_to_top", &keys.move_to_top),
        ("move_to_bottom", &keys.move_to_bottom),
        ("descend", &keys.descend),
        ("ascend", &keys.ascend),
        ("scan_parent", &keys.scan_parent),
        ("sort_by_size", &keys.sort_by_size),
        ("sort_by_mtime", &keys.sort_by_mtime),
        ("cycle_mtime_mode", &keys.cycle_mtime_mode),
        ("sort_by_count", &keys.sort_by_count),
        ("toggle_count_column", &keys.toggle_count_column),
        ("sort_by_name", &keys.sort_by_name),
        ("cycle_visualization", &keys.cycle_visualization),
        ("open_entry", &keys.open_entry),
        ("toggle_mark", &keys.toggle_mark),
        ("mark_for_deletion", &keys.mark_for_deletion),
        ("toggle_mark_and_move_down", &keys.toggle_mark_and_move_down),
        ("toggle_all", &keys.toggle_all),
        ("toggle_cleanup", &keys.toggle_cleanup),
        ("mark_cleanup", &keys.mark_cleanup),
        ("toggle_gitignore", &keys.toggle_gitignore),
        ("mark_gitignore", &keys.mark_gitignore),
        ("refresh_selected", &keys.refresh_selected),
        ("refresh_all", &keys.refresh_all),
        ("remove_mark", &keys.remove_mark),
        ("remove_all_marks", &keys.remove_all_marks),
        ("delete_marked", &keys.delete_marked),
        ("trash_marked", &keys.trash_marked),
        ("search_confirm", &keys.search_confirm),
        ("search_toggle_case", &keys.search_toggle_case),
        ("search_backspace", &keys.search_backspace),
        ("search_left", &keys.search_left),
        ("search_right", &keys.search_right),
    ];
    for (action, default) in expected {
        let prefix = format!("# {action} = ");
        let line = defaults
            .lines()
            .find(|line| line.starts_with(&prefix))
            .unwrap_or_else(|| panic!("missing default template for keys.{action}"));
        let value = line[prefix.len()..].split(" #").next().unwrap();
        let documented = KeyBindings::parse(&documented_value(value)).expect("documented default keybindings are valid");
        assert_eq!(documented.display(), default.display(), "keys.{action}");
    }
}

#[test]
fn keys_dispatch_by_pane_and_binding() {
    let keys = KeysConfig::default();
    let esc = KeyPress { code: Key::Esc, modifiers: 0 };
    assert_eq!(key_action(&keys, FocussedPane::Main, esc, true), KeyAction::NavigateBack);
    assert_eq!(key_action(&keys, FocussedPane::Help, esc, true), KeyAction::Quit);
    assert_eq!(key_action(&keys, FocussedPane::Glob, press('q', 0), true), KeyAction::SearchInput);
    assert_eq!(key_action(&keys, FocussedPane::Main, press('q', 0), true), KeyAction::Quit);
    assert_eq!(key_action(&keys, FocussedPane::Main, press('j', 0), true), KeyAction::Move(CursorDirection::Down));
    assert_eq!(key_action(&keys, FocussedPane::Main, press('z', CONTROL), true), KeyAction::Suspend);
    assert_eq!(key_action(&keys, FocussedPane::Main, press('z', CONTROL), false), KeyAction::Ignore);
    assert_eq!(key_action(&keys, FocussedPane::Main, press('d', 0), true), KeyAction::ToggleMarkAndMoveDown);
    assert_eq!(key_action(&keys, FocussedPane::Mark, press('d', 0), true), KeyAction::MarkPane);
    assert_eq!(key_action(&keys, FocussedPane::Glob, KeyPress { code: Key::Enter, modifiers: 0 }, true), KeyAction::SearchConfirm);
    assert_eq!(key_action(&keys, FocussedPane::Main, KeyPress { code: Key::Enter, modifiers: 0 }, true), KeyAction::Descend);
    assert_eq!(key_action(&keys, FocussedPane::Main, press('U', SHIFT), true), KeyAction::ScanParent);
}

#[test]
fn redraws_and_repaints_are_not_user_input() {
    let keys = KeysConfig::default();
    assert!(!is_user_input(&keys, press('\r', ALT)));
    assert!(!is_user_input(&keys, press('l', CONTROL)));
    assert!(is_user_input(&keys, press('l', 0)));
}

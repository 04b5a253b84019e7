//! Configuration: byte format, keybindings, notifications and the documented template.
use vstd::prelude::*;
use crate::format::ByteFormat;
use crate::keys::{Key, KeyBinding, KeyBindings, Modifier};

verus! {

/// Completion notifications emitted by interactive mode.
#[derive(Clone, Copy, Debug, PartialEq, Eq, Structural)]
pub struct NotificationsConfig {
    /// Notify after initial scans and refreshes finish.
    pub scan_finished: bool,
    /// Notify after deletion or trash operations finish.
    pub delete_finished: bool,
}

impl Default for NotificationsConfig {
    fn default() -> (r: Self)
        ensures
            r.scan_finished && r.delete_finished,
    {
        NotificationsConfig { scan_finished: true, delete_finished: true }
    }
}

impl NotificationsConfig {
    /// Whether any notification needs terminal focus tracking.
    pub fn any_enabled(&self) -> (r: bool)
        ensures
            r == (self.scan_finished || self.delete_finished),
    {
        self.scan_finished || self.delete_finished
    }
}

fn binding(code: Key) -> (r: KeyBinding)
    ensures
        r@ == (code, Seq::<Modifier>::empty()),
{
    let r = KeyBinding { code, modifiers: Vec::new() };
    assert(r.modifiers@ =~= Seq::<Modifier>::empty());
    r
}

fn ctrl_binding(code: Key) -> (r: KeyBinding)
    ensures
        r@ == (code, seq![Modifier::Control]),
{
    let r = KeyBinding { code, modifiers: vec![Modifier::Control] };
    assert(r.modifiers@ =~= seq![Modifier::Control]);
    r
}

/// Keyboard interaction settings.
#[derive(Clone, Debug)]
pub struct KeysConfig {
    /// Changes the configured close-pane key behavior in the interactive UI.
    ///
    /// If `true`, pressing it in the main pane ascends to the parent directory.
    /// If `false`, it follows the quit behavior.
    ///
    /// Default: `true`.
    pub esc_navigates_back: bool,
    /// Close the focused pane.
    pub close_pane: KeyBindings,
    /// Close a pane or quit from the main pane.
    pub quit: KeyBindings,
    /// Quit immediately without confirmation.
    pub quit_immediately: KeyBindings,
    /// Suspend the process and return control to the shell on Unix.
    pub suspend: KeyBindings,
    /// Clear and repaint the screen.
    pub repaint: KeyBindings,
    /// Move focus to the next open pane.
    pub cycle_panes: KeyBindings,
    /// Show or hide help.
    pub toggle_help: KeyBindings,
    /// Open the glob-search pane.
    pub open_search: KeyBindings,
    /// Move down one item.
    pub move_down: KeyBindings,
    /// Move up one item.
    pub move_up: KeyBindings,
    /// Move down one page.
    pub page_down: KeyBindings,
    /// Move up one page.
    pub page_up: KeyBindings,
    /// Move to the first item.
    pub move_to_top: KeyBindings,
    /// Move to the last item.
    pub move_to_bottom: KeyBindings,
    /// Enter the selected directory.
    pub descend: KeyBindings,
    /// Ascend to the parent directory.
    pub ascend: KeyBindings,
    /// Scan the directory above the current traversal root.
    pub scan_parent: KeyBindings,
    /// Sort by size.
    pub sort_by_size: KeyBindings,
    /// Sort by modification time.
    pub sort_by_mtime: KeyBindings,
    /// Cycle the modification-time mode or column.
    pub cycle_mtime_mode: KeyBindings,
    /// Sort by item count.
    pub sort_by_count: KeyBindings,
    /// Show or hide the item-count column.
    pub toggle_count_column: KeyBindings,
    /// Sort by name.
    pub sort_by_name: KeyBindings,
    /// Cycle byte visualizations.
    pub cycle_visualization: KeyBindings,
    /// Open the selected entry externally.
    pub open_entry: KeyBindings,
    /// Toggle the selected entry's mark.
    pub toggle_mark: KeyBindings,
    /// Mark the selected entry for deletion.
    pub mark_for_deletion: KeyBindings,
    /// Toggle the selected entry's mark and move down.
    pub toggle_mark_and_move_down: KeyBindings,
    /// Toggle all visible entry marks.
    pub toggle_all: KeyBindings,
    /// Toggle cleanup-candidate detection.
    pub toggle_cleanup: KeyBindings,
    /// Mark cleanup candidates.
    pub mark_cleanup: KeyBindings,
    /// Toggle Git-ignore detection.
    pub toggle_gitignore: KeyBindings,
    /// Mark Git-ignored entries.
    pub mark_gitignore: KeyBindings,
    /// Refresh the selected entry.
    pub refresh_selected: KeyBindings,
    /// Refresh the current view.
    pub refresh_all: KeyBindings,
    /// Remove the selected mark.
    pub remove_mark: KeyBindings,
    /// Remove all marks.
    pub remove_all_marks: KeyBindings,
    /// Permanently delete marked entries.
    pub delete_marked: KeyBindings,
    /// Move marked entries to the trash.
    pub trash_marked: KeyBindings,
    /// Submit the glob search.
    pub search_confirm: KeyBindings,
    /// Toggle glob-search case sensitivity.
    pub search_toggle_case: KeyBindings,
    /// Delete the preceding glob-search character.
    pub search_backspace: KeyBindings,
    /// Move the glob-search cursor left.
    pub search_left: KeyBindings,
    /// Move the glob-search cursor right.
    pub search_right: KeyBindings,
}

impl Default for KeysConfig {
    #[verifier::rlimit(40)]
    fn default() -> (r: Self)
        ensures
            r.esc_navigates_back,
            r.close_pane@ == seq![(Key::Esc, Seq::<Modifier>::empty())],
            r.quit@ == seq![(Key::Char('q'), Seq::<Modifier>::empty())],
            r.quit_immediately@ == seq![(Key::Char('c'), seq![Modifier::Control])],
            r.suspend@ == seq![(Key::Char('z'), seq![Modifier::Control])],
            r.repaint@ == seq![(Key::Char('l'), seq![Modifier::Control])],
            r.cycle_panes@ == seq![(Key::Tab, Seq::<Modifier>::empty())],
            r.toggle_help@ == seq![(Key::Char('?'), Seq::<Modifier>::empty())],
            r.open_search@ == seq![(Key::Char('/'), Seq::<Modifier>::empty())],
            r.move_down@ == seq![(Key::Char('j'), Seq::<Modifier>::empty()), (Key::Down, Seq::<Modifier>::empty())],
            r.move_up@ == seq![(Key::Char('k'), Seq::<Modifier>::empty()), (Key::Up, Seq::<Modifier>::empty())],
            r.page_down@ == seq![(Key::Char('d'), seq![Modifier::Control]), (Key::PageDown, Seq::<Modifier>::empty())],
            r.page_up@ == seq![(Key::Char('u'), seq![Modifier::Control]), (Key::PageUp, Seq::<Modifier>::empty())],
            r.move_to_top@ == seq![(Key::Char('H'), Seq::<Modifier>::empty()), (Key::Home, Seq::<Modifier>::empty())],
            r.move_to_bottom@ == seq![(Key::Char('G'), Seq::<Modifier>::empty()), (Key::End, Seq::<Modifier>::empty())],
            r.descend@ == seq![(Key::Char('o'), Seq::<Modifier>::empty()), (Key::Char('l'), Seq::<Modifier>::empty()), (Key::Enter, Seq::<Modifier>::empty()), (Key::Right, Seq::<Modifier>::empty())],
            r.ascend@ == seq![(Key::Char('u'), Seq::<Modifier>::empty()), (Key::Char('h'), Seq::<Modifier>::empty()), (Key::Backspace, Seq::<Modifier>::empty()), (Key::Left, Seq::<Modifier>::empty())],
            r.scan_parent@ == seq![(Key::Char('U'), Seq::<Modifier>::empty())],
            r.sort_by_size@ == seq![(Key::Char('s'), Seq::<Modifier>::empty())],
            r.sort_by_mtime@ == seq![(Key::Char('m'), Seq::<Modifier>::empty())],
            r.cycle_mtime_mode@ == seq![(Key::Char('M'), Seq::<Modifier>::empty())],
            r.sort_by_count@ == seq![(Key::Char('c'), Seq::<Modifier>::empty())],
            r.toggle_count_column@ == seq![(Key::Char('C'), Seq::<Modifier>::empty())],
            r.sort_by_name@ == seq![(Key::Char('n'), Seq::<Modifier>::empty())],
            r.cycle_visualization@ == seq![(Key::Char('g'), Seq::<Modifier>::empty()), (Key::Char('S'), Seq::<Modifier>::empty())],
            r.open_entry@ == seq![(Key::Char('O'), Seq::<Modifier>::empty())],
            r.toggle_mark@ == seq![(Key::Char(' '), Seq::<Modifier>::empty())],
            r.mark_for_deletion@ == seq![(Key::Char('x'), Seq::<Modifier>::empty())],
            r.toggle_mark_and_move_down@ == seq![(Key::Char('d'), Seq::<Modifier>::empty())],
            r.toggle_all@ == seq![(Key::Char('a'), Seq::<Modifier>::empty())],
            r.toggle_cleanup@ == seq![(Key::Char('t'), Seq::<Modifier>::empty())],
            r.mark_cleanup@ == seq![(Key::Char('X'), Seq::<Modifier>::empty())],
            r.toggle_gitignore@ == seq![(Key::Char('i'), Seq::<Modifier>::empty())],
            r.mark_gitignore@ == seq![(Key::Char('I'), Seq::<Modifier>::empty())],
            r.refresh_selected@ == seq![(Key::Char('r'), Seq::<Modifier>::empty())],
            r.refresh_all@ == seq![(Key::Char('R'), Seq::<Modifier>::empty())],
            r.remove_mark@ == seq![(Key::Char('x'), Seq::<Modifier>::empty()), (Key::Char('d'), Seq::<Modifier>::empty()), (Key::Char(' '), Seq::<Modifier>::empty())],
            r.remove_all_marks@ == seq![(Key::Char('a'), Seq::<Modifier>::empty())],
            r.delete_marked@ == seq![(Key::Char('r'), seq![Modifier::Control])],
            r.trash_marked@ == seq![(Key::Char('t'), seq![Modifier::Control])],
            r.search_confirm@ == seq![(Key::Enter, Seq::<Modifier>::empty())],
            r.search_toggle_case@ == seq![(Key::Char('f'), seq![Modifier::Control])],
            r.search_backspace@ == seq![(Key::Backspace, Seq::<Modifier>::empty())],
            r.search_left@ == seq![(Key::Left, Seq::<Modifier>::empty())],
            r.search_right@ == seq![(Key::Right, Seq::<Modifier>::empty())],
    {
        KeysConfig {
            esc_navigates_back: true,
            close_pane: KeyBindings(vec![binding(Key::Esc)]),
            quit: KeyBindings(vec![binding(Key::Char('q'))]),
            quit_immediately: KeyBindings(vec![ctrl_binding(Key::Char('c'))]),
            suspend: KeyBindings(vec![ctrl_binding(Key::Char('z'))]),
            repaint: KeyBindings(vec![ctrl_binding(Key::Char('l'))]),
            cycle_panes: KeyBindings(vec![binding(Key::Tab)]),
            toggle_help: KeyBindings(vec![binding(Key::Char('?'))]),
            open_search: KeyBindings(vec![binding(Key::Char('/'))]),
            move_down: KeyBindings(vec![binding(Key::Char('j')), binding(Key::Down)]),
            move_up: KeyBindings(vec![binding(Key::Char('k')), binding(Key::Up)]),
            page_down: KeyBindings(vec![ctrl_binding(Key::Char('d')), binding(Key::PageDown)]),
            page_up: KeyBindings(vec![ctrl_binding(Key::Char('u')), binding(Key::PageUp)]),
            move_to_top: KeyBindings(vec![binding(Key::Char('H')), binding(Key::Home)]),
            move_to_bottom: KeyBindings(vec![binding(Key::Char('G')), binding(Key::End)]),
            descend: KeyBindings(vec![binding(Key::Char('o')), binding(Key::Char('l')), binding(Key::Enter), binding(Key::Right)]),
            ascend: KeyBindings(vec![binding(Key::Char('u')), binding(Key::Char('h')), binding(Key::Backspace), binding(Key::Left)]),
            scan_parent: KeyBindings(vec![binding(Key::Char('U'))]),
            sort_by_size: KeyBindings(vec![binding(Key::Char('s'))]),
            sort_by_mtime: KeyBindings(vec![binding(Key::Char('m'))]),
            cycle_mtime_mode: KeyBindings(vec![binding(Key::Char('M'))]),
            sort_by_count: KeyBindings(vec![binding(Key::Char('c'))]),
            toggle_count_column: KeyBindings(vec![binding(Key::Char('C'))]),
            sort_by_name: KeyBindings(vec![binding(Key::Char('n'))]),
            cycle_visualization: KeyBindings(vec![binding(Key::Char('g')), binding(Key::Char('S'))]),
            open_entry: KeyBindings(vec![binding(Key::Char('O'))]),
            toggle_mark: KeyBindings(vec![binding(Key::Char(' '))]),
            mark_for_deletion: KeyBindings(vec![binding(Key::Char('x'))]),
            toggle_mark_and_move_down: KeyBindings(vec![binding(Key::Char('d'))]),
            toggle_all: KeyBindings(vec![binding(Key::Char('a'))]),
            toggle_cleanup: KeyBindings(vec![binding(Key::Char('t'))]),
            mark_cleanup: KeyBindings(vec![binding(Key::Char('X'))]),
            toggle_gitignore: KeyBindings(vec![binding(Key::Char('i'))]),
            mark_gitignore: KeyBindings(vec![binding(Key::Char('I'))]),
            refresh_selected: KeyBindings(vec![binding(Key::Char('r'))]),
            refresh_all: KeyBindings(vec![binding(Key::Char('R'))]),
            remove_mark: KeyBindings(vec![binding(Key::Char('x')), binding(Key::Char('d')), binding(Key::Char(' '))]),
            remove_all_marks: KeyBindings(vec![binding(Key::Char('a'))]),
            delete_marked: KeyBindings(vec![ctrl_binding(Key::Char('r'))]),
            trash_marked: KeyBindings(vec![ctrl_binding(Key::Char('t'))]),
            search_confirm: KeyBindings(vec![binding(Key::Enter)]),
            search_toggle_case: KeyBindings(vec![ctrl_binding(Key::Char('f'))]),
            search_backspace: KeyBindings(vec![binding(Key::Backspace)]),
            search_left: KeyBindings(vec![binding(Key::Left)]),
            search_right: KeyBindings(vec![binding(Key::Right)]),
        }
    }
}

/// Runtime configuration used by interactive and command-line components.
#[derive(Clone, Debug)]
pub struct Config {
    /// Byte count format to use when `--format` and `DUA_FORMAT` are not set.
    pub format: Option<ByteFormat>,
    /// Keybinding-related settings.
    pub keys: KeysConfig,
    /// Interactive completion-notification settings.
    pub notifications: NotificationsConfig,
    /// Whether Git-ignored entry detection is enabled; unset means enabled.
    pub gitignore: Option<bool>,
    /// Whether cleanup heuristics are enabled; unset means enabled.
    pub cleanup_heuristics: Option<bool>,
}

impl Default for Config {
    fn default() -> (r: Self)
        ensures
            r.format is None,
            r.gitignore is None,
            r.cleanup_heuristics is None,
            r.notifications.scan_finished && r.notifications.delete_finished,
            r.keys.esc_navigates_back,
            r.keys.quit@ == seq![(Key::Char('q'), Seq::<Modifier>::empty())],
    {
        Config {
            format: None,
            keys: KeysConfig::default(),
            notifications: NotificationsConfig::default(),
            gitignore: None,
            cleanup_heuristics: None,
        }
    }
}

/// The documented configuration template.
pub open spec fn config_template() -> &'static str {
    "# dua-cli configuration\n\
#\n\
# Byte count format to use when --format and DUA_FORMAT are not set.\n\
# Supported values: metric, binary, bytes, gb, gib, mb, mib.\n\
# format = \"binary\"\n\
#\n\
# Controls whether Git-ignored entry detection is enabled in interactive mode.\n\
# Supported values: true, false.\n\
# If unset, behavior defaults to true.\n\
# gitignore = true\n\
#\n\
# Controls whether cleanup heuristics are enabled in interactive mode.\n\
# Supported values: true, false.\n\
# If unset, behavior defaults to true.\n\
# cleanup_heuristics = true\n\
#\n\
[keys]\n\
# If true, close_pane keys ascend from the main pane.\n\
# If false, close_pane keys follow the quit behavior.\n\
esc_navigates_back = true\n\
#\n\
# Use a string for one binding or an array for aliases. Uncomment to replace the defaults.\n\
# Modifiers: ctrl, alt, shift. Named keys include\n\
# esc, enter, space, tab, backspace, arrows, home, end, page-up, page-down, and F1-F255.\n\
# Character keys are case-sensitive; use [] to disable an action.\n\
#\n\
# Pane and application control.\n\
# close_pane = \"esc\"\n\
# quit = \"q\"\n\
# quit_immediately = \"ctrl+c\"\n\
# suspend = \"ctrl+z\" # Unix only.\n\
# repaint = \"ctrl+l\"\n\
# cycle_panes = \"tab\"\n\
# toggle_help = \"?\"\n\
# open_search = \"/\"\n\
#\n\
# Navigation.\n\
# move_down = [\"j\", \"down\"]\n\
# move_up = [\"k\", \"up\"]\n\
# page_down = [\"ctrl+d\", \"page-down\"]\n\
# page_up = [\"ctrl+u\", \"page-up\"]\n\
# move_to_top = [\"H\", \"home\"]\n\
# move_to_bottom = [\"G\", \"end\"]\n\
# descend = [\"o\", \"l\", \"enter\", \"right\"]\n\
# ascend = [\"u\", \"h\", \"backspace\", \"left\"]\n\
# scan_parent = \"U\"\n\
#\n\
# Display.\n\
# sort_by_size = \"s\"\n\
# sort_by_mtime = \"m\"\n\
# cycle_mtime_mode = \"M\"\n\
# sort_by_count = \"c\"\n\
# toggle_count_column = \"C\"\n\
# sort_by_name = \"n\"\n\
# cycle_visualization = [\"g\", \"S\"]\n\
#\n\
# Entry actions.\n\
# open_entry = \"O\"\n\
# toggle_mark = \"space\"\n\
# mark_for_deletion = \"x\"\n\
# toggle_mark_and_move_down = \"d\"\n\
# toggle_all = \"a\"\n\
# toggle_cleanup = \"t\"\n\
# mark_cleanup = \"X\"\n\
# toggle_gitignore = \"i\"\n\
# mark_gitignore = \"I\"\n\
# refresh_selected = \"r\"\n\
# refresh_all = \"R\"\n\
#\n\
# Marked-items pane.\n\
# remove_mark = [\"x\", \"d\", \"space\"]\n\
# remove_all_marks = \"a\"\n\
# delete_marked = \"ctrl+r\"\n\
# trash_marked = \"ctrl+t\"\n\
#\n\
# Search pane.\n\
# search_confirm = \"enter\"\n\
# search_toggle_case = \"ctrl+f\"\n\
# search_backspace = \"backspace\"\n\
# search_left = \"left\"\n\
# search_right = \"right\"\n\
#\n\
[notifications]\n\
# Send terminal notifications when interactive operations finish while unfocused.\n\
scan_finished = true\n\
delete_finished = true\n"
}

impl Config {
    /// Default TOML content used when initializing a new configuration file: every setting
    /// documented, with the keybindings commented out at their defaults.
    pub fn default_file_content() -> (r: &'static str)
        ensures
            r@ == config_template()@,
    {
        "# dua-cli configuration\n\
#\n\
# Byte count format to use when --format and DUA_FORMAT are not set.\n\
# Supported values: metric, binary, bytes, gb, gib, mb, mib.\n\
# format = \"binary\"\n\
#\n\
# Controls whether Git-ignored entry detection is enabled in interactive mode.\n\
# Supported values: true, false.\n\
# If unset, behavior defaults to true.\n\
# gitignore = true\n\
#\n\
# Controls whether cleanup heuristics are enabled in interactive mode.\n\
# Supported values: true, false.\n\
# If unset, behavior defaults to true.\n\
# cleanup_heuristics = true\n\
#\n\
[keys]\n\
# If true, close_pane keys ascend from the main pane.\n\
# If false, close_pane keys follow the quit behavior.\n\
esc_navigates_back = true\n\
#\n\
# Use a string for one binding or an array for aliases. Uncomment to replace the defaults.\n\
# Modifiers: ctrl, alt, shift. Named keys include\n\
# esc, enter, space, tab, backspace, arrows, home, end, page-up, page-down, and F1-F255.\n\
# Character keys are case-sensitive; use [] to disable an action.\n\
#\n\
# Pane and application control.\n\
# close_pane = \"esc\"\n\
# quit = \"q\"\n\
# quit_immediately = \"ctrl+c\"\n\
# suspend = \"ctrl+z\" # Unix only.\n\
# repaint = \"ctrl+l\"\n\
# cycle_panes = \"tab\"\n\
# toggle_help = \"?\"\n\
# open_search = \"/\"\n\
#\n\
# Navigation.\n\
# move_down = [\"j\", \"down\"]\n\
# move_up = [\"k\", \"up\"]\n\
# page_down = [\"ctrl+d\", \"page-down\"]\n\
# page_up = [\"ctrl+u\", \"page-up\"]\n\
# move_to_top = [\"H\", \"home\"]\n\
# move_to_bottom = [\"G\", \"end\"]\n\
# descend = [\"o\", \"l\", \"enter\", \"right\"]\n\
# ascend = [\"u\", \"h\", \"backspace\", \"left\"]\n\
# scan_parent = \"U\"\n\
#\n\
# Display.\n\
# sort_by_size = \"s\"\n\
# sort_by_mtime = \"m\"\n\
# cycle_mtime_mode = \"M\"\n\
# sort_by_count = \"c\"\n\
# toggle_count_column = \"C\"\n\
# sort_by_name = \"n\"\n\
# cycle_visualization = [\"g\", \"S\"]\n\
#\n\
# Entry actions.\n\
# open_entry = \"O\"\n\
# toggle_mark = \"space\"\n\
# mark_for_deletion = \"x\"\n\
# toggle_mark_and_move_down = \"d\"\n\
# toggle_all = \"a\"\n\
# toggle_cleanup = \"t\"\n\
# mark_cleanup = \"X\"\n\
# toggle_gitignore = \"i\"\n\
# mark_gitignore = \"I\"\n\
# refresh_selected = \"r\"\n\
# refresh_all = \"R\"\n\
#\n\
# Marked-items pane.\n\
# remove_mark = [\"x\", \"d\", \"space\"]\n\
# remove_all_marks = \"a\"\n\
# delete_marked = \"ctrl+r\"\n\
# trash_marked = \"ctrl+t\"\n\
#\n\
# Search pane.\n\
# search_confirm = \"enter\"\n\
# search_toggle_case = \"ctrl+f\"\n\
# search_backspace = \"backspace\"\n\
# search_left = \"left\"\n\
# search_right = \"right\"\n\
#\n\
[notifications]\n\
# Send terminal notifications when interactive operations finish while unfocused.\n\
scan_finished = true\n\
delete_finished = true\n"
    }
}

} // verus!

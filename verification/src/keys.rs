//! Keys and keybindings: parsing, display and matching of key presses.
use vstd::prelude::*;
use vstd::string::StringExecFns;
use crate::numfmt::{decimal, decimal_string};

verus! {

/// A key without modifiers.
#[derive(Clone, Copy, Debug, PartialEq, Eq, Structural)]
pub enum Key {
    /// A character key.
    Char(char),
    /// Backspace.
    Backspace,
    /// Enter.
    Enter,
    /// Left arrow.
    Left,
    /// Right arrow.
    Right,
    /// Up arrow.
    Up,
    /// Down arrow.
    Down,
    /// Home.
    Home,
    /// End.
    End,
    /// Page up.
    PageUp,
    /// Page down.
    PageDown,
    /// Tab.
    Tab,
    /// Shift-tab.
    BackTab,
    /// Delete.
    Delete,
    /// Insert.
    Insert,
    /// A function key, numbered from one.
    Function(u8),
    /// Null.
    Null,
    /// Escape.
    Esc,
    /// Caps lock.
    CapsLock,
    /// Scroll lock.
    ScrollLock,
    /// Num lock.
    NumLock,
    /// Print screen.
    PrintScreen,
    /// Pause.
    Pause,
    /// Menu.
    Menu,
    /// The keypad's begin key.
    KeypadBegin,
}

/// A modifier key.
#[derive(Clone, Copy, Debug, PartialEq, Eq, Structural)]
pub enum Modifier {
    /// Control.
    Control,
    /// Alt.
    Alt,
    /// Shift.
    Shift,
}

/// `s` with ASCII capitals turned into small letters.
pub open spec fn ascii_lowercase(s: Seq<char>) -> Seq<char> {
    s.map_values(|c: char| if 'A' <= c && c <= 'Z' { ((c as u32) + 32) as char } else { c })
}

/// Whether `c` has Unicode's `White_Space` property, as `char::is_whitespace` checks.
pub open spec fn is_whitespace_char(c: char) -> bool {
    let u = c as u32;
    (0x09 <= u && u <= 0x0d) || u == 0x20 || u == 0x85 || u == 0xa0 || u == 0x1680
        || (0x2000 <= u && u <= 0x200a) || u == 0x2028 || u == 0x2029 || u == 0x202f
        || u == 0x205f || u == 0x3000
}

/// `s` without leading whitespace.
pub open spec fn trim_start(s: Seq<char>) -> Seq<char>
    decreases s.len(),
{
    if s.len() > 0 && is_whitespace_char(s[0]) { trim_start(s.drop_first()) } else { s }
}

/// `s` without trailing whitespace.
pub open spec fn trim_end(s: Seq<char>) -> Seq<char>
    decreases s.len(),
{
    if s.len() > 0 && is_whitespace_char(s.last()) { trim_end(s.drop_last()) } else { s }
}

/// `s` without leading and trailing whitespace, as `str::trim` returns it.
pub open spec fn trimmed(s: Seq<char>) -> Seq<char> {
    trim_end(trim_start(s))
}

/// The pieces of `s` between occurrences of `sep`, as `str::split(sep)` yields them.
pub open spec fn split_by(s: Seq<char>, sep: char) -> Seq<Seq<char>>
    decreases s.len(),
{
    if s.len() == 0 {
        seq![Seq::empty()]
    } else {
        let parts = split_by(s.drop_last(), sep);
        if s.last() == sep {
            parts.push(Seq::empty())
        } else {
            parts.update(parts.len() - 1, parts.last().push(s.last()))
        }
    }
}

/// The pieces of `s` between `+` signs.
pub open spec fn split_plus(s: Seq<char>) -> Seq<Seq<char>> {
    split_by(s, '+')
}

/// The key named `lower`, a lowercase key name.
pub open spec fn named_key(lower: Seq<char>) -> Option<Key> {
    if lower == "space"@ { Some(Key::Char(' ')) }
    else if lower == "plus"@ { Some(Key::Char('+')) }
    else if lower == "backspace"@ { Some(Key::Backspace) }
    else if lower == "enter"@ || lower == "return"@ { Some(Key::Enter) }
    else if lower == "left"@ { Some(Key::Left) }
    else if lower == "right"@ { Some(Key::Right) }
    else if lower == "up"@ { Some(Key::Up) }
    else if lower == "down"@ { Some(Key::Down) }
    else if lower == "home"@ { Some(Key::Home) }
    else if lower == "end"@ { Some(Key::End) }
    else if lower == "page-up"@ || lower == "pageup"@ { Some(Key::PageUp) }
    else if lower == "page-down"@ || lower == "pagedown"@ { Some(Key::PageDown) }
    else if lower == "tab"@ { Some(Key::Tab) }
    else if lower == "back-tab"@ || lower == "backtab"@ { Some(Key::BackTab) }
    else if lower == "delete"@ || lower == "del"@ { Some(Key::Delete) }
    else if lower == "insert"@ { Some(Key::Insert) }
    else if lower == "null"@ { Some(Key::Null) }
    else if lower == "esc"@ || lower == "escape"@ { Some(Key::Esc) }
    else if lower == "caps-lock"@ { Some(Key::CapsLock) }
    else if lower == "scroll-lock"@ { Some(Key::ScrollLock) }
    else if lower == "num-lock"@ { Some(Key::NumLock) }
    else if lower == "print-screen"@ { Some(Key::PrintScreen) }
    else if lower == "pause"@ { Some(Key::Pause) }
    else if lower == "menu"@ { Some(Key::Menu) }
    else if lower == "keypad-begin"@ { Some(Key::KeypadBegin) }
    else { None }
}

/// Whether `c` is an ASCII digit.
pub open spec fn is_digit(c: char) -> bool {
    '0' <= c && c <= '9'
}

/// The value of a string of decimal digits.
pub open spec fn digits_value(s: Seq<char>) -> nat
    decreases s.len(),
{
    if s.len() == 0 { 0 } else { digits_value(s.drop_last()) * 10 + ((s.last() as u32) - 48) as nat }
}

/// Whether every character of `s` is an ASCII digit.
pub open spec fn all_digits(s: Seq<char>) -> bool {
    forall|i: int| 0 <= i < s.len() ==> is_digit(#[trigger] s[i])
}

/// `s` without the `+` sign that may lead it.
pub open spec fn unsigned_part(s: Seq<char>) -> Seq<char> {
    if s.len() > 0 && s[0] == '+' { s.drop_first() } else { s }
}

/// The `u8` that `s` denotes in Rust's integer syntax: an optional `+`, then at least one digit,
/// and a value that fits eight bits.
pub open spec fn parse_u8(s: Seq<char>) -> Option<u8> {
    let digits = unsigned_part(s);
    if digits.len() > 0 && all_digits(digits) && digits_value(digits) <= 255 {
        Some(digits_value(digits) as u8)
    } else {
        None
    }
}

/// The key that `key` names: a single character stands for itself; otherwise the case-insensitive
/// name of a special key, or `f` followed by the number of a function key.
pub open spec fn key_from_spec(key: Seq<char>) -> Result<Key, Seq<char>> {
    let lower = ascii_lowercase(key);
    if key.len() == 1 {
        Ok(Key::Char(key[0]))
    } else if named_key(lower) is Some {
        Ok(named_key(lower)->0)
    } else if lower.len() > 0 && lower[0] == 'f' && parse_u8(lower.drop_first()) is Some
        && parse_u8(lower.drop_first())->0 != 0 {
        Ok(Key::Function(parse_u8(lower.drop_first())->0))
    } else {
        Err("unknown key '"@ + key + "'"@)
    }
}

pub(crate) fn chars_of(s: &str) -> (r: Vec<char>)
    ensures
        r@ == s@,
{
    let mut v: Vec<char> = Vec::new();
    let n = s.unicode_len();
    let mut i: usize = 0;
    while i < n
        invariant
            i <= n == s@.len(),
            v@ == s@.subrange(0, i as int),
        decreases n - i,
    {
        v.push(s.get_char(i));
        i = i + 1;
        assert(v@ =~= s@.subrange(0, i as int));
    }
    assert(s@.subrange(0, n as int) =~= s@);
    v
}

pub(crate) fn string_of(v: &[char]) -> (r: String)
    ensures
        r@ == v@,
{
    let mut s = String::new();
    let mut i: usize = 0;
    while i < v.len()
        invariant
            i <= v@.len(),
            s@ == v@.subrange(0, i as int),
        decreases v@.len() - i,
    {
        s.push(v[i]);
        i = i + 1;
        assert(s@ =~= v@.subrange(0, i as int));
    }
    assert(v@.subrange(0, v@.len() as int) =~= v@);
    s
}

fn equals_literal(v: &[char], literal: &str) -> (r: bool)
    ensures
        r == (v@ == literal@),
{
    let n = literal.unicode_len();
    if v.len() != n {
        return false;
    }
    let mut i: usize = 0;
    while i < n
        invariant
            i <= n == literal@.len() == v@.len(),
            forall|j: int| 0 <= j < i ==> v@[j] == literal@[j],
        decreases n - i,
    {
        if v[i] != literal.get_char(i) {
            return false;
        }
        i = i + 1;
    }
    assert(v@ =~= literal@);
    true
}

fn lowercase_of(v: &[char]) -> (r: Vec<char>)
    ensures
        r@ == ascii_lowercase(v@),
{
    let mut out: Vec<char> = Vec::new();
    let mut i: usize = 0;
    while i < v.len()
        invariant
            i <= v@.len(),
            out@ == ascii_lowercase(v@.subrange(0, i as int)),
        decreases v@.len() - i,
    {
        let c = v[i];
        out.push(if 'A' <= c && c <= 'Z' { ((c as u8) + 32) as char } else { c });
        i = i + 1;
        assert(out@ =~= ascii_lowercase(v@.subrange(0, i as int)));
    }
    assert(v@.subrange(0, v@.len() as int) =~= v@);
    out
}

fn named_key_of(lower: &[char]) -> (r: Option<Key>)
    ensures
        r == named_key(lower@),
{
    if equals_literal(lower, "space") { Some(Key::Char(' ')) }
    else if equals_literal(lower, "plus") { Some(Key::Char('+')) }
    else if equals_literal(lower, "backspace") { Some(Key::Backspace) }
    else if equals_literal(lower, "enter") || equals_literal(lower, "return") { Some(Key::Enter) }
    else if equals_literal(lower, "left") { Some(Key::Left) }
    else if equals_literal(lower, "right") { Some(Key::Right) }
    else if equals_literal(lower, "up") { Some(Key::Up) }
    else if equals_literal(lower, "down") { Some(Key::Down) }
    else if equals_literal(lower, "home") { Some(Key::Home) }
    else if equals_literal(lower, "end") { Some(Key::End) }
    else if equals_literal(lower, "page-up") || equals_literal(lower, "pageup") { Some(Key::PageUp) }
    else if equals_literal(lower, "page-down") || equals_literal(lower, "pagedown") { Some(Key::PageDown) }
    else if equals_literal(lower, "tab") { Some(Key::Tab) }
    else if equals_literal(lower, "back-tab") || equals_literal(lower, "backtab") { Some(Key::BackTab) }
    else if equals_literal(lower, "delete") || equals_literal(lower, "del") { Some(Key::Delete) }
    else if equals_literal(lower, "insert") { Some(Key::Insert) }
    else if equals_literal(lower, "null") { Some(Key::Null) }
    else if equals_literal(lower, "esc") || equals_literal(lower, "escape") { Some(Key::Esc) }
    else if equals_literal(lower, "caps-lock") { Some(Key::CapsLock) }
    else if equals_literal(lower, "scroll-lock") { Some(Key::ScrollLock) }
    else if equals_literal(lower, "num-lock") { Some(Key::NumLock) }
    else if equals_literal(lower, "print-screen") { Some(Key::PrintScreen) }
    else if equals_literal(lower, "pause") { Some(Key::Pause) }
    else if equals_literal(lower, "menu") { Some(Key::Menu) }
    else if equals_literal(lower, "keypad-begin") { Some(Key::KeypadBegin) }
    else { None }
}

fn parse_u8_of(s: &[char]) -> (r: Option<u8>)
    ensures
        r == parse_u8(s@),
{
    let start: usize = if s.len() > 0 && s[0] == '+' { 1 } else { 0 };
    let ghost digits = unsigned_part(s@);
    assert(digits =~= s@.subrange(start as int, s@.len() as int));
    if start >= s.len() {
        return None;
    }
    let mut value: u32 = 0;
    let mut i: usize = start;
    while i < s.len()
        invariant
            start <= i <= s@.len(),
            digits == s@.subrange(start as int, s@.len() as int),
            digits == unsigned_part(s@),
            forall|j: int| start <= j < i ==> is_digit(#[trigger] s@[j]),
            value as nat == digits_value(s@.subrange(start as int, i as int)),
            value <= 255,
        decreases s@.len() - i,
    {
        let c = s[i];
        if !('0' <= c && c <= '9') {
            proof {
                assert(digits[i - start] == s@[i as int]);
                assert(!is_digit(digits[i - start]));
                assert(!all_digits(digits));
                assert(parse_u8(s@) is None);
            }
            return None;
        }
        let next = value * 10 + ((c as u32) - 48);
        let ghost prefix = s@.subrange(start as int, i + 1);
        assert(prefix.drop_last() =~= s@.subrange(start as int, i as int));
        assert(prefix.last() == c);
        assert(digits_value(prefix) == next as nat);
        if next > 255 {
            proof {
                lemma_digits_value_grows(digits, (i + 1 - start) as nat);
                assert(digits.subrange(0, (i + 1 - start) as int) =~= prefix);
                assert(digits_value(digits) > 255);
                assert(parse_u8(s@) is None);
            }
            return None;
        }
        value = next;
        i = i + 1;
    }
    assert forall|j: int| 0 <= j < digits.len() implies is_digit(#[trigger] digits[j]) by {
        assert(digits[j] == s@[j + start]);
    }
    Some(value as u8)
}

/// The value of a prefix of a string of digits is at most the value of the whole string.
proof fn lemma_digits_value_grows(s: Seq<char>, n: nat)
    requires
        n <= s.len(),
    ensures
        digits_value(s.subrange(0, n as int)) <= digits_value(s),
    decreases s.len() - n,
{
    if n < s.len() {
        lemma_digits_value_grows(s, n + 1);
        assert(s.subrange(0, (n + 1) as int).drop_last() =~= s.subrange(0, n as int));
    } else {
        assert(s.subrange(0, n as int) =~= s);
    }
}

/// The key that `chars` names; see [`key_from_spec`].
fn key_from_chars(chars: &[char]) -> (r: Result<Key, String>)
    ensures
        match r {
            Ok(k) => key_from_spec(chars@) == Ok::<Key, Seq<char>>(k),
            Err(e) => key_from_spec(chars@) == Err::<Key, Seq<char>>(e@),
        },
{
    if chars.len() == 1 {
        return Ok(Key::Char(chars[0]));
    }
    let lower = lowercase_of(chars);
    if let Some(named) = named_key_of(lower.as_slice()) {
        return Ok(named);
    }
    if lower.len() > 0 && lower[0] == 'f' {
        let rest = vstd::slice::slice_subrange(lower.as_slice(), 1, lower.len());
        assert(rest@ =~= lower@.drop_first());
        if let Some(number) = parse_u8_of(rest) {
            if number != 0 {
                return Ok(Key::Function(number));
            }
        }
    }
    let mut message = String::from_str("unknown key '");
    let text = string_of(chars);
    message.append(text.as_str());
    message.append("'");
    Err(message)
}

impl Key {
    /// The key that `key` names; see [`key_from_spec`].
    pub fn from_str(key: &str) -> (r: Result<Key, String>)
        ensures
            match r {
                Ok(k) => key_from_spec(key@) == Ok::<Key, Seq<char>>(k),
                Err(e) => key_from_spec(key@) == Err::<Key, Seq<char>>(e@),
            },
    {
        let chars = chars_of(key);
        key_from_chars(chars.as_slice())
    }
}

/// Whether the named key `k`'s display is the literal `name`.
pub open spec fn key_display(k: Key) -> Seq<char> {
    match k {
        Key::Char(c) => if c == ' ' { "<Space>"@ } else { seq![c] },
        Key::Backspace => "<Backspace>"@,
        Key::Enter => "<Enter>"@,
        Key::Left => "<Left>"@,
        Key::Right => "<Right>"@,
        Key::Up => "<Up>"@,
        Key::Down => "<Down>"@,
        Key::Home => "<Home>"@,
        Key::End => "<End>"@,
        Key::PageUp => "<Page Up>"@,
        Key::PageDown => "<Page Down>"@,
        Key::Tab => "<Tab>"@,
        Key::BackTab => "<Back Tab>"@,
        Key::Delete => "<Delete>"@,
        Key::Insert => "<Insert>"@,
        Key::Function(n) => "<F"@ + decimal(n as nat) + ">"@,
        Key::Null => "<Null>"@,
        Key::Esc => "<Esc>"@,
        Key::CapsLock => "<Caps Lock>"@,
        Key::ScrollLock => "<Scroll Lock>"@,
        Key::NumLock => "<Num Lock>"@,
        Key::PrintScreen => "<Print Screen>"@,
        Key::Pause => "<Pause>"@,
        Key::Menu => "<Menu>"@,
        Key::KeypadBegin => "<Keypad Begin>"@,
    }
}

impl Key {
    /// How the key is shown to users.
    pub fn display(&self) -> (r: String)
        ensures
            r@ == key_display(*self),
    {
        match self {
            Key::Char(c) => {
                if *c == ' ' {
                    String::from_str("<Space>")
                } else {
                    let mut s = String::new();
                    s.push(*c);
                    s
                }
            },
            Key::Backspace => String::from_str("<Backspace>"),
            Key::Enter => String::from_str("<Enter>"),
            Key::Left => String::from_str("<Left>"),
            Key::Right => String::from_str("<Right>"),
            Key::Up => String::from_str("<Up>"),
            Key::Down => String::from_str("<Down>"),
            Key::Home => String::from_str("<Home>"),
            Key::End => String::from_str("<End>"),
            Key::PageUp => String::from_str("<Page Up>"),
            Key::PageDown => String::from_str("<Page Down>"),
            Key::Tab => String::from_str("<Tab>"),
            Key::BackTab => String::from_str("<Back Tab>"),
            Key::Delete => String::from_str("<Delete>"),
            Key::Insert => String::from_str("<Insert>"),
            Key::Function(n) => {
                let mut s = String::from_str("<F");
                let digits = decimal_string(*n as u128);
                s.append(digits.as_str());
                s.append(">");
                s
            },
            Key::Null => String::from_str("<Null>"),
            Key::Esc => String::from_str("<Esc>"),
            Key::CapsLock => String::from_str("<Caps Lock>"),
            Key::ScrollLock => String::from_str("<Scroll Lock>"),
            Key::NumLock => String::from_str("<Num Lock>"),
            Key::PrintScreen => String::from_str("<Print Screen>"),
            Key::Pause => String::from_str("<Pause>"),
            Key::Menu => String::from_str("<Menu>"),
            Key::KeypadBegin => String::from_str("<Keypad Begin>"),
        }
    }
}


fn is_whitespace(c: char) -> (r: bool)
    ensures
        r == is_whitespace_char(c),
{
    let u = c as u32;
    (0x09 <= u && u <= 0x0d) || u == 0x20 || u == 0x85 || u == 0xa0 || u == 0x1680
        || (0x2000 <= u && u <= 0x200a) || u == 0x2028 || u == 0x2029 || u == 0x202f
        || u == 0x205f || u == 0x3000
}

proof fn lemma_trim_start_skips(s: Seq<char>, i: int)
    requires
        0 <= i <= s.len(),
        forall|j: int| 0 <= j < i ==> is_whitespace_char(#[trigger] s[j]),
    ensures
        trim_start(s) == trim_start(s.subrange(i, s.len() as int)),
    decreases i,
{
    if i > 0 {
        lemma_trim_start_skips(s, i - 1);
        assert(s.subrange(i - 1, s.len() as int).drop_first() =~= s.subrange(i, s.len() as int));
    } else {
        assert(s.subrange(0, s.len() as int) =~= s);
    }
}

proof fn lemma_trim_end_skips(s: Seq<char>, k: int)
    requires
        0 <= k <= s.len(),
        forall|j: int| k <= j < s.len() ==> is_whitespace_char(#[trigger] s[j]),
    ensures
        trim_end(s) == trim_end(s.subrange(0, k)),
    decreases s.len() - k,
{
    if k < s.len() {
        lemma_trim_end_skips(s, k + 1);
        assert(s.subrange(0, k + 1).drop_last() =~= s.subrange(0, k));
    } else {
        assert(s.subrange(0, k) =~= s);
    }
}

pub(crate) fn trimmed_of(v: &[char]) -> (r: Vec<char>)
    ensures
        r@ == trimmed(v@),
{
    let mut a: usize = 0;
    while a < v.len() && is_whitespace(v[a])
        invariant
            a <= v@.len(),
            forall|j: int| 0 <= j < a ==> is_whitespace_char(#[trigger] v@[j]),
        decreases v@.len() - a,
    {
        a = a + 1;
    }
    let ghost rest = v@.subrange(a as int, v@.len() as int);
    proof {
        lemma_trim_start_skips(v@, a as int);
        assert(trim_start(rest) == rest);
    }
    let mut b: usize = v.len();
    while b > a && is_whitespace(v[b - 1])
        invariant
            a <= b <= v@.len(),
            rest == v@.subrange(a as int, v@.len() as int),
            forall|j: int| b <= j < v@.len() ==> is_whitespace_char(#[trigger] v@[j]),
        decreases b,
    {
        b = b - 1;
    }
    proof {
        assert forall|j: int| (b - a) <= j < rest.len() implies is_whitespace_char(#[trigger] rest[j]) by {
            assert(rest[j] == v@[j + a]);
        }
        lemma_trim_end_skips(rest, (b - a) as int);
        assert(rest.subrange(0, (b - a) as int) =~= v@.subrange(a as int, b as int));
    }
    let mut out: Vec<char> = Vec::new();
    let mut i: usize = a;
    while i < b
        invariant
            a <= i <= b <= v@.len(),
            out@ == v@.subrange(a as int, i as int),
        decreases b - i,
    {
        out.push(v[i]);
        i = i + 1;
        assert(out@ =~= v@.subrange(a as int, i as int));
    }
    out
}

/// The views of a vector of character vectors.
pub open spec fn views(v: Seq<Vec<char>>) -> Seq<Seq<char>> {
    v.map_values(|p: Vec<char>| p@)
}

pub(crate) fn split_on(v: &[char], sep: char) -> (r: Vec<Vec<char>>)
    ensures
        views(r@) == split_by(v@, sep),
{
    let mut parts: Vec<Vec<char>> = Vec::new();
    let mut current: Vec<char> = Vec::new();
    let mut i: usize = 0;
    assert(v@.subrange(0, 0) =~= Seq::<char>::empty());
    assert(views(parts@).push(current@) =~= seq![Seq::<char>::empty()]);
    while i < v.len()
        invariant
            i <= v@.len(),
            split_by(v@.subrange(0, i as int), sep) == views(parts@).push(current@),
        decreases v@.len() - i,
    {
        let ghost before = views(parts@).push(current@);
        assert(v@.subrange(0, i + 1).drop_last() =~= v@.subrange(0, i as int));
        if v[i] == sep {
            let finished = current;
            parts.push(finished);
            current = Vec::new();
            assert(views(parts@).push(current@) =~= before.push(Seq::empty()));
        } else {
            current.push(v[i]);
            assert(views(parts@).push(current@) =~= before.update(before.len() - 1, before.last().push(v@[i as int])));
        }
        i = i + 1;
    }
    assert(v@.subrange(0, v@.len() as int) =~= v@);
    parts.push(current);
    assert(views(parts@) =~= split_by(v@, sep));
    parts
}

/// The pieces of a keybinding: the binding `+` alone is the plus key, any other binding is split
/// at `+` signs and each piece trimmed.
pub open spec fn binding_parts(b: Seq<char>) -> Seq<Seq<char>> {
    if b == seq!['+'] {
        seq![b]
    } else {
        split_plus(b).map_values(|p: Seq<char>| trimmed(p))
    }
}

/// The modifier that `m` names, case-insensitively.
pub open spec fn modifier_of(m: Seq<char>) -> Option<Modifier> {
    let lower = ascii_lowercase(m);
    if lower == "ctrl"@ || lower == "control"@ {
        Some(Modifier::Control)
    } else if lower == "alt"@ {
        Some(Modifier::Alt)
    } else if lower == "shift"@ {
        Some(Modifier::Shift)
    } else {
        None
    }
}

/// The modifiers that `parts` name, in order of first mention and each once, or the first piece
/// that names no modifier.
pub open spec fn modifiers_of(parts: Seq<Seq<char>>) -> Result<Seq<Modifier>, Seq<char>>
    decreases parts.len(),
{
    if parts.len() == 0 {
        Ok(Seq::empty())
    } else {
        match modifiers_of(parts.drop_last()) {
            Err(m) => Err(m),
            Ok(mods) => match modifier_of(parts.last()) {
                None => Err(parts.last()),
                Some(m) => Ok(if mods.contains(m) { mods } else { mods.push(m) }),
            },
        }
    }
}

/// The key and modifiers that the keybinding `b` describes, or the message that rejects it.
pub open spec fn binding_spec(b: Seq<char>) -> Result<(Key, Seq<Modifier>), Seq<char>> {
    if b.len() == 0 {
        Err("keybinding cannot be empty"@)
    } else {
        let parts = binding_parts(b);
        let key = parts.last();
        if key.len() == 0 {
            Err("keybinding '"@ + b + "' has no key"@)
        } else {
            match modifiers_of(parts.drop_last()) {
                Err(m) => Err("unknown modifier '"@ + m + "' in keybinding '"@ + b + "'"@),
                Ok(mods) => match key_from_spec(key) {
                    Err(e) => Err(e + " in keybinding '"@ + b + "'"@),
                    Ok(k) => Ok((k, mods)),
                },
            }
        }
    }
}

fn modifier_of_chars(m: &[char]) -> (r: Option<Modifier>)
    ensures
        r == modifier_of(m@),
{
    let lower = lowercase_of(m);
    if equals_literal(lower.as_slice(), "ctrl") || equals_literal(lower.as_slice(), "control") {
        Some(Modifier::Control)
    } else if equals_literal(lower.as_slice(), "alt") {
        Some(Modifier::Alt)
    } else if equals_literal(lower.as_slice(), "shift") {
        Some(Modifier::Shift)
    } else {
        None
    }
}

fn contains_modifier(mods: &Vec<Modifier>, m: Modifier) -> (r: bool)
    ensures
        r == mods@.contains(m),
{
    let mut i: usize = 0;
    while i < mods.len()
        invariant
            i <= mods@.len(),
            forall|j: int| 0 <= j < i ==> mods@[j] != m,
        decreases mods@.len() - i,
    {
        if mods[i] == m {
            return true;
        }
        i = i + 1;
    }
    false
}

/// One key and the modifiers held with it.
#[derive(Clone, Debug)]
pub struct KeyBinding {
    /// The key.
    pub code: Key,
    /// The modifiers, in the order the binding names them, each once.
    pub modifiers: Vec<Modifier>,
}

impl View for KeyBinding {
    type V = (Key, Seq<Modifier>);

    open spec fn view(&self) -> (Key, Seq<Modifier>) {
        (self.code, self.modifiers@)
    }
}

/// How a modifier is shown to users.
pub open spec fn modifier_display(m: Modifier) -> Seq<char> {
    match m {
        Modifier::Control => "Ctrl"@,
        Modifier::Alt => "Alt"@,
        Modifier::Shift => "Shift"@,
    }
}

/// How a keybinding is shown: each modifier followed by ` + `, then the key.
pub open spec fn binding_display(b: (Key, Seq<Modifier>)) -> Seq<char>
    decreases b.1.len(),
{
    if b.1.len() == 0 {
        key_display(b.0)
    } else {
        modifier_display(b.1[0]) + " + "@ + binding_display((b.0, b.1.drop_first()))
    }
}

proof fn lemma_binding_display_split(k: Key, mods: Seq<Modifier>, i: int)
    requires
        0 <= i <= mods.len(),
    ensures
        binding_display((k, mods)) == modifiers_prefix_display(mods.subrange(0, i)) + binding_display((k, mods.subrange(i, mods.len() as int))),
    decreases i,
{
    if i == 0 {
        assert(mods.subrange(0, mods.len() as int) =~= mods);
        assert(modifiers_prefix_display(mods.subrange(0, 0)) =~= Seq::<char>::empty());
        assert(Seq::<char>::empty() + binding_display((k, mods)) =~= binding_display((k, mods)));
    } else {
        lemma_binding_display_split(k, mods, i - 1);
        let tail = mods.subrange(i - 1, mods.len() as int);
        assert(tail.drop_first() =~= mods.subrange(i, mods.len() as int));
        assert(mods.subrange(0, i).drop_last() =~= mods.subrange(0, i - 1));
        assert(modifiers_prefix_display(mods.subrange(0, i)) == modifiers_prefix_display(mods.subrange(0, i - 1)) + modifier_display(mods[i - 1]) + " + "@);
        assert(modifiers_prefix_display(mods.subrange(0, i)) + binding_display((k, mods.subrange(i, mods.len() as int)))
            =~= modifiers_prefix_display(mods.subrange(0, i - 1)) + binding_display((k, tail)));
    }
}

/// Each modifier of `mods` followed by ` + `.
pub open spec fn modifiers_prefix_display(mods: Seq<Modifier>) -> Seq<char>
    decreases mods.len(),
{
    if mods.len() == 0 {
        Seq::empty()
    } else {
        modifiers_prefix_display(mods.drop_last()) + modifier_display(mods.last()) + " + "@
    }
}

impl KeyBinding {
    /// The keybinding that `binding` describes; see [`binding_spec`].
    pub fn from_str(binding: &str) -> (r: Result<KeyBinding, String>)
        ensures
            match r {
                Ok(kb) => binding_spec(binding@) == Ok::<(Key, Seq<Modifier>), Seq<char>>(kb@),
                Err(e) => binding_spec(binding@) == Err::<(Key, Seq<Modifier>), Seq<char>>(e@),
            },
    {
        let chars = chars_of(binding);
        if chars.len() == 0 {
            return Err(String::from_str("keybinding cannot be empty"));
        }
        let mut parts: Vec<Vec<char>> = Vec::new();
        if chars.len() == 1 && chars[0] == '+' {
            assert(chars@ =~= seq!['+']);
            parts.push(chars.clone());
            assert(views(parts@) =~= binding_parts(binding@));
        } else {
            assert(chars@ != seq!['+']);
            let pieces = split_on(chars.as_slice(), '+');
            let mut i: usize = 0;
            while i < pieces.len()
                invariant
                    i <= pieces@.len(),
                    chars@ == binding@,
                    views(pieces@) == split_plus(binding@),
                    views(parts@) == views(pieces@).subrange(0, i as int).map_values(|p: Seq<char>| trimmed(p)),
                decreases pieces@.len() - i,
            {
                assert(views(pieces@)[i as int] == pieces@[i as int]@);
                let ghost old_views = views(parts@);
                let t = trimmed_of(pieces[i].as_slice());
                parts.push(t);
                assert(views(parts@) =~= old_views.push(trimmed(views(pieces@)[i as int])));
                assert(views(pieces@).subrange(0, i + 1).map_values(|p: Seq<char>| trimmed(p))
                    =~= views(pieces@).subrange(0, i as int).map_values(|p: Seq<char>| trimmed(p)).push(trimmed(views(pieces@)[i as int])));
                i = i + 1;
                assert(views(parts@) =~= views(pieces@).subrange(0, i as int).map_values(|p: Seq<char>| trimmed(p)));
            }
            assert(views(pieces@).subrange(0, pieces@.len() as int) =~= views(pieces@));
        }
        assert(views(parts@) == binding_parts(binding@));
        let n = parts.len();
        assert(n > 0) by {
            if !(chars@ =~= seq!['+']) {
                lemma_split_nonempty(binding@, '+');
            }
        }
        if parts[n - 1].len() == 0 {
            let mut message = String::from_str("keybinding '");
            message.append(binding);
            message.append("' has no key");
            return Err(message);
        }
        let mut modifiers: Vec<Modifier> = Vec::new();
        let mut i: usize = 0;
        assert(views(parts@).drop_last().subrange(0, 0) =~= Seq::<Seq<char>>::empty());
        while i < n - 1
            invariant
                n == parts@.len() > 0,
                i <= n - 1,
                binding@.len() > 0,
                views(parts@).last().len() > 0,
                views(parts@) == binding_parts(binding@),
                modifiers_of(views(parts@).drop_last().subrange(0, i as int)) == Ok::<Seq<Modifier>, Seq<char>>(modifiers@),
            decreases n - 1 - i,
        {
            let ghost prefix = views(parts@).drop_last().subrange(0, i + 1);
            assert(prefix.drop_last() =~= views(parts@).drop_last().subrange(0, i as int));
            assert(prefix.last() == parts@[i as int]@);
            match modifier_of_chars(parts[i].as_slice()) {
                None => {
                    proof {
                        assert(modifiers_of(prefix) == Err::<Seq<Modifier>, Seq<char>>(parts@[i as int]@));
                        lemma_modifiers_error_persists(views(parts@).drop_last(), i as int + 1);
                        assert(parts@[(n - 1) as int]@ == views(parts@).last());
                    }
                    let mut message = String::from_str("unknown modifier '");
                    let text = string_of(parts[i].as_slice());
                    message.append(text.as_str());
                    message.append("' in keybinding '");
                    message.append(binding);
                    message.append("'");
                    return Err(message);
                },
                Some(m) => {
                    if !contains_modifier(&modifiers, m) {
                        modifiers.push(m);
                    }
                },
            }
            i = i + 1;
        }
        assert(views(parts@).drop_last().subrange(0, (n - 1) as int) =~= views(parts@).drop_last());
        match key_from_chars(parts[n - 1].as_slice()) {
            Ok(code) => Ok(KeyBinding { code, modifiers }),
            Err(e) => {
                let mut message = e;
                message.append(" in keybinding '");
                message.append(binding);
                message.append("'");
                Err(message)
            },
        }
    }

    /// How the binding is shown to users, such as `Ctrl + q`.
    pub fn display(&self) -> (r: String)
        ensures
            r@ == binding_display(self@),
    {
        let mut s = String::new();
        let mut i: usize = 0;
        assert(self.modifiers@.subrange(0, 0) =~= Seq::<Modifier>::empty());
        while i < self.modifiers.len()
            invariant
                i <= self.modifiers@.len(),
                s@ == modifiers_prefix_display(self.modifiers@.subrange(0, i as int)),
            decreases self.modifiers@.len() - i,
        {
            let name = match self.modifiers[i] {
                Modifier::Control => "Ctrl",
                Modifier::Alt => "Alt",
                Modifier::Shift => "Shift",
            };
            proof {
                reveal_strlit("Ctrl");
                reveal_strlit("Alt");
                reveal_strlit("Shift");
            }
            s.append(name);
            s.append(" + ");
            assert(self.modifiers@.subrange(0, i + 1).drop_last() =~= self.modifiers@.subrange(0, i as int));
            i = i + 1;
            assert(s@ =~= modifiers_prefix_display(self.modifiers@.subrange(0, i as int)));
        }
        let key = self.code.display();
        s.append(key.as_str());
        proof {
            lemma_binding_display_split(self.code, self.modifiers@, self.modifiers@.len() as int);
            assert(self.modifiers@.subrange(0, self.modifiers@.len() as int) =~= self.modifiers@);
            assert(self.modifiers@.subrange(self.modifiers@.len() as int, self.modifiers@.len() as int) =~= Seq::<Modifier>::empty());
        }
        s
    }
}

pub(crate) proof fn lemma_split_nonempty(s: Seq<char>, sep: char)
    ensures
        split_by(s, sep).len() > 0,
    decreases s.len(),
{
    if s.len() > 0 {
        lemma_split_nonempty(s.drop_last(), sep);
    }
}

proof fn lemma_modifiers_error_persists(parts: Seq<Seq<char>>, i: int)
    requires
        0 < i <= parts.len(),
        modifiers_of(parts.subrange(0, i)) is Err,
    ensures
        modifiers_of(parts) == modifiers_of(parts.subrange(0, i)),
    decreases parts.len() - i,
{
    if i < parts.len() {
        assert(parts.subrange(0, i + 1).drop_last() =~= parts.subrange(0, i));
        lemma_modifiers_error_persists(parts, i + 1);
    } else {
        assert(parts.subrange(0, i) =~= parts);
    }
}


/// Each keybinding of `bs` parsed, or the message that rejects the first one that fails.
pub open spec fn bindings_spec(bs: Seq<Seq<char>>) -> Result<Seq<(Key, Seq<Modifier>)>, Seq<char>>
    decreases bs.len(),
{
    if bs.len() == 0 {
        Ok(Seq::empty())
    } else {
        match bindings_spec(bs.drop_last()) {
            Err(e) => Err(e),
            Ok(parsed) => match binding_spec(bs.last()) {
                Err(e) => Err(e),
                Ok(b) => Ok(parsed.push(b)),
            },
        }
    }
}

/// The text that stands for an action without keys.
pub open spec fn unmapped() -> Seq<char> {
    "<unmapped>"@
}

/// The displays of `bs` joined by `/`.
pub open spec fn bindings_joined(bs: Seq<(Key, Seq<Modifier>)>) -> Seq<char>
    decreases bs.len(),
{
    if bs.len() == 0 {
        Seq::empty()
    } else if bs.len() == 1 {
        binding_display(bs[0])
    } else {
        bindings_joined(bs.drop_last()) + "/"@ + binding_display(bs.last())
    }
}

/// One or more keys that invoke an action.
#[derive(Clone, Debug)]
pub struct KeyBindings(pub Vec<KeyBinding>);

impl View for KeyBindings {
    type V = Seq<(Key, Seq<Modifier>)>;

    open spec fn view(&self) -> Seq<(Key, Seq<Modifier>)> {
        self.0@.map_values(|b: KeyBinding| b@)
    }
}

impl KeyBindings {
    /// Parse each configured binding, in order; the first one that fails rejects them all.
    pub fn parse(bindings: &Vec<String>) -> (r: Result<KeyBindings, String>)
        ensures
            match r {
                Ok(kb) => bindings_spec(bindings@.map_values(|b: String| b@)) == Ok::<Seq<(Key, Seq<Modifier>)>, Seq<char>>(kb@),
                Err(e) => bindings_spec(bindings@.map_values(|b: String| b@)) == Err::<Seq<(Key, Seq<Modifier>)>, Seq<char>>(e@),
            },
    {
        let ghost texts = bindings@.map_values(|b: String| b@);
        let mut parsed: Vec<KeyBinding> = Vec::new();
        let mut i: usize = 0;
        assert(texts.subrange(0, 0) =~= Seq::<Seq<char>>::empty());
        assert(parsed@.map_values(|b: KeyBinding| b@) =~= Seq::<(Key, Seq<Modifier>)>::empty());
        while i < bindings.len()
            invariant
                i <= bindings@.len(),
                texts == bindings@.map_values(|b: String| b@),
                bindings_spec(texts.subrange(0, i as int)) == Ok::<Seq<(Key, Seq<Modifier>)>, Seq<char>>(parsed@.map_values(|b: KeyBinding| b@)),
            decreases bindings@.len() - i,
        {
            let ghost prefix = texts.subrange(0, i + 1);
            assert(prefix.drop_last() =~= texts.subrange(0, i as int));
            assert(prefix.last() == bindings@[i as int]@);
            match KeyBinding::from_str(bindings[i].as_str()) {
                Ok(b) => {
                    let ghost before = parsed@.map_values(|b: KeyBinding| b@);
                    parsed.push(b);
                    assert(parsed@.map_values(|b: KeyBinding| b@) =~= before.push(b@));
                },
                Err(e) => {
                    proof {
                        lemma_bindings_error_persists(texts, i as int + 1);
                    }
                    return Err(e);
                },
            }
            i = i + 1;
        }
        assert(texts.subrange(0, bindings@.len() as int) =~= texts);
        Ok(KeyBindings(parsed))
    }

    /// The first key, for compact hints; `<unmapped>` where there is none.
    pub fn primary(&self) -> (r: String)
        ensures
            r@ == (if self@.len() == 0 { unmapped() } else { binding_display(self@[0]) }),
    {
        if self.0.len() == 0 {
            String::from_str("<unmapped>")
        } else {
            self.0[0].display()
        }
    }

    /// Whether the action has no keys.
    pub fn is_empty(&self) -> (r: bool)
        ensures
            r == (self@.len() == 0),
    {
        self.0.len() == 0
    }

    /// All keys joined by `/`, such as `j/<Down>`; `<unmapped>` where there is none.
    pub fn display(&self) -> (r: String)
        ensures
            r@ == (if self@.len() == 0 { unmapped() } else { bindings_joined(self@) }),
    {
        if self.0.len() == 0 {
            return String::from_str("<unmapped>");
        }
        let mut s = self.0[0].display();
        let mut i: usize = 1;
        assert(self@.subrange(0, 1).len() == 1);
        assert(bindings_joined(self@.subrange(0, 1)) == binding_display(self@[0]));
        while i < self.0.len()
            invariant
                1 <= i <= self@.len(),
                self@.len() == self.0@.len(),
                s@ == bindings_joined(self@.subrange(0, i as int)),
            decreases self@.len() - i,
        {
            s.append("/");
            let next = self.0[i].display();
            s.append(next.as_str());
            assert(self@.subrange(0, i + 1).drop_last() =~= self@.subrange(0, i as int));
            i = i + 1;
        }
        assert(self@.subrange(0, self@.len() as int) =~= self@);
        s
    }

    /// Whether `press` invokes the action: whether one of its keys matches it.
    pub fn matches(&self, press: KeyPress) -> (r: bool)
        ensures
            r == exists|i: int| 0 <= i < self@.len() && #[trigger] binding_matches(self@[i], press),
    {
        let mut i: usize = 0;
        while i < self.0.len()
            invariant
                i <= self@.len(),
                self@.len() == self.0@.len(),
                forall|j: int| 0 <= j < i ==> !binding_matches(#[trigger] self@[j], press),
            decreases self@.len() - i,
        {
            assert(self@[i as int] == self.0@[i as int]@);
            if self.0[i].matches(press) {
                return true;
            }
            i = i + 1;
        }
        false
    }
}

proof fn lemma_bindings_error_persists(bs: Seq<Seq<char>>, i: int)
    requires
        0 < i <= bs.len(),
        bindings_spec(bs.subrange(0, i)) is Err,
    ensures
        bindings_spec(bs) == bindings_spec(bs.subrange(0, i)),
    decreases bs.len() - i,
{
    if i < bs.len() {
        assert(bs.subrange(0, i + 1).drop_last() =~= bs.subrange(0, i));
        lemma_bindings_error_persists(bs, i + 1);
    } else {
        assert(bs.subrange(0, i) =~= bs);
    }
}

/// The bit of the shift modifier in a key press.
pub const SHIFT: u8 = 1;
/// The bit of the control modifier in a key press.
pub const CONTROL: u8 = 2;
/// The bit of the alt modifier in a key press.
pub const ALT: u8 = 4;

/// A key that the terminal reported, with its modifier bits.
#[derive(Clone, Copy, Debug, PartialEq, Eq, Structural)]
pub struct KeyPress {
    /// The key.
    pub code: Key,
    /// The modifiers held: `SHIFT`, `CONTROL` and `ALT` and any other bits the terminal set.
    pub modifiers: u8,
}

/// Whether `c` is alphabetic or numeric by Unicode's derived properties, as
/// `char::is_alphanumeric` decides.
pub uninterp spec fn alphanumeric(c: char) -> bool;

/// `char::is_alphanumeric` of std; its result is named, not restated.
#[verifier::external_body]
fn is_alphanumeric(c: char) -> (r: bool)
    ensures
        r == alphanumeric(c),
{
    c.is_alphanumeric()
}

/// The bit of a modifier.
pub open spec fn modifier_bit(m: Modifier) -> u8 {
    match m {
        Modifier::Shift => SHIFT,
        Modifier::Control => CONTROL,
        Modifier::Alt => ALT,
    }
}

/// The modifier bits of `mods`.
pub open spec fn modifier_bits(mods: Seq<Modifier>) -> u8
    decreases mods.len(),
{
    if mods.len() == 0 { 0 } else { modifier_bits(mods.drop_last()) | modifier_bit(mods.last()) }
}

/// A key event with letter case folded into the shift modifier: an uppercase letter implies
/// shift, and shift makes a letter uppercase.
pub open spec fn normalized(code: Key, mods: u8) -> (Key, u8) {
    match code {
        Key::Char(c) => if 'A' <= c && c <= 'Z' {
            (code, mods | SHIFT)
        } else if mods & SHIFT == SHIFT {
            (Key::Char(if 'a' <= c && c <= 'z' { ((c as u32) - 32) as char } else { c }), mods)
        } else {
            (code, mods)
        },
        _ => (code, mods),
    }
}

/// Whether `press` invokes binding `b`: both compare equal once case is normalized, and a
/// punctuation key bound without shift also accepts the shift that typing it may need.
pub open spec fn binding_matches(b: (Key, Seq<Modifier>), press: KeyPress) -> bool {
    let implicit_shift = !b.1.contains(Modifier::Shift) && match b.0 {
        Key::Char(c) => !alphanumeric(c),
        _ => false,
    };
    let press_mods = if implicit_shift { press.modifiers & !SHIFT } else { press.modifiers };
    normalized(b.0, modifier_bits(b.1)) == normalized(press.code, press_mods)
}

fn normalize(code: Key, mods: u8) -> (r: (Key, u8))
    ensures
        r == normalized(code, mods),
{
    match code {
        Key::Char(c) => if 'A' <= c && c <= 'Z' {
            (code, mods | SHIFT)
        } else if mods & SHIFT == SHIFT {
            (Key::Char(if 'a' <= c && c <= 'z' { ((c as u8) - 32) as char } else { c }), mods)
        } else {
            (code, mods)
        },
        _ => (code, mods),
    }
}

impl KeyBinding {
    /// The modifier bits of the binding.
    fn bits(&self) -> (r: u8)
        ensures
            r == modifier_bits(self.modifiers@),
    {
        let mut bits: u8 = 0;
        let mut i: usize = 0;
        assert(self.modifiers@.subrange(0, 0) =~= Seq::<Modifier>::empty());
        while i < self.modifiers.len()
            invariant
                i <= self.modifiers@.len(),
                bits == modifier_bits(self.modifiers@.subrange(0, i as int)),
            decreases self.modifiers@.len() - i,
        {
            let bit = match self.modifiers[i] {
                Modifier::Shift => SHIFT,
                Modifier::Control => CONTROL,
                Modifier::Alt => ALT,
            };
            bits = bits | bit;
            assert(self.modifiers@.subrange(0, i + 1).drop_last() =~= self.modifiers@.subrange(0, i as int));
            i = i + 1;
        }
        assert(self.modifiers@.subrange(0, self.modifiers@.len() as int) =~= self.modifiers@);
        bits
    }

    /// Whether `press` invokes this binding; see [`binding_matches`].
    pub fn matches(&self, press: KeyPress) -> (r: bool)
        ensures
            r == binding_matches(self@, press),
    {
        let implicit_shift = !contains_modifier(&self.modifiers, Modifier::Shift) && match self.code {
            Key::Char(c) => !is_alphanumeric(c),
            _ => false,
        };
        let press_mods = if implicit_shift { press.modifiers & !SHIFT } else { press.modifiers };
        let left = normalize(self.code, self.bits());
        let right = normalize(press.code, press_mods);
        left.0 == right.0 && left.1 == right.1
    }
}

} // verus!

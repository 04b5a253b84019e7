//! Text shaping: fitting names into columns, escaping paths and notification messages.
use vstd::prelude::*;
use vstd::string::StringExecFns;
use unicode_segmentation::UnicodeSegmentation;

verus! {

/// The extended grapheme clusters of `s`, as Unicode Standard Annex #29 delimits them.
pub uninterp spec fn extended_graphemes(s: Seq<char>) -> Seq<Seq<char>>;

/// Split `s` into its extended grapheme clusters with `unicode-segmentation`'s
/// `UnicodeSegmentation::graphemes(s, true)`; its result is named, not restated, but for this:
/// the clusters are consecutive slices of `s`, so they join back into `s`.
#[verifier::external_body]
fn graphemes_of(s: &str) -> (r: Vec<String>)
    ensures
        r@.map_values(|g: String| g@) == extended_graphemes(s@),
        r@.map_values(|g: String| g@).flatten() == s@,
{
    s.graphemes(true).map(|g| g.to_string()).collect()
}

/// The horizontal ellipsis that replaces removed graphemes.
pub open spec fn ellipsis() -> char {
    '\u{2026}'
}

/// The text that `fit_string_graphemes_with_ellipsis` shows for `s` in `desired` graphemes, and
/// its width in graphemes: strings that fit are kept, longer ones lose their leading graphemes to
/// an ellipsis. At least two graphemes are always shown.
pub open spec fn fitted(s: Seq<char>, grapheme_count: usize, desired: usize) -> (Seq<char>, usize) {
    let desired = if desired < 2 { 2usize } else { desired };
    if grapheme_count <= desired {
        (s, grapheme_count)
    } else {
        let to_be_removed = grapheme_count - desired + 1;
        let gs = extended_graphemes(s);
        let kept = if to_be_removed >= gs.len() { Seq::empty() } else { gs.skip(to_be_removed as int) };
        (seq![ellipsis()] + kept.flatten(), desired)
    }
}

proof fn lemma_subrange_push(s: Seq<Seq<char>>, a: int, b: int)
    requires
        0 <= a <= b < s.len(),
    ensures
        s.subrange(a, b + 1) == s.subrange(a, b).push(s[b]),
{
    assert(s.subrange(a, b + 1) =~= s.subrange(a, b).push(s[b]));
}

proof fn lemma_flatten_push(gs: Seq<Seq<char>>, g: Seq<char>)
    ensures
        gs.push(g).flatten() == gs.flatten() + g,
    decreases gs.len(),
{
    if gs.len() == 0 {
        assert(gs.push(g).drop_first() =~= Seq::<Seq<char>>::empty());
        assert(gs.push(g).flatten() =~= g + Seq::<Seq<char>>::empty().flatten());
        assert(gs.flatten() + g =~= g);
    } else {
        assert(gs.push(g).drop_first() =~= gs.drop_first().push(g));
        lemma_flatten_push(gs.drop_first(), g);
        assert(gs.push(g).flatten() =~= gs.first() + (gs.drop_first().flatten() + g));
    }
}

/// Shorten `s`, which has `path_graphemes_count` graphemes, to `desired_graphemes` by replacing
/// its beginning with an ellipsis; returns the text and its width in graphemes.
pub fn fit_string_graphemes_with_ellipsis(s: &str, path_graphemes_count: usize, desired_graphemes: usize) -> (r: (String, usize))
    ensures
        (r.0@, r.1) == fitted(s@, path_graphemes_count, desired_graphemes),
{
    let desired = if desired_graphemes < 2 { 2 } else { desired_graphemes };
    let gc = path_graphemes_count;
    if gc <= desired {
        return (String::from_str(s), gc);
    }
    let to_be_removed = gc - desired + 1;
    let graphemes = graphemes_of(s);
    let ghost gs = extended_graphemes(s@);
    let mut n = String::new();
    n.push('\u{2026}');
    let mut i: usize = to_be_removed;
    let ghost start = if to_be_removed < graphemes@.len() { to_be_removed as int } else { graphemes@.len() as int };
    if i > graphemes.len() {
        i = graphemes.len();
    }
    assert(gs.len() == graphemes@.len());
    assert forall|j: int| 0 <= j < gs.len() implies gs[j] == #[trigger] graphemes@[j]@ by {}
    assert(gs.subrange(start, start) =~= Seq::<Seq<char>>::empty());
    assert(n@ =~= seq![ellipsis()] + gs.subrange(start, i as int).flatten());
    while i < graphemes.len()
        invariant
            0 <= start <= i <= graphemes@.len(),
            start == if to_be_removed < graphemes@.len() { to_be_removed as int } else { graphemes@.len() as int },
            gs == extended_graphemes(s@),
            gs.len() == graphemes@.len(),
            forall|j: int| 0 <= j < gs.len() ==> gs[j] == #[trigger] graphemes@[j]@,
            n@ == seq![ellipsis()] + gs.subrange(start, i as int).flatten(),
        decreases graphemes@.len() - i,
    {
        proof {
            lemma_subrange_push(gs, start, i as int);
            lemma_flatten_push(gs.subrange(start, i as int), gs[i as int]);
        }
        n.append(graphemes[i].as_str());
        i = i + 1;
    }
    assert(to_be_removed < gs.len() ==> gs.skip(to_be_removed as int) =~= gs.subrange(start, gs.len() as int));
    assert(to_be_removed >= gs.len() ==> gs.subrange(start, gs.len() as int) =~= Seq::<Seq<char>>::empty());
    (n, desired)
}

/// Whether `c` is a control character, Unicode general category `Cc`.
pub open spec fn is_control_char(c: char) -> bool {
    (c as u32) <= 0x1f || (0x7f <= (c as u32) && (c as u32) <= 0x9f)
}

fn is_control(c: char) -> (r: bool)
    ensures
        r == is_control_char(c),
{
    (c as u32) <= 0x1f || (0x7f <= (c as u32) && (c as u32) <= 0x9f)
}

/// A notification message with field separators and control characters defused.
pub open spec fn sanitized_message(message: Seq<char>) -> Seq<char> {
    message.map_values(|c: char| if c == ';' { ',' } else if is_control_char(c) { ' ' } else { c })
}

/// The OSC 777 escape sequence that asks the terminal to show `message`.
pub open spec fn notification_sequence(message: Seq<char>) -> Seq<char> {
    "\x1b]777;notify;DUA;"@ + sanitized_message(message) + "\x1b\\"@
}

fn push_bytes(out: &mut Vec<u8>, bytes: &[u8])
    ensures
        final(out)@ == old(out)@ + bytes@,
{
    let mut i: usize = 0;
    while i < bytes.len()
        invariant
            i <= bytes@.len(),
            out@ == old(out)@ + bytes@.subrange(0, i as int),
        decreases bytes@.len() - i,
    {
        out.push(bytes[i]);
        i = i + 1;
        assert(out@ =~= old(out)@ + bytes@.subrange(0, i as int));
    }
    assert(bytes@.subrange(0, bytes@.len() as int) =~= bytes@);
}

/// Write a terminal notification carrying `message` to `write`, but only if notifications are
/// `enabled` and the terminal is not focussed.
pub fn emit_if_unfocused_to(write: &mut Vec<u8>, enabled: bool, terminal_focussed: bool, message: &str) -> (r: Result<(), ()>)
    ensures
        r is Ok,
        !enabled || terminal_focussed ==> final(write)@ == old(write)@,
        enabled && !terminal_focussed ==> final(write)@ == old(write)@ + vstd::utf8::encode_utf8(notification_sequence(message@)),
{
    if !enabled || terminal_focussed {
        return Ok(());
    }
    let mut text = String::from_str("\x1b]777;notify;DUA;");
    let ghost prefix = text@;
    let count = message.unicode_len();
    let mut i: usize = 0;
    while i < count
        invariant
            i <= count == message@.len(),
            text@ == prefix + sanitized_message(message@.subrange(0, i as int)),
        decreases count - i,
    {
        let c = message.get_char(i);
        let replaced = if c == ';' { ',' } else if is_control(c) { ' ' } else { c };
        text.push(replaced);
        i = i + 1;
        assert(text@ =~= prefix + sanitized_message(message@.subrange(0, i as int)));
    }
    assert(message@.subrange(0, count as int) =~= message@);
    text.append("\x1b\\");
    push_bytes(write, text.as_str().as_bytes());
    Ok(())
}

/// `path` for display, with control characters replaced by U+FFFD.
pub open spec fn printable_path(path: Seq<char>) -> Seq<char> {
    path.map_values(|c: char| if is_control_char(c) { '\u{FFFD}' } else { c })
}

/// Replace the control characters of a path so that it can be written to a terminal.
pub fn path_for_output(path: &str) -> (r: String)
    ensures
        r@ == printable_path(path@),
{
    let mut text = String::new();
    let count = path.unicode_len();
    let mut i: usize = 0;
    while i < count
        invariant
            i <= count == path@.len(),
            text@ == printable_path(path@.subrange(0, i as int)),
        decreases count - i,
    {
        let c = path.get_char(i);
        text.push(if is_control(c) { '\u{FFFD}' } else { c });
        i = i + 1;
        assert(text@ =~= printable_path(path@.subrange(0, i as int)));
    }
    assert(path@.subrange(0, count as int) =~= path@);
    text
}

/// The separator appended to a directory name, unless it already ends with one.
pub fn directory_suffix(path: &str) -> (r: &'static str)
    ensures
        path@.len() > 0 && path@.last() == '/' ==> r@ == ""@,
        !(path@.len() > 0 && path@.last() == '/') ==> r@ == "/"@,
{
    let count = path.unicode_len();
    if count > 0 && path.get_char(count - 1) == '/' {
        ""
    } else {
        "/"
    }
}

} // verus!

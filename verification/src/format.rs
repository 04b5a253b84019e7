//! Byte count formats: column widths and the rendering of a byte count.
use vstd::prelude::*;
use vstd::string::StringExecFns;
use byte_unit::{Byte, Unit, UnitType};
use crate::numfmt::{decimal, decimal_string};

verus! {

/// Specifies a way to format bytes.
#[derive(Clone, Copy, Debug, PartialEq, Eq, Structural)]
pub enum ByteFormat {
    /// Metric format, based on 1000.
    Metric,
    /// Binary format, based on 1024.
    Binary,
    /// Raw bytes, without additional formatting.
    Bytes,
    /// Only gigabytes without smart-unit.
    GB,
    /// Only gibibytes without smart-unit.
    GiB,
    /// Only megabytes without smart-unit.
    MB,
    /// Only mebibytes without smart-unit.
    MiB,
}

/// A unit that a fixed format always scales to.
#[derive(Clone, Copy, Debug, PartialEq, Eq, Structural)]
pub enum FixedUnit {
    /// 10^9 bytes.
    GB,
    /// 2^30 bytes.
    GiB,
    /// 10^6 bytes.
    MB,
    /// 2^20 bytes.
    MiB,
}

/// The text of `byte_unit`'s `Byte::get_appropriate_unit` for `bytes`, binary or decimal,
/// shown with two decimals as `AdjustedByte`'s `Display` renders it.
pub uninterp spec fn appropriate_unit_text(bytes: u64, binary: bool) -> Seq<char>;

/// The text of `byte_unit`'s `Byte::get_adjusted_unit` for `bytes` in `unit`, shown with two
/// decimals as `AdjustedByte`'s `Display` renders it.
pub uninterp spec fn adjusted_unit_text(bytes: u64, unit: FixedUnit) -> Seq<char>;

/// `Byte::from_u64(bytes).get_appropriate_unit(..)` of `byte_unit`, formatted with two decimals;
/// its result is named, not restated.
#[verifier::external_body]
fn appropriate_unit(bytes: u64, binary: bool) -> (r: String)
    ensures
        r@ == appropriate_unit_text(bytes, binary),
{
    let unit_type = if binary { UnitType::Binary } else { UnitType::Decimal };
    format!("{:.2}", Byte::from_u64(bytes).get_appropriate_unit(unit_type))
}

/// `Byte::from_u64(bytes).get_adjusted_unit(unit)` of `byte_unit`, formatted with two decimals;
/// its result is named, not restated.
#[verifier::external_body]
fn adjusted_unit(bytes: u64, unit: FixedUnit) -> (r: String)
    ensures
        r@ == adjusted_unit_text(bytes, unit),
{
    let unit = match unit {
        FixedUnit::GB => Unit::GB,
        FixedUnit::GiB => Unit::GiB,
        FixedUnit::MB => Unit::MB,
        FixedUnit::MiB => Unit::MiB,
    };
    format!("{:.2}", Byte::from_u64(bytes).get_adjusted_unit(unit))
}

/// Whether `i` is the position of the first space in `s`.
pub open spec fn is_first_space(s: Seq<char>, i: int) -> bool {
    &&& 0 <= i < s.len()
    &&& s[i] == ' '
    &&& forall|j: int| 0 <= j < i ==> s[j] != ' '
}

/// The text before and after the first space of `s`, if it has one.
pub open spec fn split_at_space(s: Seq<char>) -> Option<(Seq<char>, Seq<char>)> {
    if exists|i: int| is_first_space(s, i) {
        let i = choose|i: int| is_first_space(s, i);
        Some((s.subrange(0, i), s.subrange(i + 1, s.len() as int)))
    } else {
        None
    }
}

/// `n` spaces.
pub open spec fn spaces(n: int) -> Seq<char> {
    Seq::new(if n > 0 { n as nat } else { 0 }, |i: int| ' ')
}

/// A number and its unit, `number unit`, with the unit right-aligned to `width` characters;
/// text without a space stays as it is.
pub open spec fn unit_padded(text: Seq<char>, width: int) -> Seq<char> {
    match split_at_space(text) {
        None => text,
        Some((number, rest)) => {
            let unit = match split_at_space(rest) {
                None => rest,
                Some((u, after)) => u,
            };
            number + seq![' '] + spaces(width - unit.len()) + unit
        },
    }
}

/// How `bytes` is shown in `format`.
pub open spec fn byte_display(format: ByteFormat, bytes: u128) -> Seq<char> {
    match format {
        ByteFormat::Bytes => decimal(bytes as nat) + " b"@,
        ByteFormat::Binary => unit_padded(appropriate_unit_text(bytes as u64, true), 3),
        ByteFormat::Metric => unit_padded(appropriate_unit_text(bytes as u64, false), 2),
        ByteFormat::GB => unit_padded(adjusted_unit_text(bytes as u64, FixedUnit::GB), 2),
        ByteFormat::GiB => unit_padded(adjusted_unit_text(bytes as u64, FixedUnit::GiB), 2),
        ByteFormat::MB => unit_padded(adjusted_unit_text(bytes as u64, FixedUnit::MB), 2),
        ByteFormat::MiB => unit_padded(adjusted_unit_text(bytes as u64, FixedUnit::MiB), 2),
    }
}

/// Each format shows a byte count in its own unit: the smart formats pick a binary unit (with
/// a three-character unit column) or a decimal one, the fixed formats always scale to their own
/// unit, gigabytes, gibibytes, megabytes or mebibytes, and raw bytes are counted in full.
pub proof fn law_formats_scale_to_their_own_units(bytes: u128)
    ensures
        byte_display(ByteFormat::Binary, bytes) == unit_padded(appropriate_unit_text(bytes as u64, true), 3),
        byte_display(ByteFormat::Metric, bytes) == unit_padded(appropriate_unit_text(bytes as u64, false), 2),
        byte_display(ByteFormat::GB, bytes) == unit_padded(adjusted_unit_text(bytes as u64, FixedUnit::GB), 2),
        byte_display(ByteFormat::GiB, bytes) == unit_padded(adjusted_unit_text(bytes as u64, FixedUnit::GiB), 2),
        byte_display(ByteFormat::MB, bytes) == unit_padded(adjusted_unit_text(bytes as u64, FixedUnit::MB), 2),
        byte_display(ByteFormat::MiB, bytes) == unit_padded(adjusted_unit_text(bytes as u64, FixedUnit::MiB), 2),
        byte_display(ByteFormat::Bytes, bytes) == decimal(bytes as nat) + " b"@,
{
}

fn first_space(s: &[char], from: usize) -> (r: Option<usize>)
    requires
        from <= s@.len(),
    ensures
        match r {
            Some(i) => is_first_space(s@.subrange(from as int, s@.len() as int), i - from) && from <= i < s@.len(),
            None => forall|j: int| from <= j < s@.len() ==> s@[j] != ' ',
        },
{
    let mut i: usize = from;
    while i < s.len()
        invariant
            from <= i <= s@.len(),
            forall|j: int| from <= j < i ==> s@[j] != ' ',
        decreases s@.len() - i,
    {
        if s[i] == ' ' {
            return Some(i);
        }
        i = i + 1;
    }
    None
}

proof fn lemma_first_space_unique(s: Seq<char>, i: int)
    requires
        is_first_space(s, i),
    ensures
        split_at_space(s) == Some((s.subrange(0, i), s.subrange(i + 1, s.len() as int))),
{
    let k = choose|k: int| is_first_space(s, k);
    assert(is_first_space(s, k));
    if k < i {
        assert(s[k] != ' ');
    } else if i < k {
        assert(s[i] != ' ');
    }
}

fn copy_range(s: &[char], lo: usize, hi: usize, out: &mut String)
    requires
        lo <= hi <= s@.len(),
    ensures
        final(out)@ == old(out)@ + s@.subrange(lo as int, hi as int),
{
    let ghost start = out@;
    let mut i: usize = lo;
    while i < hi
        invariant
            lo <= i <= hi <= s@.len(),
            out@ == start + s@.subrange(lo as int, i as int),
        decreases hi - i,
    {
        out.push(s[i]);
        i = i + 1;
        assert(out@ =~= start + s@.subrange(lo as int, i as int));
    }
}

fn chars_of_string(s: &String) -> (r: Vec<char>)
    ensures
        r@ == s@,
{
    let text = s.as_str();
    let mut v: Vec<char> = Vec::new();
    let n = text.unicode_len();
    let mut i: usize = 0;
    while i < n
        invariant
            i <= n == text@.len(),
            v@ == text@.subrange(0, i as int),
        decreases n - i,
    {
        v.push(text.get_char(i));
        i = i + 1;
        assert(v@ =~= text@.subrange(0, i as int));
    }
    assert(text@.subrange(0, n as int) =~= text@);
    v
}

/// `text` with its unit right-aligned to `width`; see [`unit_padded`].
pub fn pad_unit(text: &String, width: usize) -> (r: String)
    ensures
        r@ == unit_padded(text@, width as int),
{
    let chars = chars_of_string(text);
    match first_space(chars.as_slice(), 0) {
        None => {
            proof {
                assert(chars@.subrange(0, chars@.len() as int) =~= chars@);
                assert(!exists|i: int| is_first_space(chars@, i));
            }
            text.clone()
        },
        Some(i) => {
            proof {
                assert(chars@.subrange(0, chars@.len() as int) =~= chars@);
                lemma_first_space_unique(chars@, i as int);
            }
            assert(i < chars.len());
            let ghost rest = chars@.subrange(i + 1, chars@.len() as int);
            let unit_end = match first_space(chars.as_slice(), i + 1) {
                None => {
                    proof {
                        assert(!exists|k: int| is_first_space(rest, k)) by {
                            if exists|k: int| is_first_space(rest, k) {
                                let k = choose|k: int| is_first_space(rest, k);
                                assert(chars@[k + i + 1] == rest[k]);
                            }
                        }
                    }
                    chars.len()
                },
                Some(j) => {
                    proof {
                        assert(rest =~= chars@.subrange((i + 1) as int, chars@.len() as int));
                        lemma_first_space_unique(rest, j - i - 1);
                        assert(rest.subrange(0, j - i - 1) =~= chars@.subrange(i + 1, j as int));
                    }
                    j
                },
            };
            let mut out = String::new();
            copy_range(chars.as_slice(), 0, i, &mut out);
            out.push(' ');
            let unit_len = unit_end - (i + 1);
            let mut k: usize = unit_len;
            let ghost before_pad = out@;
            while k < width
                invariant
                    unit_len <= k <= if width > unit_len { width } else { unit_len },
                    out@ == before_pad + spaces(k - unit_len),
                decreases width - k,
            {
                out.push(' ');
                k = k + 1;
                assert(out@ =~= before_pad + spaces(k - unit_len));
            }
            copy_range(chars.as_slice(), i + 1, unit_end, &mut out);
            proof {
                assert(spaces(k - unit_len) =~= spaces(width - unit_len));
                assert(rest =~= chars@.subrange((i + 1) as int, chars@.len() as int));
            }
            out
        },
    }
}

/// The content width, without the unit, of values in `format`.
pub open spec fn content_width(format: ByteFormat) -> usize {
    match format {
        ByteFormat::Binary => 11usize,
        ByteFormat::Bytes | ByteFormat::MB | ByteFormat::MiB => 12usize,
        _ => 10usize,
    }
}

impl ByteFormat {
    /// The content width, without the unit, that values in this format take.
    pub fn width(self) -> (r: usize)
        ensures
            r == content_width(self),
    {
        match self {
            ByteFormat::Binary => 11,
            ByteFormat::Bytes | ByteFormat::MB | ByteFormat::MiB => 12,
            _ => 10,
        }
    }

    /// The full width of a value in this format: its content, the unit and the space between.
    pub fn total_width(self) -> (r: usize)
        ensures
            r == content_width(self) + match self {
                ByteFormat::Binary | ByteFormat::MiB | ByteFormat::GiB => 3usize,
                ByteFormat::Metric | ByteFormat::MB | ByteFormat::GB => 2usize,
                ByteFormat::Bytes => 1usize,
            } + 1,
    {
        let unit = match self {
            ByteFormat::Binary | ByteFormat::MiB | ByteFormat::GiB => 3,
            ByteFormat::Metric | ByteFormat::MB | ByteFormat::GB => 2,
            ByteFormat::Bytes => 1,
        };
        self.width() + unit + 1
    }

    /// How `bytes` is shown in this format; see [`byte_display`].
    pub fn display(self, bytes: u128) -> (r: String)
        requires
            bytes <= u64::MAX,
        ensures
            r@ == byte_display(self, bytes),
    {
        match self {
            ByteFormat::Bytes => {
                let mut s = decimal_string(bytes);
                s.append(" b");
                s
            },
            ByteFormat::Binary => pad_unit(&appropriate_unit(bytes as u64, true), 3),
            ByteFormat::Metric => pad_unit(&appropriate_unit(bytes as u64, false), 2),
            ByteFormat::GB => pad_unit(&adjusted_unit(bytes as u64, FixedUnit::GB), 2),
            ByteFormat::GiB => pad_unit(&adjusted_unit(bytes as u64, FixedUnit::GiB), 2),
            ByteFormat::MB => pad_unit(&adjusted_unit(bytes as u64, FixedUnit::MB), 2),
            ByteFormat::MiB => pad_unit(&adjusted_unit(bytes as u64, FixedUnit::MiB), 2),
        }
    }
}

} // verus!

//! Decimal rendering of unsigned integers.
use vstd::prelude::*;

verus! {

/// The ASCII digit of `d`.
pub open spec fn digit_char(d: nat) -> char {
    ((d % 10) + 48) as char
}

/// The decimal digits of `n`, without leading zeros; zero is `"0"`.
pub open spec fn decimal(n: nat) -> Seq<char>
    decreases n,
{
    if n < 10 {
        seq![digit_char(n)]
    } else {
        decimal(n / 10).push(digit_char(n % 10))
    }
}

/// The decimal digits of `n`.
pub fn decimal_string(n: u128) -> (r: String)
    ensures
        r@ == decimal(n as nat),
{
    let mut digits: Vec<char> = Vec::new();
    let mut rest = n;
    let ghost mut suffix: Seq<char> = Seq::empty();
    assert(decimal(n as nat) + suffix =~= decimal(n as nat));
    assert(digits@.reverse() =~= suffix);
    loop
        invariant_except_break
            decimal(n as nat) == decimal(rest as nat) + suffix,
        invariant
            digits@.reverse() == suffix,
        ensures
            decimal(n as nat) == suffix,
        decreases rest,
    {
        let d = rest % 10;
        let c = ((d as u8) + 48) as char;
        proof {
            assert(c == digit_char(d as nat));
        }
        if rest < 10 {
            digits.push(c);
            proof {
                assert(decimal(rest as nat) == seq![c]);
                assert(digits@.reverse() =~= seq![c] + suffix);
                suffix = seq![c] + suffix;
            }
            assert(decimal(n as nat) == suffix);
            break;
        }
        digits.push(c);
        proof {
            assert(decimal(rest as nat) == decimal((rest / 10) as nat).push(c));
            assert(decimal((rest / 10) as nat).push(c) + suffix =~= decimal((rest / 10) as nat) + (seq![c] + suffix));
            assert(digits@.reverse() =~= seq![c] + suffix);
            suffix = seq![c] + suffix;
        }
        rest = rest / 10;
    }
    let mut text = String::new();
    let mut i = digits.len();
    while i > 0
        invariant
            i <= digits@.len(),
            text@ == digits@.subrange(i as int, digits@.len() as int).reverse(),
        decreases i,
    {
        i = i - 1;
        text.push(digits[i]);
        assert(text@ =~= digits@.subrange(i as int, digits@.len() as int).reverse());
    }
    assert(digits@.subrange(0, digits@.len() as int) =~= digits@);
    text
}

} // verus!

use vstd::prelude::*;
use vstd::string::StringSliceAdditionalSpecFns;

verus! {

/// Control sequence introducer: escape, then `[`.
pub const CSI: &'static str = "\x1B[";

/// Clears the whole screen.
pub const CLEAR_SCREEN: &'static str = "\x1B[2J";

pub const FG_DIM: &'static str = "\x1b[2m";

pub const FG_RED: &'static str = "\x1b[31m";

pub const FG_GREEN: &'static str = "\x1b[32m";

pub const FG_BRIGHT_BLACK: &'static str = "\x1b[90m";

pub const BG_RED: &'static str = "\x1b[41m";

pub const BG_GREEN: &'static str = "\x1b[42m";

pub const BG_BRIGHT_BLACK: &'static str = "\x1b[100m";

/// Resets colours and attributes.
pub const RESET: &'static str = "\x1b[0m";

/// Separates the row from the column in a cursor move.
pub const CURSOR_SEPARATOR: &'static str = ";";

/// Ends a cursor move.
pub const CURSOR_END: &'static str = "H";

pub const SCORE_LABEL: &'static str = "Score";

pub const SPACE: &'static str = " ";

/// The upper half block: the top colour in the foreground, the bottom one behind.
pub const UPPER_HALF_BLOCK: &'static str = "▀";

pub const LOWER_HALF_BLOCK: &'static str = "▄";

pub const FULL_BLOCK: &'static str = "█";

/// The ASCII decimal digits of `n`, most significant first, without leading zeros.
pub open spec fn decimal(n: nat) -> Seq<u8>
    decreases n,
{
    if n < 10 {
        seq![(48 + n) as u8]
    } else {
        decimal(n / 10).push((48 + n % 10) as u8)
    }
}

/// The number that a sequence of ASCII decimal digits spells, most significant first.
pub open spec fn digits_value(digits: Seq<u8>) -> int
    decreases digits.len(),
{
    if digits.len() == 0 {
        0
    } else {
        digits_value(digits.drop_last()) * 10 + (digits.last() - 48)
    }
}

/// `decimal(n)` is a non-empty sequence of ASCII digits that spells `n`, with
/// no leading zero unless `n` is zero.
pub proof fn law_decimal_spells_n(n: nat)
    ensures
        decimal(n).len() >= 1,
        forall|i: int| 0 <= i < decimal(n).len() ==> 48 <= #[trigger] decimal(n)[i] <= 57,
        digits_value(decimal(n)) == n,
        n > 0 ==> decimal(n)[0] != 48,
    decreases n,
{
    if n >= 10 {
        law_decimal_spells_n(n / 10);
        let prefix = decimal(n / 10);
        assert(decimal(n).drop_last() =~= prefix);
        assert forall|i: int| 0 <= i < decimal(n).len() implies 48 <= #[trigger] decimal(n)[i] <= 57 by {
            if i < prefix.len() {
                assert(decimal(n)[i] == prefix[i]);
            }
        }
        assert(decimal(n)[0] == prefix[0]);
        assert(decimal(n).last() == (48 + n % 10) as u8);
        assert(decimal(n).last() - 48 == n % 10);
        assert(digits_value(decimal(n)) == digits_value(prefix) * 10 + (decimal(n).last() - 48));
        assert((n / 10) * 10 + n % 10 == n);
    } else {
        assert(decimal(n).drop_last() =~= Seq::<u8>::empty());
        assert(digits_value(decimal(n)) == digits_value(Seq::<u8>::empty()) * 10 + (decimal(n).last() - 48));
    }
}

/// The bytes that move the cursor to `row` and `col` (both counted from one).
pub open spec fn cursor_bytes(row: nat, col: nat) -> Seq<u8> {
    CSI.spec_bytes() + decimal(row) + CURSOR_SEPARATOR.spec_bytes() + decimal(col)
        + CURSOR_END.spec_bytes()
}

/// Appends the UTF-8 bytes of `text`.
pub fn push_str(out: &mut Vec<u8>, text: &str)
    ensures
        final(out)@ == old(out)@ + text.spec_bytes(),
{
    let bytes = text.as_bytes();
    let mut i: usize = 0;
    while i < bytes.len()
        invariant
            i <= bytes@.len(),
            bytes@ == text.spec_bytes(),
            out@ == old(out)@ + bytes@.subrange(0, i as int),
        decreases bytes@.len() - i,
    {
        out.push(bytes[i]);
        i = i + 1;
        assert(out@ =~= old(out)@ + bytes@.subrange(0, i as int));
    }
    assert(bytes@.subrange(0, i as int) =~= bytes@);
}

/// Appends `n` in decimal.
pub fn push_decimal(out: &mut Vec<u8>, n: usize)
    ensures
        final(out)@ == old(out)@ + decimal(n as nat),
    decreases n,
{
    if n >= 10 {
        push_decimal(out, n / 10);
    }
    out.push((n % 10) as u8 + 48);
    assert(out@ =~= old(out)@ + decimal(n as nat));
}

/// Appends the sequence that moves the cursor to `row` and `col`.
pub fn push_cursor(out: &mut Vec<u8>, row: usize, col: usize)
    ensures
        final(out)@ == old(out)@ + cursor_bytes(row as nat, col as nat),
{
    push_str(out, CSI);
    push_decimal(out, row);
    push_str(out, CURSOR_SEPARATOR);
    push_decimal(out, col);
    push_str(out, CURSOR_END);
    assert(out@ =~= old(out)@ + cursor_bytes(row as nat, col as nat));
}

} // verus!

//! The fixed control sequences that a row emits itself, and decimal numerals.
use vstd::prelude::*;

verus! {

/// The ASCII digits of `n`, most significant first, with no leading zeros.
pub open spec fn decimal(n: nat) -> Seq<u8>
    decreases n,
{
    if n < 10 {
        seq![(48 + n) as u8]
    } else {
        decimal(n / 10).push((48 + n % 10) as u8)
    }
}

/// `ESC [`, the control sequence introducer.
pub open spec fn csi() -> Seq<u8> {
    seq![0x1bu8, 0x5bu8]
}

/// Cursor forward by `n` columns: `ESC [ n C`.
pub open spec fn cursor_forward(n: nat) -> Seq<u8> {
    csi() + decimal(n) + seq![0x43u8]
}

/// Cursor forward by one column, with the count left out: `ESC [ C`.
pub open spec fn cursor_forward_one() -> Seq<u8> {
    csi() + seq![0x43u8]
}

/// Erase the character under the cursor, then move forward: `ESC [ X ESC [ C`.
pub open spec fn erase_forward() -> Seq<u8> {
    csi() + seq![0x58u8] + cursor_forward_one()
}

/// Appends the decimal digits of `n` to `out`.
pub fn push_decimal(out: &mut Vec<u8>, n: u16)
    ensures
        final(out)@ == old(out)@ + decimal(n as nat),
    decreases n,
{
    if n >= 10 {
        push_decimal(out, n / 10);
    }
    out.push(48u8 + (n % 10) as u8);
    proof {
        assert(final(out)@ =~= old(out)@ + decimal(n as nat));
    }
}

/// Appends `ESC [ n C` to `out`.
pub fn push_cursor_forward(out: &mut Vec<u8>, n: u16)
    ensures
        final(out)@ == old(out)@ + cursor_forward(n as nat),
{
    out.push(0x1bu8);
    out.push(0x5bu8);
    push_decimal(out, n);
    out.push(0x43u8);
    assert(final(out)@ =~= old(out)@ + cursor_forward(n as nat));
}

/// Appends `ESC [ C` to `out`.
pub fn push_cursor_forward_one(out: &mut Vec<u8>)
    ensures
        final(out)@ == old(out)@ + cursor_forward_one(),
{
    out.push(0x1bu8);
    out.push(0x5bu8);
    out.push(0x43u8);
    assert(final(out)@ =~= old(out)@ + cursor_forward_one());
}

/// Appends `ESC [ X ESC [ C` to `out`.
pub fn push_erase_forward(out: &mut Vec<u8>)
    ensures
        final(out)@ == old(out)@ + erase_forward(),
{
    out.push(0x1bu8);
    out.push(0x5bu8);
    out.push(0x58u8);
    push_cursor_forward_one(out);
    assert(final(out)@ =~= old(out)@ + erase_forward());
}

} // verus!

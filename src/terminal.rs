//! A reference terminal that reads a byte stream: printable characters, and
//! the control sequences `ESC [ params C` (cursor forward), `ESC [ params X`
//! (erase characters) and `ESC [ params m` (select graphic rendition). It
//! serves to state what a full drawing of a row shows.
use vstd::prelude::*;
use vstd::utf8::*;
use crate::attrs::{
    Attrs, Color, attrs_diff, color_params, default_attrs, flag_params, join_params, sgr_params,
};
use crate::cell::{Cell, has_text, is_visible, is_wide};
use crate::render::{
    cell_cols, clipped_width, cols_upto, drawn_at, full_cell_bytes, full_upto,
    lemma_cols_monotone, switch_attrs,
};
use crate::escape::{csi, cursor_forward, cursor_forward_one, erase_forward};
use crate::escape::decimal;

verus! {

/// What the reference terminal holds: the cells written so far by column
/// (relative to where the drawing began), the cursor column, and the active
/// attribute set.
pub struct Terminal {
    pub cells: Map<int, (Seq<char>, Attrs)>,
    pub cursor: int,
    pub attrs: Attrs,
}

/// A terminal with nothing written, the cursor at column 0, and `attrs` active.
pub open spec fn blank_terminal(attrs: Attrs) -> Terminal {
    Terminal { cells: Map::empty(), cursor: 0, attrs }
}

/// The glyph and attribute set that the terminal shows at column `col`.
pub open spec fn shown(t: Terminal, col: int) -> (Seq<char>, Attrs) {
    if t.cells.contains_key(col) {
        t.cells[col]
    } else {
        (seq![], default_attrs())
    }
}

/// A byte that may stand in a control sequence's parameters.
pub open spec fn is_param_byte(b: u8) -> bool {
    (0x30 <= b <= 0x39) || b == 0x3b
}

/// Number of parameter bytes in `b` from index `i` on.
pub open spec fn param_len(b: Seq<u8>, i: int) -> nat
    decreases b.len() - i,
{
    if 0 <= i < b.len() && is_param_byte(b[i]) {
        1 + param_len(b, i + 1)
    } else {
        0
    }
}

/// The number that the decimal digits `s` spell; 0 for no digits.
pub open spec fn parse_num(s: Seq<u8>) -> int
    decreases s.len(),
{
    if s.len() == 0 {
        0
    } else {
        parse_num(s.drop_last()) * 10 + (s.last() - 48)
    }
}

/// Index of the last `;` in `s`, or -1.
pub open spec fn last_semi(s: Seq<u8>) -> int
    decreases s.len(),
{
    if s.len() == 0 {
        -1
    } else if s.last() == 0x3b {
        s.len() - 1
    } else {
        last_semi(s.drop_last())
    }
}

/// The numbers of a parameter string, split at `;`; an empty one reads as 0.
pub open spec fn parse_params(s: Seq<u8>) -> Seq<int>
    decreases s.len(),
{
    let j = last_semi(s);
    if 0 <= j < s.len() {
        parse_params(s.subrange(0, j)).push(parse_num(s.subrange(j + 1, s.len() as int)))
    } else {
        seq![parse_num(s)]
    }
}

/// One SGR parameter applied to `a`.
pub open spec fn sgr_single(x: int, a: Attrs) -> Attrs {
    if x == 0 {
        default_attrs()
    } else if x == 1 {
        Attrs { bold: true, ..a }
    } else if x == 22 {
        Attrs { bold: false, ..a }
    } else if x == 3 {
        Attrs { italic: true, ..a }
    } else if x == 23 {
        Attrs { italic: false, ..a }
    } else if x == 4 {
        Attrs { underline: true, ..a }
    } else if x == 24 {
        Attrs { underline: false, ..a }
    } else if x == 7 {
        Attrs { inverse: true, ..a }
    } else if x == 27 {
        Attrs { inverse: false, ..a }
    } else if 30 <= x <= 37 {
        Attrs { fgcolor: Color::Idx((x - 30) as u8), ..a }
    } else if x == 39 {
        Attrs { fgcolor: Color::Default, ..a }
    } else if 40 <= x <= 47 {
        Attrs { bgcolor: Color::Idx((x - 40) as u8), ..a }
    } else if x == 49 {
        Attrs { bgcolor: Color::Default, ..a }
    } else if 90 <= x <= 97 {
        Attrs { fgcolor: Color::Idx((x - 82) as u8), ..a }
    } else if 100 <= x <= 107 {
        Attrs { bgcolor: Color::Idx((x - 92) as u8), ..a }
    } else {
        a
    }
}

/// `a` with the foreground (`x` = 38) or background color set to `c`.
pub open spec fn set_color(x: int, c: Color, a: Attrs) -> Attrs {
    if x == 38 {
        Attrs { fgcolor: c, ..a }
    } else {
        Attrs { bgcolor: c, ..a }
    }
}

/// A list of SGR parameters applied to `a` from left to right.
#[verifier::opaque]
pub open spec fn apply_sgr(p: Seq<int>, a: Attrs) -> Attrs
    decreases p.len(),
{
    if p.len() == 0 {
        a
    } else if (p[0] == 38 || p[0] == 48) && p.len() >= 3 && p[1] == 5 {
        apply_sgr(p.subrange(3, p.len() as int), set_color(p[0], Color::Idx(p[2] as u8), a))
    } else if (p[0] == 38 || p[0] == 48) && p.len() >= 5 && p[1] == 2 {
        apply_sgr(
            p.subrange(5, p.len() as int),
            set_color(p[0], Color::Rgb(p[2] as u8, p[3] as u8, p[4] as u8), a),
        )
    } else {
        apply_sgr(p.drop_first(), sgr_single(p[0], a))
    }
}

/// A control sequence with final byte `f` and parameters `params`.
pub open spec fn csi_apply(f: u8, params: Seq<int>, t: Terminal) -> Terminal {
    let n = if params.len() == 0 || params[0] <= 0 {
        1
    } else {
        params[0]
    };
    if f == 0x43 {
        Terminal { cursor: t.cursor + n, ..t }
    } else if f == 0x58 {
        Terminal {
            cells: t.cells.union_prefer_right(
                Map::new(|k: int| t.cursor <= k < t.cursor + n, |k: int| (seq![], t.attrs)),
            ),
            ..t
        }
    } else if f == 0x6d {
        Terminal { attrs: apply_sgr(params, t.attrs), ..t }
    } else {
        t
    }
}

/// A printable character written at the cursor, which moves past it.
pub open spec fn put_glyph(c: char, t: Terminal, wide: spec_fn(char) -> bool) -> Terminal {
    Terminal {
        cells: t.cells.insert(t.cursor, (seq![c], t.attrs)),
        cursor: t.cursor + if wide(c) {
            2int
        } else {
            1int
        },
        attrs: t.attrs,
    }
}

/// The terminal after it read the bytes `b`; `wide` tells which characters
/// take two columns.
pub open spec fn run(b: Seq<u8>, t: Terminal, wide: spec_fn(char) -> bool) -> Terminal
    decreases b.len(),
{
    if b.len() == 0 {
        t
    } else if b[0] == 0x1b {
        if b.len() >= 2 && b[1] == 0x5b && 2 + param_len(b, 2) < b.len() {
            let e = 2 + param_len(b, 2) as int;
            run(
                b.subrange(e + 1, b.len() as int),
                csi_apply(b[e], parse_params(b.subrange(2, e)), t),
                wide,
            )
        } else {
            run(b.drop_first(), t, wide)
        }
    } else if valid_first_scalar(b) && length_of_first_scalar(b) <= b.len() {
        run(
            b.subrange(length_of_first_scalar(b), b.len() as int),
            put_glyph(decode_first_scalar(b) as char, t, wide),
            wide,
        )
    } else {
        run(b.drop_first(), t, wide)
    }
}

proof fn lemma_decimal_digits(n: nat)
    ensures
        forall|k: int| 0 <= k < decimal(n).len() ==> 0x30 <= #[trigger] decimal(n)[k] <= 0x39,
        decimal(n).len() >= 1,
        parse_num(decimal(n)) == n,
        last_semi(decimal(n)) == -1,
    decreases n,
{
    let d = decimal(n);
    if n >= 10 {
        lemma_decimal_digits(n / 10);
        assert(d.drop_last() =~= decimal(n / 10));
        assert(d.last() == 48 + n % 10);
        assert((n / 10) * 10 + n % 10 == n) by (nonlinear_arith);
        assert(parse_num(d) == parse_num(decimal(n / 10)) * 10 + (d.last() - 48));
        assert(last_semi(d) == last_semi(d.drop_last()));
    } else {
        assert(d.drop_last() =~= Seq::<u8>::empty());
        assert(parse_num(d) == parse_num(d.drop_last()) * 10 + (d.last() - 48));
        assert(last_semi(d) == last_semi(d.drop_last()));
    }
}

proof fn lemma_last_semi_after(x: Seq<u8>, d: Seq<u8>)
    requires
        x.len() > 0,
        x.last() == 0x3b,
        forall|k: int| 0 <= k < d.len() ==> #[trigger] d[k] != 0x3b,
    ensures
        last_semi(x + d) == x.len() - 1,
    decreases d.len(),
{
    if d.len() > 0 {
        assert((x + d).drop_last() =~= x + d.drop_last());
        lemma_last_semi_after(x, d.drop_last());
    } else {
        assert(x + d =~= x);
    }
}

/// The parameters as the terminal reads them.
pub open spec fn as_ints(p: Seq<u8>) -> Seq<int> {
    p.map_values(|x: u8| x as int)
}

proof fn lemma_join_params(p: Seq<u8>)
    requires
        p.len() >= 1,
    ensures
        parse_params(join_params(p)) == as_ints(p),
        forall|k: int| 0 <= k < join_params(p).len() ==> is_param_byte(#[trigger] join_params(p)[k]),
    decreases p.len(),
{
    lemma_decimal_digits(p.last() as nat);
    if p.len() == 1 {
        assert(as_ints(p) =~= seq![p[0] as int]);
    } else {
        let q = p.drop_last();
        lemma_join_params(q);
        let x = join_params(q) + seq![0x3bu8];
        let d = decimal(p.last() as nat);
        assert(join_params(p) == x + d);
        lemma_last_semi_after(x, d);
        assert((x + d).subrange(0, join_params(q).len() as int) =~= join_params(q));
        assert((x + d).subrange(x.len() as int, (x + d).len() as int) =~= d);
        assert(as_ints(p) =~= as_ints(q).push(p.last() as int));
    }
}

proof fn lemma_param_len(b: Seq<u8>, i: int, e: int)
    requires
        0 <= i <= e < b.len(),
        forall|k: int| i <= k < e ==> is_param_byte(#[trigger] b[k]),
        !is_param_byte(b[e]),
    ensures
        param_len(b, i) == e - i,
    decreases e - i,
{
    if i < e {
        lemma_param_len(b, i + 1, e);
    }
}

proof fn lemma_apply_color(c: Color, base: u8, rest: Seq<int>, a: Attrs)
    requires
        base == 30 || base == 40,
    ensures
        apply_sgr(as_ints(color_params(c, base)) + rest, a) == apply_sgr(
            rest,
            set_color(base + 8, c, a),
        ),
{
    reveal_with_fuel(apply_sgr, 2);
    let p = as_ints(color_params(c, base)) + rest;
    match c {
        Color::Default => {
            assert(p.drop_first() =~= rest);
        },
        Color::Idx(i) => {
            if i < 16 {
                assert(p.drop_first() =~= rest);
            } else {
                assert(p.subrange(3, p.len() as int) =~= rest);
            }
        },
        Color::Rgb(r, g, b) => {
            assert(p.subrange(5, p.len() as int) =~= rest);
        },
    }
}

proof fn lemma_apply_flag(new: bool, was: bool, on: u8, off: u8, rest: Seq<int>, a: Attrs)
    requires
        on != 38 && on != 48 && off != 38 && off != 48,
    ensures
        apply_sgr(as_ints(flag_params(new, was, on, off)) + rest, a) == if new == was {
            apply_sgr(rest, a)
        } else if new {
            apply_sgr(rest, sgr_single(on as int, a))
        } else {
            apply_sgr(rest, sgr_single(off as int, a))
        },
{
    reveal_with_fuel(apply_sgr, 2);
    let p = as_ints(flag_params(new, was, on, off)) + rest;
    if new == was {
        assert(p =~= rest);
    } else {
        assert(p.drop_first() =~= rest);
        assert(p[0] == on || p[0] == off);
    }
}

proof fn lemma_apply_none(a: Attrs)
    ensures
        apply_sgr(Seq::<int>::empty(), a) == a,
{
    reveal_with_fuel(apply_sgr, 1);
}

proof fn lemma_colors_apply(new: Attrs, was: Attrs, rest: Seq<int>)
    ensures
        apply_sgr(
            as_ints(if new.fgcolor != was.fgcolor { color_params(new.fgcolor, 30) } else { seq![] })
                + (as_ints(
                if new.bgcolor != was.bgcolor { color_params(new.bgcolor, 40) } else { seq![] },
            ) + rest),
            was,
        ) == apply_sgr(rest, Attrs { fgcolor: new.fgcolor, bgcolor: new.bgcolor, ..was }),
{
    let f = if new.fgcolor != was.fgcolor { color_params(new.fgcolor, 30) } else { seq![] };
    let b = if new.bgcolor != was.bgcolor { color_params(new.bgcolor, 40) } else { seq![] };
    let r0 = as_ints(b) + rest;
    let a1 = Attrs { fgcolor: new.fgcolor, ..was };
    if new.fgcolor != was.fgcolor {
        lemma_apply_color(new.fgcolor, 30, r0, was);
    } else {
        assert(as_ints(f) + r0 =~= r0);
    }
    if new.bgcolor != was.bgcolor {
        lemma_apply_color(new.bgcolor, 40, rest, a1);
    } else {
        assert(as_ints(b) + rest =~= rest);
    }
}

proof fn lemma_flags_apply(new: Attrs, was: Attrs)
    ensures
        apply_sgr(
            as_ints(flag_params(new.bold, was.bold, 1, 22)) + (as_ints(
                flag_params(new.italic, was.italic, 3, 23),
            ) + (as_ints(flag_params(new.underline, was.underline, 4, 24)) + as_ints(
                flag_params(new.inverse, was.inverse, 7, 27),
            ))),
            Attrs { fgcolor: new.fgcolor, bgcolor: new.bgcolor, ..was },
        ) == new,
{
    let a2 = Attrs { fgcolor: new.fgcolor, bgcolor: new.bgcolor, ..was };
    let r4 = as_ints(flag_params(new.inverse, was.inverse, 7, 27));
    let r3 = as_ints(flag_params(new.underline, was.underline, 4, 24)) + r4;
    let r2 = as_ints(flag_params(new.italic, was.italic, 3, 23)) + r3;
    let a3 = Attrs { bold: new.bold, ..a2 };
    lemma_apply_flag(new.bold, was.bold, 1, 22, r2, a2);
    assert(sgr_single(1, a2) == Attrs { bold: true, ..a2 });
    assert(sgr_single(22, a2) == Attrs { bold: false, ..a2 });
    let a4 = Attrs { italic: new.italic, ..a3 };
    lemma_apply_flag(new.italic, was.italic, 3, 23, r3, a3);
    assert(sgr_single(3, a3) == Attrs { italic: true, ..a3 });
    assert(sgr_single(23, a3) == Attrs { italic: false, ..a3 });
    let a5 = Attrs { underline: new.underline, ..a4 };
    lemma_apply_flag(new.underline, was.underline, 4, 24, r4, a4);
    assert(sgr_single(4, a4) == Attrs { underline: true, ..a4 });
    assert(sgr_single(24, a4) == Attrs { underline: false, ..a4 });
    lemma_apply_flag(new.inverse, was.inverse, 7, 27, Seq::<int>::empty(), a5);
    assert(sgr_single(7, a5) == Attrs { inverse: true, ..a5 });
    assert(sgr_single(27, a5) == Attrs { inverse: false, ..a5 });
    assert(r4 + Seq::<int>::empty() =~= r4);
    lemma_apply_none(Attrs { inverse: new.inverse, ..a5 });
    lemma_apply_none(a5);
}

proof fn lemma_as_ints_add(x: Seq<u8>, y: Seq<u8>)
    ensures
        as_ints(x + y) == as_ints(x) + as_ints(y),
{
    assert(as_ints(x + y) =~= as_ints(x) + as_ints(y));
}

proof fn lemma_sgr_params_nonempty(new: Attrs, was: Attrs)
    requires
        new != was,
    ensures
        sgr_params(new, was).len() > 0,
{
}

proof fn lemma_sgr_params_apply(new: Attrs, was: Attrs)
    ensures
        apply_sgr(as_ints(sgr_params(new, was)), was) == new,
{
    let f = if new.fgcolor != was.fgcolor { color_params(new.fgcolor, 30) } else { seq![] };
    let b = if new.bgcolor != was.bgcolor { color_params(new.bgcolor, 40) } else { seq![] };
    let f1 = flag_params(new.bold, was.bold, 1, 22);
    let f2 = flag_params(new.italic, was.italic, 3, 23);
    let f3 = flag_params(new.underline, was.underline, 4, 24);
    let f4 = flag_params(new.inverse, was.inverse, 7, 27);
    lemma_as_ints_add(f3, f4);
    lemma_as_ints_add(f2, f3 + f4);
    lemma_as_ints_add(f1, f2 + (f3 + f4));
    lemma_as_ints_add(b, f1 + (f2 + (f3 + f4)));
    lemma_as_ints_add(f, b + (f1 + (f2 + (f3 + f4))));
    let r1 = as_ints(f1) + (as_ints(f2) + (as_ints(f3) + as_ints(f4)));
    lemma_colors_apply(new, was, r1);
    lemma_flags_apply(new, was);
}

/// Reading the SGR sequence that moves from `was` to `new` leaves a
/// terminal with `new` active.
pub proof fn lemma_attrs_diff_applies(new: Attrs, was: Attrs)
    requires
        new != was,
    ensures
        attrs_diff(new, was) == csi() + join_params_or_empty(new, was) + seq![0x6du8],
        apply_sgr(parse_params(join_params_or_empty(new, was)), was) == new,
        forall|k: int|
            0 <= k < join_params_or_empty(new, was).len() ==> is_param_byte(
                #[trigger] join_params_or_empty(new, was)[k],
            ),
{
    if new == default_attrs() {
        reveal_with_fuel(apply_sgr, 2);
        assert(parse_params(Seq::<u8>::empty()) == seq![0int]);
        assert(seq![0int].drop_first() =~= Seq::<int>::empty());
        assert(apply_sgr(seq![0int], was) == apply_sgr(Seq::<int>::empty(), sgr_single(0, was)));
    } else {
        lemma_sgr_params_nonempty(new, was);
        lemma_sgr_params_apply(new, was);
        lemma_join_params(sgr_params(new, was));
    }
}

/// The parameter bytes of the SGR sequence from `was` to `new`.
pub open spec fn join_params_or_empty(new: Attrs, was: Attrs) -> Seq<u8> {
    if new == default_attrs() {
        seq![]
    } else {
        join_params(sgr_params(new, was))
    }
}

proof fn lemma_run_csi(s: Seq<u8>, f: u8, rest: Seq<u8>, t: Terminal, wide: spec_fn(char) -> bool)
    requires
        forall|k: int| 0 <= k < s.len() ==> is_param_byte(#[trigger] s[k]),
        !is_param_byte(f),
    ensures
        run(csi() + s + seq![f] + rest, t, wide) == run(rest, csi_apply(f, parse_params(s), t), wide),
{
    let b = csi() + s + seq![f] + rest;
    let e = 2 + s.len() as int;
    assert forall|k: int| 2 <= k < e implies is_param_byte(#[trigger] b[k]) by {
        assert(b[k] == s[k - 2]);
    }
    assert(b[e] == f);
    lemma_param_len(b, 2, e);
    assert(b.subrange(2, e) =~= s);
    assert(b.subrange(e + 1, b.len() as int) =~= rest);
}

proof fn lemma_first_scalar_prefix(x: Seq<u8>, rest: Seq<u8>)
    requires
        valid_first_scalar(x),
        length_of_first_scalar(x) == x.len(),
    ensures
        valid_first_scalar(x + rest),
        decode_first_scalar(x + rest) == decode_first_scalar(x),
        length_of_first_scalar(x + rest) == x.len(),
{
    let b = x + rest;
    assert(b[0] == x[0]);
    if x.len() >= 2 {
        assert(b[1] == x[1]);
    }
    if x.len() >= 3 {
        assert(b[2] == x[2]);
    }
    if x.len() >= 4 {
        assert(b[3] == x[3]);
    }
}

proof fn lemma_run_glyph(c: char, rest: Seq<u8>, t: Terminal, wide: spec_fn(char) -> bool)
    requires
        c != '\x1b',
    ensures
        run(encode_utf8(seq![c]) + rest, t, wide) == run(rest, put_glyph(c, t, wide), wide),
{
    let x = encode_utf8(seq![c]);
    encode_utf8_first_scalar(seq![c]);
    assert(seq![c].drop_first() =~= Seq::<char>::empty());
    assert(encode_utf8(Seq::<char>::empty()) == Seq::<u8>::empty());
    assert(x =~= encode_scalar(seq![c][0] as u32));
    lemma_first_scalar_prefix(x, rest);
    let b = x + rest;
    char_u32_cast(c, decode_first_scalar(b));
    if b[0] == 0x1b {
        assert(is_leading_byte_width_1(b[0]));
        assert((0x1bu8 & 0x7fu8) == 0x1bu8) by (bit_vector);
        assert(decode_first_scalar(b) == 0x1b);
    }
    assert(b.subrange(x.len() as int, b.len() as int) =~= rest);
}

/// What drawing cell `c` does to the terminal: it takes the cell's
/// attribute set, then writes the glyph, or steps over a default-background
/// blank, or paints a blank and steps over it.
pub open spec fn draw_cell(c: Cell, t: Terminal, wide: spec_fn(char) -> bool) -> Terminal {
    let t1 = Terminal { attrs: c.attrs, ..t };
    if has_text(c) {
        put_glyph(c.text@[0], t1, wide)
    } else if c.attrs.bgcolor == Color::Default {
        Terminal { cursor: t1.cursor + 1, ..t1 }
    } else {
        Terminal {
            cells: t1.cells.insert(t1.cursor, (seq![], t1.attrs)),
            cursor: t1.cursor + 1,
            ..t1
        }
    }
}

/// The terminal after the cells of `cells[lo..i]` that a walk fitting
/// before `lim` draws were drawn in turn
/// on a blank terminal with `a0` active.
pub open spec fn drawn(
    cells: Seq<Cell>,
    lo: int,
    lim: int,
    i: int,
    a0: Attrs,
    wide: spec_fn(char) -> bool,
) -> Terminal
    decreases i - lo,
{
    if i <= lo {
        blank_terminal(a0)
    } else if !drawn_at(cells, lo, lim, i - 1) {
        drawn(cells, lo, lim, i - 1, a0, wide)
    } else {
        draw_cell(cells[i - 1], drawn(cells, lo, lim, i - 1, a0, wide), wide)
    }
}

/// Each glyph in `cells[lo..hi]` is one printable character that the
/// terminal, by `wide`, gives as many columns as the cell's width class, and
/// each wide cell has a glyph.
pub open spec fn glyphs_readable(cells: Seq<Cell>, lo: int, hi: int, wide: spec_fn(char) -> bool) -> bool {
    forall|j: int|
        lo <= j < hi ==> {
            &&& has_text(#[trigger] cells[j]) ==> cells[j].text@.len() == 1 && cells[j].text@[0]
                != '\x1b' && wide(cells[j].text@[0]) == is_wide(cells[j])
            &&& is_wide(cells[j]) ==> has_text(cells[j])
        }
}

/// The terminal shows cell `c` at column `col`: the same glyph and
/// background, and the same attribute set wherever the cell must be drawn.
pub open spec fn shows_cell(t: Terminal, col: int, c: Cell) -> bool {
    &&& shown(t, col).0 == c.text@
    &&& shown(t, col).1.bgcolor == c.attrs.bgcolor
    &&& is_visible(c) ==> shown(t, col).1 == c.attrs
}

proof fn lemma_parse_no_params()
    ensures
        parse_params(Seq::<u8>::empty()) == seq![0int],
{
    assert(last_semi(Seq::<u8>::empty()) == -1);
    assert(parse_num(Seq::<u8>::empty()) == 0);
}

proof fn lemma_run_cell(c: Cell, t: Terminal, rest: Seq<u8>, wide: spec_fn(char) -> bool)
    requires
        has_text(c) ==> c.text@.len() == 1 && c.text@[0] != '\x1b',
    ensures
        run(switch_attrs(c, t.attrs) + full_cell_bytes(c) + rest, t, wide) == run(
            rest,
            draw_cell(c, t, wide),
            wide,
        ),
{
    let t1 = Terminal { attrs: c.attrs, ..t };
    let body = full_cell_bytes(c) + rest;
    if c.attrs != t.attrs {
        lemma_attrs_diff_applies(c.attrs, t.attrs);
        let jp = join_params_or_empty(c.attrs, t.attrs);
        assert(switch_attrs(c, t.attrs) + full_cell_bytes(c) + rest =~= csi() + jp + seq![0x6du8]
            + body);
        lemma_run_csi(jp, 0x6d, body, t, wide);
        assert(csi_apply(0x6d, parse_params(jp), t) == t1);
    } else {
        assert(switch_attrs(c, t.attrs) + full_cell_bytes(c) + rest =~= body);
        assert(t1 == t);
    }
    lemma_parse_no_params();
    if has_text(c) {
        assert(c.text@ =~= seq![c.text@[0]]);
        lemma_run_glyph(c.text@[0], rest, t1, wide);
    } else if c.attrs.bgcolor == Color::Default {
        assert(body =~= csi() + Seq::<u8>::empty() + seq![0x43u8] + rest);
        lemma_run_csi(Seq::<u8>::empty(), 0x43, rest, t1, wide);
    } else {
        let tail = cursor_forward_one() + rest;
        assert(body =~= csi() + Seq::<u8>::empty() + seq![0x58u8] + tail);
        lemma_run_csi(Seq::<u8>::empty(), 0x58, tail, t1, wide);
        let t2 = csi_apply(0x58, seq![0int], t1);
        assert(t2.cells =~= t1.cells.insert(t1.cursor, (seq![], t1.attrs)));
        assert(tail =~= csi() + Seq::<u8>::empty() + seq![0x43u8] + rest);
        lemma_run_csi(Seq::<u8>::empty(), 0x43, rest, t2, wide);
    }
}

proof fn lemma_run_full(
    cells: Seq<Cell>,
    lo: int,
    lim: int,
    i: int,
    a0: Attrs,
    wide: spec_fn(char) -> bool,
    rest: Seq<u8>,
)
    requires
        0 <= lo <= i <= cells.len(),
        glyphs_readable(cells, lo, i, wide),
    ensures
        run(full_upto(cells, lo, lim, i, a0).0 + rest, blank_terminal(a0), wide) == run(
            rest,
            drawn(cells, lo, lim, i, a0, wide),
            wide,
        ),
        drawn(cells, lo, lim, i, a0, wide).attrs == full_upto(cells, lo, lim, i, a0).1,
    decreases i - lo,
{
    if i == lo {
        assert(full_upto(cells, lo, lim, i, a0).0 + rest =~= rest);
    } else if !drawn_at(cells, lo, lim, i - 1) {
        lemma_run_full(cells, lo, lim, i - 1, a0, wide, rest);
    } else {
        let c = cells[i - 1];
        let prior = full_upto(cells, lo, lim, i - 1, a0);
        let more = switch_attrs(c, prior.1) + full_cell_bytes(c) + rest;
        assert(full_upto(cells, lo, lim, i, a0).0 + rest =~= prior.0 + more);
        lemma_run_full(cells, lo, lim, i - 1, a0, wide, more);
        lemma_run_cell(c, drawn(cells, lo, lim, i - 1, a0, wide), rest, wide);
    }
}

proof fn lemma_drawn_shows(
    cells: Seq<Cell>,
    lo: int,
    lim: int,
    i: int,
    a0: Attrs,
    wide: spec_fn(char) -> bool,
)
    requires
        0 <= lo <= i <= cells.len(),
        glyphs_readable(cells, lo, i, wide),
    ensures
        drawn(cells, lo, lim, i, a0, wide).cursor == cols_upto(cells, lo, lim, i),
        forall|k: int|
            #[trigger] drawn(cells, lo, lim, i, a0, wide).cells.contains_key(k) ==> 0 <= k < drawn(
                cells,
                lo,
                lim,
                i,
                a0,
                wide,
            ).cursor,
        forall|j: int|
            lo <= j < i && drawn_at(cells, lo, lim, j) ==> shows_cell(
                drawn(cells, lo, lim, i, a0, wide),
                cols_upto(cells, lo, lim, j),
                #[trigger] cells[j],
            ),
    decreases i - lo,
{
    if i > lo {
        lemma_drawn_shows(cells, lo, lim, i - 1, a0, wide);
        if drawn_at(cells, lo, lim, i - 1) {
            let t = drawn(cells, lo, lim, i - 1, a0, wide);
            let c = cells[i - 1];
            let t2 = draw_cell(c, t, wide);
            lemma_cols_monotone(cells, lo, lim, lo, i - 1);
            assert(t2.cursor == t.cursor + cell_cols(c));
            assert(t2.cells == t.cells || t2.cells == t.cells.insert(t.cursor, shown(t2, t.cursor)));
            assert forall|k: int| #[trigger] t2.cells.contains_key(k) implies 0 <= k < t2.cursor by {
                if k != t.cursor {
                    assert(t.cells.contains_key(k));
                }
            }
            assert forall|j: int| lo <= j < i && drawn_at(cells, lo, lim, j) implies shows_cell(
                t2,
                cols_upto(cells, lo, lim, j),
                #[trigger] cells[j],
            ) by {
                if j < i - 1 {
                    lemma_cols_monotone(cells, lo, lim, j + 1, i - 1);
                    assert(cols_upto(cells, lo, lim, j) < t.cursor);
                    assert(shows_cell(t, cols_upto(cells, lo, lim, j), cells[j]));
                    assert(shown(t2, cols_upto(cells, lo, lim, j)) == shown(t, cols_upto(cells, lo, lim, j)));
                } else {
                    assert(j == i - 1);
                    assert(cols_upto(cells, lo, lim, j) == t.cursor);
                    if has_text(c) {
                        assert(seq![c.text@[0]] =~= c.text@);
                    } else {
                        assert(c.text@ =~= Seq::<char>::empty());
                        if c.attrs.bgcolor == Color::Default {
                            assert(!t2.cells.contains_key(t.cursor));
                        }
                    }
                }
            }
        }
    }
}

/// A full drawing of columns `start..start + width` of a row, read by the
/// reference terminal from a blank screen with the drawing's initial
/// attribute set active, shows each drawn cell of the range at its column
/// (counted from `start`): the same glyph and background, and the same
/// attributes wherever the cell must be drawn. The cursor ends after the
/// columns drawn, with the attribute set that the drawing reports active.
/// This holds where each glyph is one printable character whose width the
/// terminal sees as the cell's width class.
pub proof fn lemma_full_drawing_round_trip(
    cells: Seq<Cell>,
    start: int,
    width: int,
    a0: Attrs,
    wide: spec_fn(char) -> bool,
)
    requires
        0 <= start,
        0 <= width,
        glyphs_readable(cells, start, start + clipped_width(cells, start, width), wide),
    ensures
        ({
            let hi = start + clipped_width(cells, start, width);
            let lim = cells.len() as int;
            let t = run(full_upto(cells, start, lim, hi, a0).0, blank_terminal(a0), wide);
            &&& t.cursor == cols_upto(cells, start, lim, hi)
            &&& t.attrs == full_upto(cells, start, lim, hi, a0).1
            &&& forall|j: int|
                start <= j < hi && drawn_at(cells, start, lim, j) ==> shows_cell(
                    t,
                    cols_upto(cells, start, lim, j),
                    #[trigger] cells[j],
                )
        }),
{
    let hi = start + clipped_width(cells, start, width);
    let lim = cells.len() as int;
    crate::render::lemma_content_width_bound(cells, start, cells.len() as int);
    if hi == start {
        assert(run(Seq::<u8>::empty(), blank_terminal(a0), wide) == blank_terminal(a0));
        return;
    }
    lemma_run_full(cells, start, lim, hi, a0, wide, Seq::<u8>::empty());
    assert(full_upto(cells, start, lim, hi, a0).0 + Seq::<u8>::empty() =~= full_upto(
        cells,
        start,
        lim,
        hi,
        a0,
    ).0);
    assert(run(Seq::<u8>::empty(), drawn(cells, start, lim, hi, a0, wide), wide) == drawn(
        cells,
        start,
        lim,
        hi,
        a0,
        wide,
    ));
    lemma_drawn_shows(cells, start, lim, hi, a0, wide);
}

} // verus!

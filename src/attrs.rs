//! Colors and text attributes, and the SGR sequence that moves a terminal
//! from one attribute set to another.
use vstd::prelude::*;
use crate::escape::{decimal, csi, push_decimal};

verus! {

/// A foreground or background color.
#[derive(Clone, Copy, Debug, PartialEq, Eq, Structural)]
pub enum Color {
    /// The terminal's own color: nothing needs to be painted.
    Default,
    /// An entry of the 256-color palette.
    Idx(u8),
    /// A 24-bit color.
    Rgb(u8, u8, u8),
}

/// The attribute set of a cell: colors and style flags.
#[derive(Clone, Copy, Debug, PartialEq, Eq, Structural)]
pub struct Attrs {
    pub fgcolor: Color,
    pub bgcolor: Color,
    pub bold: bool,
    pub italic: bool,
    pub underline: bool,
    pub inverse: bool,
}

/// The attribute set of a fresh terminal.
pub open spec fn default_attrs() -> Attrs {
    Attrs {
        fgcolor: Color::Default,
        bgcolor: Color::Default,
        bold: false,
        italic: false,
        underline: false,
        inverse: false,
    }
}

/// SGR parameters that select color `c`; `base` is 30 for the foreground
/// and 40 for the background.
pub open spec fn color_params(c: Color, base: u8) -> Seq<u8> {
    match c {
        Color::Default => seq![(base + 9) as u8],
        Color::Idx(i) => if i < 8 {
            seq![(i + base) as u8]
        } else if i < 16 {
            seq![(i + base + 52) as u8]
        } else {
            seq![(base + 8) as u8, 5u8, i]
        },
        Color::Rgb(r, g, b) => seq![(base + 8) as u8, 2u8, r, g, b],
    }
}

/// The parameter for a style flag that turns on with `on` and off with `off`.
pub open spec fn flag_params(new: bool, was: bool, on: u8, off: u8) -> Seq<u8> {
    if new == was {
        seq![]
    } else if new {
        seq![on]
    } else {
        seq![off]
    }
}

/// All SGR parameters that move from `was` to `new`.
pub open spec fn sgr_params(new: Attrs, was: Attrs) -> Seq<u8> {
    (if new.fgcolor != was.fgcolor { color_params(new.fgcolor, 30) } else { seq![] }) + ((
    if new.bgcolor != was.bgcolor {
        color_params(new.bgcolor, 40)
    } else {
        seq![]
    }) + (flag_params(new.bold, was.bold, 1, 22) + (flag_params(new.italic, was.italic, 3, 23) + (
    flag_params(new.underline, was.underline, 4, 24) + flag_params(
        new.inverse,
        was.inverse,
        7,
        27,
    )))))
}

/// The decimal numerals of `p`, separated by `;`.
pub open spec fn join_params(p: Seq<u8>) -> Seq<u8>
    decreases p.len(),
{
    if p.len() == 0 {
        seq![]
    } else if p.len() == 1 {
        decimal(p[0] as nat)
    } else {
        join_params(p.drop_last()) + seq![0x3bu8] + decimal(p.last() as nat)
    }
}

/// The bytes that move a terminal showing `was` to showing `new`: a full reset
/// when `new` is the default set, else one SGR sequence with the parameters
/// that changed, and nothing when none did.
pub open spec fn attrs_diff(new: Attrs, was: Attrs) -> Seq<u8> {
    if new != was && new == default_attrs() {
        csi() + seq![0x6du8]
    } else if sgr_params(new, was).len() == 0 {
        seq![]
    } else {
        csi() + join_params(sgr_params(new, was)) + seq![0x6du8]
    }
}

impl Color {
    fn push_params(&self, params: &mut Vec<u8>, base: u8)
        requires
            base == 30 || base == 40,
            old(params)@.len() == 0,
        ensures
            final(params)@ == color_params(*self, base),
    {
        match *self {
            Color::Default => {
                params.push(base + 9);
            },
            Color::Idx(i) => {
                if i < 8 {
                    params.push(i + base);
                } else if i < 16 {
                    params.push(i + base + 52);
                } else {
                    params.push(base + 8);
                    params.push(5);
                    params.push(i);
                }
            },
            Color::Rgb(r, g, b) => {
                params.push(base + 8);
                params.push(2);
                params.push(r);
                params.push(g);
                params.push(b);
            },
        }
        assert(final(params)@ =~= color_params(*self, base));
    }
}

fn flag_vec(new: bool, was: bool, on: u8, off: u8) -> (r: Vec<u8>)
    ensures
        r@ == flag_params(new, was, on, off),
{
    let mut params: Vec<u8> = Vec::new();
    if new != was {
        if new {
            params.push(on);
        } else {
            params.push(off);
        }
    }
    assert(params@ =~= flag_params(new, was, on, off));
    params
}

impl Attrs {
    /// The attribute set of a fresh terminal.
    pub fn new() -> (r: Attrs)
        ensures
            r == default_attrs(),
    {
        Attrs {
            fgcolor: Color::Default,
            bgcolor: Color::Default,
            bold: false,
            italic: false,
            underline: false,
            inverse: false,
        }
    }

    pub fn is_default(&self) -> (r: bool)
        ensures
            r == (*self == default_attrs()),
    {
        *self == Attrs::new()
    }

    /// The escape bytes that move a terminal showing `other` to showing `self`.
    pub fn escape_code_diff(&self, other: &Attrs) -> (r: Vec<u8>)
        ensures
            r@ == attrs_diff(*self, *other),
    {
        if *self != *other && self.is_default() {
            let mut reset: Vec<u8> = Vec::new();
            reset.push(0x1b);
            reset.push(0x5b);
            reset.push(0x6d);
            assert(reset@ =~= attrs_diff(*self, *other));
            return reset;
        }
        let params = self.sgr_params(other);
        let mut out: Vec<u8> = Vec::new();
        if params.len() == 0 {
            return out;
        }
        out.push(0x1b);
        out.push(0x5b);
        push_joined(&mut out, &params);
        out.push(0x6d);
        assert(out@ =~= attrs_diff(*self, *other));
        out
    }

    fn sgr_params(&self, other: &Attrs) -> (r: Vec<u8>)
        ensures
            r@ == sgr_params(*self, *other),
    {
        let mut params = flag_vec(self.inverse, other.inverse, 7, 27);
        let mut v = flag_vec(self.underline, other.underline, 4, 24);
        v.append(&mut params);
        let mut params = flag_vec(self.italic, other.italic, 3, 23);
        params.append(&mut v);
        let mut v = flag_vec(self.bold, other.bold, 1, 22);
        v.append(&mut params);
        let mut params: Vec<u8> = Vec::new();
        if self.bgcolor != other.bgcolor {
            self.bgcolor.push_params(&mut params, 40);
        }
        params.append(&mut v);
        let mut v: Vec<u8> = Vec::new();
        if self.fgcolor != other.fgcolor {
            self.fgcolor.push_params(&mut v, 30);
        }
        v.append(&mut params);
        let params = v;
        params
    }
}

fn push_joined(out: &mut Vec<u8>, params: &Vec<u8>)
    ensures
        final(out)@ == old(out)@ + join_params(params@),
{
    let mut i: usize = 0;
    while i < params.len()
        invariant
            0 <= i <= params@.len(),
            out@ == old(out)@ + join_params(params@.subrange(0, i as int)),
        decreases params@.len() - i,
    {
        let ghost before = out@;
        if i > 0 {
            out.push(0x3b);
        }
        push_decimal(out, params[i] as u16);
        proof {
            let s = params@.subrange(0, i + 1);
            assert(s.drop_last() =~= params@.subrange(0, i as int));
            if i == 0 {
                assert(params@.subrange(0, 0) =~= Seq::<u8>::empty());
                assert(out@ =~= old(out)@ + join_params(s));
            } else {
                assert(out@ =~= old(out)@ + join_params(s));
            }
        }
        i += 1;
    }
    assert(params@.subrange(0, params@.len() as int) =~= params@);
}

} // verus!

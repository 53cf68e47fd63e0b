//! The style a decoded character carries: optional foreground and background
//! colors plus attribute flags, together with how SGR parameter lists change
//! a style and how a style renders back into SGR escape sequences.

use vstd::prelude::*;

verus! {

/// One of the sixteen named terminal colors.
#[derive(Debug, Copy, Clone, PartialEq, Eq, Hash, Structural)]
pub enum AnsiColor {
    Black,
    Red,
    Green,
    Yellow,
    Blue,
    Magenta,
    Cyan,
    White,
    BrightBlack,
    BrightRed,
    BrightGreen,
    BrightYellow,
    BrightBlue,
    BrightMagenta,
    BrightCyan,
    BrightWhite,
}

/// A terminal color: named, 256-indexed, or 24-bit.
#[derive(Debug, Copy, Clone, PartialEq, Eq, Hash, Structural)]
pub enum Color {
    Ansi(AnsiColor),
    Ansi256(u8),
    Rgb(u8, u8, u8),
}

/// The SGR state in effect for one character. `Style::new()` carries no
/// color and no attribute.
#[verifier::ext_equal]
#[derive(Debug, Copy, Clone, PartialEq, Eq, Hash, Structural)]
pub struct Style {
    pub fg: Option<Color>,
    pub bg: Option<Color>,
    pub bold: bool,
    pub dimmed: bool,
    pub italic: bool,
    pub underline: bool,
    pub blink: bool,
    pub hidden: bool,
    pub strikethrough: bool,
    pub reversed: bool,
}

impl Style {
    /// The style with nothing set.
    pub open spec fn empty() -> Style {
        Style {
            fg: None,
            bg: None,
            bold: false,
            dimmed: false,
            italic: false,
            underline: false,
            blink: false,
            hidden: false,
            strikethrough: false,
            reversed: false,
        }
    }

    pub fn new() -> (r: Style)
        ensures
            r == Style::empty(),
    {
        Style {
            fg: None,
            bg: None,
            bold: false,
            dimmed: false,
            italic: false,
            underline: false,
            blink: false,
            hidden: false,
            strikethrough: false,
            reversed: false,
        }
    }

    pub fn fg_color(self, fg: Option<Color>) -> (r: Style)
        ensures
            r == (Style { fg, ..self }),
    {
        Style { fg, ..self }
    }

    pub fn bg_color(self, bg: Option<Color>) -> (r: Style)
        ensures
            r == (Style { bg, ..self }),
    {
        Style { bg, ..self }
    }

    pub fn get_fg_color(&self) -> (r: Option<Color>)
        ensures
            r == self.fg,
    {
        self.fg
    }

    pub fn get_bg_color(&self) -> (r: Option<Color>)
        ensures
            r == self.bg,
    {
        self.bg
    }

    pub fn bold(self) -> (r: Style)
        ensures
            r == (Style { bold: true, ..self }),
    {
        Style { bold: true, ..self }
    }

    pub fn dimmed(self) -> (r: Style)
        ensures
            r == (Style { dimmed: true, ..self }),
    {
        Style { dimmed: true, ..self }
    }

    pub fn italic(self) -> (r: Style)
        ensures
            r == (Style { italic: true, ..self }),
    {
        Style { italic: true, ..self }
    }

    pub fn underline(self) -> (r: Style)
        ensures
            r == (Style { underline: true, ..self }),
    {
        Style { underline: true, ..self }
    }

    pub fn blink(self) -> (r: Style)
        ensures
            r == (Style { blink: true, ..self }),
    {
        Style { blink: true, ..self }
    }

    pub fn hidden(self) -> (r: Style)
        ensures
            r == (Style { hidden: true, ..self }),
    {
        Style { hidden: true, ..self }
    }

    pub fn strikethrough(self) -> (r: Style)
        ensures
            r == (Style { strikethrough: true, ..self }),
    {
        Style { strikethrough: true, ..self }
    }
}

/// The named color with index `n` (foreground code `30 + n` for the first
/// eight, `90 + n - 8` for the bright eight); out-of-range indices fall back
/// to black.
pub open spec fn named_color(n: u16) -> AnsiColor {
    if n == 1 {
        AnsiColor::Red
    } else if n == 2 {
        AnsiColor::Green
    } else if n == 3 {
        AnsiColor::Yellow
    } else if n == 4 {
        AnsiColor::Blue
    } else if n == 5 {
        AnsiColor::Magenta
    } else if n == 6 {
        AnsiColor::Cyan
    } else if n == 7 {
        AnsiColor::White
    } else if n == 8 {
        AnsiColor::BrightBlack
    } else if n == 9 {
        AnsiColor::BrightRed
    } else if n == 10 {
        AnsiColor::BrightGreen
    } else if n == 11 {
        AnsiColor::BrightYellow
    } else if n == 12 {
        AnsiColor::BrightBlue
    } else if n == 13 {
        AnsiColor::BrightMagenta
    } else if n == 14 {
        AnsiColor::BrightCyan
    } else if n == 15 {
        AnsiColor::BrightWhite
    } else {
        AnsiColor::Black
    }
}

fn named_color_exec(n: u16) -> (c: AnsiColor)
    ensures
        c == named_color(n),
{
    match n {
        1 => AnsiColor::Red,
        2 => AnsiColor::Green,
        3 => AnsiColor::Yellow,
        4 => AnsiColor::Blue,
        5 => AnsiColor::Magenta,
        6 => AnsiColor::Cyan,
        7 => AnsiColor::White,
        8 => AnsiColor::BrightBlack,
        9 => AnsiColor::BrightRed,
        10 => AnsiColor::BrightGreen,
        11 => AnsiColor::BrightYellow,
        12 => AnsiColor::BrightBlue,
        13 => AnsiColor::BrightMagenta,
        14 => AnsiColor::BrightCyan,
        15 => AnsiColor::BrightWhite,
        _ => AnsiColor::Black,
    }
}

/// Reads an extended color from a flat argument list: `5 ; index` selects a
/// 256-indexed color, `2 ; r ; g ; b` a 24-bit color, anything else nothing.
pub open spec fn parse_color_flat(s: Seq<u16>) -> Option<Color> {
    if s.len() == 0 {
        None
    } else if s[0] == 5 {
        if s.len() >= 2 && s[1] <= 255 {
            Some(Color::Ansi256(s[1] as u8))
        } else {
            None
        }
    } else if s[0] == 2 {
        if s.len() >= 4 && s[1] <= 255 && s[2] <= 255 && s[3] <= 255 {
            Some(Color::Rgb(s[1] as u8, s[2] as u8, s[3] as u8))
        } else {
            None
        }
    } else {
        None
    }
}

/// Reads an extended color whose arguments continue in the following
/// parameters (the `38 ; 5 ; n` form). Returns the color, if any, and the
/// index of the first parameter not consumed; only each parameter's first
/// subparameter counts.
pub open spec fn parse_color_sc(params: Seq<Seq<u16>>, start: int) -> (Option<Color>, int) {
    if start >= params.len() {
        (None, start)
    } else {
        let v = param_selector(params[start]);
        if v == 5 {
            if start + 1 >= params.len() {
                (None, start + 1)
            } else if param_selector(params[start + 1]) > 255 {
                (None, start + 2)
            } else {
                (Some(Color::Ansi256(param_selector(params[start + 1]) as u8)), start + 2)
            }
        } else if v == 2 {
            if start + 1 >= params.len() {
                (None, start + 1)
            } else if param_selector(params[start + 1]) > 255 {
                (None, start + 2)
            } else if start + 2 >= params.len() {
                (None, start + 2)
            } else if param_selector(params[start + 2]) > 255 {
                (None, start + 3)
            } else if start + 3 >= params.len() {
                (None, start + 3)
            } else if param_selector(params[start + 3]) > 255 {
                (None, start + 4)
            } else {
                (
                    Some(
                        Color::Rgb(
                            param_selector(params[start + 1]) as u8,
                            param_selector(params[start + 2]) as u8,
                            param_selector(params[start + 3]) as u8,
                        ),
                    ),
                    start + 4,
                )
            }
        } else {
            (None, start + 1)
        }
    }
}

/// A parameter's selector: its first subparameter, zero when empty.
pub open spec fn param_selector(p: Seq<u16>) -> u16 {
    if p.len() == 0 {
        0
    } else {
        p[0]
    }
}

/// The arguments of an extended color given in one parameter with
/// subparameters (the `38 : 5 : n` form): the first subparameter after the
/// selector, then the trailing ones, skipping a color-space identifier when
/// the parameter is long enough to carry one.
pub open spec fn colon_color_args(p: Seq<u16>) -> Seq<u16> {
    let sub = p.skip(1);
    let rgb_start: int = if sub.len() > 4 {
        2
    } else {
        1
    };
    seq![sub[0]] + sub.skip(rgb_start)
}

/// The style an SGR parameter run leaves when applied cumulatively, left
/// to right, to `cur`, starting at parameter `i`. A zero selector resets to
/// `baseline` at its position and later directives still apply; recognized
/// selectors set attribute flags or colors; unrecognized ones, and extended
/// colors whose arguments do not parse, change nothing.
pub open spec fn sgr_from(params: Seq<Seq<u16>>, i: int, baseline: Style, cur: Style) -> Style
    decreases params.len() - i,
{
    if i < 0 || i >= params.len() {
        cur
    } else {
        let p = params[i];
        let sel = param_selector(p);
        if sel == 0 {
            sgr_from(params, i + 1, baseline, baseline)
        } else if sel == 1 {
            sgr_from(params, i + 1, baseline, Style { bold: true, ..cur })
        } else if sel == 2 {
            sgr_from(params, i + 1, baseline, Style { dimmed: true, ..cur })
        } else if sel == 3 {
            sgr_from(params, i + 1, baseline, Style { italic: true, ..cur })
        } else if sel == 4 {
            sgr_from(params, i + 1, baseline, Style { underline: true, ..cur })
        } else if sel == 5 {
            sgr_from(params, i + 1, baseline, Style { blink: true, ..cur })
        } else if sel == 8 {
            sgr_from(params, i + 1, baseline, Style { hidden: true, ..cur })
        } else if sel == 9 {
            sgr_from(params, i + 1, baseline, Style { strikethrough: true, ..cur })
        } else if 30 <= sel && sel <= 37 {
            sgr_from(
                params,
                i + 1,
                baseline,
                Style { fg: Some(Color::Ansi(named_color((sel - 30) as u16))), ..cur },
            )
        } else if 90 <= sel && sel <= 97 {
            sgr_from(
                params,
                i + 1,
                baseline,
                Style { fg: Some(Color::Ansi(named_color((sel - 90 + 8) as u16))), ..cur },
            )
        } else if 40 <= sel && sel <= 47 {
            sgr_from(
                params,
                i + 1,
                baseline,
                Style { bg: Some(Color::Ansi(named_color((sel - 40) as u16))), ..cur },
            )
        } else if 100 <= sel && sel <= 107 {
            sgr_from(
                params,
                i + 1,
                baseline,
                Style { bg: Some(Color::Ansi(named_color((sel - 100 + 8) as u16))), ..cur },
            )
        } else if sel == 38 {
            if p.len() <= 1 {
                let r = parse_color_sc(params, i + 1);
                sgr_from(
                    params,
                    r.1,
                    baseline,
                    match r.0 {
                        Some(c) => Style { fg: Some(c), ..cur },
                        None => cur,
                    },
                )
            } else {
                sgr_from(
                    params,
                    i + 1,
                    baseline,
                    match parse_color_flat(colon_color_args(p)) {
                        Some(c) => Style { fg: Some(c), ..cur },
                        None => cur,
                    },
                )
            }
        } else if sel == 48 {
            if p.len() <= 1 {
                let r = parse_color_sc(params, i + 1);
                sgr_from(
                    params,
                    r.1,
                    baseline,
                    match r.0 {
                        Some(c) => Style { bg: Some(c), ..cur },
                        None => cur,
                    },
                )
            } else {
                sgr_from(
                    params,
                    i + 1,
                    baseline,
                    match parse_color_flat(colon_color_args(p)) {
                        Some(c) => Style { bg: Some(c), ..cur },
                        None => cur,
                    },
                )
            }
        } else {
            sgr_from(params, i + 1, baseline, cur)
        }
    }
}

/// The style after one SGR directive list is applied to `cur`, with resets
/// returning to `baseline`.
pub open spec fn apply_sgr_spec(baseline: Style, cur: Style, params: Seq<Seq<u16>>) -> Style {
    sgr_from(params, 0, baseline, cur)
}

/// Applies an SGR parameter list to a style, cumulatively and left to
/// right, as [`apply_sgr_spec`] describes.
#[verifier::rlimit(100)]
pub fn apply_sgr(baseline: Style, cur: Style, params: &Vec<Vec<u16>>) -> (r: Style)
    ensures
        r == apply_sgr_spec(baseline, cur, params.deep_view()),
{
    let ghost pv = params.deep_view();
    let mut style = cur;
    let mut i: usize = 0;
    while i < params.len()
        invariant
            0 <= i <= params@.len(),
            pv == params.deep_view(),
            pv.len() == params@.len(),
            forall|k: int| 0 <= k < pv.len() ==> pv[k] == #[trigger] params@[k]@,
            sgr_from(pv, 0, baseline, cur) == sgr_from(pv, i as int, baseline, style),
        decreases params@.len() - i,
    {
        let p = &params[i];
        let sel = if p.len() == 0 {
            0u16
        } else {
            p[0]
        };
        if sel == 0 {
            style = baseline;
            i = i + 1;
        } else if sel == 1 {
            style = style.bold();
            i = i + 1;
        } else if sel == 2 {
            style = style.dimmed();
            i = i + 1;
        } else if sel == 3 {
            style = style.italic();
            i = i + 1;
        } else if sel == 4 {
            style = style.underline();
            i = i + 1;
        } else if sel == 5 {
            style = style.blink();
            i = i + 1;
        } else if sel == 8 {
            style = style.hidden();
            i = i + 1;
        } else if sel == 9 {
            style = style.strikethrough();
            i = i + 1;
        } else if 30 <= sel && sel <= 37 {
            style = style.fg_color(Some(Color::Ansi(named_color_exec(sel - 30))));
            i = i + 1;
        } else if 90 <= sel && sel <= 97 {
            style = style.fg_color(Some(Color::Ansi(named_color_exec(sel - 90 + 8))));
            i = i + 1;
        } else if 40 <= sel && sel <= 47 {
            style = style.bg_color(Some(Color::Ansi(named_color_exec(sel - 40))));
            i = i + 1;
        } else if 100 <= sel && sel <= 107 {
            style = style.bg_color(Some(Color::Ansi(named_color_exec(sel - 100 + 8))));
            i = i + 1;
        } else if sel == 38 || sel == 48 {
            let c: Option<Color>;
            if p.len() <= 1 {
                let (parsed, next) = exec_parse_color_sc(params, i + 1);
                c = parsed;
                proof {
                    assert(parse_color_sc(pv, i + 1).1 <= pv.len());
                }
                i = next;
            } else {
                c = exec_parse_color_colon(p);
                i = i + 1;
            }
            if let Some(cc) = c {
                if sel == 38 {
                    style = style.fg_color(Some(cc));
                } else {
                    style = style.bg_color(Some(cc));
                }
            }
        } else {
            i = i + 1;
        }
    }
    style
}

/// Reads a `5 ; n` or `2 ; r ; g ; b` continuation beginning at `params[start]`.
fn exec_parse_color_sc(params: &Vec<Vec<u16>>, start: usize) -> (r: (Option<Color>, usize))
    requires
        start <= params@.len() + 1,
    ensures
        (r.0, r.1 as int) == parse_color_sc(params.deep_view(), start as int),
        start <= r.1 <= vstd::math::max(params@.len() as int, start as int),
{
    if start >= params.len() {
        return (None, start);
    }
    let v = selector_of(&params[start]);
    if v == 5 {
        if start + 1 >= params.len() {
            (None, start + 1)
        } else {
            let n = selector_of(&params[start + 1]);
            if n > 255 {
                (None, start + 2)
            } else {
                (Some(Color::Ansi256(n as u8)), start + 2)
            }
        }
    } else if v == 2 {
        if start + 1 >= params.len() {
            return (None, start + 1);
        }
        let rr = selector_of(&params[start + 1]);
        if rr > 255 {
            return (None, start + 2);
        }
        if start + 2 >= params.len() {
            return (None, start + 2);
        }
        let gg = selector_of(&params[start + 2]);
        if gg > 255 {
            return (None, start + 3);
        }
        if start + 3 >= params.len() {
            return (None, start + 3);
        }
        let bb = selector_of(&params[start + 3]);
        if bb > 255 {
            return (None, start + 4);
        }
        (Some(Color::Rgb(rr as u8, gg as u8, bb as u8)), start + 4)
    } else {
        (None, start + 1)
    }
}

fn selector_of(p: &Vec<u16>) -> (r: u16)
    ensures
        r == param_selector(p@),
{
    if p.len() == 0 {
        0
    } else {
        p[0]
    }
}

/// Reads the `38 : 5 : n` form held in one parameter with subparameters.
fn exec_parse_color_colon(p: &Vec<u16>) -> (r: Option<Color>)
    requires
        p@.len() >= 2,
    ensures
        r == parse_color_flat(colon_color_args(p@)),
{
    let rgb_start: usize = if p.len() - 1 > 4 {
        2
    } else {
        1
    };
    let ghost args = colon_color_args(p@);
    let v = p[1];
    proof {
        assert(args[0] == v);
        assert(args.len() == 1 + (p@.len() - 1 - rgb_start));
        assert(forall|k: int|
            1 <= k < args.len() ==> args[k] == #[trigger] p@[k + rgb_start]);
    }
    if v == 5 {
        if 1 + rgb_start < p.len() {
            let n = p[1 + rgb_start];
            if n <= 255 {
                Some(Color::Ansi256(n as u8))
            } else {
                None
            }
        } else {
            None
        }
    } else if v == 2 {
        if 1 + rgb_start + 2 < p.len() {
            let rr = p[1 + rgb_start];
            let gg = p[2 + rgb_start];
            let bb = p[3 + rgb_start];
            if rr <= 255 && gg <= 255 && bb <= 255 {
                Some(Color::Rgb(rr as u8, gg as u8, bb as u8))
            } else {
                None
            }
        } else {
            None
        }
    } else {
        None
    }
}

} // verus!

verus! {

/// The decimal digit `d` as a character.
pub open spec fn digit_char(d: u8) -> char {
    ((0x30 + d) as u8) as char
}

/// The decimal form of `n`, one to three digits without leading zeros.
pub open spec fn dec_u8(n: u8) -> Seq<char> {
    if n < 10 {
        seq![digit_char(n)]
    } else if n < 100 {
        seq![digit_char((n / 10) as u8), digit_char((n % 10) as u8)]
    } else {
        seq![
            digit_char((n / 100) as u8),
            digit_char(((n / 10) % 10) as u8),
            digit_char((n % 10) as u8),
        ]
    }
}

/// One escape sequence `ESC [ body m`.
pub open spec fn sgr_seq(body: Seq<char>) -> Seq<char> {
    seq!['\x1b', '['] + body + seq!['m']
}

/// The position of a named color among the sixteen.
pub open spec fn ansi_index(a: AnsiColor) -> u8 {
    match a {
        AnsiColor::Black => 0,
        AnsiColor::Red => 1,
        AnsiColor::Green => 2,
        AnsiColor::Yellow => 3,
        AnsiColor::Blue => 4,
        AnsiColor::Magenta => 5,
        AnsiColor::Cyan => 6,
        AnsiColor::White => 7,
        AnsiColor::BrightBlack => 8,
        AnsiColor::BrightRed => 9,
        AnsiColor::BrightGreen => 10,
        AnsiColor::BrightYellow => 11,
        AnsiColor::BrightBlue => 12,
        AnsiColor::BrightMagenta => 13,
        AnsiColor::BrightCyan => 14,
        AnsiColor::BrightWhite => 15,
    }
}

/// The body of the escape sequence selecting `c`, with `base` 30 for a
/// foreground and 40 for a background, and `ext` the matching `38` or `48`.
pub open spec fn color_body(c: Color, base: u8, ext: u8) -> Seq<char> {
    match c {
        Color::Ansi(a) => {
            let i = ansi_index(a);
            if i < 8 {
                dec_u8((base + i) as u8)
            } else {
                dec_u8((base + 60 + i - 8) as u8)
            }
        },
        Color::Ansi256(n) => dec_u8(ext) + seq![';', '5', ';'] + dec_u8(n),
        Color::Rgb(r, g, b) => dec_u8(ext) + seq![';', '2', ';'] + dec_u8(r) + seq![';'] + dec_u8(
            g,
        ) + seq![';'] + dec_u8(b),
    }
}

/// The escape sequences that put a terminal into style `s` from the default:
/// one per attribute flag in SGR numeric order, then the foreground, then
/// the background.
pub open spec fn style_chars(s: Style) -> Seq<char> {
    (if s.bold {
        sgr_seq(seq!['1'])
    } else {
        Seq::empty()
    }) + (if s.dimmed {
        sgr_seq(seq!['2'])
    } else {
        Seq::empty()
    }) + (if s.italic {
        sgr_seq(seq!['3'])
    } else {
        Seq::empty()
    }) + (if s.underline {
        sgr_seq(seq!['4'])
    } else {
        Seq::empty()
    }) + (if s.blink {
        sgr_seq(seq!['5'])
    } else {
        Seq::empty()
    }) + (if s.reversed {
        sgr_seq(seq!['7'])
    } else {
        Seq::empty()
    }) + (if s.hidden {
        sgr_seq(seq!['8'])
    } else {
        Seq::empty()
    }) + (if s.strikethrough {
        sgr_seq(seq!['9'])
    } else {
        Seq::empty()
    }) + (match s.fg {
        Some(c) => sgr_seq(color_body(c, 30, 38)),
        None => Seq::empty(),
    }) + (match s.bg {
        Some(c) => sgr_seq(color_body(c, 40, 48)),
        None => Seq::empty(),
    })
}

/// Appends the decimal form of `n`.
fn push_dec_u8(out: &mut Vec<char>, n: u8)
    ensures
        final(out)@ == old(out)@ + dec_u8(n),
{
    let ghost prev = out@;
    if n < 10 {
        out.push((0x30 + n) as char);
        proof {
            assert(out@ =~= prev + dec_u8(n));
        }
    } else if n < 100 {
        out.push((0x30 + n / 10) as char);
        out.push((0x30 + n % 10) as char);
        proof {
            assert(out@ =~= prev + dec_u8(n));
        }
    } else {
        out.push((0x30 + n / 100) as char);
        out.push((0x30 + (n / 10) % 10) as char);
        out.push((0x30 + n % 10) as char);
        proof {
            assert(out@ =~= prev + dec_u8(n));
        }
    }
}

/// Appends `ESC [ body m` for one attribute digit.
fn push_flag(out: &mut Vec<char>, d: u8)
    requires
        d < 10,
    ensures
        final(out)@ == old(out)@ + sgr_seq(seq![digit_char(d)]),
{
    let ghost prev = out@;
    out.push('\x1b');
    out.push('[');
    out.push((0x30 + d) as char);
    out.push('m');
    proof {
        assert(out@ =~= prev + sgr_seq(seq![digit_char(d)]));
    }
}

/// Appends the escape sequence selecting color `c`.
fn push_color(out: &mut Vec<char>, c: Color, base: u8, ext: u8)
    requires
        base == 30 || base == 40,
        ext == base + 8,
    ensures
        final(out)@ == old(out)@ + sgr_seq(color_body(c, base, ext)),
{
    let ghost prev = out@;
    out.push('\x1b');
    out.push('[');
    match c {
        Color::Ansi(a) => {
            let i = ansi_index_exec(a);
            if i < 8 {
                push_dec_u8(out, base + i);
            } else {
                push_dec_u8(out, base + 60 + i - 8);
            }
        },
        Color::Ansi256(n) => {
            push_dec_u8(out, ext);
            out.push(';');
            out.push('5');
            out.push(';');
            push_dec_u8(out, n);
        },
        Color::Rgb(r, g, b) => {
            push_dec_u8(out, ext);
            out.push(';');
            out.push('2');
            out.push(';');
            push_dec_u8(out, r);
            out.push(';');
            push_dec_u8(out, g);
            out.push(';');
            push_dec_u8(out, b);
        },
    }
    out.push('m');
    proof {
        assert(out@ =~= prev + sgr_seq(color_body(c, base, ext)));
    }
}

fn ansi_index_exec(a: AnsiColor) -> (r: u8)
    ensures
        r == ansi_index(a),
{
    match a {
        AnsiColor::Black => 0,
        AnsiColor::Red => 1,
        AnsiColor::Green => 2,
        AnsiColor::Yellow => 3,
        AnsiColor::Blue => 4,
        AnsiColor::Magenta => 5,
        AnsiColor::Cyan => 6,
        AnsiColor::White => 7,
        AnsiColor::BrightBlack => 8,
        AnsiColor::BrightRed => 9,
        AnsiColor::BrightGreen => 10,
        AnsiColor::BrightYellow => 11,
        AnsiColor::BrightBlue => 12,
        AnsiColor::BrightMagenta => 13,
        AnsiColor::BrightCyan => 14,
        AnsiColor::BrightWhite => 15,
    }
}

/// Appends the escape sequences that select `s`, as [`style_chars`] lists
/// them.
/// Appends `ESC [ d m` when `cond` holds.
fn push_flag_if(out: &mut Vec<char>, cond: bool, d: u8)
    requires
        d < 10,
    ensures
        final(out)@ == old(out)@ + (if cond {
            sgr_seq(seq![digit_char(d)])
        } else {
            Seq::empty()
        }),
{
    if cond {
        push_flag(out, d);
    } else {
        proof {
            assert(out@ =~= out@ + Seq::<char>::empty());
        }
    }
}

/// Appends the escape sequence for an optional color.
fn push_color_if(out: &mut Vec<char>, c: Option<Color>, base: u8, ext: u8)
    requires
        base == 30 || base == 40,
        ext == base + 8,
    ensures
        final(out)@ == old(out)@ + (match c {
            Some(cc) => sgr_seq(color_body(cc, base, ext)),
            None => Seq::empty(),
        }),
{
    match c {
        Some(cc) => push_color(out, cc, base, ext),
        None => {
            proof {
                assert(out@ =~= out@ + Seq::<char>::empty());
            }
        },
    }
}

/// Appends the escape sequences that select `s`, as [`style_chars`] lists
/// them.
pub fn push_style_chars(out: &mut Vec<char>, s: Style)
    ensures
        final(out)@ == old(out)@ + style_chars(s),
{
    let ghost prev = out@;
    let ghost mut acc = Seq::<char>::empty();
    proof {
        assert(out@ == prev + acc) by {
            assert(prev + acc =~= prev);
        }
    }
    push_flag_if(out, s.bold, 1);
    proof {
        let piece = if s.bold {
            sgr_seq(seq!['1'])
        } else {
            Seq::empty()
        };
        vstd::seq_lib::lemma_concat_associative(prev, acc, piece);
        acc = acc + piece;
    }
    push_flag_if(out, s.dimmed, 2);
    proof {
        let piece = if s.dimmed {
            sgr_seq(seq!['2'])
        } else {
            Seq::empty()
        };
        vstd::seq_lib::lemma_concat_associative(prev, acc, piece);
        acc = acc + piece;
    }
    push_flag_if(out, s.italic, 3);
    proof {
        let piece = if s.italic {
            sgr_seq(seq!['3'])
        } else {
            Seq::empty()
        };
        vstd::seq_lib::lemma_concat_associative(prev, acc, piece);
        acc = acc + piece;
    }
    push_flag_if(out, s.underline, 4);
    proof {
        let piece = if s.underline {
            sgr_seq(seq!['4'])
        } else {
            Seq::empty()
        };
        vstd::seq_lib::lemma_concat_associative(prev, acc, piece);
        acc = acc + piece;
    }
    push_flag_if(out, s.blink, 5);
    proof {
        let piece = if s.blink {
            sgr_seq(seq!['5'])
        } else {
            Seq::empty()
        };
        vstd::seq_lib::lemma_concat_associative(prev, acc, piece);
        acc = acc + piece;
    }
    push_flag_if(out, s.reversed, 7);
    proof {
        let piece = if s.reversed {
            sgr_seq(seq!['7'])
        } else {
            Seq::empty()
        };
        vstd::seq_lib::lemma_concat_associative(prev, acc, piece);
        acc = acc + piece;
    }
    push_flag_if(out, s.hidden, 8);
    proof {
        let piece = if s.hidden {
            sgr_seq(seq!['8'])
        } else {
            Seq::empty()
        };
        vstd::seq_lib::lemma_concat_associative(prev, acc, piece);
        acc = acc + piece;
    }
    push_flag_if(out, s.strikethrough, 9);
    proof {
        let piece = if s.strikethrough {
            sgr_seq(seq!['9'])
        } else {
            Seq::empty()
        };
        vstd::seq_lib::lemma_concat_associative(prev, acc, piece);
        acc = acc + piece;
    }
    push_color_if(out, s.fg, 30, 38);
    proof {
        let piece = match s.fg {
            Some(c) => sgr_seq(color_body(c, 30, 38)),
            None => Seq::empty(),
        };
        vstd::seq_lib::lemma_concat_associative(prev, acc, piece);
        acc = acc + piece;
    }
    push_color_if(out, s.bg, 40, 48);
    proof {
        let piece = match s.bg {
            Some(c) => sgr_seq(color_body(c, 40, 48)),
            None => Seq::empty(),
        };
        vstd::seq_lib::lemma_concat_associative(prev, acc, piece);
        acc = acc + piece;
        assert(acc == style_chars(s));
    }
}

} // verus!

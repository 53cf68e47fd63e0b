//! Styled terminal text: a sequence of characters each carrying the SGR
//! style in effect when it was emitted, the state machine that decodes raw
//! ANSI output into such text, folding to a display width, and rendering
//! back into escape-coded form.

use vstd::prelude::*;

use crate::style::{apply_sgr, apply_sgr_spec, push_style_chars, sgr_seq, style_chars, Color, Style};
use crate::unicode::{
    char_width, chars_to_string, display_width, lossy_utf8, str_to_chars, utf8_to_chars_lossy,
};

verus! {

/// One decoded character together with the style in effect when it was
/// emitted.
#[verifier::ext_equal]
#[derive(Debug, Copy, Clone, Eq, PartialEq, Structural)]
pub struct Char {
    pub c: char,
    pub style: Style,
}

/// An ordered sequence of styled characters.
#[derive(Debug, Clone, Eq, PartialEq, Default)]
pub struct Text {
    pub chars: Vec<Char>,
}

impl View for Text {
    type V = Seq<Char>;

    open spec fn view(&self) -> Seq<Char> {
        self.chars@
    }
}

/// One styled character.
pub open spec fn mk_char(c: char, style: Style) -> Char {
    Char { c, style }
}

/// `s` as styled text where every character carries `style`.
pub open spec fn plain_chars(s: Seq<char>, style: Style) -> Seq<Char> {
    Seq::new(s.len(), |i: int| mk_char(s[i], style))
}

/// The plain projection of styled text: its characters without styles.
pub open spec fn plain_of(t: Seq<Char>) -> Seq<char> {
    Seq::new(t.len(), |i: int| t[i].c)
}

impl Text {
    /// Styled text whose characters are those of `text`, all unstyled.
    pub fn new(text: &str) -> (r: Text)
        ensures
            r@ == plain_chars(text@, Style::empty()),
    {
        let cs = str_to_chars(text);
        let mut chars: Vec<Char> = Vec::new();
        let mut i: usize = 0;
        proof {
            assert(chars@ =~= plain_chars(text@.take(0), Style::empty()));
        }
        while i < cs.len()
            invariant
                i <= cs@.len(),
                cs@ == text@,
                chars@ == plain_chars(text@.take(i as int), Style::empty()),
            decreases cs@.len() - i,
        {
            chars.push(Char { c: cs[i], style: Style::new() });
            proof {
                assert(text@.take(i + 1) =~= text@.take(i as int).push(text@[i as int]));
                assert(plain_chars(text@.take(i + 1), Style::empty()) =~= plain_chars(
                    text@.take(i as int),
                    Style::empty(),
                ).push(mk_char(text@[i as int], Style::empty())));
            }
            i = i + 1;
        }
        proof {
            assert(text@.take(text@.len() as int) =~= text@);
        }
        Text { chars }
    }

    /// Overwrites the style of the characters with index in `start..end`;
    /// indices beyond the text are ignored.
    pub fn mark_text(&mut self, start: usize, end: usize, style: Style)
        ensures
            final(self)@.len() == old(self)@.len(),
            forall|k: int|
                0 <= k < old(self)@.len() ==> #[trigger] final(self)@[k] == (if start <= k < end {
                    Char { c: old(self)@[k].c, style }
                } else {
                    old(self)@[k]
                }),
    {
        let mut i = start;
        while i < end && i < self.chars.len()
            invariant
                start <= i,
                self@.len() == old(self)@.len(),
                forall|k: int|
                    0 <= k < old(self)@.len() ==> #[trigger] self@[k] == (if start <= k < i && k
                        < end {
                        Char { c: old(self)@[k].c, style }
                    } else {
                        old(self)@[k]
                    }),
            decreases self@.len() - i,
        {
            let c = self.chars[i].c;
            self.chars.set(i, Char { c, style });
            i = i + 1;
        }
    }

    /// Appends one styled character.
    pub fn add_char(&mut self, c: Char)
        ensures
            final(self)@ == old(self)@.push(c),
    {
        self.chars.push(c);
    }

    /// The characters without their styles, as a string.
    pub fn plain_text(&self) -> (r: String)
        ensures
            r@ == plain_of(self@),
    {
        let mut cs: Vec<char> = Vec::new();
        let mut i: usize = 0;
        proof {
            assert(cs@ =~= plain_of(self@.take(0)));
        }
        while i < self.chars.len()
            invariant
                i <= self@.len(),
                cs@ == plain_of(self@.take(i as int)),
            decreases self@.len() - i,
        {
            cs.push(self.chars[i].c);
            proof {
                assert(self@.take(i + 1) =~= self@.take(i as int).push(self@[i as int]));
                assert(plain_of(self@.take(i + 1)) =~= plain_of(self@.take(i as int)).push(
                    self@[i as int].c,
                ));
            }
            i = i + 1;
        }
        proof {
            assert(self@.take(self@.len() as int) =~= self@);
        }
        chars_to_string(&cs)
    }

    /// The number of characters.
    pub fn len(&self) -> (r: usize)
        ensures
            r == self@.len(),
    {
        self.chars.len()
    }
}


/// The decoder's mode between two characters: a minimal VT subset with the
/// ground state, an escape introducer, CSI parameter collection and OSC
/// skipping.
#[verifier::ext_equal]
pub enum DecMode {
    Ground,
    Escape,
    Csi { params: Seq<Seq<u16>>, cur: Seq<u16>, cur_val: u16, private: bool, inter: bool },
    Osc { last: char },
}

/// The whole decoder state between two characters: the mode, the style in
/// effect, and the styled characters emitted so far.
#[verifier::ext_equal]
pub struct DecState {
    pub mode: DecMode,
    pub style: Style,
    pub out: Seq<Char>,
}

/// The state a decoder with baseline `baseline` starts in.
pub open spec fn dec_init(baseline: Style) -> DecState {
    DecState { mode: DecMode::Ground, style: baseline, out: Seq::empty() }
}

/// A parameter value extended by one decimal digit, saturating.
pub open spec fn clamp_digit(v: u16, d: u16) -> u16 {
    if (v as int) * 10 + (d as int) > 65535 {
        65535
    } else {
        ((v as int) * 10 + (d as int)) as u16
    }
}


/// One step of the decoder on character `c`. Printable characters and the
/// preserved controls emit a styled character in the ground state; escape
/// sequences are collected and, for SGR, applied to the style; any character
/// that cannot continue a sequence returns the machine to the ground state.
pub open spec fn dec_step(st: DecState, baseline: Style, c: char) -> DecState {
    match st.mode {
        DecMode::Ground => {
            if c == '\x1b' {
                DecState { mode: DecMode::Escape, ..st }
            } else if c == '\n' || c == '\t' {
                DecState { out: st.out.push(mk_char(c, st.style)), ..st }
            } else if (c as u32) < 0x20 || (c as u32) == 0x7f {
                st
            } else {
                DecState { out: st.out.push(mk_char(c, st.style)), ..st }
            }
        },
        DecMode::Escape => {
            if c == '[' {
                DecState {
                    mode: DecMode::Csi {
                        params: Seq::empty(),
                        cur: Seq::empty(),
                        cur_val: 0,
                        private: false,
                        inter: false,
                    },
                    ..st
                }
            } else if c == ']' {
                DecState { mode: DecMode::Osc { last: ']' }, ..st }
            } else if c == '\x1b' {
                st
            } else {
                DecState { mode: DecMode::Ground, ..st }
            }
        },
        DecMode::Csi { params, cur, cur_val, private, inter } => {
            if 0x30 <= (c as u32) && (c as u32) <= 0x39 {
                DecState {
                    mode: DecMode::Csi {
                        params,
                        cur,
                        cur_val: clamp_digit(cur_val, ((c as u32) - 0x30) as u16),
                        private,
                        inter,
                    },
                    ..st
                }
            } else if c == ';' {
                DecState {
                    mode: DecMode::Csi {
                        params: params.push(cur.push(cur_val)),
                        cur: Seq::empty(),
                        cur_val: 0,
                        private,
                        inter,
                    },
                    ..st
                }
            } else if c == ':' {
                DecState {
                    mode: DecMode::Csi { params, cur: cur.push(cur_val), cur_val: 0, private, inter },
                    ..st
                }
            } else if 0x3c <= (c as u32) && (c as u32) <= 0x3f {
                DecState { mode: DecMode::Csi { params, cur, cur_val, private: true, inter }, ..st }
            } else if 0x20 <= (c as u32) && (c as u32) <= 0x2f {
                DecState { mode: DecMode::Csi { params, cur, cur_val, private, inter: true }, ..st }
            } else if 0x40 <= (c as u32) && (c as u32) <= 0x7e {
                let full = params.push(cur.push(cur_val));
                if c == 'm' && !private && !inter {
                    DecState {
                        mode: DecMode::Ground,
                        style: apply_sgr_spec(baseline, st.style, full),
                        out: st.out,
                    }
                } else {
                    DecState { mode: DecMode::Ground, ..st }
                }
            } else if c == '\x1b' {
                DecState { mode: DecMode::Escape, ..st }
            } else {
                DecState { mode: DecMode::Ground, ..st }
            }
        },
        DecMode::Osc { last } => {
            if c == '\x07' || (c == '\\' && last == '\x1b') {
                DecState { mode: DecMode::Ground, ..st }
            } else {
                DecState { mode: DecMode::Osc { last: c }, ..st }
            }
        },
    }
}

/// The decoder state after consuming all of `s`.
pub open spec fn dec_run(baseline: Style, s: Seq<char>) -> DecState
    decreases s.len(),
{
    if s.len() == 0 {
        dec_init(baseline)
    } else {
        dec_step(dec_run(baseline, s.drop_last()), baseline, s.last())
    }
}

/// The styled text that decoding `s` with baseline style `baseline` yields.
pub open spec fn decode_spec(baseline: Style, s: Seq<char>) -> Seq<Char> {
    dec_run(baseline, s).out
}

/// Executable decoder mode; its view is the spec mode.
enum Mode {
    Ground,
    Escape,
    Csi(CsiState),
    Osc(char),
}

/// CSI collection in progress: finished parameters, finished subparameters
/// of the current parameter, and the digits accumulated so far.
struct CsiState {
    params: Vec<Vec<u16>>,
    cur: Vec<u16>,
    cur_val: u16,
    private: bool,
    inter: bool,
}

impl View for Mode {
    type V = DecMode;

    closed spec fn view(&self) -> DecMode {
        match self {
            Mode::Ground => DecMode::Ground,
            Mode::Escape => DecMode::Escape,
            Mode::Csi(cs) => DecMode::Csi {
                params: cs.params.deep_view(),
                cur: cs.cur@,
                cur_val: cs.cur_val,
                private: cs.private,
                inter: cs.inter,
            },
            Mode::Osc(last) => DecMode::Osc { last: *last },
        }
    }
}

/// Decodes an already UTF-8-decoded character stream into styled text, as
/// [`decode_spec`] describes.
#[verifier::rlimit(100)]
pub fn decode_chars(baseline: Style, chars: &Vec<char>) -> (r: Text)
    ensures
        r@ == decode_spec(baseline, chars@),
{
    let mut out = Text { chars: Vec::new() };
    let mut style = baseline;
    let mut mode = Mode::Ground;
    let mut i: usize = 0;
    proof {
        assert(chars@.take(0) =~= Seq::<char>::empty());
    }
    while i < chars.len()
        invariant
            i <= chars@.len(),
            dec_run(baseline, chars@.take(i as int)) == (DecState {
                mode: mode@,
                style,
                out: out@,
            }),
        decreases chars@.len() - i,
    {
        let ghost pre = DecState { mode: mode@, style, out: out@ };
        let c = chars[i];
        proof {
            assert(chars@.take(i + 1).drop_last() =~= chars@.take(i as int));
            assert(chars@.take(i + 1).last() == chars@[i as int]);
        }
        let ghost post = dec_step(pre, baseline, c);
        mode = match mode {
            Mode::Ground => {
                if c == '\x1b' {
                    Mode::Escape
                } else if c == '\n' || c == '\t' {
                    out.add_char(Char { c, style });
                    Mode::Ground
                } else if (c as u32) < 0x20 || (c as u32) == 0x7f {
                    Mode::Ground
                } else {
                    out.add_char(Char { c, style });
                    Mode::Ground
                }
            },
            Mode::Escape => {
                if c == '[' {
                    Mode::Csi(
                        CsiState {
                            params: Vec::new(),
                            cur: Vec::new(),
                            cur_val: 0,
                            private: false,
                            inter: false,
                        },
                    )
                } else if c == ']' {
                    Mode::Osc(']')
                } else if c == '\x1b' {
                    Mode::Escape
                } else {
                    Mode::Ground
                }
            },
            Mode::Csi(mut cs) => {
                if 0x30 <= (c as u32) && (c as u32) <= 0x39 {
                    let d: u16 = ((c as u32) - 0x30) as u16;
                    let v: u32 = (cs.cur_val as u32) * 10 + (d as u32);
                    cs.cur_val = if v > 65535 {
                        65535
                    } else {
                        v as u16
                    };
                    Mode::Csi(cs)
                } else if c == ';' {
                    let ghost old_params = cs.params.deep_view();
                    let ghost old_cur = cs.cur@;
                    let ghost old_val = cs.cur_val;
                    cs.cur.push(cs.cur_val);
                    cs.params.push(cs.cur);
                    cs.cur = Vec::new();
                    cs.cur_val = 0;
                    proof {
                        assert(cs.params.deep_view() =~~= old_params.push(old_cur.push(old_val)));
                    }
                    Mode::Csi(cs)
                } else if c == ':' {
                    cs.cur.push(cs.cur_val);
                    cs.cur_val = 0;
                    Mode::Csi(cs)
                } else if 0x3c <= (c as u32) && (c as u32) <= 0x3f {
                    cs.private = true;
                    Mode::Csi(cs)
                } else if 0x20 <= (c as u32) && (c as u32) <= 0x2f {
                    cs.inter = true;
                    Mode::Csi(cs)
                } else if 0x40 <= (c as u32) && (c as u32) <= 0x7e {
                    let ghost old_params = cs.params.deep_view();
                    let ghost old_cur = cs.cur@;
                    let ghost old_val = cs.cur_val;
                    cs.cur.push(cs.cur_val);
                    cs.params.push(cs.cur);
                    let full = cs.params;
                    let ghost fullv = old_params.push(old_cur.push(old_val));
                    proof {
                        assert(full.deep_view() =~~= fullv);
                    }
                    if c == 'm' && !cs.private && !cs.inter {
                        style = apply_sgr(baseline, style, &full);
                    }
                    Mode::Ground
                } else if c == '\x1b' {
                    Mode::Escape
                } else {
                    Mode::Ground
                }
            },
            Mode::Osc(last) => {
                if c == '\x07' || (c == '\\' && last == '\x1b') {
                    Mode::Ground
                } else {
                    Mode::Osc(c)
                }
            },
        };
        proof {
            assert(mode@ =~~= post.mode);
            assert(out@ =~= post.out);
            assert(dec_run(baseline, chars@.take(i + 1)) == (DecState {
                mode: mode@,
                style,
                out: out@,
            }));
        }
        i = i + 1;
    }
    proof {
        assert(chars@.take(chars@.len() as int) =~= chars@);
    }
    out
}



/// Decodes raw bytes into styled text while carrying a baseline style: the
/// style every reset returns to and the state every conversion starts from.
pub struct Converter {
    pub original_style: Style,
    pub style: Style,
}

impl Converter {
    pub fn new(original_style: Style) -> (r: Converter)
        ensures
            r.original_style == original_style,
            r.style == original_style,
    {
        Converter { original_style, style: original_style }
    }

    /// Decodes `text` as UTF-8 with lossy replacement, then runs the escape
    /// state machine over the characters, starting from this converter's
    /// current style.
    pub fn convert(&mut self, text: &Vec<u8>) -> (r: Text)
        ensures
            r@ == decode_spec(old(self).style, lossy_utf8(text@)),
            *final(self) == *old(self),
    {
        let chars = utf8_to_chars_lossy(text.as_slice());
        decode_chars(self.style, &chars)
    }
}

/// A character's contribution to a rendered line width: its display width,
/// nothing for a control character.
pub open spec fn line_char_width(c: char) -> nat {
    match display_width(c) {
        Some(w) => w as nat,
        None => 0,
    }
}

fn exec_line_char_width(c: char) -> (r: usize)
    ensures
        r == line_char_width(c),
        r <= 255,
{
    match char_width(c) {
        Some(w) => w,
        None => 0,
    }
}

/// The display width of styled text: the sum of its characters' widths.
pub open spec fn text_width_of(s: Seq<Char>) -> nat
    decreases s.len(),
{
    if s.len() == 0 {
        0
    } else {
        text_width_of(s.drop_last()) + line_char_width(s.last().c)
    }
}

impl Text {
    /// The display width of this text, the sum of its characters' widths.
    pub fn width(&self) -> (r: usize)
        requires
            text_width_of(self@) <= usize::MAX,
        ensures
            r == text_width_of(self@),
    {
        let mut total: usize = 0;
        let mut i: usize = 0;
        while i < self.chars.len()
            invariant
                i <= self@.len(),
                total == text_width_of(self@.take(i as int)),
                text_width_of(self@) <= usize::MAX,
            decreases self@.len() - i,
        {
            proof {
                assert(self@.take(i + 1).drop_last() =~= self@.take(i as int));
                assert(self@.take(i + 1).last() == self@[i as int]);
                lemma_text_width_prefix(self@, i + 1);
            }
            let w = exec_line_char_width(self.chars[i].c);
            total = total + w;
            i = i + 1;
        }
        proof {
            assert(self@.take(self@.len() as int) =~= self@);
        }
        total
    }

    /// This text split at newlines: the newline characters themselves are
    /// dropped, and the possibly empty tail after the last newline is a line
    /// of its own.
    pub fn lines(&self) -> (r: Vec<Text>)
        ensures
            r@.len() == split_lines(self@).len(),
            forall|k: int| 0 <= k < r@.len() ==> #[trigger] r@[k]@ == split_lines(self@)[k],
    {
        let mut lines: Vec<Text> = Vec::new();
        let mut line = Text { chars: Vec::new() };
        let mut i: usize = 0;
        proof {
            assert(self@.take(0) =~= Seq::<Char>::empty());
        }
        while i < self.chars.len()
            invariant
                i <= self@.len(),
                lines@.len() + 1 == split_lines(self@.take(i as int)).len(),
                forall|k: int|
                    0 <= k < lines@.len() ==> #[trigger] lines@[k]@ == split_lines(
                        self@.take(i as int),
                    )[k],
                line@ == split_lines(self@.take(i as int)).last(),
            decreases self@.len() - i,
        {
            let ghost pre = split_lines(self@.take(i as int));
            proof {
                assert(self@.take(i + 1).drop_last() =~= self@.take(i as int));
                assert(self@.take(i + 1).last() == self@[i as int]);
            }
            let c = self.chars[i];
            if c.c == '\n' {
                lines.push(line);
                line = Text { chars: Vec::new() };
            } else {
                line.add_char(c);
                proof {
                    let post = split_lines(self@.take(i + 1));
                    assert(post =~= pre.update(pre.len() - 1, pre.last().push(self@[i as int])));
                }
            }
            i = i + 1;
        }
        lines.push(line);
        proof {
            assert(self@.take(self@.len() as int) =~= self@);
        }
        lines
    }

    /// Renders the text with SGR escape sequences: whenever the style
    /// changes, everything is reset and the new style's sequences are
    /// emitted before the character.
    #[verifier::rlimit(60)]
    pub fn render(&self) -> (r: String)
        ensures
            r@ == render_spec(self@, None),
    {
        let mut out: Vec<char> = Vec::new();
        let mut last: Option<Style> = None;
        let mut i: usize = 0;
        proof {
            assert(Seq::<char>::empty() + render_spec(self@, None) =~= render_spec(self@, None));
            assert(self@.skip(0) =~= self@);
        }
        while i < self.chars.len()
            invariant
                i <= self@.len(),
                render_spec(self@, None) == out@ + render_spec(self@.skip(i as int), last),
            decreases self@.len() - i,
        {
            let ghost prev_out = out@;
            let ghost last0 = last;
            let ghost remaining = self@.skip(i as int);
            proof {
                assert(remaining[0] == self@[i as int]);
                assert(remaining.skip(1) =~= self@.skip(i + 1));
            }
            let ch = self.chars[i];
            let changed = match last {
                None => true,
                Some(ls) => !styles_equal(ls, ch.style),
            };
            if changed {
                let ghost reset_piece = if last0 is Some {
                    sgr_seq(seq!['0'])
                } else {
                    Seq::<char>::empty()
                };
                if last.is_some() {
                    out.push('\x1b');
                    out.push('[');
                    out.push('0');
                    out.push('m');
                }
                proof {
                    assert(out@ =~= prev_out + reset_piece);
                }
                push_style_chars(&mut out, ch.style);
                out.push(ch.c);
                last = Some(ch.style);
                proof {
                    let piece = reset_piece + style_chars(ch.style) + seq![ch.c];
                    assert(out@ =~= prev_out + piece);
                    assert(render_spec(remaining, last0) == piece + render_spec(
                        remaining.skip(1),
                        Some(ch.style),
                    )) by {
                        assert(reset_piece + style_chars(ch.style) + seq![ch.c] + render_spec(
                            remaining.skip(1),
                            Some(ch.style),
                        ) =~= piece + render_spec(remaining.skip(1), Some(ch.style)));
                    }
                    vstd::seq_lib::lemma_concat_associative(
                        prev_out,
                        piece,
                        render_spec(self@.skip(i + 1), last),
                    );
                    assert(render_spec(self@, None) == out@ + render_spec(
                        self@.skip(i + 1),
                        last,
                    ));
                }
            } else {
                out.push(ch.c);
                proof {
                    let piece = seq![ch.c];
                    assert(out@ =~= prev_out + piece);
                    vstd::seq_lib::lemma_concat_associative(
                        prev_out,
                        piece,
                        render_spec(self@.skip(i + 1), last),
                    );
                    assert(render_spec(self@, None) == out@ + render_spec(
                        self@.skip(i + 1),
                        last,
                    ));
                }
            }
            i = i + 1;
        }
        proof {
            assert(self@.skip(self@.len() as int) =~= Seq::<Char>::empty());
            assert(out@ + render_spec(Seq::<Char>::empty(), last) =~= out@);
        }
        chars_to_string(&out)
    }
}

/// Whether two styles are the same.
pub fn styles_equal(a: Style, b: Style) -> (r: bool)
    ensures
        r == (a == b),
{
    let fg_eq = match (a.fg, b.fg) {
        (None, None) => true,
        (Some(x), Some(y)) => colors_equal(x, y),
        _ => false,
    };
    let bg_eq = match (a.bg, b.bg) {
        (None, None) => true,
        (Some(x), Some(y)) => colors_equal(x, y),
        _ => false,
    };
    fg_eq && bg_eq && a.bold == b.bold && a.dimmed == b.dimmed && a.italic == b.italic
        && a.underline == b.underline && a.blink == b.blink && a.hidden == b.hidden
        && a.strikethrough == b.strikethrough && a.reversed == b.reversed
}

/// Whether two colors are the same.
pub fn colors_equal(a: Color, b: Color) -> (r: bool)
    ensures
        r == (a == b),
{
    match (a, b) {
        (Color::Ansi(x), Color::Ansi(y)) => x == y,
        (Color::Ansi256(x), Color::Ansi256(y)) => x == y,
        (Color::Rgb(r1, g1, b1), Color::Rgb(r2, g2, b2)) => r1 == r2 && g1 == g2 && b1 == b2,
        _ => false,
    }
}

/// The rendered form of styled text, given the style last emitted.
pub open spec fn render_spec(s: Seq<Char>, last: Option<Style>) -> Seq<char>
    decreases s.len(),
{
    if s.len() == 0 {
        Seq::empty()
    } else {
        let ch = s[0];
        if last != Some(ch.style) {
            (if last is Some {
                sgr_seq(seq!['0'])
            } else {
                Seq::empty()
            }) + style_chars(ch.style) + seq![ch.c] + render_spec(s.skip(1), Some(ch.style))
        } else {
            seq![ch.c] + render_spec(s.skip(1), last)
        }
    }
}

/// Styled text split at newlines; there is always one line more than there
/// are newline characters.
pub open spec fn split_lines(s: Seq<Char>) -> Seq<Seq<Char>>
    decreases s.len(),
{
    if s.len() == 0 {
        seq![Seq::<Char>::empty()]
    } else {
        let r = split_lines(s.drop_last());
        let c = s.last();
        if c.c == '\n' {
            r.push(Seq::empty())
        } else {
            r.update(r.len() - 1, r.last().push(c))
        }
    }
}

proof fn lemma_text_width_prefix(s: Seq<Char>, i: int)
    requires
        0 < i <= s.len(),
    ensures
        text_width_of(s.take(i)) == text_width_of(s.take(i - 1)) + line_char_width(
            s[i - 1].c,
        ),
        text_width_of(s.take(i)) <= text_width_of(s),
    decreases s.len() - i,
{
    assert(s.take(i).drop_last() =~= s.take(i - 1));
    assert(s.take(i).last() == s[i - 1]);
    if i < s.len() {
        lemma_text_width_prefix(s, i + 1);
    } else {
        assert(s.take(i) =~= s);
    }
}



/// The folded form of styled text, given the display width, the current
/// column, and the style of the last character placed: a break is inserted
/// when the column has reached the width, and again when the next character
/// would overrun it; inserted breaks carry the previous character's style,
/// and literal newlines reset the column.
pub open spec fn fold_from(s: Seq<Char>, width: nat, cur: nat, prev: Style) -> Seq<Char>
    decreases s.len(),
{
    if s.len() == 0 {
        Seq::empty()
    } else {
        let ch = s[0];
        if ch.c == '\n' {
            seq![ch] + fold_from(s.skip(1), width, 0, ch.style)
        } else {
            let w = line_char_width(ch.c);
            let brk1 = cur == width;
            let cur1: nat = if brk1 {
                0
            } else {
                cur
            };
            let brk2 = cur1 + w > width;
            let cur2: nat = if brk2 {
                0
            } else {
                cur1
            };
            (if brk1 {
                seq![mk_char('\n', prev)]
            } else {
                Seq::empty()
            }) + (if brk2 {
                seq![mk_char('\n', prev)]
            } else {
                Seq::empty()
            }) + seq![ch] + fold_from(s.skip(1), width, cur2 + w, ch.style)
        }
    }
}

/// [`fold_from`] on a whole text, starting at column zero with no style.
pub open spec fn fold_spec(s: Seq<Char>, width: nat) -> Seq<Char> {
    fold_from(s, width, 0, Style::empty())
}

/// Folds styled text to a display width, as [`fold_spec`] describes.
#[verifier::rlimit(60)]
pub fn fold_text(str: &Text, width: usize) -> (r: Text)
    requires
        width <= usize::MAX - 255,
    ensures
        r@ == fold_spec(str@, width as nat),
{
    let mut out = Text { chars: Vec::new() };
    let mut cur: usize = 0;
    let mut prev = Style::new();
    let mut i: usize = 0;
    proof {
        assert(str@.skip(0) =~= str@);
        assert(Seq::<Char>::empty() + fold_spec(str@, width as nat) =~= fold_spec(
            str@,
            width as nat,
        ));
    }
    while i < str.chars.len()
        invariant
            i <= str@.len(),
            width <= usize::MAX - 255,
            cur <= width || cur <= 255,
            fold_spec(str@, width as nat) == out@ + fold_from(
                str@.skip(i as int),
                width as nat,
                cur as nat,
                prev,
            ),
        decreases str@.len() - i,
    {
        let ghost prev_out = out@;
        let ghost remaining = str@.skip(i as int);
        let ghost cur0 = cur as nat;
        let ghost prev0 = prev;
        proof {
            assert(remaining[0] == str@[i as int]);
            assert(remaining.skip(1) =~= str@.skip(i + 1));
        }
        let ch = str.chars[i];
        if ch.c == '\n' {
            out.add_char(ch);
            cur = 0;
            prev = ch.style;
            proof {
                let piece = seq![str@[i as int]];
                assert(out@ =~= prev_out + piece);
                vstd::seq_lib::lemma_concat_associative(
                    prev_out,
                    piece,
                    fold_from(str@.skip(i + 1), width as nat, 0, prev),
                );
            }
        } else {
            let w = exec_line_char_width(ch.c);
            let ghost brk1 = cur0 == width as nat;
            if cur == width {
                out.add_char(Char { c: '\n', style: prev });
                cur = 0;
            }
            let ghost brk2 = (if brk1 { 0 } else { cur0 }) + w as nat > width as nat;
            if cur + w > width {
                out.add_char(Char { c: '\n', style: prev });
                cur = 0;
            }
            out.add_char(ch);
            prev = ch.style;
            cur = cur + w;
            proof {
                let p1 = if brk1 {
                    seq![mk_char('\n', prev0)]
                } else {
                    Seq::<Char>::empty()
                };
                let p2 = if brk2 {
                    seq![mk_char('\n', prev0)]
                } else {
                    Seq::<Char>::empty()
                };
                let piece = p1 + p2 + seq![str@[i as int]];
                assert(out@ =~= prev_out + piece);
                assert(fold_from(remaining, width as nat, cur0, prev0) == piece + fold_from(
                    remaining.skip(1),
                    width as nat,
                    cur as nat,
                    prev,
                )) by {
                    assert(p1 + p2 + seq![str@[i as int]] + fold_from(
                        remaining.skip(1),
                        width as nat,
                        cur as nat,
                        prev,
                    ) =~= piece + fold_from(remaining.skip(1), width as nat, cur as nat, prev));
                }
                vstd::seq_lib::lemma_concat_associative(
                    prev_out,
                    piece,
                    fold_from(str@.skip(i + 1), width as nat, cur as nat, prev),
                );
            }
        }
        i = i + 1;
    }
    proof {
        assert(str@.skip(str@.len() as int) =~= Seq::<Char>::empty());
        assert(out@ + fold_from(Seq::<Char>::empty(), width as nat, cur as nat, prev) =~= out@);
    }
    out
}

/// Strips recognized ANSI escape sequences and dropped control characters
/// from a string: what remains is the plain projection of decoding it.
pub fn remove_ansi(text: &str) -> (r: String)
    ensures
        r@ == plain_of(decode_spec(Style::empty(), text@)),
{
    let cs = str_to_chars(text);
    let decoded = decode_chars(Style::new(), &cs);
    decoded.plain_text()
}

/// The widest display width among the lines of `ls`.
pub open spec fn max_line_width(ls: Seq<Seq<Char>>) -> nat
    decreases ls.len(),
{
    if ls.len() == 0 {
        0
    } else {
        let rest = max_line_width(ls.drop_last());
        let last = text_width_of(ls.last());
        if last > rest {
            last
        } else {
            rest
        }
    }
}

pub proof fn lemma_max_line_width_bound(ls: Seq<Seq<Char>>, k: int)
    requires
        0 <= k < ls.len(),
    ensures
        text_width_of(ls[k]) <= max_line_width(ls),
    decreases ls.len(),
{
    if k + 1 < ls.len() {
        assert(ls.drop_last()[k] == ls[k]);
        lemma_max_line_width_bound(ls.drop_last(), k);
    }
}

/// The widest line of a text, measured in display columns.
pub fn text_width(text: &Text) -> (r: usize)
    requires
        max_line_width(split_lines(text@)) <= usize::MAX,
    ensures
        r == max_line_width(split_lines(text@)),
{
    let lines = text.lines();
    let mut best: usize = 0;
    let mut i: usize = 0;
    let ghost ls = split_lines(text@);
    proof {
        assert(max_line_width(ls.take(0)) == 0) by {
            assert(ls.take(0) =~= Seq::<Seq<Char>>::empty());
        }
    }
    while i < lines.len()
        invariant
            i <= lines@.len(),
            ls == split_lines(text@),
            lines@.len() == ls.len(),
            forall|k: int| 0 <= k < ls.len() ==> #[trigger] lines@[k]@ == ls[k],
            max_line_width(ls) <= usize::MAX,
            best == max_line_width(ls.take(i as int)),
        decreases lines@.len() - i,
    {
        proof {
            assert(ls.take(i + 1).drop_last() =~= ls.take(i as int));
            assert(ls.take(i + 1).last() == ls[i as int]);
            lemma_max_line_width_bound(ls, i as int);
            lemma_max_take_bound(ls, i + 1);
        }
        let w = lines[i].width();
        if w > best {
            best = w;
        }
        i = i + 1;
    }
    proof {
        assert(ls.take(ls.len() as int) =~= ls);
    }
    best
}

proof fn lemma_max_take_bound(ls: Seq<Seq<Char>>, i: int)
    requires
        0 < i <= ls.len(),
    ensures
        max_line_width(ls.take(i)) <= max_line_width(ls),
    decreases ls.len() - i,
{
    if i < ls.len() {
        lemma_max_take_bound(ls, i + 1);
        assert(ls.take(i + 1).drop_last() =~= ls.take(i));
        assert(ls.take(i + 1).last() == ls[i]);
    } else {
        assert(ls.take(i) =~= ls);
    }
}

/// The number of lines of a text: one more than its newline count.
pub fn text_height(text: &Text) -> (r: usize)
    ensures
        r == split_lines(text@).len(),
{
    let lines = text.lines();
    lines.len()
}

/// A character the decoder passes through in its ground state: printable,
/// or a preserved newline or tab.
pub open spec fn is_plain_char(c: char) -> bool {
    (0x20 <= (c as u32) && (c as u32) != 0x7f) || c == '\n' || c == '\t'
}

proof fn lemma_dec_run_plain(baseline: Style, s: Seq<char>)
    requires
        forall|k: int| 0 <= k < s.len() ==> is_plain_char(#[trigger] s[k]),
    ensures
        dec_run(baseline, s).mode is Ground,
        dec_run(baseline, s).style == baseline,
        dec_run(baseline, s).out == plain_chars(s, baseline),
    decreases s.len(),
{
    if s.len() == 0 {
        assert(plain_chars(s, baseline) =~= Seq::<Char>::empty());
    } else {
        let prefix = s.drop_last();
        assert(forall|k: int| 0 <= k < prefix.len() ==> is_plain_char(#[trigger] prefix[k]))
            by {
            assert(forall|k: int| 0 <= k < prefix.len() ==> prefix[k] == #[trigger] s[k]);
        }
        lemma_dec_run_plain(baseline, prefix);
        let c = s.last();
        assert(is_plain_char(c));
        assert(c != '\x1b');
        assert(plain_chars(s, baseline) =~= plain_chars(prefix, baseline).push(
            mk_char(c, baseline),
        ));
    }
}

proof fn lemma_dec_run_push(baseline: Style, s: Seq<char>, c: char)
    ensures
        dec_run(baseline, s.push(c)) == dec_step(dec_run(baseline, s), baseline, c),
{
    assert(s.push(c).drop_last() =~= s);
    assert(s.push(c).last() == c);
}

/// Law: a full SGR reset returns the style exactly to the baseline the
/// decoder was constructed with and emits no character: from any ground
/// state, consuming `ESC [ 0 m` leaves the decoded output unchanged and the
/// style at the baseline, so every character emitted after the reset and
/// before another SGR directive carries exactly the baseline style.
pub proof fn lemma_sgr_reset_returns_to_baseline(baseline: Style, s: Seq<char>)
    requires
        dec_run(baseline, s).mode is Ground,
    ensures
        dec_run(baseline, s + seq!['\x1b', '[', '0', 'm']).mode is Ground,
        dec_run(baseline, s + seq!['\x1b', '[', '0', 'm']).style == baseline,
        dec_run(baseline, s + seq!['\x1b', '[', '0', 'm']).out == dec_run(baseline, s).out,
{
    let s1 = s.push('\x1b');
    let s2 = s1.push('[');
    let s3 = s2.push('0');
    let s4 = s3.push('m');
    lemma_dec_run_push(baseline, s, '\x1b');
    lemma_dec_run_push(baseline, s1, '[');
    lemma_dec_run_push(baseline, s2, '0');
    lemma_dec_run_push(baseline, s3, 'm');
    let st3 = dec_run(baseline, s3);
    assert(st3.mode matches DecMode::Csi { params, cur, cur_val, private, inter } && params
        == Seq::<Seq<u16>>::empty() && cur == Seq::<u16>::empty() && cur_val == 0 && !private
        && !inter) by {
        assert(clamp_digit(0, ('0' as u32 - 0x30) as u16) == 0);
    }
    let full = Seq::<Seq<u16>>::empty().push(Seq::<u16>::empty().push(0u16));
    assert(dec_run(baseline, s4).style == crate::style::apply_sgr_spec(
        baseline,
        st3.style,
        full,
    ));
    assert(crate::style::param_selector(full[0]) == 0);
    assert(crate::style::apply_sgr_spec(baseline, st3.style, full) == baseline) by {
        assert(crate::style::sgr_from(full, 1, baseline, baseline) == baseline);
    }
    assert(s4 =~= s + seq!['\x1b', '[', '0', 'm']);
}

/// Law: decoding a character stream with no escape codes and no dropped
/// control characters yields exactly one styled character per input
/// character, every one carrying the baseline style.
pub proof fn lemma_decode_plain(baseline: Style, s: Seq<char>)
    requires
        forall|k: int| 0 <= k < s.len() ==> is_plain_char(#[trigger] s[k]),
    ensures
        decode_spec(baseline, s) == plain_chars(s, baseline),
{
    lemma_dec_run_plain(baseline, s);
}


} // verus!

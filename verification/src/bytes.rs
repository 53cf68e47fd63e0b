//! Elastic tab expansion over raw command output. Every tab becomes one to
//! four spaces so that the column after the expansion is the next multiple of
//! [`TAB_SIZE`]; the column count is kept per line and ANSI escape sequences
//! are copied through verbatim without affecting it.

use vstd::arithmetic::div_mod::{lemma_add_mod_noop, lemma_fundamental_div_mod};
use vstd::prelude::*;
use vstd::slice::slice_subrange;
use vstd::utf8::encode_utf8;

use crate::unicode::{
    char_col_width, chars_to_utf8, col_width, lossy_utf8, utf8_to_chars_lossy,
};

verus! {

/// Tab stops sit every four columns.
pub const TAB_SIZE: usize = 4;

/// A byte that may end a CSI escape sequence.
pub open spec fn is_csi_final(c: char) -> bool {
    0x40 <= (c as u32) && (c as u32) <= 0x7e
}

/// How many characters of `s` belong to a CSI sequence already introduced by
/// `ESC [`: everything up to and including the first final byte, or all of
/// `s` when the sequence is cut short.
pub open spec fn csi_len(s: Seq<char>) -> nat
    decreases s.len(),
{
    if s.len() == 0 {
        0
    } else if is_csi_final(s[0]) {
        1
    } else {
        1 + csi_len(s.skip(1))
    }
}

/// How many characters of `s` belong to an OSC sequence already introduced by
/// `ESC ]`: everything up to and including a BEL, or a backslash whose
/// predecessor (`last` before `s`) is ESC, or all of `s` when cut short.
pub open spec fn osc_len(s: Seq<char>, last: char) -> nat
    decreases s.len(),
{
    if s.len() == 0 {
        0
    } else if s[0] == '\x07' || (s[0] == '\\' && last == '\x1b') {
        1
    } else {
        1 + osc_len(s.skip(1), s[0])
    }
}

/// How many characters after an ESC belong to the escape sequence it opens:
/// one for the introducer, plus the CSI or OSC body where one follows.
pub open spec fn esc_skip_len(s: Seq<char>) -> nat {
    if s.len() == 0 {
        0
    } else if s[0] == '[' {
        1 + csi_len(s.skip(1))
    } else if s[0] == ']' {
        1 + osc_len(s.skip(1), ']')
    } else {
        1
    }
}

pub proof fn lemma_csi_len_bound(s: Seq<char>)
    ensures
        csi_len(s) <= s.len(),
    decreases s.len(),
{
    if s.len() > 0 && !is_csi_final(s[0]) {
        lemma_csi_len_bound(s.skip(1));
    }
}

pub proof fn lemma_osc_len_bound(s: Seq<char>, last: char)
    ensures
        osc_len(s, last) <= s.len(),
    decreases s.len(),
{
    if s.len() > 0 && !(s[0] == '\x07' || (s[0] == '\\' && last == '\x1b')) {
        lemma_osc_len_bound(s.skip(1), s[0]);
    }
}

pub proof fn lemma_esc_skip_len_bound(s: Seq<char>)
    ensures
        esc_skip_len(s) <= s.len(),
{
    if s.len() > 0 {
        if s[0] == '[' {
            lemma_csi_len_bound(s.skip(1));
        } else if s[0] == ']' {
            lemma_osc_len_bound(s.skip(1), ']');
        }
    }
}

/// The number of spaces a tab starting at column `col` expands to.
pub open spec fn tab_expansion_width(col: nat) -> nat {
    (TAB_SIZE - col % (TAB_SIZE as nat)) as nat
}

/// `n` spaces.
pub open spec fn seq_spaces(n: nat) -> Seq<char> {
    Seq::new(n, |i: int| ' ')
}

/// The normalized form of `s` when the current line already occupies `col`
/// columns: escape sequences are copied verbatim, tabs become space runs up
/// to the next tab stop, newlines reset the column, and every other
/// character advances the column by its display width.
pub open spec fn norm_from(s: Seq<char>, col: nat) -> Seq<char>
    decreases s.len(),
{
    if s.len() == 0 {
        Seq::empty()
    } else if s[0] == '\x1b' {
        let k0 = 1 + esc_skip_len(s.skip(1));
        let k = if k0 <= s.len() {
            k0
        } else {
            s.len()
        };
        s.take(k as int) + norm_from(s.skip(k as int), col)
    } else if s[0] == '\t' {
        let w = tab_expansion_width(col);
        seq_spaces(w) + norm_from(s.skip(1), col + w)
    } else if s[0] == '\n' {
        seq!['\n'] + norm_from(s.skip(1), 0)
    } else {
        seq![s[0]] + norm_from(s.skip(1), col + col_width(s[0]))
    }
}

/// The normalized form of a whole character stream, starting at column zero.
pub open spec fn normalize_spec(s: Seq<char>) -> Seq<char> {
    norm_from(s, 0)
}

/// Law: a tab at column `col` expands to between one and [`TAB_SIZE`] spaces,
/// exactly `tab_expansion_width(col)` of them, and the column right after the
/// expansion is a multiple of [`TAB_SIZE`].
pub proof fn lemma_tab_expansion_aligns(col: nat)
    ensures
        1 <= tab_expansion_width(col) <= TAB_SIZE,
        (col + tab_expansion_width(col)) % (TAB_SIZE as nat) == 0,
{
    lemma_fundamental_div_mod(col as int, TAB_SIZE as int);
}

/// How many characters `ch` and its following characters contribute to an
/// ANSI escape sequence: zero when `ch` is not ESC, else the length of the
/// sequence body found at the start of `rest`.
///
/// The result never exceeds `rest`'s length, so the caller can copy that many
/// characters through verbatim.
pub fn skip_ansi_escape_sequence(ch: char, rest: &[char]) -> (count: usize)
    ensures
        ch == '\x1b' ==> count == esc_skip_len(rest@),
        ch != '\x1b' ==> count == 0,
        count <= rest@.len(),
{
    if ch != '\x1b' {
        return 0;
    }
    if rest.len() == 0 {
        return 0;
    }
    let first = rest[0];
    if first == '[' {
        let mut i: usize = 1;
        loop
            invariant
                ch == '\x1b',
                1 <= i <= rest@.len(),
                rest@[0] == '[',
                esc_skip_len(rest@) == i + csi_len(rest@.skip(i as int)),
            decreases rest@.len() - i,
        {
            if i == rest.len() {
                return i;
            }
            let c = rest[i];
            proof {
                assert(rest@.skip(i as int).skip(1) =~= rest@.skip(i + 1));
                assert(rest@.skip(i as int)[0] == rest@[i as int]);
            }
            i = i + 1;
            if 0x40 <= c as u32 && c as u32 <= 0x7e {
                return i;
            }
        }
    } else if first == ']' {
        let mut i: usize = 1;
        let mut last = ']';
        loop
            invariant
                ch == '\x1b',
                1 <= i <= rest@.len(),
                rest@[0] == ']',
                last == rest@[i - 1],
                esc_skip_len(rest@) == i + osc_len(rest@.skip(i as int), last),
            decreases rest@.len() - i,
        {
            if i == rest.len() {
                return i;
            }
            let c = rest[i];
            proof {
                assert(rest@.skip(i as int).skip(1) =~= rest@.skip(i + 1));
                assert(rest@.skip(i as int)[0] == rest@[i as int]);
            }
            i = i + 1;
            if c == '\x07' || (c == '\\' && last == '\x1b') {
                return i;
            }
            last = c;
        }
    } else {
        1
    }
}

/// Expands tabs elastically in a character stream.
pub fn normalize_chars(chars: &Vec<char>) -> (r: Vec<char>)
    ensures
        r@ == normalize_spec(chars@),
{
    let mut out: Vec<char> = Vec::new();
    let mut i: usize = 0;
    let mut col_mod: usize = 0;
    let ghost mut col: nat = 0nat;
    proof {
        assert(chars@.skip(0) =~= chars@);
        assert(Seq::<char>::empty() + norm_from(chars@, 0nat) =~= norm_from(chars@, 0nat));
    }
    while i < chars.len()
        invariant
            i <= chars@.len(),
            col_mod == col % (TAB_SIZE as nat),
            col_mod < TAB_SIZE,
            normalize_spec(chars@) == out@ + norm_from(chars@.skip(i as int), col),
        decreases chars@.len() - i,
    {
        let ghost remaining = chars@.skip(i as int);
        let ghost prev_out = out@;
        proof {
            assert(remaining[0] == chars@[i as int]);
        }
        let c = chars[i];
        if c == '\x1b' {
            let rest = slice_subrange(chars.as_slice(), i + 1, chars.len());
            proof {
                assert(rest@ =~= remaining.skip(1));
                lemma_esc_skip_len_bound(rest@);
            }
            let count = skip_ansi_escape_sequence(c, rest);
            let end = i + 1 + count;
            let ghost k: int = 1 + count;
            proof {
                assert(norm_from(remaining, col) == remaining.take(k) + norm_from(
                    remaining.skip(k),
                    col,
                ));
                assert(remaining.take(k) =~= chars@.subrange(i as int, end as int));
                assert(remaining.skip(k) =~= chars@.skip(end as int));
            }
            let mut j: usize = i;
            while j < end
                invariant
                    i <= j <= end,
                    end <= chars@.len(),
                    out@ == prev_out + chars@.subrange(i as int, j as int),
                decreases end - j,
            {
                out.push(chars[j]);
                proof {
                    assert(prev_out + chars@.subrange(i as int, j + 1) =~= (prev_out
                        + chars@.subrange(i as int, j as int)).push(chars@[j as int]));
                }
                j = j + 1;
            }
            proof {
                assert(out@ + norm_from(chars@.skip(end as int), col) =~= prev_out + norm_from(
                    remaining,
                    col,
                ));
            }
            i = end;
        } else if c == '\t' {
            let w = TAB_SIZE - col_mod;
            proof {
                assert(w as nat == tab_expansion_width(col));
                assert(norm_from(remaining, col) == seq_spaces(w as nat) + norm_from(
                    remaining.skip(1),
                    col + w as nat,
                ));
            }
            let mut k: usize = 0;
            while k < w
                invariant
                    k <= w,
                    out@ == prev_out + seq_spaces(k as nat),
                decreases w - k,
            {
                out.push(' ');
                proof {
                    assert(prev_out + seq_spaces((k + 1) as nat) =~= (prev_out + seq_spaces(
                        k as nat,
                    )).push(' '));
                }
                k = k + 1;
            }
            proof {
                lemma_tab_expansion_aligns(col);
                col = col + w as nat;
                assert(col % (TAB_SIZE as nat) == 0);
                assert(remaining.skip(1) =~= chars@.skip(i + 1));
                assert(out@ + norm_from(chars@.skip(i + 1), col) =~= prev_out + norm_from(
                    remaining,
                    (col - w as nat) as nat,
                ));
            }
            col_mod = 0;
            i = i + 1;
        } else if c == '\n' {
            out.push('\n');
            col_mod = 0;
            proof {
                col = 0nat;
                assert(remaining.skip(1) =~= chars@.skip(i + 1));
                assert(out@ + norm_from(chars@.skip(i + 1), 0nat) =~= prev_out + norm_from(
                    remaining,
                    col,
                )) by {
                    assert(norm_from(remaining, col) == seq!['\n'] + norm_from(
                        remaining.skip(1),
                        0nat,
                    ));
                    assert(out@ =~= prev_out + seq!['\n']);
                }
            }
            i = i + 1;
        } else {
            out.push(c);
            let w = char_col_width(c);
            proof {
                lemma_add_mod_noop(col as int, w as int, TAB_SIZE as int);
                assert((col + w as nat) % (TAB_SIZE as nat) == ((col_mod as int) + (w as int)) % (
                TAB_SIZE as int)) by (nonlinear_arith)
                    requires
                        col_mod == col % (TAB_SIZE as nat),
                        TAB_SIZE == 4,
                ;
                assert(norm_from(remaining, col) == seq![c] + norm_from(
                    remaining.skip(1),
                    col + col_width(c),
                ));
                col = col + w as nat;
                assert(remaining.skip(1) =~= chars@.skip(i + 1));
                assert(out@ + norm_from(chars@.skip(i + 1), col) =~= prev_out + norm_from(
                    remaining,
                    (col - w as nat) as nat,
                ));
            }
            col_mod = (col_mod + w) % TAB_SIZE;
            i = i + 1;
        }
    }
    proof {
        assert(chars@.skip(chars@.len() as int) =~= Seq::<char>::empty());
        assert(out@ + norm_from(Seq::<char>::empty(), col) =~= out@);
    }
    out
}

/// Expands tabs elastically in raw output bytes, decoding them as UTF-8 with
/// lossy replacement first and re-encoding the result.
pub fn normalize_stdout(s: &[u8]) -> (r: Vec<u8>)
    ensures
        r@ == encode_utf8(normalize_spec(lossy_utf8(s@))),
{
    let chars = utf8_to_chars_lossy(s);
    let normalized = normalize_chars(&chars);
    chars_to_utf8(&normalized)
}

} // verus!

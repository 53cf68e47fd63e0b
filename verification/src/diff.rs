//! Character-level difference marking between two outputs. The edit script
//! itself comes from an outside library; everything that walks it — counting
//! added and deleted characters and highlighting them in a styled text — is
//! verified against the script's restore properties.

use vstd::prelude::*;

use crate::style::{AnsiColor, Color, Style};
use crate::termtext::{mk_char, plain_of, Char, Text};
use crate::unicode::{char_is_whitespace, is_white, str_to_chars};

verus! {

/// One chunk of a character-level edit script taking an old text to a new
/// one.
#[derive(Debug, Clone, PartialEq, Eq)]
pub enum DiffChunk {
    Equal(String),
    Delete(String),
    Insert(String),
}

/// The characters a chunk carries.
pub open spec fn chunk_text(c: DiffChunk) -> Seq<char> {
    match c {
        DiffChunk::Equal(s) => s@,
        DiffChunk::Delete(s) => s@,
        DiffChunk::Insert(s) => s@,
    }
}

/// Whether a chunk contributes to the side selected by `ins`: the new text
/// when `ins` holds, the old text otherwise. Equal chunks belong to both.
pub open spec fn contributes(c: DiffChunk, ins: bool) -> bool {
    match c {
        DiffChunk::Equal(_) => true,
        DiffChunk::Insert(_) => ins,
        DiffChunk::Delete(_) => !ins,
    }
}

/// The text one side of an edit script restores: the new text for `ins`,
/// the old text otherwise.
pub open spec fn side_of(cs: Seq<DiffChunk>, ins: bool) -> Seq<char>
    decreases cs.len(),
{
    if cs.len() == 0 {
        Seq::empty()
    } else {
        (if contributes(cs[0], ins) {
            chunk_text(cs[0])
        } else {
            Seq::empty()
        }) + side_of(cs.skip(1), ins)
    }
}

/// The old text an edit script restores.
pub open spec fn left_of(cs: Seq<DiffChunk>) -> Seq<char> {
    side_of(cs, false)
}

/// The new text an edit script restores.
pub open spec fn right_of(cs: Seq<DiffChunk>) -> Seq<char> {
    side_of(cs, true)
}

/// The number of characters an edit script inserts.
pub open spec fn added_of(cs: Seq<DiffChunk>) -> nat
    decreases cs.len(),
{
    if cs.len() == 0 {
        0
    } else {
        (match cs[0] {
            DiffChunk::Insert(s) => s@.len(),
            _ => 0,
        }) + added_of(cs.skip(1))
    }
}

/// The number of characters an edit script deletes.
pub open spec fn deleted_of(cs: Seq<DiffChunk>) -> nat
    decreases cs.len(),
{
    if cs.len() == 0 {
        0
    } else {
        (match cs[0] {
            DiffChunk::Delete(s) => s@.len(),
            _ => 0,
        }) + deleted_of(cs.skip(1))
    }
}

/// The edit script the outside difference algorithm computes for the two
/// texts; it depends on the texts alone.
pub uninterp spec fn diff_script(old: Seq<char>, new: Seq<char>) -> Seq<DiffChunk>;

/// How many characters the difference between `old` and `new` inserts.
pub open spec fn diff_added(old: Seq<char>, new: Seq<char>) -> nat {
    added_of(diff_script(old, new))
}

/// How many characters the difference between `old` and `new` deletes.
pub open spec fn diff_deleted(old: Seq<char>, new: Seq<char>) -> nat {
    deleted_of(diff_script(old, new))
}

/// Relies on `dissimilar::diff`: the returned edit script's Equal and Delete
/// chunks concatenate to the old text, its Equal and Insert chunks
/// concatenate to the new text, and equal inputs yield Equal chunks only.
/// The result depends on the two texts alone.
#[verifier::external_body]
fn diff_chunks(old_text: &str, new_text: &str) -> (r: Vec<DiffChunk>)
    ensures
        r@ == diff_script(old_text@, new_text@),
        left_of(r@) == old_text@,
        right_of(r@) == new_text@,
        old_text@ == new_text@ ==> forall|k: int| 0 <= k < r@.len() ==> r@[k] is Equal,
{
    dissimilar::diff(old_text, new_text)
        .into_iter()
        .map(|c| match c {
            dissimilar::Chunk::Equal(s) => DiffChunk::Equal(s.to_string()),
            dissimilar::Chunk::Delete(s) => DiffChunk::Delete(s.to_string()),
            dissimilar::Chunk::Insert(s) => DiffChunk::Insert(s.to_string()),
        })
        .collect()
}

proof fn lemma_added_le_right(cs: Seq<DiffChunk>)
    ensures
        added_of(cs) <= right_of(cs).len(),
        deleted_of(cs) <= left_of(cs).len(),
    decreases cs.len(),
{
    if cs.len() > 0 {
        lemma_added_le_right(cs.skip(1));
    }
}

proof fn lemma_counts_balance(cs: Seq<DiffChunk>)
    ensures
        right_of(cs).len() - added_of(cs) == left_of(cs).len() - deleted_of(cs),
    decreases cs.len(),
{
    if cs.len() > 0 {
        lemma_counts_balance(cs.skip(1));
    }
}

proof fn lemma_zero_counts_equal(cs: Seq<DiffChunk>)
    requires
        added_of(cs) == 0,
        deleted_of(cs) == 0,
    ensures
        left_of(cs) == right_of(cs),
    decreases cs.len(),
{
    if cs.len() == 0 {
        assert(left_of(cs) =~= right_of(cs));
    } else {
        lemma_zero_counts_equal(cs.skip(1));
        match cs[0] {
            DiffChunk::Equal(_) => {},
            DiffChunk::Insert(s) => {
                assert(s@.len() == 0);
                assert(chunk_text(cs[0]) =~= Seq::<char>::empty());
            },
            DiffChunk::Delete(s) => {
                assert(s@.len() == 0);
                assert(chunk_text(cs[0]) =~= Seq::<char>::empty());
            },
        }
        assert(left_of(cs) =~= right_of(cs));
    }
}

/// Counts the characters the difference between `old` and `current`
/// inserts and deletes. The counts balance the length difference of the two
/// texts, and both are zero exactly when the texts are equal.
pub fn count_diff(old: &str, current: &str) -> (r: (u32, u32))
    requires
        old@.len() <= u32::MAX,
        current@.len() <= u32::MAX,
    ensures
        r.0 == diff_added(old@, current@),
        r.1 == diff_deleted(old@, current@),
        r.0 as int - r.1 as int == current@.len() - old@.len(),
        (r.0 == 0 && r.1 == 0) <==> old@ == current@,
{
    let chunks = diff_chunks(old, current);
    proof {
        lemma_added_le_right(chunks@);
        lemma_counts_balance(chunks@);
        if added_of(chunks@) == 0 && deleted_of(chunks@) == 0 {
            lemma_zero_counts_equal(chunks@);
        }
        if old@ == current@ {
            lemma_all_equal_counts(chunks@);
        }
    }
    let mut added: u32 = 0;
    let mut deleted: u32 = 0;
    let mut i: usize = 0;
    while i < chunks.len()
        invariant
            i <= chunks@.len(),
            added == added_of(chunks@.take(i as int)),
            deleted == deleted_of(chunks@.take(i as int)),
            added_of(chunks@) <= u32::MAX,
            deleted_of(chunks@) <= u32::MAX,
        decreases chunks@.len() - i,
    {
        proof {
            lemma_counts_take_step(chunks@, i as int);
            lemma_counts_take_le(chunks@, i + 1);
        }
        match &chunks[i] {
            DiffChunk::Insert(s) => {
                let n = chars_len_u32(s.as_str());
                added = added + n;
            },
            DiffChunk::Delete(s) => {
                let n = chars_len_u32(s.as_str());
                deleted = deleted + n;
            },
            DiffChunk::Equal(_) => {},
        }
        i = i + 1;
    }
    proof {
        assert(chunks@.take(chunks@.len() as int) =~= chunks@);
    }
    (added, deleted)
}

proof fn lemma_all_equal_counts(cs: Seq<DiffChunk>)
    requires
        forall|k: int| 0 <= k < cs.len() ==> cs[k] is Equal,
    ensures
        added_of(cs) == 0,
        deleted_of(cs) == 0,
    decreases cs.len(),
{
    if cs.len() > 0 {
        assert(forall|k: int|
            0 <= k < cs.skip(1).len() ==> cs.skip(1)[k] == #[trigger] cs[k + 1]);
        lemma_all_equal_counts(cs.skip(1));
    }
}

proof fn lemma_counts_take_step(cs: Seq<DiffChunk>, i: int)
    requires
        0 <= i < cs.len(),
    ensures
        added_of(cs.take(i + 1)) == added_of(cs.take(i)) + (match cs[i] {
            DiffChunk::Insert(s) => s@.len(),
            _ => 0,
        }),
        deleted_of(cs.take(i + 1)) == deleted_of(cs.take(i)) + (match cs[i] {
            DiffChunk::Delete(s) => s@.len(),
            _ => 0,
        }),
    decreases i + 1,
{
    if i == 0 {
        assert(cs.take(1).skip(1) =~= Seq::<DiffChunk>::empty());
        assert(cs.take(0) =~= Seq::<DiffChunk>::empty());
        assert(cs.take(1)[0] == cs[0]);
    } else {
        lemma_counts_take_step(cs.skip(1), i - 1);
        assert(cs.take(i + 1).skip(1) =~= cs.skip(1).take(i));
        assert(cs.take(i).skip(1) =~= cs.skip(1).take(i - 1));
        assert(cs.take(i + 1)[0] == cs[0]);
        assert(cs.take(i)[0] == cs[0]);
        assert(cs.skip(1)[i - 1] == cs[i]);
    }
}

proof fn lemma_counts_take_le(cs: Seq<DiffChunk>, i: int)
    requires
        0 < i <= cs.len(),
    ensures
        added_of(cs.take(i)) <= added_of(cs),
        deleted_of(cs.take(i)) <= deleted_of(cs),
    decreases cs.len() - i,
{
    if i == cs.len() {
        assert(cs.take(i) =~= cs);
    } else {
        lemma_counts_take_le(cs, i + 1);
        lemma_counts_take_step(cs, i);
    }
}

/// The number of characters of a string slice, counted into a `u32`.
fn chars_len_u32(s: &str) -> (r: u32)
    requires
        s@.len() <= u32::MAX,
    ensures
        r == s@.len(),
{
    let cs = str_to_chars(s);
    let n = cs.len();
    n as u32
}


/// The style add-mode highlights insertions with: black on green.
pub open spec fn add_highlight() -> Style {
    Style {
        fg: Some(Color::Ansi(AnsiColor::Black)),
        bg: Some(Color::Ansi(AnsiColor::Green)),
        bold: false,
        dimmed: false,
        italic: false,
        underline: false,
        blink: false,
        hidden: false,
        strikethrough: false,
        reversed: false,
    }
}

/// The style delete-mode highlights deletions with: black on red.
pub open spec fn delete_highlight() -> Style {
    Style {
        fg: Some(Color::Ansi(AnsiColor::Black)),
        bg: Some(Color::Ansi(AnsiColor::Red)),
        bold: false,
        dimmed: false,
        italic: false,
        underline: false,
        blink: false,
        hidden: false,
        strikethrough: false,
        reversed: false,
    }
}


/// A styled text with the non-white-space characters of one chunk placed at
/// `cursor` restyled to `style`.
pub open spec fn mark_seq(t: Seq<Char>, cursor: int, s: Seq<char>, style: Style) -> Seq<Char> {
    Seq::new(
        t.len(),
        |k: int|
            if cursor <= k < cursor + s.len() && !is_white(s[k - cursor]) {
                mk_char(t[k].c, style)
            } else {
                t[k]
            },
    )
}

/// The styled text an edit script's marking pass leaves behind: walking the
/// chunks of the side selected by `ins` from position `cursor`, every
/// non-white-space character of an Insert chunk (in add mode) or a Delete
/// chunk (in delete mode) is restyled to `style`; everything else stays.
pub open spec fn apply_marks(
    cs: Seq<DiffChunk>,
    ins: bool,
    style: Style,
    t: Seq<Char>,
    cursor: int,
) -> Seq<Char>
    decreases cs.len(),
{
    if cs.len() == 0 {
        t
    } else {
        let s = chunk_text(cs[0]);
        let marked = match cs[0] {
            DiffChunk::Equal(_) => false,
            DiffChunk::Insert(_) => ins,
            DiffChunk::Delete(_) => !ins,
        };
        if contributes(cs[0], ins) {
            if marked {
                apply_marks(cs.skip(1), ins, style, mark_seq(t, cursor, s, style), cursor + s.len())
            } else {
                apply_marks(cs.skip(1), ins, style, t, cursor + s.len())
            }
        } else {
            apply_marks(cs.skip(1), ins, style, t, cursor)
        }
    }
}

/// Walks an edit script over `text`, whose plain projection must equal the
/// side selected by `ins`, and overwrites the style of every non-white-space
/// character of the chunks of that side's changed kind.
pub fn mark_chunks(text: &mut Text, chunks: &Vec<DiffChunk>, ins: bool, style: Style)
    requires
        plain_of(old(text)@) == side_of(chunks@, ins),
    ensures
        final(text)@ == apply_marks(chunks@, ins, style, old(text)@, 0),
        final(text)@.len() == old(text)@.len(),
        forall|k: int|
            0 <= k < old(text)@.len() ==> #[trigger] final(text)@[k] == old(text)@[k] || (
            final(text)@[k] == mk_char(old(text)@[k].c, style) && !is_white(old(text)@[k].c)),
        (forall|j: int| 0 <= j < chunks@.len() ==> chunks@[j] is Equal) ==> final(text)@ == old(
            text,
        )@,
{
    let ghost whole = plain_of(old(text)@);
    let mut ci: usize = 0;
    let mut cursor: usize = 0;
    let text_len = text.len();
    proof {
        assert(whole.skip(0) =~= whole);
        assert(chunks@.skip(0) =~= chunks@);
        assert(whole.len() == old(text)@.len());
    }
    while ci < chunks.len()
        invariant
            ci <= chunks@.len(),
            cursor <= whole.len(),
            whole.len() <= usize::MAX,
            whole == plain_of(old(text)@),
            whole.len() == old(text)@.len(),
            plain_of(old(text)@) == side_of(chunks@, ins),
            whole.skip(cursor as int) == side_of(chunks@.skip(ci as int), ins),
            apply_marks(chunks@, ins, style, old(text)@, 0) == apply_marks(
                chunks@.skip(ci as int),
                ins,
                style,
                text@,
                cursor as int,
            ),
            text@.len() == old(text)@.len(),
            forall|k: int|
                0 <= k < old(text)@.len() ==> #[trigger] text@[k] == old(text)@[k] || (text@[k]
                    == mk_char(old(text)@[k].c, style) && !is_white(old(text)@[k].c)),
            (forall|j: int| 0 <= j < chunks@.len() ==> chunks@[j] is Equal) ==> text@ == old(
                text,
            )@,
        decreases chunks@.len() - ci,
    {
        let ghost rest = chunks@.skip(ci as int);
        proof {
            assert(rest[0] == chunks@[ci as int]);
            assert(rest.skip(1) =~= chunks@.skip(ci + 1));
        }
        let marked: bool = match &chunks[ci] {
            DiffChunk::Equal(_) => false,
            DiffChunk::Insert(_) => ins,
            DiffChunk::Delete(_) => !ins,
        };
        let contributing: bool = match &chunks[ci] {
            DiffChunk::Equal(_) => true,
            DiffChunk::Insert(_) => ins,
            DiffChunk::Delete(_) => !ins,
        };
        let s: &String = match &chunks[ci] {
            DiffChunk::Equal(s) => s,
            DiffChunk::Insert(s) => s,
            DiffChunk::Delete(s) => s,
        };
        if contributing {
            let sv = str_to_chars(s.as_str());
            let n = sv.len();
            proof {
                assert(side_of(rest, ins) == s@ + side_of(rest.skip(1), ins));
                assert(whole.skip(cursor as int).len() == n + side_of(
                    chunks@.skip(ci + 1),
                    ins,
                ).len());
                assert(forall|j: int|
                    0 <= j < n ==> whole[cursor + j] == #[trigger] s@[j]) by {
                    assert(forall|j: int|
                        0 <= j < n ==> whole.skip(cursor as int)[j] == #[trigger] s@[j]);
                }
                assert(cursor + n <= whole.len());
                assert(whole.skip(cursor as int).skip(n as int) =~= whole.skip(
                    cursor + n,
                ));
                assert((s@ + side_of(chunks@.skip(ci + 1), ins)).skip(n as int) =~= side_of(
                    chunks@.skip(ci + 1),
                    ins,
                ));
                assert(whole.skip(cursor + n) =~= side_of(chunks@.skip(ci + 1), ins));
            }
            let ghost t0 = text@;
            if marked {
                let mut j: usize = 0;
                while j < n
                    invariant
                        j <= n,
                        n == sv@.len(),
                        sv@ == s@,
                        cursor + n <= whole.len(),
                        whole.len() <= usize::MAX,
                        whole == plain_of(old(text)@),
                        whole.len() == old(text)@.len(),
                        t0.len() == old(text)@.len(),
                        forall|jj: int| 0 <= jj < n ==> whole[cursor + jj] == #[trigger] s@[jj],
                        text@.len() == old(text)@.len(),
                        forall|k: int|
                            0 <= k < t0.len() ==> #[trigger] text@[k] == (if cursor <= k < cursor
                                + j && !is_white(s@[k - cursor]) {
                                mk_char(t0[k].c, style)
                            } else {
                                t0[k]
                            }),
                        forall|k: int|
                            0 <= k < old(text)@.len() ==> #[trigger] t0[k] == old(text)@[k] || (
                            t0[k] == mk_char(old(text)@[k].c, style) && !is_white(
                                old(text)@[k].c,
                            )),
                    decreases n - j,
                {
                    let white = char_is_whitespace(sv[j]);
                    if !white {
                        proof {
                            assert(old(text)@[cursor + j].c == whole[cursor + j]);
                            assert(t0[cursor + j].c == old(text)@[cursor + j].c);
                        }
                        text.mark_text(cursor + j, cursor + j + 1, style);
                    }
                    j = j + 1;
                }
                proof {
                    assert(text@ =~= mark_seq(t0, cursor as int, s@, style));
                }
            }
            proof {
                if marked {
                    assert(apply_marks(rest, ins, style, t0, cursor as int) == apply_marks(
                        rest.skip(1),
                        ins,
                        style,
                        mark_seq(t0, cursor as int, s@, style),
                        cursor + n,
                    ));
                } else {
                    assert(apply_marks(rest, ins, style, t0, cursor as int) == apply_marks(
                        rest.skip(1),
                        ins,
                        style,
                        t0,
                        cursor + n,
                    ));
                }
            }
            cursor = cursor + n;
        } else {
            proof {
                assert(side_of(rest, ins) == Seq::<char>::empty() + side_of(rest.skip(1), ins));
                assert(whole.skip(cursor as int) =~= side_of(chunks@.skip(ci + 1), ins));
                assert(apply_marks(rest, ins, style, text@, cursor as int) == apply_marks(
                    rest.skip(1),
                    ins,
                    style,
                    text@,
                    cursor as int,
                ));
            }
        }
        ci = ci + 1;
    }
}

/// Highlights, in black on green, every non-white-space character the
/// difference from `previous` to `current` inserts, walking the styled text
/// whose plain projection is `current`. The result is exactly the marking
/// pass of the outside algorithm's edit script; identical texts are left
/// untouched.
pub fn diff_and_mark(current: &str, previous: &str, text: &mut Text)
    requires
        plain_of(old(text)@) == current@,
    ensures
        final(text)@ == apply_marks(
            diff_script(previous@, current@),
            true,
            add_highlight(),
            old(text)@,
            0,
        ),
        final(text)@.len() == old(text)@.len(),
        forall|k: int|
            0 <= k < old(text)@.len() ==> #[trigger] final(text)@[k] == old(text)@[k] || (
            final(text)@[k] == mk_char(old(text)@[k].c, add_highlight()) && !is_white(
                old(text)@[k].c,
            )),
        current@ == previous@ ==> final(text)@ == old(text)@,
{
    let style = Style::new().fg_color(Some(Color::Ansi(AnsiColor::Black))).bg_color(
        Some(Color::Ansi(AnsiColor::Green)),
    );
    let chunks = diff_chunks(previous, current);
    mark_chunks(text, &chunks, true, style);
}

/// Highlights, in black on red, every non-white-space character the
/// difference from `previous` to `current` deletes, walking the styled text
/// whose plain projection is `previous`. The result is exactly the marking
/// pass of the outside algorithm's edit script; identical texts are left
/// untouched.
pub fn diff_and_mark_delete(current: &str, previous: &str, text: &mut Text)
    requires
        plain_of(old(text)@) == previous@,
    ensures
        final(text)@ == apply_marks(
            diff_script(previous@, current@),
            false,
            delete_highlight(),
            old(text)@,
            0,
        ),
        final(text)@.len() == old(text)@.len(),
        forall|k: int|
            0 <= k < old(text)@.len() ==> #[trigger] final(text)@[k] == old(text)@[k] || (
            final(text)@[k] == mk_char(old(text)@[k].c, delete_highlight()) && !is_white(
                old(text)@[k].c,
            )),
        current@ == previous@ ==> final(text)@ == old(text)@,
{
    let style = Style::new().fg_color(Some(Color::Ansi(AnsiColor::Black))).bg_color(
        Some(Color::Ansi(AnsiColor::Red)),
    );
    let chunks = diff_chunks(previous, current);
    mark_chunks(text, &chunks, false, style);
}


} // verus!

//! The in-app acknowledgements text: the sound credits grouped by licence, wrapped to a
//! column budget.
//!
//! The font is monospaced, so a character count is an exact width: the caller measures
//! the font and hands in `columns`, and the wrapping here never needs pixel widths.
//! Sizes and gaps are in points.

use vstd::prelude::*;

use crate::text::{
    append_chars, append_joined, chars_of, decimal, decimal_chars, insert_sorted, join_with,
    last_index_of, lemma_sorted_set_unique, lex_lt, rfind_char, same_chars, sorted_set, strictly_sorted,
    string_from_chars, sub_chars, views_of,
};
use crate::theme::{trim_chars, trimmed};

verus! {

/// A small, fixed palette; a renderer maps these to whatever it actually draws with.
#[derive(Clone, Copy, Debug, PartialEq, Eq, Structural)]
pub enum TextColor {
    White,
    Dim,
    Accent,
}

/// One line of laid-out credits text, drawn at its own size and colour with `gap_before`
/// points added above it.
#[derive(Clone, Debug)]
pub struct CreditsLine {
    pub text: String,
    pub size: u32,
    pub color: TextColor,
    pub gap_before: u32,
}

/// A line as the contracts see it: its characters, size, colour and gap.
pub type LineView = (Seq<char>, u32, TextColor, u32);

impl View for CreditsLine {
    type V = LineView;

    open spec fn view(&self) -> LineView {
        (self.text@, self.size, self.color, self.gap_before)
    }
}

/// The views of `lines`, in order.
pub open spec fn line_views(lines: Seq<CreditsLine>) -> Seq<LineView> {
    lines.map_values(|l: CreditsLine| l@)
}

/// Body-text lines of the given texts: size 11, no gap.
pub open spec fn small_lines(texts: Seq<Seq<char>>, color: TextColor) -> Seq<LineView> {
    texts.map_values(|t: Seq<char>| (t, 11u32, color, 0u32))
}

fn push_line(out: &mut Vec<CreditsLine>, text: String, size: u32, color: TextColor, gap_before: u32)
    ensures
        line_views(final(out)@) == line_views(old(out)@).push((text@, size, color, gap_before)),
{
    let ghost start = out@;
    let line = CreditsLine { text, size, color, gap_before };
    out.push(line);
    assert(line_views(out@) =~= line_views(start).push((text@, size, color, gap_before)));
}

fn push_chars(out: &mut Vec<CreditsLine>, text: &Vec<char>, size: u32, color: TextColor, gap_before: u32)
    ensures
        line_views(final(out)@) == line_views(old(out)@).push((text@, size, color, gap_before)),
{
    push_line(out, string_from_chars(text), size, color, gap_before);
}

// ---------------------------------------------------------------------------------------
// Titles and licences
// ---------------------------------------------------------------------------------------

/// `raw` without a leading `File:`.
pub open spec fn without_file_prefix(raw: Seq<char>) -> Seq<char> {
    if raw.len() >= 5 && raw.take(5) == seq!['F', 'i', 'l', 'e', ':'] {
        raw.skip(5)
    } else {
        raw
    }
}

/// `s` up to (not including) its last `c`; all of `s` when there is none.
pub open spec fn before_last(s: Seq<char>, c: char) -> Seq<char> {
    match last_index_of(s, c) {
        Some(i) => s.take(i),
        None => s,
    }
}

/// A sound's short title: without a leading `File:`, without the extension (from the last
/// `.`), without a trailing parenthetical (from the last `(`, when the text ends in `)`),
/// and trimmed.
pub open spec fn short_title_spec(raw: Seq<char>) -> Seq<char> {
    let s = before_last(without_file_prefix(raw), '.');
    let s = if s.len() > 0 && s.last() == ')' {
        before_last(s, '(')
    } else {
        s
    };
    trimmed(s)
}

fn before_last_chars(s: &Vec<char>, c: char) -> (r: Vec<char>)
    ensures
        r@ == before_last(s@, c),
{
    match rfind_char(s, c) {
        Some(i) => sub_chars(s, 0, i),
        None => sub_chars(s, 0, s.len()),
    }
}

/// `File:Hollow stick hit 2 (Gravity Sound).wav` → `Hollow stick hit 2`. The author is
/// already named above the list; the full titles stay in the manifest.
pub fn short_title(raw: &str) -> (r: String)
    ensures
        r@ == short_title_spec(raw@),
{
    let chars = chars_of(raw);
    let prefix = chars_of("File:");
    proof {
        reveal_strlit("File:");
        assert(prefix@ =~= seq!['F', 'i', 'l', 'e', ':']);
    }
    let mut s = if chars.len() >= 5 && same_chars(&sub_chars(&chars, 0, 5), &prefix) {
        sub_chars(&chars, 5, chars.len())
    } else {
        sub_chars(&chars, 0, chars.len())
    };
    assert(s@ == without_file_prefix(raw@));
    s = before_last_chars(&s, '.');
    if s.len() > 0 && s[s.len() - 1] == ')' {
        s = before_last_chars(&s, '(');
    }
    let t = trim_chars(&s);
    string_from_chars(&t)
}

/// `str::to_lowercase`: the Unicode lowercase mapping of `s`.
pub uninterp spec fn lowercase(s: Seq<char>) -> Seq<char>;

/// `str::to_lowercase`, read back as characters. What it returns is named (`lowercase`),
/// not stated: the Unicode case tables behind it are not written out here.
#[verifier::external_body]
fn to_lowercase_chars(s: &str) -> (r: Vec<char>)
    ensures
        r@ == lowercase(s@),
{
    s.to_lowercase().chars().collect()
}

/// The licence page for a licence name already in lowercase.
pub open spec fn license_url_spec(lower: Seq<char>) -> Option<Seq<char>> {
    if lower == "cc by 4.0"@ {
        Some("creativecommons.org/licenses/by/4.0/"@)
    } else if lower == "cc by 3.0"@ {
        Some("creativecommons.org/licenses/by/3.0/"@)
    } else if lower == "cc0"@ {
        Some("creativecommons.org/publicdomain/zero/1.0/"@)
    } else if lower == "public domain"@ {
        Some("en.wikipedia.org/wiki/Public_domain"@)
    } else {
        None
    }
}

/// The licence page for a lowercased licence name: CC BY 4.0, CC BY 3.0, CC0 and public
/// domain have one; any other licence none.
pub fn license_url_for_lowercase(lower: &Vec<char>) -> (r: Option<&'static str>)
    ensures
        match r {
            Some(u) => license_url_spec(lower@) == Some(u@),
            None => license_url_spec(lower@) is None,
        },
{
    if same_chars(lower, &chars_of("cc by 4.0")) {
        Some("creativecommons.org/licenses/by/4.0/")
    } else if same_chars(lower, &chars_of("cc by 3.0")) {
        Some("creativecommons.org/licenses/by/3.0/")
    } else if same_chars(lower, &chars_of("cc0")) {
        Some("creativecommons.org/publicdomain/zero/1.0/")
    } else if same_chars(lower, &chars_of("public domain")) {
        Some("en.wikipedia.org/wiki/Public_domain")
    } else {
        None
    }
}

/// The licence page for a licence name, in any case.
pub fn license_url(license: &str) -> (r: Option<&'static str>)
    ensures
        match r {
            Some(u) => license_url_spec(lowercase(license@)) == Some(u@),
            None => license_url_spec(lowercase(license@)) is None,
        },
{
    let lower = to_lowercase_chars(license);
    license_url_for_lowercase(&lower)
}

// ---------------------------------------------------------------------------------------
// Wrapping
// ---------------------------------------------------------------------------------------

/// `text.split(' ')`: the pieces between single spaces, an empty piece wherever two spaces
/// meet or the text starts or ends with one.
pub open spec fn split_spaces(text: Seq<char>) -> Seq<Seq<char>>
    decreases text.len(),
{
    if text.len() == 0 {
        seq![Seq::empty()]
    } else {
        let w = split_spaces(text.drop_last());
        if text.last() == ' ' {
            w.push(Seq::empty())
        } else {
            w.update(w.len() - 1, w.last().push(text.last()))
        }
    }
}

/// There is always at least one piece.
pub proof fn lemma_split_spaces_nonempty(text: Seq<char>)
    ensures
        split_spaces(text).len() >= 1,
    decreases text.len(),
{
    if text.len() > 0 {
        lemma_split_spaces_nonempty(text.drop_last());
    }
}

/// The lines a paragraph has emitted after the words `ws`, and the line still being
/// filled: each word joins the current line after a space while the result fits in
/// `columns`, and otherwise starts the next one.
pub open spec fn wrap_state(ws: Seq<Seq<char>>, columns: nat) -> (Seq<Seq<char>>, Seq<char>)
    decreases ws.len(),
{
    if ws.len() == 0 {
        (Seq::empty(), Seq::empty())
    } else {
        let (lines, cur) = wrap_state(ws.drop_last(), columns);
        let w = ws.last();
        let candidate = if cur.len() == 0 {
            w
        } else {
            cur + seq![' '] + w
        };
        if candidate.len() > columns {
            (lines.push(cur), w)
        } else {
            (lines, candidate)
        }
    }
}

/// A sentence word-wrapped to `columns` characters, breaking only at spaces.
pub open spec fn paragraph_lines(text: Seq<char>, columns: nat) -> Seq<Seq<char>> {
    let (lines, cur) = wrap_state(split_spaces(text), columns);
    if cur.len() == 0 {
        lines
    } else {
        lines.push(cur)
    }
}

/// The indent a packed line starts with.
pub open spec fn indent() -> Seq<char> {
    seq![' ', ' ']
}

/// What stands between two packed items.
pub open spec fn separator() -> Seq<char> {
    seq![' ', ' ', '·', ' ', ' ']
}

/// The lines packing has emitted after `items`, and the line still being filled: each
/// item joins the current line after the separator while the result fits in `columns`,
/// and otherwise starts the next, indented.
pub open spec fn pack_state(items: Seq<Seq<char>>, columns: nat) -> (Seq<Seq<char>>, Seq<char>)
    decreases items.len(),
{
    if items.len() == 0 {
        (Seq::empty(), indent())
    } else {
        let (lines, cur) = pack_state(items.drop_last(), columns);
        let item = items.last();
        let candidate = if cur == indent() {
            indent() + item
        } else {
            cur + separator() + item
        };
        if candidate.len() > columns {
            (lines.push(cur), indent() + item)
        } else {
            (lines, candidate)
        }
    }
}

/// Items packed onto indented lines of at most `columns` characters, broken only between
/// items.
pub open spec fn packed_lines(items: Seq<Seq<char>>, columns: nat) -> Seq<Seq<char>> {
    if items.len() == 0 {
        Seq::empty()
    } else {
        let (lines, cur) = pack_state(items, columns);
        if cur == indent() {
            lines
        } else {
            lines.push(cur)
        }
    }
}

proof fn lemma_small_lines_push(texts: Seq<Seq<char>>, t: Seq<char>, color: TextColor)
    ensures
        small_lines(texts.push(t), color) == small_lines(texts, color).push((t, 11u32, color, 0u32)),
{
    assert(small_lines(texts.push(t), color) =~= small_lines(texts, color).push((t, 11u32, color, 0u32)));
}

fn split_on_spaces(text: &Vec<char>) -> (r: Vec<Vec<char>>)
    ensures
        r@.map_values(|w: Vec<char>| w@) == split_spaces(text@),
{
    let mut words: Vec<Vec<char>> = Vec::new();
    let mut cur: Vec<char> = Vec::new();
    let mut i: usize = 0;
    assert(text@.take(0) =~= Seq::<char>::empty());
    assert(words@.map_values(|w: Vec<char>| w@).push(cur@) =~= split_spaces(text@.take(0)));
    while i < text.len()
        invariant
            i <= text.len(),
            words@.map_values(|w: Vec<char>| w@).push(cur@) == split_spaces(text@.take(i as int)),
        decreases text.len() - i,
    {
        let ghost before = split_spaces(text@.take(i as int));
        assert(text@.take(i + 1).drop_last() =~= text@.take(i as int));
        assert(text@.take(i + 1).last() == text@[i as int]);
        if text[i] == ' ' {
            let ghost prev = words@;
            words.push(cur);
            cur = Vec::new();
            assert(words@.map_values(|w: Vec<char>| w@).push(cur@) =~= before.push(Seq::empty()));
        } else {
            let ghost prev = cur@;
            cur.push(text[i]);
            assert(words@.map_values(|w: Vec<char>| w@).push(cur@) =~= before.update(
                before.len() - 1,
                before.last().push(text@[i as int]),
            ));
        }
        i = i + 1;
    }
    assert(text@.take(text.len() as int) =~= text@);
    words.push(cur);
    words
}

/// Word-wraps a sentence to `columns` characters, appending its lines (size 11, no gap)
/// to `out`. A word longer than the budget gets a line of its own.
pub fn paragraph(out: &mut Vec<CreditsLine>, text: &str, columns: usize, color: TextColor)
    ensures
        line_views(final(out)@) == line_views(old(out)@) + small_lines(
            paragraph_lines(text@, columns as nat),
            color,
        ),
{
    let ghost start = line_views(out@);
    let chars = chars_of(text);
    let words = split_on_spaces(&chars);
    let ghost ws = words@.map_values(|w: Vec<char>| w@);
    let mut current: Vec<char> = Vec::new();
    let mut i: usize = 0;
    assert(ws.take(0) =~= Seq::<Seq<char>>::empty());
    assert(small_lines(Seq::<Seq<char>>::empty(), color) =~= Seq::<LineView>::empty());
    assert(start + small_lines(Seq::<Seq<char>>::empty(), color) =~= start);
    while i < words.len()
        invariant
            i <= words.len(),
            ws == words@.map_values(|w: Vec<char>| w@),
            ws == split_spaces(text@),
            line_views(out@) == start + small_lines(wrap_state(ws.take(i as int), columns as nat).0, color),
            current@ == wrap_state(ws.take(i as int), columns as nat).1,
        decreases words.len() - i,
    {
        let ghost state = wrap_state(ws.take(i as int), columns as nat);
        assert(ws.take(i + 1).drop_last() =~= ws.take(i as int));
        assert(ws.take(i + 1).last() == words@[i as int]@);
        let word = &words[i];
        let mut candidate: Vec<char> = Vec::new();
        if current.len() > 0 {
            append_chars(&mut candidate, &current);
            candidate.push(' ');
        }
        append_chars(&mut candidate, word);
        if current.len() > 0 {
            assert(candidate@ =~= current@ + seq![' '] + word@);
        } else {
            assert(candidate@ =~= word@);
        }
        if candidate.len() > columns {
            push_chars(out, &current, 11, color, 0);
            proof {
                lemma_small_lines_push(state.0, current@, color);
                assert(start + small_lines(state.0.push(current@), color) =~= start + small_lines(state.0, color).push((current@, 11u32, color, 0u32)));
            }
            current = sub_chars(word, 0, word.len());
            assert(word@.subrange(0, word@.len() as int) =~= word@);
        } else {
            current = candidate;
        }
        i = i + 1;
    }
    assert(ws.take(words.len() as int) =~= ws);
    if current.len() > 0 {
        let ghost state = wrap_state(ws, columns as nat);
        push_chars(out, &current, 11, color, 0);
        proof {
            lemma_small_lines_push(state.0, current@, color);
            assert(start + small_lines(state.0.push(current@), color) =~= start + small_lines(state.0, color).push((current@, 11u32, color, 0u32)));
        }
    }
}

/// Packs items onto indented lines of `columns` characters, breaking only between them,
/// appending the lines (size 11, no gap) to `out`. Meant for short titles, none wider
/// than the budget on its own.
pub fn packed(out: &mut Vec<CreditsLine>, items: &[String], columns: usize, color: TextColor)
    ensures
        line_views(final(out)@) == line_views(old(out)@) + small_lines(
            packed_lines(items@.map_values(|s: String| s@), columns as nat),
            color,
        ),
{
    let ghost start = line_views(out@);
    let ghost its = items@.map_values(|s: String| s@);
    if items.len() == 0 {
        assert(small_lines(Seq::<Seq<char>>::empty(), color) =~= Seq::<LineView>::empty());
        assert(start + small_lines(Seq::<Seq<char>>::empty(), color) =~= start);
        return;
    }
    let ind = chars_of("  ");
    let sep = chars_of("  ·  ");
    proof {
        reveal_strlit("  ");
        reveal_strlit("  ·  ");
        assert(ind@ =~= indent());
        assert(sep@ =~= separator());
    }
    let mut current: Vec<char> = sub_chars(&ind, 0, 2);
    assert(current@ =~= indent());
    let mut i: usize = 0;
    assert(its.take(0) =~= Seq::<Seq<char>>::empty());
    assert(small_lines(Seq::<Seq<char>>::empty(), color) =~= Seq::<LineView>::empty());
    assert(start + small_lines(Seq::<Seq<char>>::empty(), color) =~= start);
    while i < items.len()
        invariant
            i <= items.len(),
            its == items@.map_values(|s: String| s@),
            ind@ == indent(),
            sep@ == separator(),
            line_views(out@) == start + small_lines(pack_state(its.take(i as int), columns as nat).0, color),
            current@ == pack_state(its.take(i as int), columns as nat).1,
        decreases items.len() - i,
    {
        let ghost state = pack_state(its.take(i as int), columns as nat);
        assert(its.take(i + 1).drop_last() =~= its.take(i as int));
        assert(its.take(i + 1).last() == items@[i as int]@);
        let item = chars_of(items[i].as_str());
        let mut candidate: Vec<char> = Vec::new();
        let bare = same_chars(&current, &ind);
        if bare {
            append_chars(&mut candidate, &ind);
        } else {
            append_chars(&mut candidate, &current);
            append_chars(&mut candidate, &sep);
        }
        append_chars(&mut candidate, &item);
        if candidate.len() > columns {
            push_chars(out, &current, 11, color, 0);
            proof {
                lemma_small_lines_push(state.0, current@, color);
                assert(start + small_lines(state.0.push(current@), color) =~= start + small_lines(state.0, color).push((current@, 11u32, color, 0u32)));
            }
            let mut next: Vec<char> = Vec::new();
            append_chars(&mut next, &ind);
            append_chars(&mut next, &item);
            current = next;
        } else {
            current = candidate;
        }
        i = i + 1;
    }
    assert(its.take(items.len() as int) =~= its);
    if !same_chars(&current, &ind) {
        let ghost state = pack_state(its, columns as nat);
        push_chars(out, &current, 11, color, 0);
        proof {
            lemma_small_lines_push(state.0, current@, color);
            assert(start + small_lines(state.0.push(current@), color) =~= start + small_lines(state.0, color).push((current@, 11u32, color, 0u32)));
        }
    }
}

// ---------------------------------------------------------------------------------------
// What wrapping promises
// ---------------------------------------------------------------------------------------

proof fn lemma_wrap_fits(ws: Seq<Seq<char>>, columns: nat)
    requires
        forall|i: int| 0 <= i < ws.len() ==> (#[trigger] ws[i]).len() <= columns,
    ensures
        forall|i: int|
            0 <= i < wrap_state(ws, columns).0.len() ==> (#[trigger] wrap_state(ws, columns).0[i]).len()
                <= columns,
        wrap_state(ws, columns).1.len() <= columns,
    decreases ws.len(),
{
    if ws.len() > 0 {
        lemma_wrap_fits(ws.drop_last(), columns);
        assert(ws.last() == ws[ws.len() - 1]);
    }
}

/// Every line of a wrapped paragraph fits in `columns` characters, provided every word of
/// it does.
pub proof fn lemma_paragraph_fits(text: Seq<char>, columns: nat)
    requires
        forall|i: int|
            0 <= i < split_spaces(text).len() ==> (#[trigger] split_spaces(text)[i]).len() <= columns,
    ensures
        forall|i: int|
            0 <= i < paragraph_lines(text, columns).len() ==> (#[trigger] paragraph_lines(
                text,
                columns,
            )[i]).len() <= columns,
{
    lemma_wrap_fits(split_spaces(text), columns);
}

proof fn lemma_join_extend_last(ws: Seq<Seq<char>>, x: Seq<char>, sep: Seq<char>)
    requires
        ws.len() >= 1,
    ensures
        join_with(ws.update(ws.len() - 1, ws.last() + x), sep) == join_with(ws, sep) + x,
{
    let u = ws.update(ws.len() - 1, ws.last() + x);
    if ws.len() > 1 {
        assert(u.drop_last() =~= ws.drop_last());
        assert(join_with(u, sep) =~= join_with(ws, sep) + x);
    }
}

/// Joining the pieces of `text.split(' ')` with spaces gives `text` back.
pub proof fn lemma_split_spaces_rejoins(text: Seq<char>)
    ensures
        join_with(split_spaces(text), seq![' ']) == text,
    decreases text.len(),
{
    if text.len() > 0 {
        let t = text.drop_last();
        lemma_split_spaces_rejoins(t);
        lemma_split_spaces_nonempty(t);
        let w = split_spaces(t);
        if text.last() == ' ' {
            assert(w.push(Seq::empty()).drop_last() =~= w);
            assert(join_with(w.push(Seq::empty()), seq![' ']) =~= t + seq![' '] + Seq::<char>::empty());
            assert(text =~= t + seq![' ']);
        } else {
            assert(w.last().push(text.last()) =~= w.last() + seq![text.last()]);
            lemma_join_extend_last(w, seq![text.last()], seq![' ']);
            assert(text =~= t + seq![text.last()]);
        }
    }
}

proof fn lemma_join_push_longer(lines: Seq<Seq<char>>, x: Seq<char>, w: Seq<char>, sep: Seq<char>)
    ensures
        join_with(lines.push(x + sep + w), sep) == join_with(lines.push(x), sep) + sep + w,
{
    if lines.len() == 0 {
        assert(join_with(lines.push(x + sep + w), sep) == (x + sep + w));
        assert(join_with(lines.push(x), sep) == x);
        assert((x + sep + w) =~= x + sep + w);
    } else {
        assert(lines.push(x + sep + w).drop_last() =~= lines);
        assert(lines.push(x).drop_last() =~= lines);
        assert(join_with(lines.push(x + sep + w), sep) =~= join_with(lines.push(x), sep) + sep + w);
    }
}

proof fn lemma_wrap_rejoins(ws: Seq<Seq<char>>, columns: nat)
    requires
        ws.len() >= 1,
        forall|i: int| 0 <= i < ws.len() ==> 0 < (#[trigger] ws[i]).len() <= columns,
    ensures
        wrap_state(ws, columns).1.len() > 0,
        join_with(wrap_state(ws, columns).0.push(wrap_state(ws, columns).1), seq![' ']) == join_with(
            ws,
            seq![' '],
        ),
    decreases ws.len(),
{
    let sp = seq![' '];
    let w = ws.last();
    assert(w == ws[ws.len() - 1]);
    if ws.len() == 1 {
        assert(ws.drop_last() =~= Seq::<Seq<char>>::empty());
        assert(wrap_state(ws, columns) == (Seq::<Seq<char>>::empty(), w));
        assert(Seq::<Seq<char>>::empty().push(w) =~= ws);
    } else {
        lemma_wrap_rejoins(ws.drop_last(), columns);
        let (lines, cur) = wrap_state(ws.drop_last(), columns);
        let candidate = cur + sp + w;
        if candidate.len() > columns {
            assert(lines.push(cur).push(w).drop_last() =~= lines.push(cur));
        } else {
            lemma_join_push_longer(lines, cur, w, sp);
        }
    }
}

/// Word order survives wrapping: when every word is non-empty and fits in `columns`
/// (no doubled, leading or trailing spaces), the lines joined with spaces are the text.
pub proof fn lemma_paragraph_rejoins(text: Seq<char>, columns: nat)
    requires
        forall|i: int|
            0 <= i < split_spaces(text).len() ==> 0 < (#[trigger] split_spaces(text)[i]).len()
                <= columns,
    ensures
        join_with(paragraph_lines(text, columns), seq![' ']) == text,
{
    lemma_split_spaces_nonempty(text);
    lemma_wrap_rejoins(split_spaces(text), columns);
    lemma_split_spaces_rejoins(text);
}

proof fn lemma_pack_fits(items: Seq<Seq<char>>, columns: nat)
    requires
        forall|i: int| 0 <= i < items.len() ==> (#[trigger] items[i]).len() + 2 <= columns,
    ensures
        forall|i: int|
            0 <= i < pack_state(items, columns).0.len() ==> (#[trigger] pack_state(items, columns).0[i]).len()
                <= columns,
        items.len() > 0 ==> pack_state(items, columns).1.len() <= columns,
    decreases items.len(),
{
    if items.len() > 0 {
        lemma_pack_fits(items.drop_last(), columns);
        assert(items.last() == items[items.len() - 1]);
        if items.len() == 1 {
            assert(items.drop_last() =~= Seq::<Seq<char>>::empty());
        }
    }
}

/// Every packed line fits in `columns` characters, provided every item does after the
/// two-space indent.
pub proof fn lemma_packed_fits(items: Seq<Seq<char>>, columns: nat)
    requires
        forall|i: int| 0 <= i < items.len() ==> (#[trigger] items[i]).len() + 2 <= columns,
    ensures
        forall|i: int|
            0 <= i < packed_lines(items, columns).len() ==> (#[trigger] packed_lines(items, columns)[i]).len()
                <= columns,
{
    lemma_pack_fits(items, columns);
}

// ---------------------------------------------------------------------------------------
// The whole page
// ---------------------------------------------------------------------------------------

/// One sound of the manifest: whether it was synthesised or fetched (`origin`), its
/// licence and author, the title of the file it came from (if any) and how it was
/// modified (if it was).
#[derive(Clone, Debug)]
pub struct SoundEntry {
    pub origin: String,
    pub license: String,
    pub author: String,
    pub source_title: Option<String>,
    pub modified: Option<String>,
}

/// The licences of `sounds`, sorted, each once.
pub open spec fn licences(sounds: Seq<(String, SoundEntry)>) -> Seq<Seq<char>> {
    sorted_set(sounds.map_values(|s: (String, SoundEntry)| s.1.license@).to_set())
}

/// The sounds under licence `l`, in the order given.
pub open spec fn group_of(sounds: Seq<(String, SoundEntry)>, l: Seq<char>) -> Seq<(String, SoundEntry)> {
    sounds.filter(|s: (String, SoundEntry)| s.1.license@ == l)
}

/// The authors of `entries`, sorted, each once.
pub open spec fn authors_of(entries: Seq<(String, SoundEntry)>) -> Seq<Seq<char>> {
    sorted_set(entries.map_values(|s: (String, SoundEntry)| s.1.author@).to_set())
}

/// A sound's modification notice, if it has one.
pub open spec fn notice_of(s: (String, SoundEntry)) -> Option<Seq<char>> {
    match s.1.modified {
        Some(m) => Some(m@),
        None => None,
    }
}

/// The distinct modification notices of `entries`, sorted.
pub open spec fn notices_of(entries: Seq<(String, SoundEntry)>) -> Seq<Seq<char>> {
    sorted_set(entries.filter_map(|s: (String, SoundEntry)| notice_of(s)).to_set())
}

/// How a sound is listed: the short form of its source title, or its own name when it
/// has none.
pub open spec fn title_of(s: (String, SoundEntry)) -> Seq<char> {
    match s.1.source_title {
        Some(t) => short_title_spec(t@),
        None => s.0@,
    }
}

/// Where a group's sounds came from, going by its first sound.
pub open spec fn origin_text(entries: Seq<(String, SoundEntry)>) -> Seq<char> {
    if entries.len() > 0 && entries[0].1.origin@ == "synth"@ {
        "synthesised in tools/synth_sounds.py"@
    } else {
        "from Wikimedia Commons"@
    }
}

/// A group's heading: the licence, and its page where it has one.
pub open spec fn group_header(l: Seq<char>) -> Seq<char> {
    match license_url_spec(lowercase(l)) {
        Some(u) => l + "  ·  "@ + u,
        None => l,
    }
}

/// `"{count} sounds by {authors}, {origin}."`
pub open spec fn group_summary(entries: Seq<(String, SoundEntry)>) -> Seq<char> {
    decimal(entries.len()) + " sounds by "@ + join_with(authors_of(entries), ", "@) + ", "@
        + origin_text(entries) + "."@
}

/// Each notice as a wrapped `Modified: …` paragraph, dimmed.
pub open spec fn notice_lines(ns: Seq<Seq<char>>, columns: nat) -> Seq<LineView>
    decreases ns.len(),
{
    if ns.len() == 0 {
        Seq::empty()
    } else {
        notice_lines(ns.drop_last(), columns) + small_lines(
            paragraph_lines("Modified: "@ + ns.last(), columns),
            TextColor::Dim,
        )
    }
}

/// One licence group: heading, summary, the modification notices, then the packed titles.
pub open spec fn group_lines(sounds: Seq<(String, SoundEntry)>, l: Seq<char>, columns: nat) -> Seq<LineView> {
    let entries = group_of(sounds, l);
    seq![(group_header(l), 12u32, TextColor::Accent, 12u32), (group_summary(entries), 12u32, TextColor::White, 0u32)]
        + notice_lines(notices_of(entries), columns) + small_lines(
        packed_lines(entries.map_values(|s: (String, SoundEntry)| title_of(s)), columns),
        TextColor::Dim,
    )
}

/// The groups of the licences `ls`, in that order.
pub open spec fn groups_lines(sounds: Seq<(String, SoundEntry)>, ls: Seq<Seq<char>>, columns: nat) -> Seq<LineView>
    decreases ls.len(),
{
    if ls.len() == 0 {
        Seq::empty()
    } else {
        groups_lines(sounds, ls.drop_last(), columns) + group_lines(sounds, ls.last(), columns)
    }
}

/// `"AUDIO  —  {count} sounds, mono 44.1 kHz 16-bit"`
pub open spec fn audio_heading(count: nat) -> Seq<char> {
    "AUDIO  —  "@ + decimal(count) + " sounds, mono 44.1 kHz 16-bit"@
}

/// The title, the graphics note and the audio heading.
pub open spec fn intro_lines(count: nat) -> Seq<LineView> {
    seq![
        ("Acknowledgements"@, 18u32, TextColor::White, 0u32),
        ("GRAPHICS"@, 11u32, TextColor::Dim, 14u32),
        ("Every decal, tool icon, sprite and this app's own icon is"@, 12u32, TextColor::White, 0u32),
        ("generated procedurally while it runs."@, 12u32, TextColor::White, 0u32),
        ("There are no third-party image assets."@, 12u32, TextColor::White, 0u32),
        (audio_heading(count), 11u32, TextColor::Dim, 14u32),
    ]
}

/// The note on the game this one follows, where the links are, and how to close the panel.
pub open spec fn outro_lines() -> Seq<LineView> {
    seq![
        ("THE ORIGINAL"@, 11u32, TextColor::Dim, 14u32),
        ("Behaviour derived from Desktop Destroyer by Miroslav Němeček"@, 12u32, TextColor::White, 0u32),
        ("(breatharian.eu/Petr). This is an independent implementation;"@, 12u32, TextColor::White, 0u32),
        ("no asset from the original is included."@, 12u32, TextColor::White, 0u32),
        ("Per-file source links are in this app's bundled sound manifest,"@, 11u32, TextColor::Dim, 14u32),
        ("and in CREDITS.md in the source repository."@, 11u32, TextColor::Dim, 0u32),
        ("Press C to close"@, 11u32, TextColor::Dim, 14u32),
    ]
}

/// The whole acknowledgements page for `sounds`, wrapped to `columns`.
pub open spec fn credits_lines(sounds: Seq<(String, SoundEntry)>, columns: nat) -> Seq<LineView> {
    intro_lines(sounds.len()) + groups_lines(sounds, licences(sounds), columns) + outro_lines()
}

fn licence_list(sounds: &Vec<(String, SoundEntry)>) -> (ls: Vec<Vec<char>>)
    ensures
        views_of(ls@) == licences(sounds@),
{
    let ghost all = sounds@.map_values(|s: (String, SoundEntry)| s.1.license@);
    let mut ls: Vec<Vec<char>> = Vec::new();
    let mut i: usize = 0;
    assert(views_of(ls@).to_set() =~= all.take(0).to_set());
    while i < sounds.len()
        invariant
            i <= sounds.len(),
            all == sounds@.map_values(|s: (String, SoundEntry)| s.1.license@),
            strictly_sorted(views_of(ls@)),
            views_of(ls@).to_set() == all.take(i as int).to_set(),
        decreases sounds.len() - i,
    {
        let lic = chars_of(sounds[i].1.license.as_str());
        insert_sorted(&mut ls, lic);
        proof {
            assert(all.take(i + 1) =~= all.take(i as int).push(all[i as int]));
            all.take(i as int).lemma_push_to_set_commute(all[i as int]);
        }
        i = i + 1;
    }
    assert(all.take(sounds.len() as int) =~= all);
    proof {
        lemma_sorted_set_unique(views_of(ls@), all.to_set());
    }
    ls
}

fn group_indices(sounds: &Vec<(String, SoundEntry)>, l: &Vec<char>) -> (idx: Vec<usize>)
    ensures
        forall|k: int| 0 <= k < idx.len() ==> idx@[k] < sounds.len(),
        idx@.map_values(|k: usize| sounds@[k as int]) == group_of(sounds@, l@),
{
    let ghost pred = |s: (String, SoundEntry)| s.1.license@ == l@;
    let mut idx: Vec<usize> = Vec::new();
    let mut i: usize = 0;
    proof {
        reveal(Seq::filter);
        assert(sounds@.take(0).filter(pred) =~= Seq::<(String, SoundEntry)>::empty());
    }
    assert(idx@.map_values(|k: usize| sounds@[k as int]) =~= sounds@.take(0).filter(pred));
    while i < sounds.len()
        invariant
            i <= sounds.len(),
            pred == (|s: (String, SoundEntry)| s.1.license@ == l@),
            forall|k: int| 0 <= k < idx.len() ==> idx@[k] < sounds.len(),
            idx@.map_values(|k: usize| sounds@[k as int]) == sounds@.take(i as int).filter(pred),
        decreases sounds.len() - i,
    {
        let lic = chars_of(sounds[i].1.license.as_str());
        let ghost prev = idx@;
        assert(sounds@.take(i + 1) =~= sounds@.take(i as int).push(sounds@[i as int]));
        proof {
            sounds@.take(i as int).lemma_filter_push(sounds@[i as int], pred);
        }
        if same_chars(&lic, l) {
            idx.push(i);
            assert(idx@.map_values(|k: usize| sounds@[k as int]) =~= prev.map_values(
                |k: usize| sounds@[k as int],
            ).push(sounds@[i as int]));
        }
        i = i + 1;
    }
    assert(sounds@.take(sounds.len() as int) =~= sounds@);
    idx
}

fn push_group(out: &mut Vec<CreditsLine>, sounds: &Vec<(String, SoundEntry)>, l: &Vec<char>, columns: usize)
    ensures
        line_views(final(out)@) == line_views(old(out)@) + group_lines(sounds@, l@, columns as nat),
{
    let ghost start = line_views(out@);
    let idx = group_indices(sounds, l);
    let ghost entries = group_of(sounds@, l@);
    assert(idx@.map_values(|k: usize| sounds@[k as int]) == entries);
    assert(entries.len() == idx.len());

    // Heading.
    let license = string_from_chars(l);
    let mut header: Vec<char> = Vec::new();
    append_chars(&mut header, l);
    match license_url(license.as_str()) {
        Some(url) => {
            append_chars(&mut header, &chars_of("  ·  "));
            append_chars(&mut header, &chars_of(url));
        },
        None => {},
    }
    assert(header@ =~= group_header(l@));
    push_chars(out, &header, 12, TextColor::Accent, 12);

    // Summary.
    let ghost author_views = entries.map_values(|s: (String, SoundEntry)| s.1.author@);
    let mut authors: Vec<Vec<char>> = Vec::new();
    let mut i: usize = 0;
    assert(views_of(authors@).to_set() =~= author_views.take(0).to_set());
    while i < idx.len()
        invariant
            i <= idx.len(),
            entries.len() == idx.len(),
            forall|k: int| 0 <= k < idx.len() ==> idx@[k] < sounds.len(),
            idx@.map_values(|k: usize| sounds@[k as int]) == entries,
            author_views == entries.map_values(|s: (String, SoundEntry)| s.1.author@),
            strictly_sorted(views_of(authors@)),
            views_of(authors@).to_set() == author_views.take(i as int).to_set(),
        decreases idx.len() - i,
    {
        assert(entries[i as int] == sounds@[idx@[i as int] as int]);
        let a = chars_of(sounds[idx[i]].1.author.as_str());
        insert_sorted(&mut authors, a);
        proof {
            assert(author_views.take(i + 1) =~= author_views.take(i as int).push(author_views[i as int]));
            author_views.take(i as int).lemma_push_to_set_commute(author_views[i as int]);
        }
        i = i + 1;
    }
    assert(author_views.take(idx.len() as int) =~= author_views);
    proof {
        lemma_sorted_set_unique(views_of(authors@), author_views.to_set());
    }
    let mut summary = decimal_chars(idx.len() as u64);
    append_chars(&mut summary, &chars_of(" sounds by "));
    append_joined(&mut summary, &authors, &chars_of(", "));
    append_chars(&mut summary, &chars_of(", "));
    let synth = idx.len() > 0 && same_chars(&chars_of(sounds[idx[0]].1.origin.as_str()), &chars_of("synth"));
    if idx.len() > 0 {
        assert(entries[0] == sounds@[idx@[0] as int]);
    }
    if synth {
        append_chars(&mut summary, &chars_of("synthesised in tools/synth_sounds.py"));
    } else {
        append_chars(&mut summary, &chars_of("from Wikimedia Commons"));
    }
    append_chars(&mut summary, &chars_of("."));
    assert(summary@ =~= group_summary(entries));
    push_chars(out, &summary, 12, TextColor::White, 0);
    let ghost head = seq![(group_header(l@), 12u32, TextColor::Accent, 12u32), (group_summary(entries), 12u32, TextColor::White, 0u32)];
    assert(line_views(out@) =~= start + head);

    // Modification notices.
    let ghost notice_fn = |s: (String, SoundEntry)| notice_of(s);
    let mut notices: Vec<Vec<char>> = Vec::new();
    let mut i: usize = 0;
    assert(views_of(notices@).to_set() =~= entries.take(0).filter_map(notice_fn).to_set());
    while i < idx.len()
        invariant
            i <= idx.len(),
            entries.len() == idx.len(),
            forall|k: int| 0 <= k < idx.len() ==> idx@[k] < sounds.len(),
            idx@.map_values(|k: usize| sounds@[k as int]) == entries,
            notice_fn == (|s: (String, SoundEntry)| notice_of(s)),
            strictly_sorted(views_of(notices@)),
            views_of(notices@).to_set() == entries.take(i as int).filter_map(notice_fn).to_set(),
        decreases idx.len() - i,
    {
        assert(entries[i as int] == sounds@[idx@[i as int] as int]);
        let ghost before = entries.take(i as int).filter_map(notice_fn);
        assert(entries.take(i + 1).drop_last() =~= entries.take(i as int));
        assert(entries.take(i + 1).last() == entries[i as int]);
        match &sounds[idx[i]].1.modified {
            Some(m) => {
                let n = chars_of(m.as_str());
                insert_sorted(&mut notices, n);
                proof {
                    assert(entries.take(i + 1).filter_map(notice_fn) =~= before.push(m@));
                    before.lemma_push_to_set_commute(m@);
                }
            },
            None => {
                assert(entries.take(i + 1).filter_map(notice_fn) =~= before);
            },
        }
        i = i + 1;
    }
    assert(entries.take(idx.len() as int) =~= entries);
    proof {
        lemma_sorted_set_unique(views_of(notices@), entries.filter_map(notice_fn).to_set());
    }
    let ghost ns = views_of(notices@);
    assert(ns == notices_of(entries));
    let mut j: usize = 0;
    assert(ns.take(0) =~= Seq::<Seq<char>>::empty());
    assert(line_views(out@) =~= start + head + notice_lines(ns.take(0), columns as nat));
    while j < notices.len()
        invariant
            j <= notices.len(),
            ns == views_of(notices@),
            line_views(out@) == start + head + notice_lines(ns.take(j as int), columns as nat),
        decreases notices.len() - j,
    {
        let mut text = chars_of("Modified: ");
        append_chars(&mut text, &notices[j]);
        let text_string = string_from_chars(&text);
        let ghost before = line_views(out@);
        paragraph(out, text_string.as_str(), columns, TextColor::Dim);
        assert(ns.take(j + 1).drop_last() =~= ns.take(j as int));
        assert(ns.take(j + 1).last() == notices@[j as int]@);
        assert(line_views(out@) =~= start + head + notice_lines(ns.take(j + 1), columns as nat));
        j = j + 1;
    }
    assert(ns.take(notices.len() as int) =~= ns);

    // Titles.
    let ghost title_views = entries.map_values(|s: (String, SoundEntry)| title_of(s));
    let mut titles: Vec<String> = Vec::new();
    let mut i: usize = 0;
    while i < idx.len()
        invariant
            i <= idx.len(),
            entries.len() == idx.len(),
            forall|k: int| 0 <= k < idx.len() ==> idx@[k] < sounds.len(),
            idx@.map_values(|k: usize| sounds@[k as int]) == entries,
            title_views == entries.map_values(|s: (String, SoundEntry)| title_of(s)),
            titles@.map_values(|s: String| s@) == title_views.take(i as int),
        decreases idx.len() - i,
    {
        assert(entries[i as int] == sounds@[idx@[i as int] as int]);
        let sound = &sounds[idx[i]];
        let title = match &sound.1.source_title {
            Some(t) => short_title(t.as_str()),
            None => sound.0.clone(),
        };
        assert(title@ == title_of(entries[i as int]));
        assert(title_views[i as int] == title_of(entries[i as int]));
        let ghost prev = titles@;
        titles.push(title);
        assert(titles@.map_values(|s: String| s@) =~= prev.map_values(|s: String| s@).push(title_views[i as int]));
        assert(titles@.map_values(|s: String| s@) =~= title_views.take(i + 1));
        i = i + 1;
    }
    assert(title_views.take(idx.len() as int) =~= title_views);
    packed(out, titles.as_slice(), columns, TextColor::Dim);
    assert(line_views(out@) =~= start + group_lines(sounds@, l@, columns as nat));
}

/// The full acknowledgements page for the manifest's `sounds` (name and entry, as a map
/// holds them: names sorted, each once), wrapped to `columns` characters. Sounds are
/// grouped by licence, licences in sorted order; within a group sounds stay in name order.
///
/// Only the notices and the title lists are wrapped: the fixed sentences and the summary
/// lines assume a budget comfortably wider than one sentence.
pub fn build_from(sounds: &Vec<(String, SoundEntry)>, columns: usize) -> (out: Vec<CreditsLine>)
    requires
        forall|a: int, b: int|
            0 <= a < b < sounds@.len() ==> lex_lt(#[trigger] sounds@[a].0@, #[trigger] sounds@[b].0@),
    ensures
        line_views(out@) == credits_lines(sounds@, columns as nat),
{
    let mut out: Vec<CreditsLine> = Vec::new();
    push_line(&mut out, "Acknowledgements".to_owned(), 18, TextColor::White, 0);
    push_line(&mut out, "GRAPHICS".to_owned(), 11, TextColor::Dim, 14);
    push_line(&mut out, "Every decal, tool icon, sprite and this app's own icon is".to_owned(), 12, TextColor::White, 0);
    push_line(&mut out, "generated procedurally while it runs.".to_owned(), 12, TextColor::White, 0);
    push_line(&mut out, "There are no third-party image assets.".to_owned(), 12, TextColor::White, 0);
    let mut audio = chars_of("AUDIO  —  ");
    append_chars(&mut audio, &decimal_chars(sounds.len() as u64));
    append_chars(&mut audio, &chars_of(" sounds, mono 44.1 kHz 16-bit"));
    push_chars(&mut out, &audio, 11, TextColor::Dim, 14);
    let ghost intro = intro_lines(sounds.len() as nat);
    assert(line_views(out@) =~= intro);

    let ls = licence_list(sounds);
    let ghost lviews = views_of(ls@);
    let mut g: usize = 0;
    assert(lviews.take(0) =~= Seq::<Seq<char>>::empty());
    assert(line_views(out@) =~= intro + groups_lines(sounds@, lviews.take(0), columns as nat));
    while g < ls.len()
        invariant
            g <= ls.len(),
            lviews == views_of(ls@),
            line_views(out@) == intro + groups_lines(sounds@, lviews.take(g as int), columns as nat),
        decreases ls.len() - g,
    {
        push_group(&mut out, sounds, &ls[g], columns);
        assert(lviews.take(g + 1).drop_last() =~= lviews.take(g as int));
        assert(lviews.take(g + 1).last() == ls@[g as int]@);
        assert(line_views(out@) =~= intro + groups_lines(sounds@, lviews.take(g + 1), columns as nat));
        g = g + 1;
    }
    assert(lviews.take(ls.len() as int) =~= lviews);
    let ghost middle = line_views(out@);

    push_line(&mut out, "THE ORIGINAL".to_owned(), 11, TextColor::Dim, 14);
    push_line(&mut out, "Behaviour derived from Desktop Destroyer by Miroslav Němeček".to_owned(), 12, TextColor::White, 0);
    push_line(&mut out, "(breatharian.eu/Petr). This is an independent implementation;".to_owned(), 12, TextColor::White, 0);
    push_line(&mut out, "no asset from the original is included.".to_owned(), 12, TextColor::White, 0);
    push_line(&mut out, "Per-file source links are in this app's bundled sound manifest,".to_owned(), 11, TextColor::Dim, 14);
    push_line(&mut out, "and in CREDITS.md in the source repository.".to_owned(), 11, TextColor::Dim, 0);
    push_line(&mut out, "Press C to close".to_owned(), 11, TextColor::Dim, 14);
    assert(line_views(out@) =~= middle + outro_lines());
    out
}

/// A licence group's summary line opens with the number of sounds under that licence,
/// however few authors made them: `"{count} sounds by …"`.
pub proof fn lemma_group_summary_counts_sounds(sounds: Seq<(String, SoundEntry)>, l: Seq<char>, columns: nat)
    ensures
        group_lines(sounds, l, columns).len() >= 2,
        ({
            let prefix = decimal(group_of(sounds, l).len()) + " sounds by "@;
            let summary = group_lines(sounds, l, columns)[1].0;
            summary.len() >= prefix.len() && summary.subrange(0, prefix.len() as int) == prefix
        }),
{
    let entries = group_of(sounds, l);
    let prefix = decimal(entries.len()) + " sounds by "@;
    let rest = join_with(authors_of(entries), ", "@) + ", "@ + origin_text(entries) + "."@;
    let lines = group_lines(sounds, l, columns);
    assert(lines[1].0 == group_summary(entries));
    assert(group_summary(entries) =~= prefix + rest);
    assert((prefix + rest).subrange(0, prefix.len() as int) =~= prefix);
}

/// Whatever the sounds and the budget, the page opens with its title and closes with the
/// hint for closing it.
pub proof fn lemma_credits_open_and_close(sounds: Seq<(String, SoundEntry)>, columns: nat)
    ensures
        credits_lines(sounds, columns).len() >= 13,
        credits_lines(sounds, columns)[0] == ("Acknowledgements"@, 18u32, TextColor::White, 0u32),
        credits_lines(sounds, columns).last() == ("Press C to close"@, 11u32, TextColor::Dim, 14u32),
{
    let intro = intro_lines(sounds.len());
    let middle = groups_lines(sounds, licences(sounds), columns);
    let page = credits_lines(sounds, columns);
    assert(page == intro + middle + outro_lines());
    assert(page[0] == intro[0]);
    assert(page.last() == outro_lines()[6]);
}

// ---------------------------------------------------------------------------------------
// A narrower budget never gives fewer lines
// ---------------------------------------------------------------------------------------

/// Narrow wrapping (state `a`) is at least as far along as wide wrapping (state `b`):
/// more lines emitted, or as many and a current line at least as long.
pub open spec fn at_least_as_many(a: (Seq<Seq<char>>, Seq<char>), b: (Seq<Seq<char>>, Seq<char>)) -> bool {
    ||| a.0.len() > b.0.len()
    ||| a.0.len() == b.0.len() && b.1.len() <= a.1.len()
}

proof fn lemma_wrap_monotone(ws: Seq<Seq<char>>, narrow: nat, wide: nat)
    requires
        narrow <= wide,
    ensures
        at_least_as_many(wrap_state(ws, narrow), wrap_state(ws, wide)),
    decreases ws.len(),
{
    if ws.len() > 0 {
        lemma_wrap_monotone(ws.drop_last(), narrow, wide);
    }
}

/// Wrapping a paragraph to a narrower budget never gives fewer lines.
pub proof fn lemma_paragraph_narrower_more_lines(text: Seq<char>, narrow: nat, wide: nat)
    requires
        narrow <= wide,
    ensures
        paragraph_lines(text, narrow).len() >= paragraph_lines(text, wide).len(),
{
    lemma_wrap_monotone(split_spaces(text), narrow, wide);
}

proof fn lemma_pack_indented(items: Seq<Seq<char>>, columns: nat)
    ensures
        pack_state(items, columns).1.len() >= 2,
        pack_state(items, columns).1.take(2) == indent(),
    decreases items.len(),
{
    if items.len() > 0 {
        lemma_pack_indented(items.drop_last(), columns);
        let (lines, cur) = pack_state(items.drop_last(), columns);
        let item = items.last();
        assert((indent() + item).take(2) =~= indent());
        assert((cur + separator() + item).take(2) =~= cur.take(2));
    }
}

proof fn lemma_indent_iff_short(c: Seq<char>)
    requires
        c.len() >= 2,
        c.take(2) == indent(),
    ensures
        (c == indent()) <==> c.len() == 2,
{
    if c.len() == 2 {
        assert(c =~= c.take(2));
    }
}

proof fn lemma_pack_monotone(items: Seq<Seq<char>>, narrow: nat, wide: nat)
    requires
        narrow <= wide,
    ensures
        at_least_as_many(pack_state(items, narrow), pack_state(items, wide)),
    decreases items.len(),
{
    if items.len() > 0 {
        let rest = items.drop_last();
        lemma_pack_monotone(rest, narrow, wide);
        lemma_pack_indented(rest, narrow);
        lemma_pack_indented(rest, wide);
        lemma_indent_iff_short(pack_state(rest, narrow).1);
        lemma_indent_iff_short(pack_state(rest, wide).1);
    }
}

/// Packing items to a narrower budget never gives fewer lines.
pub proof fn lemma_packed_narrower_more_lines(items: Seq<Seq<char>>, narrow: nat, wide: nat)
    requires
        narrow <= wide,
    ensures
        packed_lines(items, narrow).len() >= packed_lines(items, wide).len(),
{
    if items.len() > 0 {
        lemma_pack_monotone(items, narrow, wide);
        lemma_pack_indented(items, narrow);
        lemma_pack_indented(items, wide);
        lemma_indent_iff_short(pack_state(items, narrow).1);
        lemma_indent_iff_short(pack_state(items, wide).1);
    }
}

proof fn lemma_notice_lines_monotone(ns: Seq<Seq<char>>, narrow: nat, wide: nat)
    requires
        narrow <= wide,
    ensures
        notice_lines(ns, narrow).len() >= notice_lines(ns, wide).len(),
    decreases ns.len(),
{
    if ns.len() > 0 {
        lemma_notice_lines_monotone(ns.drop_last(), narrow, wide);
        lemma_paragraph_narrower_more_lines("Modified: "@ + ns.last(), narrow, wide);
    }
}

proof fn lemma_groups_lines_monotone(sounds: Seq<(String, SoundEntry)>, ls: Seq<Seq<char>>, narrow: nat, wide: nat)
    requires
        narrow <= wide,
    ensures
        groups_lines(sounds, ls, narrow).len() >= groups_lines(sounds, ls, wide).len(),
    decreases ls.len(),
{
    if ls.len() > 0 {
        lemma_groups_lines_monotone(sounds, ls.drop_last(), narrow, wide);
        let entries = group_of(sounds, ls.last());
        lemma_notice_lines_monotone(notices_of(entries), narrow, wide);
        lemma_packed_narrower_more_lines(
            entries.map_values(|s: (String, SoundEntry)| title_of(s)),
            narrow,
            wide,
        );
    }
}

/// A narrower budget never gives the page fewer lines.
pub proof fn lemma_narrower_budget_more_lines(sounds: Seq<(String, SoundEntry)>, narrow: nat, wide: nat)
    requires
        narrow <= wide,
    ensures
        credits_lines(sounds, narrow).len() >= credits_lines(sounds, wide).len(),
{
    lemma_groups_lines_monotone(sounds, licences(sounds), narrow, wide);
}

} // verus!

//! Display width of text in terminal columns.

use crate::ansi::{self, split_ansi_spans, Span, SpanView};
use crate::text::{self, chars_of};
use unicode_segmentation::UnicodeSegmentation;
use unicode_width::{UnicodeWidthChar, UnicodeWidthStr};
use vstd::prelude::*;

verus! {

/// Text of nothing but printable ASCII characters.
pub open spec fn printable_ascii(text: Seq<char>) -> bool {
    forall|i: int| 0 <= i < text.len() ==> ' ' <= #[trigger] text[i] <= '~'
}

/// The characters of a text, each by itself.
pub open spec fn singles(text: Seq<char>) -> Seq<Seq<char>> {
    Seq::new(text.len(), |i: int| seq![text[i]])
}

/// The column width that `unicode-width` gives a character, `None` for a control character.
pub uninterp spec fn unicode_char_width(ch: char) -> Option<usize>;

/// `UnicodeWidthChar::width`: `None` exactly for the control characters, one column for printable
/// ASCII and for the ellipsis, and at most two columns otherwise, but for U+17D8, which takes three.
/// The widths beyond ASCII come from a table.
#[verifier::external_body]
pub(crate) fn char_width(ch: char) -> (res: Option<usize>)
    ensures
        res == unicode_char_width(ch),
        res is None <==> ch < ' ' || '\u{7f}' <= ch < '\u{a0}',
        ' ' <= ch <= '~' ==> res == Some(1usize),
        ch == '\u{2026}' ==> res == Some(1usize),
        res matches Some(w) ==> w <= 2 || (w == 3 && ch == '\u{17d8}'),
{
    UnicodeWidthChar::width(ch)
}

/// The column width that `unicode-width` gives a whole string.
pub uninterp spec fn unicode_str_width(text: Seq<char>) -> usize;

/// `UnicodeWidthStr::width`: the width of the string, ligatures and emoji sequences taken as
/// terminals draw them. It is not the sum of the widths of the characters, but on printable ASCII
/// every character takes one column.
#[verifier::external_body]
pub(crate) fn str_width(text: &str) -> (res: usize)
    ensures
        res == unicode_str_width(text@),
        printable_ascii(text@) ==> res == text@.len(),
{
    UnicodeWidthStr::width(text)
}

/// The extended grapheme clusters that `unicode-segmentation` cuts a text into.
pub uninterp spec fn grapheme_clusters(text: Seq<char>) -> Seq<Seq<char>>;

/// `UnicodeSegmentation::graphemes` with extended clusters: non-empty pieces that, put together
/// in order, are the text again. In printable ASCII every character is a piece of its own.
#[verifier::external_body]
pub(crate) fn graphemes(text: &str) -> (res: Vec<String>)
    ensures
        text::texts(res@) == grapheme_clusters(text@),
        text::texts(res@).flatten() == text@,
        printable_ascii(text@) ==> text::texts(res@) == singles(text@),
        forall|i: int| 0 <= i < res@.len() ==> (#[trigger] res@[i])@.len() > 0,
{
    UnicodeSegmentation::graphemes(text, true).map(|g| g.to_string()).collect()
}

/// Private-Use-Area codepoints, which nerd-font glyphs occupy.
pub open spec fn private_use(ch: char) -> bool {
    ||| '\u{e000}' <= ch <= '\u{f8ff}'
    ||| '\u{f0000}' <= ch <= '\u{ffffd}'
    ||| '\u{100000}' <= ch <= '\u{10fffd}'
}

/// The columns one character takes, given what is reported of it: no column if nothing is, and at
/// least two for a private-use codepoint.
pub open spec fn corrected_width(ch: char, reported: Option<usize>) -> nat {
    let width = match reported {
        Some(w) => w as nat,
        None => 0,
    };
    if private_use(ch) && width < 2 {
        2
    } else {
        width
    }
}

/// What `unicode-width` says of a character: one column for printable ASCII and the ellipsis, nothing
/// for a control character, and what its table holds for any other.
pub open spec fn reported_width(ch: char) -> Option<usize> {
    if ' ' <= ch <= '~' || ch == '\u{2026}' {
        Some(1)
    } else if ch <= '\u{1f}' || '\u{7f}' <= ch <= '\u{9f}' {
        None
    } else {
        unicode_char_width(ch)
    }
}

/// The columns one character takes, given what `unicode-width` says of it.
pub open spec fn glyph_width(ch: char) -> nat {
    corrected_width(ch, reported_width(ch))
}

/// The graphemes of a text: single characters in printable ASCII, and what `unicode-segmentation`
/// makes of any other.
pub open spec fn clusters(text: Seq<char>) -> Seq<Seq<char>> {
    if printable_ascii(text) {
        singles(text)
    } else {
        grapheme_clusters(text)
    }
}

/// The columns that `unicode-width` counts in a whole text: one for each character of printable
/// ASCII, and what it makes of any other.
pub open spec fn counted_columns(text: Seq<char>) -> nat {
    if printable_ascii(text) {
        text.len()
    } else {
        unicode_str_width(text) as nat
    }
}

/// The columns that literal text takes.
pub open spec fn columns(text: Seq<char>) -> nat
    decreases text.len(),
{
    if text.len() == 0 {
        0
    } else {
        columns(text.drop_last()) + glyph_width(text.last())
    }
}

/// The columns that styled text takes: its control sequences take none.
pub open spec fn width(s: Seq<char>) -> nat {
    columns(ansi::visible(s))
}

pub proof fn lemma_columns_concat(a: Seq<char>, b: Seq<char>)
    ensures
        columns(a + b) == columns(a) + columns(b),
    decreases b.len(),
{
    if b.len() == 0 {
        assert(a + b =~= a);
    } else {
        lemma_columns_concat(a, b.drop_last());
        assert((a + b).drop_last() =~= a + b.drop_last());
    }
}

/// Printable ASCII takes one column for each character.
pub proof fn law_ascii_takes_a_column_each(text: Seq<char>)
    requires
        printable_ascii(text),
    ensures
        columns(text) == text.len(),
    decreases text.len(),
{
    if text.len() > 0 {
        let rest = text.drop_last();
        assert forall|i: int| 0 <= i < rest.len() implies ' ' <= #[trigger] rest[i] <= '~' by {
            assert(rest[i] == text[i]);
        }
        law_ascii_takes_a_column_each(rest);
        assert(' ' <= text[text.len() - 1] <= '~');
    }
}

/// The bytes `ch` takes in UTF-8.
pub open spec fn utf8_bytes(ch: char) -> nat {
    if ch <= '\u{7f}' {
        1
    } else if ch <= '\u{7ff}' {
        2
    } else if ch <= '\u{ffff}' {
        3
    } else {
        4
    }
}

/// The bytes `text` takes in UTF-8.
pub open spec fn byte_count(text: Seq<char>) -> nat
    decreases text.len(),
{
    if text.len() == 0 {
        0
    } else {
        byte_count(text.drop_last()) + utf8_bytes(text.last())
    }
}

proof fn lemma_byte_count_concat(a: Seq<char>, b: Seq<char>)
    ensures
        byte_count(a + b) == byte_count(a) + byte_count(b),
    decreases b.len(),
{
    if b.len() == 0 {
        assert(a + b =~= a);
    } else {
        lemma_byte_count_concat(a, b.drop_last());
        assert((a + b).drop_last() =~= a + b.drop_last());
    }
}

pub proof fn lemma_ascii_concat(a: Seq<char>, b: Seq<char>)
    ensures
        printable_ascii(a + b) <==> printable_ascii(a) && printable_ascii(b),
{
    assert forall|i: int| printable_ascii(a + b) && 0 <= i < a.len() implies ' '
        <= #[trigger] a[i] <= '~' by {
        assert((a + b)[i] == a[i]);
    }
    assert forall|i: int| printable_ascii(a + b) && 0 <= i < b.len() implies ' '
        <= #[trigger] b[i] <= '~' by {
        assert((a + b)[a.len() + i] == b[i]);
    }
}

proof fn lemma_scalar_bytes(ch: char)
    ensures
        vstd::utf8::encode_scalar(ch as u32).len() == utf8_bytes(ch),
{
}

proof fn lemma_byte_count(text: Seq<char>)
    ensures
        byte_count(text) == vstd::utf8::encode_utf8(text).len(),
    decreases text.len(),
{
    if text.len() > 0 {
        let head = seq![text[0]];
        lemma_byte_count(text.drop_first());
        lemma_byte_count_concat(head, text.drop_first());
        assert(text =~= head + text.drop_first());
        assert(head.drop_last() =~= Seq::<char>::empty());
        assert(byte_count(Seq::<char>::empty()) == 0);
        assert(byte_count(head) == utf8_bytes(text[0]));
        lemma_scalar_bytes(text[0]);
    }
}

proof fn lemma_visible_bytes(list: Seq<SpanView>)
    ensures
        byte_count(ansi::visible_of(list)) <= byte_count(ansi::join(list)),
    decreases list.len(),
{
    if list.len() > 0 {
        lemma_visible_bytes(list.drop_last());
        lemma_byte_count_concat(ansi::visible_of(list.drop_last()), list.last().visible());
        lemma_byte_count_concat(ansi::join(list.drop_last()), list.last().chars());
    }
}

/// Whether `ch` is one of the codepoints that nerd-font glyphs occupy.
pub fn is_private_use(ch: char) -> (res: bool)
    ensures
        res == private_use(ch),
{
    ('\u{e000}' <= ch && ch <= '\u{f8ff}') || ('\u{f0000}' <= ch && ch <= '\u{ffffd}') || (
    '\u{100000}' <= ch && ch <= '\u{10fffd}')
}

/// The columns that `ch` takes, given what is reported of it. Terminals disagree on the width of
/// private-use glyphs, so an estimate that is too large is the safe direction.
pub fn correct_width(ch: char, reported: Option<usize>) -> (res: usize)
    ensures
        res == corrected_width(ch, reported),
{
    let width: usize = match reported {
        Some(w) => w,
        None => 0,
    };
    if is_private_use(ch) && width < 2 {
        2
    } else {
        width
    }
}

/// The columns that `ch` takes.
pub fn glyph_display_width(ch: char) -> (res: usize)
    ensures
        res == glyph_width(ch),
        res <= utf8_bytes(ch),
{
    correct_width(ch, char_width(ch))
}

/// The columns that one grapheme takes.
pub fn grapheme_width(g: &str) -> (res: usize)
    ensures
        res == columns(g@),
        res <= byte_count(g@),
{
    let chars = chars_of(g);
    let limit: usize = g.as_bytes().len();
    proof {
        lemma_byte_count(g@);
    }
    let mut res: usize = 0;
    let mut i: usize = 0;
    while i < chars.len()
        invariant
            i <= chars@.len(),
            chars@ == g@,
            limit == byte_count(g@),
            res == columns(g@.take(i as int)),
            res <= byte_count(g@.take(i as int)),
        decreases chars@.len() - i,
    {
        proof {
            assert(g@.take(i + 1).drop_last() =~= g@.take(i as int));
            lemma_byte_count_concat(g@.take(i + 1), g@.skip(i + 1));
            assert(g@ =~= g@.take(i + 1) + g@.skip(i + 1));
        }
        res = res + glyph_display_width(chars[i]);
        i = i + 1;
    }
    assert(g@.take(i as int) =~= g@);
    res
}

/// The columns that literal text takes.
fn text_width(t: &str) -> (res: usize)
    ensures
        res == columns(t@),
        res <= byte_count(t@),
{
    let pieces = graphemes(t);
    let limit: usize = t.as_bytes().len();
    proof {
        lemma_byte_count(t@);
    }
    let ghost views = text::texts(pieces@);
    let mut res: usize = 0;
    let mut i: usize = 0;
    assert(views.take(0).flatten() =~= Seq::<char>::empty());
    while i < pieces.len()
        invariant
            i <= pieces@.len(),
            views == text::texts(pieces@),
            views.flatten() == t@,
            limit == byte_count(t@),
            res == columns(views.take(i as int).flatten()),
            res <= byte_count(views.take(i as int).flatten()),
        decreases pieces@.len() - i,
    {
        proof {
            let done = views.take(i as int);
            let piece = views[i as int];
            assert(views.take(i + 1) =~= done.push(piece));
            done.lemma_flatten_push(piece);
            lemma_columns_concat(done.flatten(), piece);
            lemma_byte_count_concat(done.flatten(), piece);
            vstd::seq_lib::lemma_flatten_concat(views.take(i + 1), views.skip(i + 1));
            assert(views =~= views.take(i + 1) + views.skip(i + 1));
            lemma_byte_count_concat(
                views.take(i + 1).flatten(),
                views.skip(i + 1).flatten(),
            );
        }
        res = res + grapheme_width(pieces[i].as_str());
        i = i + 1;
    }
    assert(views.take(i as int) =~= views);
    res
}

/// The columns that styled text takes: the widths of its graphemes, control sequences ignored.
pub fn display_width(s: &str) -> (res: usize)
    ensures
        res == width(s@),
        printable_ascii(ansi::visible(s@)) ==> res == ansi::visible(s@).len(),
{
    let list = split_ansi_spans(s);
    let limit: usize = s.as_bytes().len();
    let ghost views = ansi::span_views(list@);
    proof {
        lemma_byte_count(s@);
        lemma_visible_bytes(views);
        ansi::law_spans_join_back(s@);
    }
    let mut res: usize = 0;
    let mut i: usize = 0;
    while i < list.len()
        invariant
            i <= list@.len(),
            views == ansi::span_views(list@),
            byte_count(ansi::visible_of(views)) <= limit,
            res == columns(ansi::visible_of(views.take(i as int))),
            res <= byte_count(ansi::visible_of(views.take(i as int))),
        decreases list@.len() - i,
    {
        proof {
            let done = ansi::visible_of(views.take(i as int));
            let seen = views[i as int].visible();
            assert(views.take(i + 1).drop_last() =~= views.take(i as int));
            assert(views[i as int] == list@[i as int]@);
            lemma_columns_concat(done, seen);
            lemma_byte_count_concat(done, seen);
            ansi::lemma_concat(views.take(i + 1), views.skip(i + 1));
            assert(views =~= views.take(i + 1) + views.skip(i + 1));
            lemma_byte_count_concat(
                ansi::visible_of(views.take(i + 1)),
                ansi::visible_of(views.skip(i + 1)),
            );
        }
        match &list[i] {
            Span::Text(t) => {
                res = res + text_width(t.as_str());
            },
            Span::Escape(_) => {},
        }
        i = i + 1;
    }
    proof {
        assert(views.take(i as int) =~= views);
        if printable_ascii(ansi::visible(s@)) {
            law_ascii_takes_a_column_each(ansi::visible(s@));
        }
    }
    res
}

/// A character takes the columns that `unicode-width` gives it, none if it is a control character,
/// and never less than two if it is one of the codepoints that nerd fonts use.
pub proof fn law_columns_of_a_character(text: Seq<char>, ch: char)
    ensures
        columns(Seq::empty()) == 0,
        columns(text.push(ch)) == columns(text) + columns(seq![ch]),
        ch < ' ' || '\u{7f}' <= ch < '\u{a0}' ==> columns(seq![ch]) == 0,
        ' ' <= ch <= '~' ==> columns(seq![ch]) == 1,
        '\u{e000}' <= ch <= '\u{f8ff}' || '\u{f0000}' <= ch <= '\u{ffffd}' || '\u{100000}' <= ch
            <= '\u{10fffd}' ==> columns(seq![ch]) >= 2,
        '\u{e000}' <= ch <= '\u{f8ff}' || '\u{f0000}' <= ch <= '\u{ffffd}' || '\u{100000}' <= ch
            <= '\u{10fffd}' ==> (columns(seq![ch]) == 2 || Some(columns(seq![ch]) as usize)
            == unicode_char_width(ch)),
        '\u{a0}' <= ch && ch != '\u{2026}' && !('\u{e000}' <= ch <= '\u{f8ff}') && !('\u{f0000}'
            <= ch <= '\u{ffffd}') && !('\u{100000}' <= ch <= '\u{10fffd}')
            && unicode_char_width(ch) is Some ==> columns(seq![ch]) == unicode_char_width(ch)->0,
{
    assert(seq![ch].drop_last() =~= Seq::<char>::empty());
    assert(columns(Seq::<char>::empty()) == 0);
    assert(columns(seq![ch]) == glyph_width(ch));
    assert(text.push(ch).drop_last() =~= text);
}

/// Control sequences take no columns: styled text is as wide as its text alone.
pub proof fn law_control_sequences_take_no_columns(
    front: Seq<char>,
    params: Seq<char>,
    last: char,
    rest: Seq<char>,
)
    requires
        forall|k: int|
            0 <= k < front.len() - 1 ==> !(#[trigger] front[k] == '\x1b' && front[k + 1] == '['),
        forall|i: int| 0 <= i < params.len() ==> !('@' <= #[trigger] params[i] <= '~'),
        '@' <= last <= '~',
    ensures
        width(front) == columns(front),
        width(front + seq!['\x1b', '['] + params + seq![last] + rest) == width(front) + width(rest),
{
    ansi::law_control_sequence_is_left_out(front, params, last, rest);
    ansi::law_plain_text_is_visible(front);
    lemma_columns_concat(front, ansi::visible(rest));
}

/// What is reported of a character counts, nothing as no column, but a codepoint of nerd fonts
/// takes at least two.
pub proof fn law_private_glyphs_take_two_columns(ch: char, w: usize)
    ensures
        ({
            let private = '\u{e000}' <= ch <= '\u{f8ff}' || '\u{f0000}' <= ch <= '\u{ffffd}'
                || '\u{100000}' <= ch <= '\u{10fffd}';
            &&& !private ==> corrected_width(ch, Some(w)) == w && corrected_width(ch, None) == 0
            &&& private && w < 2 ==> corrected_width(ch, Some(w)) == 2
            &&& private && w >= 2 ==> corrected_width(ch, Some(w)) == w
            &&& private ==> corrected_width(ch, None) == 2
        }),
{
}

} // verus!

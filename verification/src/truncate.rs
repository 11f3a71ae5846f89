//! Cutting styled text to a number of columns.

use crate::ansi::{self, split_ansi_spans, Span, SpanView};
use crate::text;
use crate::width::{self, display_width, grapheme_width, graphemes};
use vstd::prelude::*;

verus! {

/// What stands in for text that was cut off.
pub const ELLIPSIS: &'static str = "\u{2026}";

/// How many pieces fit into `room` columns, counted from the front, given the width of each.
pub open spec fn fitting(widths: Seq<usize>, room: nat) -> nat
    decreases widths.len(),
{
    if widths.len() == 0 || widths[0] > room {
        0
    } else {
        1 + fitting(widths.skip(1), (room - widths[0]) as nat)
    }
}

/// The widths of all pieces together.
pub open spec fn sum(widths: Seq<usize>) -> nat
    decreases widths.len(),
{
    if widths.len() == 0 {
        0
    } else {
        sum(widths.drop_last()) + widths.last() as nat
    }
}

/// How many graphemes fit into `room` columns, counted from the front.
pub open spec fn kept(pieces: Seq<Seq<char>>, room: nat) -> nat
    decreases pieces.len(),
{
    if pieces.len() == 0 || width::columns(pieces[0]) > room {
        0
    } else {
        1 + kept(pieces.skip(1), (room - width::columns(pieces[0])) as nat)
    }
}

/// The graphemes of literal text that fit into `room` columns, put together.
pub open spec fn kept_text(t: Seq<char>, room: nat) -> Seq<char> {
    let pieces = width::clusters(t);
    pieces.take(kept(pieces, room) as int).flatten()
}

/// All graphemes of `t` fit into `room` columns.
pub open spec fn fits_whole(t: Seq<char>, room: nat) -> bool {
    kept(width::clusters(t), room) == width::clusters(t).len()
}

/// The segments cut to `room` columns: every control sequence stays, text stays up to the first
/// grapheme that no longer fits. Once a grapheme was cut (`done`), no more text stays.
pub open spec fn cut(list: Seq<SpanView>, room: nat, done: bool) -> Seq<SpanView>
    decreases list.len(),
{
    if list.len() == 0 {
        Seq::empty()
    } else {
        match list[0] {
            SpanView::Escape(e) => seq![SpanView::Escape(e)] + cut(list.skip(1), room, done),
            SpanView::Text(t) => if done {
                seq![SpanView::Text(Seq::empty())] + cut(list.skip(1), room, true)
            } else {
                let text = kept_text(t, room);
                seq![SpanView::Text(text)] + cut(
                    list.skip(1),
                    (room - width::columns(text)) as nat,
                    !fits_whole(t, room),
                )
            },
        }
    }
}

/// Styled text cut to `max_width` columns at a grapheme boundary.
pub open spec fn truncated(s: Seq<char>, max_width: nat) -> Seq<char> {
    ansi::join(cut(ansi::spans(s), max_width, false))
}

/// The smaller of two numbers.
pub open spec fn at_most(n: nat, limit: nat) -> nat {
    if n <= limit {
        n
    } else {
        limit
    }
}

/// The segments with their text cut to `room` characters in all: every control sequence stays.
pub open spec fn clipped_spans(list: Seq<SpanView>, room: nat) -> Seq<SpanView>
    decreases list.len(),
{
    if list.len() == 0 {
        Seq::empty()
    } else {
        match list[0] {
            SpanView::Escape(e) => seq![SpanView::Escape(e)] + clipped_spans(list.skip(1), room),
            SpanView::Text(t) => {
                let n = at_most(t.len(), room);
                seq![SpanView::Text(t.take(n as int))] + clipped_spans(
                    list.skip(1),
                    (room - n) as nat,
                )
            },
        }
    }
}

/// Styled text cut to `max_len` visible characters, control sequences intact around them.
pub open spec fn clipped(s: Seq<char>, max_len: nat) -> Seq<char> {
    ansi::join(clipped_spans(ansi::spans(s), max_len))
}

proof fn lemma_kept_singles(t: Seq<char>, room: nat)
    requires
        width::printable_ascii(t),
    ensures
        kept(width::singles(t), room) == at_most(t.len(), room),
    decreases t.len(),
{
    if t.len() > 0 {
        let pieces = width::singles(t);
        let rest = t.skip(1);
        assert forall|i: int| 0 <= i < rest.len() implies ' ' <= #[trigger] rest[i] <= '~' by {
            assert(rest[i] == t[i + 1]);
        }
        assert(width::printable_ascii(pieces[0])) by {
            assert(' ' <= t[0] <= '~');
        }
        width::law_ascii_takes_a_column_each(pieces[0]);
        assert(pieces.skip(1) =~= width::singles(rest));
        if room > 0 {
            lemma_kept_singles(rest, (room - 1) as nat);
        }
    }
}

proof fn lemma_flatten_singles(t: Seq<char>)
    ensures
        width::singles(t).flatten() == t,
    decreases t.len(),
{
    if t.len() == 0 {
        assert(width::singles(t).flatten() =~= t);
    } else {
        let rest = t.drop_last();
        lemma_flatten_singles(rest);
        assert(width::singles(t) =~= width::singles(rest).push(seq![t.last()]));
        width::singles(rest).lemma_flatten_push(seq![t.last()]);
        assert(width::singles(t).flatten() =~= t);
    }
}

/// Of printable ASCII, as many characters are kept as there are columns.
proof fn lemma_kept_ascii(t: Seq<char>, room: nat)
    requires
        width::printable_ascii(t),
    ensures
        kept_text(t, room) == t.take(at_most(t.len(), room) as int),
        width::columns(kept_text(t, room)) == at_most(t.len(), room),
        fits_whole(t, room) == (t.len() <= room),
{
    let n = at_most(t.len(), room) as int;
    let part = t.take(n);
    lemma_kept_singles(t, room);
    assert(width::singles(t).take(n) =~= width::singles(part));
    lemma_flatten_singles(part);
    assert forall|i: int| 0 <= i < part.len() implies ' ' <= #[trigger] part[i] <= '~' by {
        assert(part[i] == t[i]);
    }
    width::law_ascii_takes_a_column_each(part);
}

proof fn lemma_cut_ascii(list: Seq<SpanView>, room: nat, done: bool)
    requires
        width::printable_ascii(ansi::visible_of(list)),
        done ==> room == 0,
    ensures
        cut(list, room, done) == clipped_spans(list, room),
        ansi::visible_of(clipped_spans(list, room)) == ansi::visible_of(list).take(
            at_most(ansi::visible_of(list).len(), room) as int,
        ),
    decreases list.len(),
{
    if list.len() == 0 {
        assert(ansi::visible_of(clipped_spans(list, room)) =~= ansi::visible_of(list).take(0));
    } else {
        let head = list[0];
        let tail = list.skip(1);
        assert(list =~= seq![head] + tail);
        ansi::lemma_concat(seq![head], tail);
        ansi::lemma_single(head);
        width::lemma_ascii_concat(head.visible(), ansi::visible_of(tail));
        match head {
            SpanView::Escape(e) => {
                lemma_cut_ascii(tail, room, done);
                ansi::lemma_concat(seq![head], clipped_spans(tail, room));
                assert(ansi::visible_of(list) =~= ansi::visible_of(tail));
                assert(ansi::visible_of(clipped_spans(list, room)) =~= ansi::visible_of(
                    clipped_spans(tail, room),
                ));
            },
            SpanView::Text(t) => {
                let n = at_most(t.len(), room);
                let new = SpanView::Text(t.take(n as int));
                let left = (room - n) as nat;
                lemma_kept_ascii(t, room);
                if done {
                    assert(t.take(0) =~= Seq::empty());
                }
                lemma_cut_ascii(tail, left, done || t.len() > room);
                ansi::lemma_single(new);
                ansi::lemma_concat(seq![new], clipped_spans(tail, left));
                assert(ansi::visible_of(clipped_spans(list, room)) =~= ansi::visible_of(list).take(
                    at_most(ansi::visible_of(list).len(), room) as int,
                ));
            },
        }
    }
}

/// Printable ASCII is cut to as many characters as there are columns.
pub proof fn law_ascii_is_cut_by_length(s: Seq<char>, max_width: nat)
    requires
        width::printable_ascii(ansi::visible(s)),
    ensures
        truncated(s, max_width) == clipped(s, max_width),
{
    lemma_cut_ascii(ansi::spans(s), max_width, false);
}

/// Printable ASCII without control sequences is cut to a prefix.
pub proof fn law_plain_ascii_is_cut_to_a_prefix(s: Seq<char>, max_width: nat)
    requires
        width::printable_ascii(s),
    ensures
        truncated(s, max_width) == s.take(at_most(s.len(), max_width) as int),
{
    assert(ansi::is_plain(s)) by {
        assert forall|k: int| 0 <= k < s.len() - 1 implies !(#[trigger] s[k] == '\x1b' && s[k + 1]
            == '[') by {
            assert(' ' <= s[k]);
        }
    }
    ansi::law_plain_text_is_visible(s);
    lemma_cut_ascii(ansi::spans(s), max_width, false);
    ansi::law_spans_join_back(s);
    lemma_plain_joins(ansi::spans(s), max_width);
}

/// Without control sequences, what is left of some segments is what is visible of it.
proof fn lemma_plain_joins(list: Seq<SpanView>, room: nat)
    requires
        ansi::escapes_of(list).len() == 0,
    ensures
        ansi::join(clipped_spans(list, room)) == ansi::visible_of(clipped_spans(list, room)),
    decreases list.len(),
{
    if list.len() > 0 {
        let head = list[0];
        let tail = list.skip(1);
        assert(list =~= seq![head] + tail);
        ansi::lemma_concat(seq![head], tail);
        ansi::lemma_single(head);
        if let SpanView::Text(t) = head {
            let n = at_most(t.len(), room);
            let new = SpanView::Text(t.take(n as int));
            lemma_plain_joins(tail, (room - n) as nat);
            ansi::lemma_single(new);
            ansi::lemma_concat(seq![new], clipped_spans(tail, (room - n) as nat));
        }
    }
}

/// `part` is `whole` with some text cut short.
spec fn is_cut_of(part: Seq<SpanView>, whole: Seq<SpanView>) -> bool {
    &&& part.len() == whole.len()
    &&& forall|i: int|
        0 <= i < part.len() ==> match (#[trigger] part[i], whole[i]) {
            (SpanView::Escape(a), SpanView::Escape(b)) => a == b,
            (SpanView::Text(a), SpanView::Text(b)) => a.is_prefix_of(b),
            _ => false,
        }
}

proof fn lemma_cut_well_formed(part: Seq<SpanView>, whole: Seq<SpanView>)
    requires
        is_cut_of(part, whole),
        ansi::well_formed(whole),
    ensures
        ansi::well_formed(part),
{
    assert forall|i: int| 0 <= i < part.len() implies match #[trigger] part[i] {
        SpanView::Text(t) => ansi::is_plain(t) && (i + 1 < part.len() ==> part[i + 1] is Escape),
        SpanView::Escape(e) => ansi::is_escape(e) && (i + 1 < part.len() ==> ansi::is_terminated(
            e,
        )),
    } by {
        if i + 1 < part.len() {
            assert(part[i + 1] is Escape == whole[i + 1] is Escape);
        }
        match (part[i], whole[i]) {
            (SpanView::Text(a), SpanView::Text(b)) => {
                assert forall|k: int| 0 <= k < a.len() - 1 implies !(#[trigger] a[k] == '\x1b'
                    && a[k + 1] == '[') by {
                    assert(a[k] == b[k] && a[k + 1] == b[k + 1]);
                }
            },
            _ => {},
        }
    }
}

proof fn lemma_cut_escapes(part: Seq<SpanView>, whole: Seq<SpanView>)
    requires
        is_cut_of(part, whole),
    ensures
        ansi::escapes_of(part) == ansi::escapes_of(whole),
    decreases part.len(),
{
    if part.len() > 0 {
        let p = part.drop_last();
        let w = whole.drop_last();
        assert(part[part.len() - 1] == part.last());
        assert forall|i: int| 0 <= i < p.len() implies match (#[trigger] p[i], w[i]) {
            (SpanView::Escape(a), SpanView::Escape(b)) => a == b,
            (SpanView::Text(a), SpanView::Text(b)) => a.is_prefix_of(b),
            _ => false,
        } by {
            assert(p[i] == part[i] && w[i] == whole[i]);
        }
        lemma_cut_escapes(p, w);
    }
}

/// Puts the pieces that fit into `room` columns at the end of `out`, given the width of each.
/// Returns the columns they take and whether they are all of them.
pub fn keep_pieces(
    out: &mut String,
    pieces: &Vec<String>,
    widths: &Vec<usize>,
    room: usize,
) -> (res: (usize, bool))
    requires
        pieces@.len() == widths@.len(),
    ensures
        ({
            let n = fitting(widths@, room as nat);
            &&& n <= pieces@.len()
            &&& final(out)@ == old(out)@ + text::texts(pieces@).take(n as int).flatten()
            &&& res.0 == sum(widths@.take(n as int))
            &&& res.0 <= room
            &&& res.1 == (n == pieces@.len())
        }),
{
    let ghost views = text::texts(pieces@);
    let ghost start = out@;
    let ghost all = widths@;
    let mut used: usize = 0;
    let mut i: usize = 0;
    let mut full = false;
    assert(all.skip(0) =~= all);
    assert(views.take(0).flatten() =~= Seq::<char>::empty());
    assert(start + views.take(0).flatten() =~= start);
    while !full && i < pieces.len()
        invariant
            i <= pieces@.len(),
            pieces@.len() == widths@.len(),
            views == text::texts(pieces@),
            all == widths@,
            used <= room,
            out@ == start + views.take(i as int).flatten(),
            used == sum(all.take(i as int)),
            fitting(all, room as nat) == i + fitting(all.skip(i as int), (room - used) as nat),
            full ==> fitting(all.skip(i as int), (room - used) as nat) == 0 && i < pieces@.len(),
        decreases pieces@.len() - i + (if full { 0int } else { 1int }),
    {
        let w = widths[i];
        assert(all.skip(i as int)[0] == all[i as int]);
        if w > room - used {
            full = true;
        } else {
            proof {
                let done = views.take(i as int);
                let piece = views[i as int];
                assert(views.take(i + 1) =~= done.push(piece));
                done.lemma_flatten_push(piece);
                assert(all.skip(i as int).skip(1) =~= all.skip(i + 1));
                assert(all.take(i + 1).drop_last() =~= all.take(i as int));
                assert(start + done.flatten() + piece =~= start + (done.flatten() + piece));
            }
            out.append(pieces[i].as_str());
            used = used + w;
            i = i + 1;
        }
    }
    assert(i == fitting(all, room as nat));
    (used, !full)
}

/// The widths of pieces, as numbers, tell how many of them are kept.
proof fn lemma_kept(pieces: Seq<Seq<char>>, widths: Seq<usize>, room: nat)
    requires
        pieces.len() == widths.len(),
        forall|i: int| 0 <= i < pieces.len() ==> width::columns(#[trigger] pieces[i]) == widths[i],
    ensures
        kept(pieces, room) == fitting(widths, room),
    decreases pieces.len(),
{
    if pieces.len() > 0 && width::columns(pieces[0]) <= room {
        assert(width::columns(pieces[0]) == widths[0]);
        assert forall|i: int| 0 <= i < pieces.skip(1).len() implies width::columns(
            #[trigger] pieces.skip(1)[i],
        ) == widths.skip(1)[i] by {
            assert(pieces.skip(1)[i] == pieces[i + 1]);
        }
        lemma_kept(pieces.skip(1), widths.skip(1), (room - widths[0]) as nat);
    } else if pieces.len() > 0 {
        assert(width::columns(pieces[0]) == widths[0]);
    }
}

/// Pieces put together take the columns of all of them.
proof fn lemma_sum(pieces: Seq<Seq<char>>, widths: Seq<usize>)
    requires
        pieces.len() == widths.len(),
        forall|i: int| 0 <= i < pieces.len() ==> width::columns(#[trigger] pieces[i]) == widths[i],
    ensures
        width::columns(pieces.flatten()) == sum(widths),
    decreases pieces.len(),
{
    if pieces.len() == 0 {
        assert(pieces.flatten() =~= Seq::<char>::empty());
    } else {
        let rest = pieces.drop_last();
        assert forall|i: int| 0 <= i < rest.len() implies width::columns(#[trigger] rest[i])
            == widths.drop_last()[i] by {
            assert(rest[i] == pieces[i]);
        }
        lemma_sum(rest, widths.drop_last());
        assert(pieces =~= rest.push(pieces.last()));
        rest.lemma_flatten_push(pieces.last());
        width::lemma_columns_concat(rest.flatten(), pieces.last());
        assert(width::columns(pieces[pieces.len() - 1]) == widths[pieces.len() - 1]);
    }
}

/// Puts the graphemes of `t` that fit into `room` columns at the end of `out`.
/// Returns the columns they take and whether they are all of `t`.
fn append_kept(out: &mut String, t: &str, room: usize) -> (res: (usize, bool))
    ensures
        final(out)@ == old(out)@ + kept_text(t@, room as nat),
        res.0 == width::columns(kept_text(t@, room as nat)),
        res.0 <= room,
        res.1 == fits_whole(t@, room as nat),
        kept_text(t@, room as nat).is_prefix_of(t@),
        res.1 ==> kept_text(t@, room as nat) == t@,
        width::columns(t@) <= room ==> res.1,
{
    let pieces = graphemes(t);
    let ghost views = text::texts(pieces@);
    let mut widths: Vec<usize> = Vec::new();
    let mut i: usize = 0;
    while i < pieces.len()
        invariant
            i <= pieces@.len(),
            views == text::texts(pieces@),
            widths@.len() == i,
            forall|k: int| 0 <= k < i ==> width::columns(#[trigger] views[k]) == widths@[k],
        decreases pieces@.len() - i,
    {
        widths.push(grapheme_width(pieces[i].as_str()));
        assert(views[i as int] == pieces@[i as int]@);
        i = i + 1;
    }
    let res = keep_pieces(out, &pieces, &widths, room);
    proof {
        let n = fitting(widths@, room as nat) as int;
        lemma_kept(views, widths@, room as nat);
        assert forall|k: int| 0 <= k < n implies width::columns(#[trigger] views.take(n)[k])
            == widths@.take(n)[k] by {
            assert(views.take(n)[k] == views[k]);
        }
        lemma_sum(views.take(n), widths@.take(n));
        vstd::seq_lib::lemma_flatten_concat(views.take(n), views.skip(n));
        assert(views =~= views.take(n) + views.skip(n));
        assert(kept_text(t@, room as nat).is_prefix_of(t@));
        if res.1 {
            assert(views.take(n) =~= views);
        }
        if width::columns(t@) <= room {
            lemma_whole_text_kept(t@, room as nat);
        }
    }
    res
}

/// Cuts `s` to at most `max_width` columns at a grapheme boundary. Control sequences are all kept
/// in full and never counted.
#[verifier::rlimit(40)]
pub fn truncate_to_width(s: &str, max_width: usize) -> (res: String)
    ensures
        res@ == truncated(s@, max_width as nat),
        width::width(res@) <= max_width,
        ansi::visible(res@).is_prefix_of(ansi::visible(s@)),
        ansi::escapes(res@) == ansi::escapes(s@),
        width::width(s@) <= max_width ==> res@ == s@,
        width::printable_ascii(ansi::visible(s@)) ==> res@ == clipped(s@, max_width as nat)
            && ansi::visible(res@) == ansi::visible(s@).take(
            at_most(ansi::visible(s@).len(), max_width as nat) as int,
        ),
{
    let list = split_ansi_spans(s);
    let ghost views = ansi::span_views(list@);
    let ghost goal = cut(views, max_width as nat, false);
    let ghost mut built: Seq<SpanView> = Seq::empty();
    let mut res = String::new();
    let mut room: usize = max_width;
    let mut done = false;
    let mut i: usize = 0;
    assert(views.skip(0) =~= views);
    assert(built + goal =~= goal);
    while i < list.len()
        invariant
            i <= list@.len(),
            views == ansi::span_views(list@),
            goal == built + cut(views.skip(i as int), room as nat, done),
            res@ == ansi::join(built),
            is_cut_of(built, views.take(i as int)),
            room <= max_width,
            width::columns(ansi::visible_of(built)) == max_width - room,
            ansi::visible_of(built).is_prefix_of(ansi::visible_of(views.take(i as int))),
            !done ==> ansi::visible_of(built) == ansi::visible_of(views.take(i as int)),
            !done ==> built == views.take(i as int),
            done ==> width::columns(ansi::visible_of(views.take(i as int))) > max_width,
        decreases list@.len() - i,
    {
        let ghost before = built;
        let ghost head = views[i as int];
        let ghost was_done = done;
        let ghost old_room = room;
        proof {
            assert(head == list@[i as int]@);
            assert(views.skip(i as int)[0] == head);
            assert(views.skip(i as int).skip(1) =~= views.skip(i + 1));
            assert(views.take(i + 1).drop_last() =~= views.take(i as int));
        }
        match &list[i] {
            Span::Escape(e) => {
                res.append(e.as_str());
                proof {
                    built = before.push(head);
                }
            },
            Span::Text(t) => {
                if done {
                    proof {
                        built = before.push(SpanView::Text(Seq::empty()));
                    }
                } else {
                    let (used, whole) = append_kept(&mut res, t.as_str(), room);
                    proof {
                        built = before.push(SpanView::Text(kept_text(t@, room as nat)));
                        width::lemma_columns_concat(
                            ansi::visible_of(before),
                            kept_text(t@, room as nat),
                        );
                    }
                    room = room - used;
                    done = !whole;
                }
            },
        }
        proof {
            assert(built.drop_last() =~= before);
            let new = built.last();
            assert(before + (seq![new] + cut(views.skip(i + 1), room as nat, done)) =~= built + cut(
                views.skip(i + 1),
                room as nat,
                done,
            ));
            assert(goal == built + cut(views.skip(i + 1), room as nat, done));
            assert(res@ =~= ansi::join(built));
            let whole = views.take(i + 1);
            let old_whole = views.take(i as int);
            assert forall|k: int| 0 <= k < built.len() implies match (
                #[trigger] built[k],
                whole[k],
            ) {
                (SpanView::Escape(a), SpanView::Escape(b)) => a == b,
                (SpanView::Text(a), SpanView::Text(b)) => a.is_prefix_of(b),
                _ => false,
            } by {
                if k < before.len() {
                    assert(built[k] == before[k] && whole[k] == old_whole[k]);
                }
            }
            assert(ansi::visible_of(built) == ansi::visible_of(before) + new.visible());
            assert(ansi::visible_of(whole) == ansi::visible_of(old_whole) + head.visible());
            width::lemma_columns_concat(ansi::visible_of(old_whole), head.visible());
            if was_done || !(head is Text) {
                assert(ansi::visible_of(built) =~= ansi::visible_of(before));
            }
            assert(ansi::visible_of(built).is_prefix_of(ansi::visible_of(whole)));
            if !done {
                assert(ansi::visible_of(built) =~= ansi::visible_of(whole));
                assert(new == head);
                assert(whole =~= old_whole.push(head));
            } else if !was_done {
                assert(width::columns(head.visible()) > old_room);
            }
        }
        i = i + 1;
    }
    proof {
        assert(views.take(i as int) =~= views);
        assert(goal =~= built);
        ansi::law_spans_join_back(s@);
        ansi::law_spans_well_formed(s@);
        lemma_cut_well_formed(built, views);
        lemma_cut_escapes(built, views);
        ansi::law_join_splits_back(built);
        if width::printable_ascii(ansi::visible(s@)) {
            lemma_cut_ascii(views, max_width as nat, false);
        }
    }
    res
}

/// The ellipsis takes one column.
pub proof fn law_ellipsis_takes_one_column()
    ensures
        width::width(ELLIPSIS@) == 1,
{
    reveal_strlit("\u{2026}");
    assert(ELLIPSIS@ =~= seq!['\u{2026}']);
    ansi::law_plain_text_is_visible(ELLIPSIS@);
    let empty = Seq::<char>::empty();
    assert(ELLIPSIS@.drop_last() =~= empty);
    assert(width::columns(empty) == 0);
}

/// Text that is too wide cut to make room for an ellipsis, with the ellipsis at its end.
/// Text that fits is left alone.
pub open spec fn ellipsized(s: Seq<char>, max_width: nat) -> Seq<char> {
    let mark = width::width(ELLIPSIS@);
    if width::width(s) <= max_width {
        s
    } else {
        truncated(
            s,
            if mark <= max_width {
                (max_width - mark) as nat
            } else {
                0
            },
        ) + ELLIPSIS@
    }
}

/// Text put after styled text takes at most its own columns.
proof fn lemma_append_width(s: Seq<char>, c: char)
    requires
        c != '[',
        !ansi::is_final_char(c),
    ensures
        width::width(s.push(c)) <= width::width(s) + width::glyph_width(c),
{
    let list = ansi::spans(s);
    ansi::law_spans_well_formed(s);
    ansi::law_spans_join_back(s);
    let tail = seq![SpanView::Text(seq![c])];
    ansi::lemma_single(SpanView::Text(seq![c]));
    let empty = Seq::<char>::empty();
    assert(seq![c].drop_last() =~= empty);
    assert(width::columns(empty) == 0);
    assert(width::columns(seq![c]) == width::glyph_width(c));
    width::lemma_columns_concat(ansi::visible(s), seq![c]);
    if list.len() == 0 {
        assert(s.push(c) =~= seq![c]);
        ansi::law_plain_text_is_visible(seq![c]);
    } else {
        let init = list.drop_last();
        let last = list.last();
        assert(list[list.len() - 1] == last);
        let new = match last {
            SpanView::Text(t) => init.push(SpanView::Text(t.push(c))),
            SpanView::Escape(e) => if ansi::is_terminated(e) {
                list + tail
            } else {
                init.push(SpanView::Escape(e.push(c)))
            },
        };
        assert(new.drop_last() =~= if last is Escape && ansi::is_terminated(last.chars()) {
            list
        } else {
            init
        });
        assert(ansi::join(new) =~= s.push(c));
        assert(ansi::well_formed(new)) by {
            if let SpanView::Text(t) = last {
                let u = t.push(c);
                assert forall|k: int| 0 <= k < u.len() - 1 implies !(#[trigger] u[k] == '\x1b'
                    && u[k + 1] == '[') by {
                    assert(u[k] == t[k]);
                    if k + 1 < t.len() {
                        assert(u[k + 1] == t[k + 1]);
                    }
                }
            }
            if let SpanView::Escape(e) = last {
                if !ansi::is_terminated(e) {
                    lemma_unterminated_grows(e, c);
                }
            }
            assert forall|i: int| 0 <= i < new.len() implies match #[trigger] new[i] {
                SpanView::Text(t) => ansi::is_plain(t) && (i + 1 < new.len() ==> new[i
                    + 1] is Escape),
                SpanView::Escape(e) => ansi::is_escape(e) && (i + 1 < new.len()
                    ==> ansi::is_terminated(e)),
            } by {
                if i < init.len() {
                    assert(new[i] == list[i]);
                    assert(i + 1 < init.len() ==> new[i + 1] == list[i + 1]);
                }
            }
        }
        ansi::law_join_splits_back(new);
        match last {
            SpanView::Text(t) => {
                assert(ansi::visible_of(new) =~= ansi::visible(s) + seq![c]);
            },
            SpanView::Escape(e) => {
                assert(ansi::visible_of(list) =~= ansi::visible_of(init));
                if ansi::is_terminated(e) {
                    assert(ansi::visible_of(new) =~= ansi::visible(s) + seq![c]);
                } else {
                    assert(ansi::visible_of(new) =~= ansi::visible(s));
                }
            },
        }
    }
}

proof fn lemma_unterminated_grows(e: Seq<char>, c: char)
    requires
        ansi::is_escape(e),
        !ansi::is_terminated(e),
        !ansi::is_final_char(c),
    ensures
        ansi::is_escape(e.push(c)),
{
    assert(e.push(c).skip(2) =~= e.skip(2).push(c));
    if e.len() > 2 {
        assert(e.skip(2).last() == e.last());
    }
    lemma_parameters_grow(e.skip(2), c);
}

proof fn lemma_parameters_grow(p: Seq<char>, c: char)
    requires
        ansi::parameters_len(p) == p.len(),
        p.len() > 0 ==> !ansi::is_final_char(p.last()),
        !ansi::is_final_char(c),
    ensures
        ansi::parameters_len(p.push(c)) == p.len() + 1,
    decreases p.len(),
{
    let q = p.push(c);
    if p.len() == 0 {
        assert(q.skip(1) =~= Seq::<char>::empty());
        assert(ansi::parameters_len(q.skip(1)) == 0);
    } else {
        assert(q[0] == p[0]);
        assert(q.skip(1) =~= p.skip(1).push(c));
        if ansi::is_final_char(p[0]) {
            assert(p.len() == 1);
        }
        if p.len() > 1 {
            assert(p.skip(1).last() == p.last());
        }
        lemma_parameters_grow(p.skip(1), c);
    }
}

/// Cuts `s` to `max_width` columns and marks the cut with an ellipsis. Does nothing if `s` fits.
pub fn truncate_with_ellipsis(s: &str, max_width: usize) -> (res: String)
    ensures
        res@ == ellipsized(s@, max_width as nat),
        max_width > 0 ==> width::width(res@) <= max_width,
        width::printable_ascii(ansi::visible(s@)) ==> res@ == if ansi::visible(s@).len()
            <= max_width {
            s@
        } else {
            clipped(
                s@,
                if max_width > 0 {
                    (max_width - 1) as nat
                } else {
                    0
                },
            ) + ELLIPSIS@
        },
{
    proof {
        law_ellipsis_takes_one_column();
    }
    if display_width(s) <= max_width {
        return s.to_owned();
    }
    let mark = display_width(ELLIPSIS);
    let target: usize = max_width.saturating_sub(mark);
    let mut res = truncate_to_width(s, target);
    proof {
        reveal_strlit("\u{2026}");
        assert(ELLIPSIS@ =~= seq!['\u{2026}']);
        lemma_append_width(res@, '\u{2026}');
        assert(res@ + ELLIPSIS@ =~= res@.push('\u{2026}'));
    }
    res.append(ELLIPSIS);
    res
}

proof fn lemma_flatten_front(piece: Seq<char>, pieces: Seq<Seq<char>>)
    ensures
        (seq![piece] + pieces).flatten() == piece + pieces.flatten(),
{
    let none = Seq::<Seq<char>>::empty();
    assert(seq![piece] =~= none.push(piece));
    none.lemma_flatten_push(piece);
    assert(none.flatten() =~= Seq::<char>::empty());
    assert(seq![piece].flatten() =~= piece);
    vstd::seq_lib::lemma_flatten_concat(seq![piece], pieces);
}

/// As many pieces are kept as fit, counted from the front: those fit, and one more would not.
pub proof fn law_as_many_graphemes_stay_as_fit(pieces: Seq<Seq<char>>, room: nat)
    ensures
        kept(pieces, room) <= pieces.len(),
        width::columns(pieces.take(kept(pieces, room) as int).flatten()) <= room,
        kept(pieces, room) < pieces.len() ==> width::columns(
            pieces.take(kept(pieces, room) as int + 1).flatten(),
        ) > room,
    decreases pieces.len(),
{
    let n = kept(pieces, room) as int;
    let none = Seq::<char>::empty();
    assert(pieces.take(0).flatten() =~= none);
    assert(width::columns(none) == 0);
    if pieces.len() > 0 {
        let head = pieces[0];
        let rest = pieces.skip(1);
        assert(pieces =~= seq![head] + rest);
        if width::columns(head) > room {
            assert(pieces.take(1) =~= seq![head] + rest.take(0));
            lemma_flatten_front(head, rest.take(0));
            assert(rest.take(0).flatten() =~= none);
            assert(head + none =~= head);
        } else {
            let left = (room - width::columns(head)) as nat;
            law_as_many_graphemes_stay_as_fit(rest, left);
            assert(pieces.take(n) =~= seq![head] + rest.take(n - 1));
            lemma_flatten_front(head, rest.take(n - 1));
            width::lemma_columns_concat(head, rest.take(n - 1).flatten());
            if n < pieces.len() {
                assert(pieces.take(n + 1) =~= seq![head] + rest.take(n));
                lemma_flatten_front(head, rest.take(n));
                width::lemma_columns_concat(head, rest.take(n).flatten());
            }
        }
    }
}

proof fn lemma_columns_grow(pieces: Seq<Seq<char>>, m: int, n: int)
    requires
        0 <= m <= n <= pieces.len(),
    ensures
        width::columns(pieces.take(m).flatten()) <= width::columns(pieces.take(n).flatten()),
{
    let a = pieces.take(m);
    let b = pieces.take(n).skip(m);
    assert(pieces.take(n) =~= a + b);
    vstd::seq_lib::lemma_flatten_concat(a, b);
    width::lemma_columns_concat(a.flatten(), b.flatten());
}

proof fn lemma_whole_text_kept(t: Seq<char>, room: nat)
    requires
        width::clusters(t).flatten() == t,
        width::columns(t) <= room,
    ensures
        kept_text(t, room) == t,
        fits_whole(t, room),
{
    let pieces = width::clusters(t);
    law_as_many_graphemes_stay_as_fit(pieces, room);
    let n = kept(pieces, room) as int;
    assert(pieces.take(pieces.len() as int) =~= pieces);
    if n < pieces.len() {
        lemma_columns_grow(pieces, n + 1, pieces.len() as int);
    }
}

proof fn lemma_cut_when_done(list: Seq<SpanView>, room: nat)
    ensures
        ansi::join(cut(list, room, true)) == ansi::escapes_of(list).flatten(),
    decreases list.len(),
{
    if list.len() == 0 {
        assert(ansi::escapes_of(list).flatten() =~= Seq::<char>::empty());
    } else {
        let head = list[0];
        let tail = list.skip(1);
        lemma_cut_when_done(tail, room);
        assert(list =~= seq![head] + tail);
        ansi::lemma_concat(seq![head], tail);
        ansi::lemma_single(head);
        match head {
            SpanView::Escape(e) => {
                ansi::lemma_concat(seq![head], cut(tail, room, true));
                lemma_flatten_front(e, ansi::escapes_of(tail));
            },
            SpanView::Text(t) => {
                let new = SpanView::Text(Seq::empty());
                ansi::lemma_single(new);
                ansi::lemma_concat(seq![new], cut(tail, room, true));
                assert(ansi::join(cut(list, room, true)) =~= ansi::join(cut(tail, room, true)));
                assert(ansi::escapes_of(list) =~= ansi::escapes_of(tail));
            },
        }
    }
}

/// Cutting goes from segment to segment: a control sequence stays and takes no room, text that fits
/// stays whole and takes its columns, and of the first text that does not fit as many graphemes
/// stay as do; after that only control sequences stay.
pub proof fn law_cut_goes_from_segment_to_segment(list: Seq<SpanView>, room: nat, n: int)
    requires
        list.len() > 0,
        ansi::well_formed(list),
        forall|i: int| 0 <= i < list.len() ==> (#[trigger] list[i]).chars().len() > 0,
        list[0] is Text ==> width::clusters(list[0].chars()).flatten() == list[0].chars(),
    ensures
        match list[0] {
            SpanView::Escape(e) => truncated(ansi::join(list), room) == e + truncated(
                ansi::join(list.skip(1)),
                room,
            ),
            SpanView::Text(t) => {
                let pieces = width::clusters(t);
                &&& width::columns(t) <= room ==> truncated(ansi::join(list), room) == t
                    + truncated(ansi::join(list.skip(1)), (room - width::columns(t)) as nat)
                &&& 0 <= n < pieces.len() && width::columns(pieces.take(n).flatten()) <= room
                    && width::columns(pieces.take(n + 1).flatten()) > room ==> truncated(
                    ansi::join(list),
                    room,
                ) == pieces.take(n).flatten() + ansi::escapes_of(list.skip(1)).flatten()
            },
        },
{
    let head = list[0];
    let tail = list.skip(1);
    assert forall|i: int| 0 <= i < tail.len() implies match #[trigger] tail[i] {
        SpanView::Text(t) => ansi::is_plain(t) && (i + 1 < tail.len() ==> tail[i + 1] is Escape),
        SpanView::Escape(e) => ansi::is_escape(e) && (i + 1 < tail.len() ==> ansi::is_terminated(
            e,
        )),
    } by {
        assert(tail[i] == list[i + 1]);
        if i + 1 < tail.len() {
            assert(tail[i + 1] == list[i + 2]);
        }
    }
    assert(forall|i: int| 0 <= i < tail.len() ==> #[trigger] tail[i] == list[i + 1]);
    ansi::law_join_splits_back(list);
    ansi::law_join_splits_back(tail);
    match head {
        SpanView::Escape(e) => {
            ansi::lemma_single(head);
            ansi::lemma_concat(seq![head], cut(tail, room, false));
        },
        SpanView::Text(t) => {
            let pieces = width::clusters(t);
            if width::columns(t) <= room {
                let left = (room - width::columns(t)) as nat;
                lemma_whole_text_kept(t, room);
                ansi::lemma_single(SpanView::Text(t));
                ansi::lemma_concat(seq![SpanView::Text(t)], cut(tail, left, false));
            }
            if 0 <= n < pieces.len() && width::columns(pieces.take(n).flatten()) <= room
                && width::columns(pieces.take(n + 1).flatten()) > room {
                law_as_many_graphemes_stay_as_fit(pieces, room);
                let k = kept(pieces, room) as int;
                if k < n {
                    lemma_columns_grow(pieces, k + 1, n);
                } else if k > n {
                    lemma_columns_grow(pieces, n + 1, k);
                }
                let new = SpanView::Text(pieces.take(n).flatten());
                let left = (room - width::columns(pieces.take(n).flatten())) as nat;
                lemma_cut_when_done(tail, left);
                ansi::lemma_single(new);
                ansi::lemma_concat(seq![new], cut(tail, left, true));
            }
        },
    }
}

/// Text that fits gets no ellipsis; text that does not is cut to one column less, or to nothing, and
/// ends in one.
pub proof fn law_ellipsis_marks_exactly_what_was_cut(s: Seq<char>, max_width: nat)
    ensures
        width::width(s) <= max_width ==> ellipsized(s, max_width) == s,
        width::width(s) > max_width && max_width > 0 ==> ellipsized(s, max_width) == truncated(
            s,
            (max_width - 1) as nat,
        ) + seq!['\u{2026}'],
        width::width(s) > 0 ==> ellipsized(s, 0) == truncated(s, 0) + seq!['\u{2026}'],
{
    law_ellipsis_takes_one_column();
    reveal_strlit("\u{2026}");
    assert(ELLIPSIS@ =~= seq!['\u{2026}']);
}

proof fn lemma_sum_front(widths: Seq<usize>, n: int)
    requires
        0 < n <= widths.len(),
    ensures
        sum(widths.take(n)) == widths[0] + sum(widths.skip(1).take(n - 1)),
    decreases n,
{
    let part = widths.take(n);
    let rest = widths.skip(1).take(n - 1);
    assert(part.drop_last() =~= widths.take(n - 1));
    if n > 1 {
        assert(rest.drop_last() =~= widths.skip(1).take(n - 2));
        assert(rest.last() == part.last());
        lemma_sum_front(widths, n - 1);
    } else {
        assert(sum(widths.take(0)) == 0);
        assert(sum(rest) == 0);
    }
}

/// As many widths fit as add up to the room or less, counted from the front, and one more would be
/// too much.
pub proof fn law_as_many_widths_fit(widths: Seq<usize>, room: nat)
    ensures
        fitting(widths, room) <= widths.len(),
        sum(widths.take(fitting(widths, room) as int)) <= room,
        fitting(widths, room) < widths.len() ==> sum(
            widths.take(fitting(widths, room) as int + 1),
        ) > room,
    decreases widths.len(),
{
    let n = fitting(widths, room) as int;
    assert(sum(widths.take(0)) == 0);
    if widths.len() > 0 {
        if widths[0] > room {
            lemma_sum_front(widths, 1);
        } else {
            law_as_many_widths_fit(widths.skip(1), (room - widths[0]) as nat);
            lemma_sum_front(widths, n);
            if n < widths.len() {
                lemma_sum_front(widths, n + 1);
            }
        }
    }
}

/// Widths add up one by one.
pub proof fn law_widths_add_up(widths: Seq<usize>, w: usize)
    ensures
        sum(Seq::empty()) == 0,
        sum(widths.push(w)) == sum(widths) + w,
{
    assert(widths.push(w).drop_last() =~= widths);
}

} // verus!

//! Styled text: literal text mixed with ANSI control sequences.
//!
//! A control sequence is `ESC [` followed by everything up to and including the first character
//! in `@..=~`. One that never reaches such a character runs to the end of the string.

use crate::text::{chars_of, string_of};
use vstd::prelude::*;

verus! {

/// The model of one segment of styled text.
pub enum SpanView {
    Text(Seq<char>),
    Escape(Seq<char>),
}

/// One segment of styled text: literal text, or an atomic control sequence.
/// A control sequence is never split and never counted toward width.
pub enum Span {
    Text(String),
    Escape(String),
}

impl View for Span {
    type V = SpanView;

    open spec fn view(&self) -> SpanView {
        match self {
            Span::Text(t) => SpanView::Text(t@),
            Span::Escape(e) => SpanView::Escape(e@),
        }
    }
}

impl SpanView {
    /// The characters the segment stands for.
    pub open spec fn chars(self) -> Seq<char> {
        match self {
            SpanView::Text(t) => t,
            SpanView::Escape(e) => e,
        }
    }

    /// The characters a reader sees: those of text, none of a control sequence.
    pub open spec fn visible(self) -> Seq<char> {
        match self {
            SpanView::Text(t) => t,
            SpanView::Escape(_) => Seq::empty(),
        }
    }
}

/// The models of a list of segments.
pub open spec fn span_views(list: Seq<Span>) -> Seq<SpanView> {
    list.map_values(|span: Span| span@)
}

pub open spec fn is_final_char(c: char) -> bool {
    '@' <= c <= '~'
}

/// A control sequence begins at the front of `s`.
pub open spec fn starts_escape(s: Seq<char>) -> bool {
    s.len() >= 2 && s[0] == '\x1b' && s[1] == '['
}

/// How far the parameters of a control sequence reach in `s`, final character counted in.
pub open spec fn parameters_len(s: Seq<char>) -> nat
    decreases s.len(),
{
    if s.len() == 0 {
        0
    } else if is_final_char(s[0]) {
        1
    } else {
        1 + parameters_len(s.skip(1))
    }
}

/// The length of the control sequence at the front of `s`.
pub open spec fn escape_len(s: Seq<char>) -> nat {
    2 + parameters_len(s.skip(2))
}

/// The length of the literal text at the front of `s`.
pub open spec fn text_len(s: Seq<char>) -> nat
    decreases s.len(),
{
    if s.len() == 0 || starts_escape(s) {
        0
    } else {
        1 + text_len(s.skip(1))
    }
}

pub proof fn lemma_parameters_len(s: Seq<char>)
    ensures
        parameters_len(s) <= s.len(),
    decreases s.len(),
{
    if s.len() > 0 && !is_final_char(s[0]) {
        lemma_parameters_len(s.skip(1));
    }
}

pub proof fn lemma_text_len(s: Seq<char>)
    ensures
        text_len(s) <= s.len(),
        s.len() > 0 && !starts_escape(s) ==> text_len(s) > 0,
    decreases s.len(),
{
    if s.len() > 0 && !starts_escape(s) {
        lemma_text_len(s.skip(1));
    }
}

/// The length of the segment at the front of `s`.
pub open spec fn span_len(s: Seq<char>) -> nat {
    if starts_escape(s) {
        escape_len(s)
    } else {
        text_len(s)
    }
}

pub proof fn lemma_span_len(s: Seq<char>)
    requires
        s.len() > 0,
    ensures
        0 < span_len(s) <= s.len(),
{
    lemma_text_len(s);
    if starts_escape(s) {
        lemma_parameters_len(s.skip(2));
    }
}

/// The segment at the front of `s`.
pub open spec fn first_span(s: Seq<char>) -> SpanView {
    if starts_escape(s) {
        SpanView::Escape(s.take(escape_len(s) as int))
    } else {
        SpanView::Text(s.take(text_len(s) as int))
    }
}

/// The segments of `s`, in order.
pub open spec fn spans(s: Seq<char>) -> Seq<SpanView>
    decreases s.len(),
{
    if s.len() == 0 {
        Seq::empty()
    } else {
        proof {
            lemma_span_len(s);
        }
        seq![first_span(s)] + spans(s.skip(span_len(s) as int))
    }
}

/// Splits `s` into its segments, in order.
pub fn split_ansi_spans(s: &str) -> (res: Vec<Span>)
    ensures
        span_views(res@) == spans(s@),
{
    let chars = chars_of(s);
    let mut res: Vec<Span> = Vec::new();
    let mut start: usize = 0;
    assert(s@.skip(0) =~= s@);
    while start < chars.len()
        invariant
            start <= chars@.len(),
            chars@ == s@,
            span_views(res@) + spans(s@.skip(start as int)) == spans(s@),
        decreases chars@.len() - start,
    {
        let ghost rest = s@.skip(start as int);
        let ghost before = res@;
        let mut end: usize = start;
        proof {
            lemma_span_len(rest);
        }
        if chars[start] == '\x1b' && start + 1 < chars.len() && chars[start + 1] == '[' {
            end = start + 2;
            let mut done = false;
            assert(rest.skip(2) =~= s@.skip(end as int));
            while !done && end < chars.len()
                invariant
                    start + 2 <= end <= chars@.len(),
                    chars@ == s@,
                    parameters_len(s@.skip(start + 2)) == (end - (start + 2)) + (if done {
                        0
                    } else {
                        parameters_len(s@.skip(end as int))
                    }),
                decreases chars@.len() - end,
            {
                done = '@' <= chars[end] && chars[end] <= '~';
                assert(s@.skip(end as int).skip(1) =~= s@.skip(end + 1));
                end = end + 1;
            }
            res.push(Span::Escape(string_of(&chars, start, end)));
        } else {
            let mut stop = false;
            while !stop && end < chars.len()
                invariant
                    start <= end <= chars@.len(),
                    chars@ == s@,
                    text_len(s@.skip(start as int)) == (end - start) + text_len(s@.skip(end as int)),
                    stop ==> text_len(s@.skip(end as int)) == 0,
                decreases chars@.len() - end + (if stop { 0int } else { 1int }),
            {
                if chars[end] == '\x1b' && end + 1 < chars.len() && chars[end + 1] == '[' {
                    stop = true;
                } else {
                    assert(s@.skip(end as int).skip(1) =~= s@.skip(end + 1));
                    end = end + 1;
                }
            }
            res.push(Span::Text(string_of(&chars, start, end)));
        }
        proof {
            assert(end - start == span_len(rest));
            assert(rest.skip(end - start) =~= s@.skip(end as int));
            assert(rest.take(end - start) =~= s@.subrange(start as int, end as int));
            assert(span_views(res@) =~= span_views(before).push(first_span(rest)));
            assert(span_views(res@) + spans(s@.skip(end as int)) =~= span_views(before) + spans(rest));
        }
        start = end;
    }
    assert(spans(s@.skip(start as int)) =~= Seq::empty());
    res
}

/// The string that a list of segments stands for.
pub open spec fn join(list: Seq<SpanView>) -> Seq<char>
    decreases list.len(),
{
    if list.len() == 0 {
        Seq::empty()
    } else {
        join(list.drop_last()) + list.last().chars()
    }
}

/// The text of a list of segments, control sequences left out.
pub open spec fn visible_of(list: Seq<SpanView>) -> Seq<char>
    decreases list.len(),
{
    if list.len() == 0 {
        Seq::empty()
    } else {
        visible_of(list.drop_last()) + list.last().visible()
    }
}

/// The control sequences of a list of segments, in order.
pub open spec fn escapes_of(list: Seq<SpanView>) -> Seq<Seq<char>>
    decreases list.len(),
{
    if list.len() == 0 {
        Seq::empty()
    } else {
        match list.last() {
            SpanView::Text(_) => escapes_of(list.drop_last()),
            SpanView::Escape(e) => escapes_of(list.drop_last()).push(e),
        }
    }
}

/// The text of `s`, control sequences left out.
pub open spec fn visible(s: Seq<char>) -> Seq<char> {
    visible_of(spans(s))
}

/// The control sequences of `s`, in order.
pub open spec fn escapes(s: Seq<char>) -> Seq<Seq<char>> {
    escapes_of(spans(s))
}

pub proof fn lemma_concat(a: Seq<SpanView>, b: Seq<SpanView>)
    ensures
        join(a + b) == join(a) + join(b),
        visible_of(a + b) == visible_of(a) + visible_of(b),
        escapes_of(a + b) == escapes_of(a) + escapes_of(b),
    decreases b.len(),
{
    if b.len() == 0 {
        assert(a + b =~= a);
        assert(join(a) + join(b) =~= join(a));
        assert(visible_of(a) + visible_of(b) =~= visible_of(a));
        assert(escapes_of(a) + escapes_of(b) =~= escapes_of(a));
    } else {
        lemma_concat(a, b.drop_last());
        assert((a + b).drop_last() =~= a + b.drop_last());
        assert(join(a + b) =~= join(a) + join(b));
        assert(visible_of(a + b) =~= visible_of(a) + visible_of(b));
        assert(escapes_of(a + b) =~= escapes_of(a) + escapes_of(b));
    }
}

pub proof fn lemma_single(span: SpanView)
    ensures
        join(seq![span]) == span.chars(),
        visible_of(seq![span]) == span.visible(),
        escapes_of(seq![span]) == (match span {
            SpanView::Text(_) => Seq::<Seq<char>>::empty(),
            SpanView::Escape(e) => seq![e],
        }),
{
    reveal_with_fuel(join, 2);
    reveal_with_fuel(visible_of, 2);
    reveal_with_fuel(escapes_of, 2);
    let list = seq![span];
    assert(list.drop_last() =~= Seq::<SpanView>::empty());
    assert(join(list) =~= span.chars());
    assert(visible_of(list) =~= span.visible());
    match span {
        SpanView::Text(_) => {},
        SpanView::Escape(e) => {
            assert(escapes_of(list) =~= seq![e]);
        },
    }
}

/// Splitting loses nothing: the segments of `s`, joined, are `s` again.
pub proof fn law_spans_join_back(s: Seq<char>)
    ensures
        join(spans(s)) == s,
    decreases s.len(),
{
    if s.len() > 0 {
        lemma_span_len(s);
        let n = span_len(s) as int;
        law_spans_join_back(s.skip(n));
        lemma_concat(seq![first_span(s)], spans(s.skip(n)));
        lemma_single(first_span(s));
        assert(join(spans(s)) =~= s);
    }
}

/// No control sequence begins inside `t`.
pub open spec fn is_plain(t: Seq<char>) -> bool {
    forall|k: int| 0 <= k < t.len() - 1 ==> !(#[trigger] t[k] == '\x1b' && t[k + 1] == '[')
}

/// `e` is one whole control sequence.
pub open spec fn is_escape(e: Seq<char>) -> bool {
    starts_escape(e) && escape_len(e) == e.len()
}

/// The control sequence `e` has its final character.
pub open spec fn is_terminated(e: Seq<char>) -> bool {
    e.len() > 2 && is_final_char(e.last())
}

/// What splitting guarantees of its segments, empty text aside: text holds no control sequence
/// and is followed by one or by nothing, and only the last control sequence may be cut short.
pub open spec fn well_formed(list: Seq<SpanView>) -> bool {
    forall|i: int|
        0 <= i < list.len() ==> match #[trigger] list[i] {
            SpanView::Text(t) => is_plain(t) && (i + 1 < list.len() ==> list[i + 1] is Escape),
            SpanView::Escape(e) => is_escape(e) && (i + 1 < list.len() ==> is_terminated(e)),
        }
}

proof fn lemma_parameters_cut(s: Seq<char>)
    ensures
        parameters_len(s.take(parameters_len(s) as int)) == parameters_len(s) <= s.len(),
        parameters_len(s) < s.len() ==> parameters_len(s) > 0 && is_final_char(
            s[parameters_len(s) - 1],
        ),
    decreases s.len(),
{
    lemma_parameters_len(s);
    if s.len() > 0 {
        let n = parameters_len(s) as int;
        if is_final_char(s[0]) {
            assert(s.take(n)[0] == s[0]);
        } else {
            lemma_parameters_cut(s.skip(1));
            assert(s.take(n).skip(1) =~= s.skip(1).take(n - 1));
            assert(s.take(n)[0] == s[0]);
            if n < s.len() {
                assert(s.skip(1)[n - 2] == s[n - 1]);
            }
        }
    }
}

proof fn lemma_text_cut(s: Seq<char>)
    ensures
        text_len(s) <= s.len(),
        is_plain(s.take(text_len(s) as int)),
        text_len(s) < s.len() ==> starts_escape(s.skip(text_len(s) as int)),
    decreases s.len(),
{
    lemma_text_len(s);
    if s.len() > 0 && !starts_escape(s) {
        lemma_text_cut(s.skip(1));
        let n = text_len(s) as int;
        let t = s.take(n);
        let u = s.skip(1).take(n - 1);
        assert(s.skip(1).skip(n - 1) =~= s.skip(n));
        assert forall|k: int| 0 <= k < t.len() - 1 implies !(#[trigger] t[k] == '\x1b' && t[k + 1]
            == '[') by {
            if k == 0 {
                assert(t[0] == s[0] && t[1] == s[1]);
            } else {
                assert(t[k] == u[k - 1] && t[k + 1] == u[k]);
            }
        }
    } else if s.len() > 0 {
        assert(s.skip(0) =~= s);
    }
}

/// The segments of any string are well formed, and none is empty.
pub proof fn law_spans_well_formed(s: Seq<char>)
    ensures
        well_formed(spans(s)),
        forall|i: int| 0 <= i < spans(s).len() ==> (#[trigger] spans(s)[i]).chars().len() > 0,
    decreases s.len(),
{
    if s.len() > 0 {
        lemma_span_len(s);
        let n = span_len(s) as int;
        let rest = s.skip(n);
        law_spans_well_formed(rest);
        let list = spans(s);
        let head = first_span(s);
        assert(forall|i: int| 0 < i < list.len() ==> list[i] == spans(rest)[i - 1]);
        assert(list[0] == head);
        if starts_escape(s) {
            let e = s.take(n);
            lemma_parameters_cut(s.skip(2));
            assert(e.skip(2) =~= s.skip(2).take(n - 2));
            assert(e[0] == s[0] && e[1] == s[1]);
            assert(is_escape(e));
            if list.len() > 1 {
                assert(n < s.len());
                assert(s.skip(2)[n - 3] == s[n - 1]);
                assert(is_terminated(e));
            }
        } else {
            lemma_text_cut(s);
            if list.len() > 1 {
                assert(list[1] == first_span(rest));
            }
        }
        assert forall|i: int| 0 <= i < list.len() implies match #[trigger] list[i] {
            SpanView::Text(t) => is_plain(t) && (i + 1 < list.len() ==> list[i + 1] is Escape),
            SpanView::Escape(e) => is_escape(e) && (i + 1 < list.len() ==> is_terminated(e)),
        } by {
            if i > 0 {
                assert(list[i] == spans(rest)[i - 1]);
                if i + 1 < list.len() {
                    assert(list[i + 1] == spans(rest)[i]);
                }
            }
        }
    }
}

proof fn lemma_parameters_extend(p: Seq<char>, r: Seq<char>)
    requires
        p.len() > 0,
        parameters_len(p) == p.len(),
        is_final_char(p.last()),
    ensures
        parameters_len(p + r) == p.len(),
    decreases p.len(),
{
    assert((p + r)[0] == p[0]);
    if !is_final_char(p[0]) {
        assert(p.skip(1).last() == p.last());
        lemma_parameters_extend(p.skip(1), r);
        assert((p + r).skip(1) =~= p.skip(1) + r);
    } else {
        assert(parameters_len(p) == 1);
    }
}

proof fn lemma_text_extend(t: Seq<char>, r: Seq<char>)
    requires
        is_plain(t),
        r.len() == 0 || starts_escape(r),
    ensures
        text_len(t + r) == t.len(),
    decreases t.len(),
{
    let s = t + r;
    if t.len() == 0 {
        assert(s =~= r);
    } else {
        assert(s[0] == t[0]);
        if t.len() >= 2 {
            assert(s[1] == t[1]);
        }
        assert(!starts_escape(s));
        let u = t.skip(1);
        assert forall|k: int| 0 <= k < u.len() - 1 implies !(#[trigger] u[k] == '\x1b' && u[k + 1]
            == '[') by {
            assert(u[k] == t[k + 1] && u[k + 1] == t[k + 2]);
        }
        lemma_text_extend(u, r);
        assert(s.skip(1) =~= u + r);
    }
}

/// Joining well-formed segments and splitting again gives the same text and the same control
/// sequences, and the same segments if none of them is empty.
pub proof fn law_join_splits_back(list: Seq<SpanView>)
    requires
        well_formed(list),
    ensures
        visible(join(list)) == visible_of(list),
        escapes(join(list)) == escapes_of(list),
        (forall|i: int| 0 <= i < list.len() ==> (#[trigger] list[i]).chars().len() > 0) ==> spans(
            join(list),
        ) == list,
    decreases list.len(),
{
    if list.len() > 0 {
        let head = list[0];
        let tail = list.skip(1);
        let rest = join(tail);
        assert(list =~= seq![head] + tail);
        assert forall|i: int| 0 <= i < tail.len() implies match #[trigger] tail[i] {
            SpanView::Text(t) => is_plain(t) && (i + 1 < tail.len() ==> tail[i + 1] is Escape),
            SpanView::Escape(e) => is_escape(e) && (i + 1 < tail.len() ==> is_terminated(e)),
        } by {
            assert(tail[i] == list[i + 1]);
            if i + 1 < tail.len() {
                assert(tail[i + 1] == list[i + 2]);
            }
        }
        law_join_splits_back(tail);
        lemma_concat(seq![head], tail);
        lemma_single(head);
        let s = join(list);
        assert(s == head.chars() + rest);
        assert(forall|i: int| 0 <= i < tail.len() ==> #[trigger] tail[i] == list[i + 1]);
        if tail.len() > 0 {
            assert(tail[0] == list[1]);
            assert(tail =~= seq![tail[0]] + tail.skip(1));
            lemma_concat(seq![tail[0]], tail.skip(1));
            lemma_single(tail[0]);
        }
        match head {
            SpanView::Escape(e) => {
                assert(is_escape(e));
                assert(s[0] == e[0] && s[1] == e[1]);
                assert(s.skip(2) =~= e.skip(2) + rest);
                if tail.len() > 0 {
                    assert(e.skip(2).last() == e.last());
                    lemma_parameters_extend(e.skip(2), rest);
                } else {
                    assert(s =~= e);
                }
                assert(escape_len(s) == e.len());
                assert(s.take(e.len() as int) =~= e);
                assert(s.skip(e.len() as int) =~= rest);
                assert(spans(s) == seq![head] + spans(rest));
                lemma_concat(seq![head], spans(rest));
            },
            SpanView::Text(t) => {
                if t.len() == 0 {
                    assert(s =~= rest);
                    assert(visible_of(list) =~= visible_of(tail));
                    assert(escapes_of(list) =~= escapes_of(tail));
                } else {
                    if tail.len() > 0 {
                        assert(starts_escape(tail[0].chars()));
                        assert(rest[0] == tail[0].chars()[0] && rest[1] == tail[0].chars()[1]);
                    }
                    lemma_text_extend(t, rest);
                    assert(s[0] == t[0]);
                    if starts_escape(s) {
                        assert(text_len(s) == 0);
                    }
                    assert(s.take(t.len() as int) =~= t);
                    assert(s.skip(t.len() as int) =~= rest);
                    assert(spans(s) == seq![head] + spans(rest));
                    lemma_concat(seq![head], spans(rest));
                }
            },
        }
    }
}

/// Text that ends in `ESC` and the next text, which starts with `[`, have only control sequences
/// between them.
pub open spec fn rejoins_at(list: Seq<SpanView>, i: int, j: int) -> bool {
    &&& 0 <= i < j < list.len()
    &&& list[i] is Text
    &&& list[i].chars().len() > 0
    &&& list[i].chars().last() == '\x1b'
    &&& list[j] is Text
    &&& list[j].chars().len() > 0
    &&& list[j].chars()[0] == '['
    &&& forall|k: int| i < k < j ==> (#[trigger] list[k]) is Escape
}

/// Taking the control sequences out puts a new one together.
pub open spec fn rejoins(list: Seq<SpanView>) -> bool {
    exists|i: int, j: int| rejoins_at(list, i, j)
}

proof fn lemma_last_visible(list: Seq<SpanView>) -> (i: int)
    requires
        forall|i: int| 0 <= i < list.len() ==> (#[trigger] list[i]).chars().len() > 0,
        visible_of(list).len() > 0,
    ensures
        0 <= i < list.len(),
        list[i] is Text,
        list[i].chars().last() == visible_of(list).last(),
        forall|k: int| i < k < list.len() ==> (#[trigger] list[k]) is Escape,
    decreases list.len(),
{
    let init = list.drop_last();
    match list.last() {
        SpanView::Text(t) => {
            assert(list[list.len() - 1].chars().len() > 0);
            list.len() - 1
        },
        SpanView::Escape(_) => {
            assert(visible_of(list) =~= visible_of(init));
            assert(forall|i: int| 0 <= i < init.len() ==> #[trigger] init[i] == list[i]);
            let i = lemma_last_visible(init);
            assert(list[i] == init[i]);
            assert forall|k: int| i < k < list.len() implies (#[trigger] list[k]) is Escape by {
                if k < init.len() {
                    assert(init[k] == list[k]);
                }
            }
            i
        },
    }
}

proof fn lemma_plain_unless_rejoined(list: Seq<SpanView>)
    requires
        well_formed(list),
        forall|i: int| 0 <= i < list.len() ==> (#[trigger] list[i]).chars().len() > 0,
        !is_plain(visible_of(list)),
    ensures
        rejoins(list),
    decreases list.len(),
{
    if list.len() > 0 {
        let init = list.drop_last();
        let v = visible_of(list);
        let u = visible_of(init);
        assert(forall|i: int| 0 <= i < init.len() ==> #[trigger] init[i] == list[i]);
        assert(well_formed(init)) by {
            assert forall|i: int| 0 <= i < init.len() implies match #[trigger] init[i] {
                SpanView::Text(t) => is_plain(t) && (i + 1 < init.len() ==> init[i + 1] is Escape),
                SpanView::Escape(e) => is_escape(e) && (i + 1 < init.len() ==> is_terminated(e)),
            } by {
                assert(init[i] == list[i]);
                if i + 1 < init.len() {
                    assert(init[i + 1] == list[i + 1]);
                }
            }
        }
        if !is_plain(u) {
            lemma_plain_unless_rejoined(init);
            let (i, j) = choose|i: int, j: int| rejoins_at(init, i, j);
            assert forall|k: int| i < k < j implies (#[trigger] list[k]) is Escape by {
                assert(init[k] == list[k]);
            }
            assert(rejoins_at(list, i, j));
        } else {
            let w = list.last().visible();
            assert(list[list.len() - 1] == list.last());
            let k = choose|k: int|
                0 <= k < v.len() - 1 && #[trigger] v[k] == '\x1b' && v[k + 1] == '[';
            if k + 1 < u.len() {
                assert(u[k] == v[k] && u[k + 1] == v[k + 1]);
            } else if k >= u.len() {
                assert(w[k - u.len()] == v[k] && w[k + 1 - u.len()] == v[k + 1]);
            } else {
                assert(u.last() == v[k] && w[0] == v[k + 1]);
                let i = lemma_last_visible(init);
                let j = list.len() - 1;
                assert(list[i] == init[i]);
                assert forall|m: int| i < m < j implies (#[trigger] list[m]) is Escape by {
                    assert(init[m] == list[m]);
                }
                assert(rejoins_at(list, i, j));
            }
        }
    }
}

proof fn lemma_visible_through_escapes(list: Seq<SpanView>, i: int, j: int)
    requires
        0 <= i < j <= list.len(),
        list[i] is Text,
        list[i].chars().len() > 0,
        forall|k: int| i < k < j ==> (#[trigger] list[k]) is Escape,
    ensures
        visible_of(list.take(j)).len() > 0,
        visible_of(list.take(j)).last() == list[i].chars().last(),
    decreases j,
{
    let part = list.take(j);
    assert(part.drop_last() =~= list.take(j - 1));
    assert(part.last() == list[j - 1]);
    if i < j - 1 {
        lemma_visible_through_escapes(list, i, j - 1);
        assert(list[j - 1] is Escape);
        assert(visible_of(part) =~= visible_of(list.take(j - 1)));
    }
}

/// What is left of `s` without its control sequences holds none itself, except exactly where
/// text ending in `ESC` meets text starting with `[`.
pub proof fn law_visible_is_plain(s: Seq<char>)
    ensures
        is_plain(visible(s)) <==> !rejoins(spans(s)),
{
    let list = spans(s);
    law_spans_well_formed(s);
    if !is_plain(visible(s)) {
        lemma_plain_unless_rejoined(list);
    }
    if rejoins(list) {
        let (i, j) = choose|i: int, j: int| rejoins_at(list, i, j);
        lemma_visible_through_escapes(list, i, j);
        let u = visible_of(list.take(j));
        let v = visible_of(list.take(j + 1));
        assert(list.take(j + 1).drop_last() =~= list.take(j));
        assert(v == u + list[j].chars());
        assert(list =~= list.take(j + 1) + list.skip(j + 1));
        lemma_concat(list.take(j + 1), list.skip(j + 1));
        let whole = visible(s);
        let k = u.len() - 1;
        assert(whole[k] == '\x1b' && whole[k + 1] == '[');
    }
}

/// A string without control sequences is its own text.
pub proof fn law_plain_text_is_visible(s: Seq<char>)
    requires
        is_plain(s),
    ensures
        visible(s) == s,
        escapes(s).len() == 0,
{
    let list = seq![SpanView::Text(s)];
    lemma_single(SpanView::Text(s));
    assert(well_formed(list));
    law_join_splits_back(list);
}

/// Strips the control sequences from `s`, keeping the text they surround.
pub fn strip_ansi(s: &str) -> (res: String)
    ensures
        res@ == visible(s@),
{
    let list = split_ansi_spans(s);
    let ghost views = span_views(list@);
    let mut res = String::new();
    let mut i: usize = 0;
    while i < list.len()
        invariant
            i <= list@.len(),
            views == span_views(list@),
            res@ == visible_of(views.take(i as int)),
        decreases list@.len() - i,
    {
        assert(views.take(i + 1).drop_last() =~= views.take(i as int));
        assert(views[i as int] == list@[i as int]@);
        match &list[i] {
            Span::Text(t) => res.append(t.as_str()),
            Span::Escape(_) => {},
        }
        assert(res@ =~= visible_of(views.take(i + 1)));
        i = i + 1;
    }
    assert(views.take(i as int) =~= views);
    res
}

proof fn lemma_parameters_end(params: Seq<char>, last: char)
    requires
        forall|i: int| 0 <= i < params.len() ==> !is_final_char(#[trigger] params[i]),
        is_final_char(last),
    ensures
        parameters_len(params.push(last)) == params.len() + 1,
        parameters_len(params) == params.len(),
    decreases params.len(),
{
    let p = params.push(last);
    if params.len() == 0 {
        assert(p[0] == last);
    } else {
        assert(p[0] == params[0]);
        assert(p.skip(1) =~= params.skip(1).push(last));
        lemma_parameters_end(params.skip(1), last);
    }
}

/// A control sequence, from `ESC [` to the first character in `@..=~`, is taken out of the text
/// around it, and nothing else is: the text before it stays, and what follows it is treated as if
/// it stood alone.
pub proof fn law_control_sequence_is_left_out(
    front: Seq<char>,
    params: Seq<char>,
    last: char,
    rest: Seq<char>,
)
    requires
        forall|k: int|
            0 <= k < front.len() - 1 ==> !(#[trigger] front[k] == '\x1b' && front[k + 1] == '['),
        forall|i: int| 0 <= i < params.len() ==> !('@' <= #[trigger] params[i] <= '~'),
        '@' <= last <= '~',
    ensures
        visible(front + seq!['\x1b', '['] + params + seq![last] + rest) == front + visible(rest),
        escapes(front + seq!['\x1b', '['] + params + seq![last] + rest) == seq![
            seq!['\x1b', '['] + params + seq![last],
        ] + escapes(rest),
{
    let e = seq!['\x1b', '['] + params + seq![last];
    let two = seq![SpanView::Text(front), SpanView::Escape(e)];
    let tail = spans(rest);
    let list = two + tail;
    assert(e.skip(2) =~= params.push(last));
    lemma_parameters_end(params, last);
    law_spans_well_formed(rest);
    law_spans_join_back(rest);
    assert(is_plain(front));
    assert(is_escape(e) && is_terminated(e));
    assert forall|i: int| 0 <= i < list.len() implies match #[trigger] list[i] {
        SpanView::Text(t) => is_plain(t) && (i + 1 < list.len() ==> list[i + 1] is Escape),
        SpanView::Escape(x) => is_escape(x) && (i + 1 < list.len() ==> is_terminated(x)),
    } by {
        if i >= 2 {
            assert(list[i] == tail[i - 2]);
            assert(i + 1 < list.len() ==> list[i + 1] == tail[i - 1]);
        }
    }
    assert(two =~= seq![SpanView::Text(front)] + seq![SpanView::Escape(e)]);
    lemma_concat(seq![SpanView::Text(front)], seq![SpanView::Escape(e)]);
    lemma_single(SpanView::Text(front));
    lemma_single(SpanView::Escape(e));
    lemma_concat(two, tail);
    assert(join(list) =~= front + seq!['\x1b', '['] + params + seq![last] + rest);
    law_join_splits_back(list);
    assert(visible_of(list) =~= front + visible(rest));
    assert(escapes_of(list) =~= seq![e] + escapes(rest));
}

/// A control sequence that never reaches its last character takes all the rest.
pub proof fn law_unfinished_sequence_takes_the_rest(front: Seq<char>, params: Seq<char>)
    requires
        forall|k: int|
            0 <= k < front.len() - 1 ==> !(#[trigger] front[k] == '\x1b' && front[k + 1] == '['),
        forall|i: int| 0 <= i < params.len() ==> !('@' <= #[trigger] params[i] <= '~'),
    ensures
        visible(front + seq!['\x1b', '['] + params) == front,
        escapes(front + seq!['\x1b', '['] + params) == seq![seq!['\x1b', '['] + params],
{
    let e = seq!['\x1b', '['] + params;
    let list = seq![SpanView::Text(front), SpanView::Escape(e)];
    assert(e.skip(2) =~= params);
    lemma_parameters_end(params, 'm');
    assert(is_plain(front) && is_escape(e));
    assert(list =~= seq![SpanView::Text(front)] + seq![SpanView::Escape(e)]);
    lemma_concat(seq![SpanView::Text(front)], seq![SpanView::Escape(e)]);
    lemma_single(SpanView::Text(front));
    lemma_single(SpanView::Escape(e));
    assert(join(list) =~= front + seq!['\x1b', '['] + params);
    law_join_splits_back(list);
    assert(visible_of(list) =~= front);
    assert(escapes_of(list) =~= seq![e]);
}

/// The characters of some pieces, all of them counted.
pub open spec fn total_len(pieces: Seq<Seq<char>>) -> nat
    decreases pieces.len(),
{
    if pieces.len() == 0 {
        0
    } else {
        total_len(pieces.drop_last()) + pieces.last().len()
    }
}

proof fn lemma_lengths(list: Seq<SpanView>)
    ensures
        visible_of(list).len() + total_len(escapes_of(list)) == join(list).len(),
    decreases list.len(),
{
    if list.len() > 0 {
        let before = escapes_of(list.drop_last());
        lemma_lengths(list.drop_last());
        if let SpanView::Escape(e) = list.last() {
            assert(before.push(e).drop_last() =~= before);
        }
    }
}

/// Every character is either visible or part of a control sequence.
pub proof fn law_no_character_is_lost(s: Seq<char>)
    ensures
        visible(s).len() + total_len(escapes(s)) == s.len(),
{
    lemma_lengths(spans(s));
    law_spans_join_back(s);
}

} // verus!

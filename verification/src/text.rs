//! Strings as sequences of characters: searching, splitting and trimming.

use vstd::prelude::*;

verus! {

/// `String::push` puts one character at the end of the string and leaves the rest alone.
pub assume_specification[ String::push ](s: &mut String, ch: char)
    ensures
        final(s)@ == old(s)@.push(ch),
;

/// `==` on string slices holds exactly when they hold the same characters in the same order.
pub assume_specification[ <str as PartialEq>::eq ](s: &str, other: &str) -> (res: bool)
    ensures
        res == (s@ == other@),
;

/// The characters of each string of a list.
pub open spec fn texts(list: Seq<String>) -> Seq<Seq<char>> {
    list.map_values(|s: String| s@)
}

/// The characters of `s`, in order.
pub fn chars_of(s: &str) -> (res: Vec<char>)
    ensures
        res@ == s@,
{
    let mut res: Vec<char> = Vec::new();
    for c in it: s.chars()
        invariant
            res@ == it.seq().take(it.index() as int),
            it.seq() == s@,
    {
        res.push(c);
    }
    res
}

/// The string made of `chars[from..to]`.
pub fn string_of(chars: &Vec<char>, from: usize, to: usize) -> (res: String)
    requires
        from <= to <= chars@.len(),
    ensures
        res@ == chars@.subrange(from as int, to as int),
{
    let mut res = String::new();
    let mut i: usize = from;
    while i < to
        invariant
            from <= i <= to <= chars@.len(),
            res@ == chars@.subrange(from as int, i as int),
        decreases to - i,
    {
        res.push(chars[i]);
        i = i + 1;
    }
    res
}

/// The characters that have the Unicode property `White_Space`.
pub open spec fn is_white_space(c: char) -> bool {
    ||| '\t' <= c <= '\r'
    ||| c == ' '
    ||| c == '\u{85}'
    ||| c == '\u{a0}'
    ||| c == '\u{1680}'
    ||| '\u{2000}' <= c <= '\u{200a}'
    ||| '\u{2028}' <= c <= '\u{2029}'
    ||| c == '\u{202f}'
    ||| c == '\u{205f}'
    ||| c == '\u{3000}'
}

/// `char::is_whitespace` holds exactly for the characters with the property `White_Space`, which
/// Unicode lists in full.
pub assume_specification[ char::is_whitespace ](c: char) -> (res: bool)
    ensures
        res == is_white_space(c),
;

/// `s` without the white space at its front.
pub open spec fn trimmed_start(s: Seq<char>) -> Seq<char>
    decreases s.len(),
{
    if s.len() > 0 && is_white_space(s[0]) {
        trimmed_start(s.skip(1))
    } else {
        s
    }
}

/// `s` without the white space at its end.
pub open spec fn trimmed_end(s: Seq<char>) -> Seq<char>
    decreases s.len(),
{
    if s.len() > 0 && is_white_space(s.last()) {
        trimmed_end(s.drop_last())
    } else {
        s
    }
}

/// `s` without the white space at either end.
pub open spec fn trimmed(s: Seq<char>) -> Seq<char> {
    trimmed_end(trimmed_start(s))
}

/// Takes the white space off both ends of `s`.
pub fn trim(s: &str) -> (res: String)
    ensures
        res@ == trimmed(s@),
{
    let chars = chars_of(s);
    let mut from: usize = 0;
    assert(s@.skip(0) =~= s@);
    while from < chars.len() && chars[from].is_whitespace()
        invariant
            from <= chars@.len(),
            chars@ == s@,
            trimmed_start(s@) == trimmed_start(s@.skip(from as int)),
        decreases chars@.len() - from,
    {
        assert(s@.skip(from as int).skip(1) =~= s@.skip(from + 1));
        from = from + 1;
    }
    let ghost rest = s@.skip(from as int);
    assert(trimmed_start(s@) == rest);
    let mut to: usize = chars.len();
    assert(s@.subrange(from as int, to as int) =~= rest);
    while to > from && chars[to - 1].is_whitespace()
        invariant
            from <= to <= chars@.len(),
            chars@ == s@,
            trimmed_end(rest) == trimmed_end(s@.subrange(from as int, to as int)),
        decreases to,
    {
        assert(s@.subrange(from as int, to as int).drop_last() =~= s@.subrange(
            from as int,
            to - 1,
        ));
        to = to - 1;
    }
    string_of(&chars, from, to)
}

/// `s` begins with `prefix`.
pub open spec fn begins_with(s: Seq<char>, prefix: Seq<char>) -> bool {
    prefix.len() <= s.len() && s.take(prefix.len() as int) == prefix
}

/// What follows `prefix` in `s`, if `s` begins with it.
pub open spec fn after_prefix(s: Seq<char>, prefix: Seq<char>) -> Option<Seq<char>> {
    if begins_with(s, prefix) {
        Some(s.skip(prefix.len() as int))
    } else {
        None
    }
}

/// The characters of an optional string.
pub open spec fn maybe(s: Option<String>) -> Option<Seq<char>> {
    match s {
        Some(t) => Some(t@),
        None => None,
    }
}

/// Whether `needle` stands in `chars` from position `at` on.
pub fn stands_at(chars: &Vec<char>, at: usize, needle: &Vec<char>) -> (res: bool)
    requires
        at <= chars@.len(),
    ensures
        res == begins_with(chars@.skip(at as int), needle@),
{
    let total: usize = chars.len();
    if needle.len() > total - at {
        return false;
    }
    let ghost rest = chars@.skip(at as int);
    let mut i: usize = 0;
    while i < needle.len()
        invariant
            i <= needle@.len() <= total - at,
            total == chars@.len(),
            rest == chars@.skip(at as int),
            rest.take(i as int) == needle@.take(i as int),
        decreases needle@.len() - i,
    {
        if chars[at + i] != needle[i] {
            assert(rest.take(needle@.len() as int)[i as int] == rest[i as int]);
            return false;
        }
        assert(rest.take(i + 1) =~= rest.take(i as int).push(rest[i as int]));
        assert(needle@.take(i + 1) =~= needle@.take(i as int).push(needle@[i as int]));
        i = i + 1;
    }
    assert(needle@.take(i as int) =~= needle@);
    true
}

/// Takes `prefix` off the front of `s`, or returns `None` if `s` does not begin with it.
pub fn strip_prefix(s: &str, prefix: &str) -> (res: Option<String>)
    ensures
        maybe(res) == after_prefix(s@, prefix@),
{
    let chars = chars_of(s);
    let start = chars_of(prefix);
    assert(chars@.skip(0) =~= s@);
    if stands_at(&chars, 0, &start) {
        let res = string_of(&chars, start.len(), chars.len());
        assert(res@ =~= s@.skip(prefix@.len() as int));
        Some(res)
    } else {
        None
    }
}

/// The first position from which `needle` stands in `s`.
pub open spec fn first_at(s: Seq<char>, needle: Seq<char>) -> Option<nat>
    decreases s.len(),
{
    if begins_with(s, needle) {
        Some(0)
    } else if s.len() == 0 {
        None
    } else {
        match first_at(s.skip(1), needle) {
            Some(i) => Some(1 + i),
            None => None,
        }
    }
}

/// Finds the first position at or after `from` from which `needle` stands in `chars`.
pub fn find_from(chars: &Vec<char>, from: usize, needle: &Vec<char>) -> (res: Option<usize>)
    requires
        from <= chars@.len(),
    ensures
        match (res, first_at(chars@.skip(from as int), needle@)) {
            (Some(at), Some(i)) => at == from + i && at + needle@.len() <= chars@.len(),
            (None, None) => true,
            _ => false,
        },
{
    let mut at: usize = from;
    let ghost whole = first_at(chars@.skip(from as int), needle@);
    loop
        invariant
            from <= at <= chars@.len(),
            whole == first_at(chars@.skip(from as int), needle@),
            match (whole, first_at(chars@.skip(at as int), needle@)) {
                (Some(i), Some(j)) => i == (at - from) + j,
                (None, None) => true,
                _ => false,
            },
        decreases chars@.len() - at,
    {
        if stands_at(chars, at, needle) {
            return Some(at);
        }
        if at == chars.len() {
            return None;
        }
        assert(chars@.skip(at as int).skip(1) =~= chars@.skip(at + 1));
        at = at + 1;
    }
}

/// `needle` stands somewhere in `s`.
pub open spec fn contains_text(s: Seq<char>, needle: Seq<char>) -> bool {
    first_at(s, needle) is Some
}

/// Whether `needle` stands somewhere in `s`.
pub fn contains(s: &str, needle: &str) -> (res: bool)
    ensures
        res == contains_text(s@, needle@),
{
    let chars = chars_of(s);
    assert(chars@.skip(0) =~= s@);
    find_from(&chars, 0, &chars_of(needle)).is_some()
}

/// The characters before the first line feed of `s`.
pub open spec fn line_len(s: Seq<char>) -> nat
    decreases s.len(),
{
    if s.len() == 0 || s[0] == '\n' {
        0
    } else {
        1 + line_len(s.skip(1))
    }
}

/// `s` without one carriage return at its end.
pub open spec fn without_cr(s: Seq<char>) -> Seq<char> {
    if s.len() > 0 && s.last() == '\r' {
        s.drop_last()
    } else {
        s
    }
}

pub proof fn lemma_line_len(s: Seq<char>)
    ensures
        line_len(s) <= s.len(),
        line_len(s) < s.len() ==> s[line_len(s) as int] == '\n',
        forall|k: int| 0 <= k < line_len(s) ==> #[trigger] s[k] != '\n',
    decreases s.len(),
{
    if s.len() > 0 && s[0] != '\n' {
        let rest = s.skip(1);
        lemma_line_len(rest);
        assert forall|k: int| 0 <= k < line_len(s) implies #[trigger] s[k] != '\n' by {
            if k > 0 {
                assert(s[k] == rest[k - 1]);
            }
        }
        if line_len(s) < s.len() {
            assert(rest[line_len(rest) as int] == s[line_len(s) as int]);
        }
    }
}

/// The lines of `s`. A line ends in a line feed, or a carriage return and a line feed, neither of
/// which belongs to it; the last line may go without.
pub open spec fn lines_of(s: Seq<char>) -> Seq<Seq<char>>
    decreases s.len(),
{
    if s.len() == 0 {
        Seq::empty()
    } else if line_len(s) == s.len() {
        seq![s]
    } else {
        proof {
            lemma_line_len(s);
        }
        let end = line_len(s) as int;
        seq![without_cr(s.take(end))] + lines_of(s.skip(end + 1))
    }
}

/// Splits `s` into its lines.
pub fn lines(s: &str) -> (res: Vec<String>)
    ensures
        texts(res@) == lines_of(s@),
{
    let chars = chars_of(s);
    let mut res: Vec<String> = Vec::new();
    let mut from: usize = 0;
    assert(s@.skip(0) =~= s@);
    assert(texts(res@) + lines_of(s@) =~= lines_of(s@));
    while from < chars.len()
        invariant
            from <= chars@.len(),
            chars@ == s@,
            texts(res@) + lines_of(s@.skip(from as int)) == lines_of(s@),
        decreases chars@.len() - from,
    {
        let ghost rest = s@.skip(from as int);
        let ghost before = texts(res@);
        let mut end: usize = from;
        while end < chars.len() && chars[end] != '\n'
            invariant
                from <= end <= chars@.len(),
                chars@ == s@,
                line_len(s@.skip(from as int)) == (end - from) + line_len(s@.skip(end as int)),
            decreases chars@.len() - end,
        {
            assert(s@.skip(end as int).skip(1) =~= s@.skip(end + 1));
            end = end + 1;
        }
        assert(end - from == line_len(rest));
        if end == chars.len() {
            res.push(string_of(&chars, from, end));
            proof {
                assert(s@.subrange(from as int, end as int) =~= rest);
                assert(texts(res@) =~= before.push(rest));
                assert(lines_of(s@.skip(end as int)) =~= Seq::empty());
                assert(texts(res@) + lines_of(s@.skip(end as int)) =~= before + lines_of(rest));
            }
            from = end;
        } else {
            let stop: usize = if end > from && chars[end - 1] == '\r' {
                end - 1
            } else {
                end
            };
            res.push(string_of(&chars, from, stop));
            proof {
                assert(s@.subrange(from as int, stop as int) =~= without_cr(
                    rest.take(end - from),
                ));
                assert(texts(res@) =~= before.push(without_cr(rest.take(end - from))));
                assert(rest.skip(end - from + 1) =~= s@.skip(end + 1));
                assert(texts(res@) + lines_of(s@.skip(end + 1)) =~= before + lines_of(rest));
            }
            from = end + 1;
        }
    }
    assert(texts(res@) + lines_of(s@.skip(from as int)) =~= texts(res@));
    res
}

proof fn lemma_line_len_is(s: Seq<char>, n: int)
    requires
        0 <= n < s.len(),
        s[n] == '\n',
        forall|k: int| 0 <= k < n ==> s[k] != '\n',
    ensures
        line_len(s) == n,
    decreases n,
{
    if n > 0 {
        assert forall|k: int| 0 <= k < n - 1 implies s.skip(1)[k] != '\n' by {
            assert(s.skip(1)[k] == s[k + 1]);
        }
        lemma_line_len_is(s.skip(1), n - 1);
    }
}

/// A line that ends in a line feed is the first of the lines of a text that begins with it.
pub proof fn lemma_first_line(line: Seq<char>, rest: Seq<char>)
    requires
        !line.contains('\n'),
    ensures
        lines_of(line.push('\n') + rest) == seq![without_cr(line)] + lines_of(rest),
{
    let s = line.push('\n') + rest;
    let n = line.len() as int;
    assert forall|k: int| 0 <= k < n implies s[k] != '\n' by {
        assert(s[k] == line[k]);
    }
    assert(s[n] == '\n');
    lemma_line_len_is(s, n);
    assert(s.take(n) =~= line);
    assert(s.skip(n + 1) =~= rest);
}

/// A text behind a line feed adds its lines to those before it.
pub proof fn lemma_lines_add(s: Seq<char>, rest: Seq<char>)
    ensures
        lines_of(s.push('\n') + rest) == lines_of(s.push('\n')) + lines_of(rest),
    decreases s.len(),
{
    lemma_line_len(s);
    let end = line_len(s) as int;
    let empty = Seq::<char>::empty();
    if end == s.len() {
        lemma_first_line(s, rest);
        lemma_first_line(s, empty);
        assert(s.push('\n') + empty =~= s.push('\n'));
        assert(lines_of(s.push('\n')) + lines_of(rest) =~= seq![without_cr(s)] + lines_of(rest));
    } else {
        let line = s.take(end);
        let tail = s.skip(end + 1);
        lemma_first_line(line, tail.push('\n') + rest);
        lemma_first_line(line, tail.push('\n'));
        lemma_lines_add(tail, rest);
        assert(s.push('\n') + rest =~= line.push('\n') + (tail.push('\n') + rest));
        assert(s.push('\n') =~= line.push('\n') + tail.push('\n'));
        assert(lines_of(s.push('\n') + rest) =~= lines_of(s.push('\n')) + lines_of(rest));
    }
}

/// The first place where a text stands is where it stands and no earlier.
pub proof fn lemma_first_at(s: Seq<char>, needle: Seq<char>, n: int)
    requires
        0 <= n <= s.len(),
        begins_with(s.skip(n), needle),
        forall|k: int| 0 <= k < n ==> !begins_with(#[trigger] s.skip(k), needle),
    ensures
        first_at(s, needle) == Some(n as nat),
    decreases n,
{
    assert(s.skip(0) =~= s);
    if n > 0 {
        let rest = s.skip(1);
        assert(rest.skip(n - 1) =~= s.skip(n));
        assert forall|k: int| 0 <= k < n - 1 implies !begins_with(
            #[trigger] rest.skip(k),
            needle,
        ) by {
            assert(rest.skip(k) =~= s.skip(k + 1));
        }
        lemma_first_at(rest, needle, n - 1);
    }
}

proof fn lemma_trim_front(a: Seq<char>, s: Seq<char>)
    requires
        forall|i: int| 0 <= i < a.len() ==> is_white_space(#[trigger] a[i]),
        s.len() > 0 ==> !is_white_space(s[0]),
    ensures
        trimmed_start(a + s) == s,
    decreases a.len(),
{
    if a.len() == 0 {
        assert(a + s =~= s);
    } else {
        assert((a + s)[0] == a[0]);
        assert((a + s).skip(1) =~= a.skip(1) + s);
        lemma_trim_front(a.skip(1), s);
    }
}

proof fn lemma_trim_back(s: Seq<char>, b: Seq<char>)
    requires
        forall|i: int| 0 <= i < b.len() ==> is_white_space(#[trigger] b[i]),
        s.len() > 0 ==> !is_white_space(s.last()),
    ensures
        trimmed_end(s + b) == s,
    decreases b.len(),
{
    if b.len() == 0 {
        assert(s + b =~= s);
    } else {
        assert((s + b).last() == b[b.len() - 1]);
        assert((s + b).drop_last() =~= s + b.drop_last());
        assert(forall|i: int| 0 <= i < b.len() - 1 ==> #[trigger] b.drop_last()[i] == b[i]);
        lemma_trim_back(s, b.drop_last());
    }
}

/// Trimming takes off the white space at both ends, all of it and nothing else; of nothing but white
/// space nothing is left.
pub proof fn law_trimmed_loses_its_ends_only(a: Seq<char>, s: Seq<char>, b: Seq<char>)
    requires
        forall|i: int| 0 <= i < a.len() ==> is_white_space(#[trigger] a[i]),
        forall|i: int| 0 <= i < b.len() ==> is_white_space(#[trigger] b[i]),
        s.len() > 0 ==> !is_white_space(s[0]) && !is_white_space(s.last()),
    ensures
        trimmed(a + s + b) == s,
{
    if s.len() == 0 {
        let all = a + b;
        assert(a + s + b =~= all + Seq::empty());
        assert forall|i: int| 0 <= i < all.len() implies is_white_space(#[trigger] all[i]) by {
            if i < a.len() {
                assert(all[i] == a[i]);
            } else {
                assert(all[i] == b[i - a.len()]);
            }
        }
        lemma_trim_front(all, Seq::empty());
        assert(trimmed(a + s + b) =~= s);
    } else {
        assert(a + s + b =~= a + (s + b));
        lemma_trim_front(a, s + b);
        lemma_trim_back(s, b);
    }
}

/// A prefix is taken off where it stands and nowhere else.
pub proof fn law_prefix_comes_off(prefix: Seq<char>, s: Seq<char>)
    ensures
        after_prefix(prefix + s, prefix) == Some(s),
        after_prefix(s, prefix) is Some ==> s == prefix + after_prefix(s, prefix)->0,
{
    assert((prefix + s).take(prefix.len() as int) =~= prefix);
    assert((prefix + s).skip(prefix.len() as int) =~= s);
    if begins_with(s, prefix) {
        assert(s =~= s.take(prefix.len() as int) + s.skip(prefix.len() as int));
    }
}

/// The first place of a text is one where it stands, and it stands nowhere before that; if there is
/// none, it stands nowhere.
pub proof fn law_first_place_is_the_first(s: Seq<char>, needle: Seq<char>)
    ensures
        match first_at(s, needle) {
            Some(n) => {
                &&& n + needle.len() <= s.len()
                &&& s.subrange(n as int, n + needle.len() as int) == needle
                &&& forall|k: int|
                    0 <= k < n && k + needle.len() <= s.len() ==> #[trigger] s.subrange(
                        k,
                        k + needle.len(),
                    ) != needle
            },
            None => forall|k: int|
                0 <= k && k + needle.len() <= s.len() ==> #[trigger] s.subrange(
                    k,
                    k + needle.len(),
                ) != needle,
        },
    decreases s.len(),
{
    let m = needle.len() as int;
    if m <= s.len() {
        assert(s.take(m) =~= s.subrange(0, m));
    }
    if !begins_with(s, needle) && s.len() > 0 {
        let rest = s.skip(1);
        law_first_place_is_the_first(rest, needle);
        assert forall|k: int| 0 <= k && k + m <= rest.len() implies #[trigger] rest.subrange(
            k,
            k + m,
        ) == s.subrange(k + 1, k + 1 + m) by {
            assert(rest.subrange(k, k + m) =~= s.subrange(k + 1, k + 1 + m));
        }
        assert forall|k: int|
            0 < k && k + m <= s.len() implies #[trigger] s.subrange(k, k + m) == rest.subrange(
            k - 1,
            k - 1 + m,
        ) by {}
    }
}

/// A text holds another exactly if it is that text with something before and after it.
pub proof fn law_contains_means_stands_within(
    s: Seq<char>,
    needle: Seq<char>,
    front: Seq<char>,
    rest: Seq<char>,
)
    ensures
        contains_text(front + needle + rest, needle),
        contains_text(s, needle) ==> exists|a: Seq<char>, b: Seq<char>|
            s == #[trigger] (a + needle + b),
{
    let whole = front + needle + rest;
    law_first_place_is_the_first(whole, needle);
    let n = front.len() as int;
    assert(whole.subrange(n, n + needle.len()) =~= needle);
    law_first_place_is_the_first(s, needle);
    if let Some(i) = first_at(s, needle) {
        let a = s.take(i as int);
        let b = s.skip(i + needle.len() as int);
        assert(s =~= a + needle + b);
    }
}

/// A text without a line feed is one line, unless it is empty; a line feed, or a carriage return and
/// a line feed, ends a line.
pub proof fn law_lines_end_in_line_feeds(line: Seq<char>, rest: Seq<char>)
    requires
        !line.contains('\n'),
    ensures
        lines_of(Seq::empty()).len() == 0,
        line.len() > 0 ==> lines_of(line) == seq![line],
        line.len() == 0 || line.last() != '\r' ==> lines_of(line + seq!['\n'] + rest) == seq![line]
            + lines_of(rest),
        lines_of(line + seq!['\r', '\n'] + rest) == seq![line] + lines_of(rest),
{
    let with_cr = line.push('\r');
    assert(!with_cr.contains('\n')) by {
        assert forall|i: int| 0 <= i < with_cr.len() implies with_cr[i] != '\n' by {
            if i < line.len() {
                assert(line.contains(line[i]));
                assert(with_cr[i] == line[i]);
            }
        }
    }
    lemma_first_line(line, rest);
    lemma_first_line(with_cr, rest);
    assert(line.push('\n') + rest =~= line + seq!['\n'] + rest);
    assert(with_cr.push('\n') + rest =~= line + seq!['\r', '\n'] + rest);
    assert(without_cr(with_cr) =~= line);
    lemma_line_len(line);
    if line_len(line) < line.len() {
        assert(line.contains(line[line_len(line) as int]));
    }
}

} // verus!

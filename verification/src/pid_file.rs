//! The file in which the background process is recorded.

use crate::config::RefreshMode;
use crate::number::{self, parse_u32, render};
use crate::path::{self, home_path, join};
use crate::text::{self, lines, strip_prefix};
use vstd::prelude::*;

verus! {

/// The word that tells this plugin's pid file from any other.
pub const MARKER: &'static str = "HerdrStarshipPollDetached";

/// Where the plugin keeps its state, below the home directory.
pub const STATE_DIR: &'static str = ".local/state/herdr/plugins/herdr-starship";

/// The file `name` in the plugin's state directory.
pub open spec fn state_file(home: Option<&str>, name: Seq<char>) -> Option<Seq<char>> {
    match path::below(home, STATE_DIR@) {
        Some(dir) => Some(path::joined(dir, name)),
        None => None,
    }
}

/// Where the background process is recorded, if there is a home directory.
pub fn pid_file_path(home: Option<&str>) -> (res: Option<String>)
    ensures
        text::maybe(res) == state_file(home, "poll.pid"@),
{
    match home_path(home, STATE_DIR) {
        Some(dir) => Some(join(dir.as_str(), "poll.pid")),
        None => None,
    }
}

/// Where the lock around a refresh stands, if there is a home directory.
pub fn refresh_lock_path(home: Option<&str>) -> (res: Option<String>)
    ensures
        text::maybe(res) == state_file(home, "refresh.lock"@),
{
    match home_path(home, STATE_DIR) {
        Some(dir) => Some(join(dir.as_str(), "refresh.lock")),
        None => None,
    }
}

/// The word that stands for a mode.
pub open spec fn mode_word(mode: RefreshMode) -> Seq<char> {
    match mode {
        RefreshMode::Basic => "basic"@,
        RefreshMode::Poll => "poll"@,
        RefreshMode::Watch => "watch"@,
    }
}

/// The mode of a background process that a word stands for.
pub open spec fn background_mode(word: Seq<char>) -> Option<RefreshMode> {
    if word == "poll"@ {
        Some(RefreshMode::Poll)
    } else if word == "watch"@ {
        Some(RefreshMode::Watch)
    } else {
        None
    }
}

/// The word that stands for `mode`.
pub fn mode_str(mode: RefreshMode) -> (res: &'static str)
    ensures
        res@ == mode_word(mode),
{
    match mode {
        RefreshMode::Basic => "basic",
        RefreshMode::Poll => "poll",
        RefreshMode::Watch => "watch",
    }
}

/// The mode of a background process that `s` stands for.
pub fn parse_mode_str(s: &str) -> (res: Option<RefreshMode>)
    ensures
        res == background_mode(s@),
{
    if s.eq("poll") {
        Some(RefreshMode::Poll)
    } else if s.eq("watch") {
        Some(RefreshMode::Watch)
    } else {
        None
    }
}

/// A line that gives `key` a value.
pub open spec fn field_line(key: Seq<char>, value: Seq<char>) -> Seq<char> {
    (key + "="@ + value).push('\n')
}

/// The value in the first of `lines` that begins with `prefix`.
pub open spec fn value_after(lines: Seq<Seq<char>>, prefix: Seq<char>) -> Option<Seq<char>>
    decreases lines.len(),
{
    if lines.len() == 0 {
        None
    } else {
        match text::after_prefix(lines[0], prefix) {
            Some(value) => Some(value),
            None => value_after(lines.skip(1), prefix),
        }
    }
}

/// The value that the first line for `key` gives it.
pub open spec fn field(contents: Seq<char>, key: Seq<char>) -> Option<Seq<char>> {
    value_after(text::lines_of(contents), key + "="@)
}

/// A file that one of its lines marks as this plugin's.
pub open spec fn is_ours(contents: Seq<char>) -> bool {
    text::lines_of(contents).contains("marker="@ + MARKER@)
}

/// The number of the recorded process.
pub open spec fn recorded_pid(contents: Seq<char>) -> Option<nat> {
    match field(contents, "pid"@) {
        Some(value) => number::parsed_up_to(value, u32::MAX as nat),
        None => None,
    }
}

/// The program of the recorded process.
pub open spec fn recorded_binary(contents: Seq<char>) -> Option<Seq<char>> {
    field(contents, "binary"@)
}

/// The mode of the recorded process.
pub open spec fn recorded_mode(contents: Seq<char>) -> Option<RefreshMode> {
    match field(contents, "mode"@) {
        Some(value) => background_mode(value),
        None => None,
    }
}

/// A number that may be missing.
pub open spec fn maybe_number(n: Option<u32>) -> Option<nat> {
    match n {
        Some(n) => Some(n as nat),
        None => None,
    }
}

/// The record of a background process.
pub open spec fn pid_file(pid: u32, binary: Seq<char>, mode: RefreshMode) -> Seq<char> {
    field_line("pid"@, number::digits_of(pid as nat)) + field_line("marker"@, MARKER@)
        + field_line("binary"@, binary) + field_line("mode"@, mode_word(mode))
}

/// Puts a line that gives `key` a value at the end of `res`.
fn put_field(res: &mut String, key: &str, value: &str)
    ensures
        final(res)@ == old(res)@ + field_line(key@, value@),
{
    res.append(key);
    res.append("=");
    res.append(value);
    res.push('\n');
    assert(res@ =~= old(res)@ + field_line(key@, value@));
}

/// Writes the record of a background process.
pub fn render_pid_file(pid: u32, binary_path: &str, mode: RefreshMode) -> (res: String)
    ensures
        res@ == pid_file(pid, binary_path@, mode),
{
    let mut res = String::new();
    put_field(&mut res, "pid", render(pid as u64).as_str());
    assert(res@ =~= field_line("pid"@, number::digits_of(pid as nat)));
    put_field(&mut res, "marker", MARKER);
    put_field(&mut res, "binary", binary_path);
    put_field(&mut res, "mode", mode_str(mode));
    res
}

/// Whether a line of `contents` marks it as this plugin's pid file.
pub fn is_our_pid_file(contents: &str) -> (res: bool)
    ensures
        res == is_ours(contents@),
{
    let mut marker_line = "marker=".to_owned();
    marker_line.append(MARKER);
    let all = lines(contents);
    let mut i: usize = 0;
    while i < all.len()
        invariant
            i <= all@.len(),
            text::texts(all@) == text::lines_of(contents@),
            marker_line@ == "marker="@ + MARKER@,
            forall|k: int| 0 <= k < i ==> (#[trigger] text::texts(all@)[k]) != marker_line@,
        decreases all@.len() - i,
    {
        if all[i].as_str().eq(marker_line.as_str()) {
            assert(text::texts(all@)[i as int] == marker_line@);
            return true;
        }
        i = i + 1;
    }
    false
}

/// The value that the first line for `key` gives it.
pub fn extract_field(contents: &str, key: &str) -> (res: Option<String>)
    ensures
        text::maybe(res) == field(contents@, key@),
{
    let mut prefix = key.to_owned();
    prefix.append("=");
    let all = lines(contents);
    let ghost views = text::texts(all@);
    let mut i: usize = 0;
    assert(views.skip(0) =~= views);
    while i < all.len()
        invariant
            i <= all@.len(),
            views == text::texts(all@),
            prefix@ == key@ + "="@,
            field(contents@, key@) == value_after(views.skip(i as int), prefix@),
        decreases all@.len() - i,
    {
        assert(views.skip(i as int)[0] == all@[i as int]@);
        assert(views.skip(i as int).skip(1) =~= views.skip(i + 1));
        let value = strip_prefix(all[i].as_str(), prefix.as_str());
        if value.is_some() {
            return value;
        }
        i = i + 1;
    }
    None
}

/// The number of the recorded process.
pub fn extract_recorded_pid(contents: &str) -> (res: Option<u32>)
    ensures
        maybe_number(res) == recorded_pid(contents@),
{
    match extract_field(contents, "pid") {
        Some(value) => parse_u32(value.as_str()),
        None => None,
    }
}

/// The program of the recorded process.
pub fn extract_recorded_binary(contents: &str) -> (res: Option<String>)
    ensures
        text::maybe(res) == recorded_binary(contents@),
{
    extract_field(contents, "binary")
}

/// The mode of the recorded process. An older record lacks this field and reads as `None`.
pub fn extract_recorded_mode(contents: &str) -> (res: Option<RefreshMode>)
    ensures
        res == recorded_mode(contents@),
{
    match extract_field(contents, "mode") {
        Some(value) => parse_mode_str(value.as_str()),
        None => None,
    }
}

/// The program that a pid file records, if the file is this plugin's.
pub open spec fn installed_binary(file: Option<&str>) -> Option<Seq<char>> {
    match file {
        Some(contents) => if is_ours(contents@) {
            recorded_binary(contents@)
        } else {
            None
        },
        None => None,
    }
}

/// The program of the background process that the pid file's contents record. A missing file, and
/// one that is not this plugin's, record none.
pub fn installed_binary_path(file: Option<&str>) -> (res: Option<String>)
    ensures
        text::maybe(res) == installed_binary(file),
{
    match file {
        Some(contents) => {
            if is_our_pid_file(contents) {
                extract_recorded_binary(contents)
            } else {
                None
            }
        },
        None => None,
    }
}

proof fn lemma_value_add(a: Seq<Seq<char>>, b: Seq<Seq<char>>, prefix: Seq<char>)
    ensures
        value_after(a + b, prefix) == match value_after(a, prefix) {
            Some(value) => Some(value),
            None => value_after(b, prefix),
        },
    decreases a.len(),
{
    if a.len() == 0 {
        assert(a + b =~= b);
    } else {
        assert((a + b).skip(1) =~= a.skip(1) + b);
        lemma_value_add(a.skip(1), b, prefix);
    }
}

/// A line that gives `key` a value without a line feed gives it that value, less a carriage return
/// at its end.
proof fn lemma_field_line(key: Seq<char>, value: Seq<char>, rest: Seq<char>)
    requires
        !key.contains('\n'),
        !value.contains('\n'),
    ensures
        text::lines_of(field_line(key, value) + rest) == seq![key + "="@ + text::without_cr(value)]
            + text::lines_of(rest),
{
    reveal_strlit("=");
    let line = key + "="@ + value;
    assert(!line.contains('\n')) by {
        assert forall|i: int| 0 <= i < line.len() implies line[i] != '\n' by {
            if i < key.len() {
                assert(line[i] == key[i]);
            } else if i > key.len() {
                assert(line[i] == value[i - key.len() - 1]);
            }
        }
    }
    text::lemma_first_line(line, rest);
    assert(text::without_cr(line) =~= key + "="@ + text::without_cr(value));
}

/// A line that begins with another word is no line for `prefix`.
proof fn lemma_other_key(line: Seq<char>, prefix: Seq<char>, at: int)
    requires
        0 <= at < prefix.len(),
        at < line.len(),
        line[at] != prefix[at],
    ensures
        text::after_prefix(line, prefix) is None,
{
    if text::begins_with(line, prefix) {
        assert(line.take(prefix.len() as int)[at] == line[at]);
    }
}

proof fn lemma_own_key(prefix: Seq<char>, value: Seq<char>)
    ensures
        text::after_prefix(prefix + value, prefix) == Some(value),
{
    assert((prefix + value).take(prefix.len() as int) =~= prefix);
    assert((prefix + value).skip(prefix.len() as int) =~= value);
}

/// The number of a process stands on one line.
proof fn lemma_digits_line(pid: u32)
    ensures
        !"pid"@.contains('\n'),
        !number::digits_of(pid as nat).contains('\n'),
        text::without_cr(number::digits_of(pid as nat)) == number::digits_of(pid as nat),
{
    reveal_strlit("pid");
    let digits = number::digits_of(pid as nat);
    number::law_render_parses_back(pid as nat);
    assert forall|i: int| 0 <= i < digits.len() implies digits[i] != '\n' by {
        assert(number::is_digit(digits[i]));
    }
    if digits.len() > 0 {
        assert(number::is_digit(digits.last()));
    }
}

/// The first two lines of a record, and what the rest of it is.
proof fn lemma_head(pid: u32, binary: Seq<char>, mode: RefreshMode)
    ensures
        text::lines_of(pid_file(pid, binary, mode)) == seq![
            "pid"@ + "="@ + number::digits_of(pid as nat),
            "marker"@ + "="@ + MARKER@,
        ] + text::lines_of(field_line("binary"@, binary) + field_line("mode"@, mode_word(mode))),
{
    let digits = number::digits_of(pid as nat);
    let last = field_line("binary"@, binary) + field_line("mode"@, mode_word(mode));
    let rest = field_line("marker"@, MARKER@) + last;
    reveal_strlit("marker");
    reveal_strlit("HerdrStarshipPollDetached");
    lemma_digits_line(pid);
    assert(pid_file(pid, binary, mode) =~= field_line("pid"@, digits) + rest);
    lemma_field_line("pid"@, digits, rest);
    lemma_field_line("marker"@, MARKER@, last);
    assert(text::without_cr(MARKER@) == MARKER@);
    assert(text::lines_of(pid_file(pid, binary, mode)) =~= seq![
        "pid"@ + "="@ + digits,
        "marker"@ + "="@ + MARKER@,
    ] + text::lines_of(last));
}

/// Every record that this plugin writes is recognised as its own.
pub proof fn law_own_record_is_ours(pid: u32, binary: Seq<char>, mode: RefreshMode)
    ensures
        is_ours(pid_file(pid, binary, mode)),
{
    lemma_head(pid, binary, mode);
    reveal_strlit("marker");
    reveal_strlit("=");
    reveal_strlit("marker=");
    assert("marker"@ + "="@ =~= "marker="@);
    assert(text::lines_of(pid_file(pid, binary, mode))[1] == "marker="@ + MARKER@);
}

/// A record gives back the number of the process that it was written for.
pub proof fn law_record_keeps_pid(pid: u32, binary: Seq<char>, mode: RefreshMode)
    ensures
        recorded_pid(pid_file(pid, binary, mode)) == Some(pid as nat),
{
    lemma_head(pid, binary, mode);
    let digits = number::digits_of(pid as nat);
    lemma_own_key("pid"@ + "="@, digits);
    number::law_render_parses_back(pid as nat);
    assert(text::lines_of(pid_file(pid, binary, mode))[0] == "pid"@ + "="@ + digits);
}

/// The lines for the process's number and the marker give no value to `binary` or `mode`.
proof fn lemma_tail(pid: u32, binary: Seq<char>, mode: RefreshMode, key: Seq<char>)
    requires
        key == "binary"@ || key == "mode"@,
    ensures
        field(pid_file(pid, binary, mode), key) == value_after(
            text::lines_of(field_line("binary"@, binary) + field_line("mode"@, mode_word(mode))),
            key + "="@,
        ),
{
    lemma_head(pid, binary, mode);
    reveal_strlit("pid");
    reveal_strlit("marker");
    reveal_strlit("binary");
    reveal_strlit("mode");
    reveal_strlit("=");
    let prefix = key + "="@;
    let first = "pid"@ + "="@ + number::digits_of(pid as nat);
    let second = "marker"@ + "="@ + MARKER@;
    let rest = text::lines_of(
        field_line("binary"@, binary) + field_line("mode"@, mode_word(mode)),
    );
    let all = seq![first, second] + rest;
    lemma_other_key(first, prefix, 0);
    if key == "binary"@ {
        lemma_other_key(second, prefix, 0);
    } else {
        assert(second[1] == 'a' && prefix[1] == 'o');
        lemma_other_key(second, prefix, 1);
    }
    assert(all[0] == first);
    assert(all.skip(1)[0] == second);
    assert(all.skip(1).skip(1) =~= rest);
    assert(value_after(all, prefix) == value_after(all.skip(1), prefix));
}

/// A record gives back the program that it was written for, unless a line feed in its path or a
/// carriage return at the end is taken for the end of the line.
pub proof fn law_record_keeps_binary(pid: u32, binary: Seq<char>, mode: RefreshMode)
    ensures
        recorded_binary(pid_file(pid, binary, mode)) == Some(binary) <==> !binary.contains('\n')
            && !(binary.len() > 0 && binary.last() == '\r'),
{
    lemma_tail(pid, binary, mode, "binary"@);
    reveal_strlit("binary");
    text::lemma_line_len(binary);
    let end = text::line_len(binary) as int;
    let line = binary.take(end);
    let mode_line = field_line("mode"@, mode_word(mode));
    let rest = if end == binary.len() {
        mode_line
    } else {
        binary.skip(end + 1).push('\n') + mode_line
    };
    assert(field_line("binary"@, binary) + mode_line =~= field_line("binary"@, line) + rest);
    assert(!line.contains('\n'));
    lemma_field_line("binary"@, line, rest);
    lemma_own_key("binary"@ + "="@, text::without_cr(line));
    let all = text::lines_of(field_line("binary"@, binary) + mode_line);
    assert(all[0] == "binary"@ + "="@ + text::without_cr(line));
    assert(recorded_binary(pid_file(pid, binary, mode)) == Some(text::without_cr(line)));
    if end == binary.len() {
        assert(line =~= binary);
    } else {
        assert(binary[end] == '\n');
        assert(text::without_cr(line).len() < binary.len());
    }
}

/// A record gives back the mode of the background process that it was written for, unless the
/// program's path holds a line of its own for the mode.
pub proof fn law_record_keeps_mode(pid: u32, binary: Seq<char>, mode: RefreshMode)
    requires
        field(field_line("binary"@, binary), "mode"@) is None,
    ensures
        recorded_mode(pid_file(pid, binary, mode)) == if mode == RefreshMode::Basic {
            None
        } else {
            Some(mode)
        },
{
    lemma_tail(pid, binary, mode, "mode"@);
    reveal_strlit("mode");
    reveal_strlit("basic");
    reveal_strlit("poll");
    reveal_strlit("watch");
    let word = mode_word(mode);
    let mode_line = field_line("mode"@, word);
    let prefix = "mode"@ + "="@;
    text::lemma_lines_add("binary"@ + "="@ + binary, mode_line);
    lemma_value_add(
        text::lines_of(field_line("binary"@, binary)),
        text::lines_of(mode_line),
        prefix,
    );
    lemma_field_line("mode"@, word, Seq::empty());
    assert(mode_line + Seq::<char>::empty() =~= mode_line);
    assert(text::without_cr(word) == word);
    lemma_own_key(prefix, word);
    assert(text::lines_of(mode_line)[0] == prefix + word);
    assert("basic"@[0] != "poll"@[0]);
    assert("basic"@[0] != "watch"@[0]);
    assert("poll"@[0] != "watch"@[0]);
}

/// The path of a program that has no line feed in it holds no line for the mode.
pub proof fn law_plain_path_hides_no_mode(binary: Seq<char>)
    requires
        !binary.contains('\n'),
    ensures
        field(field_line("binary"@, binary), "mode"@) is None,
{
    reveal_strlit("binary");
    reveal_strlit("mode");
    let line = field_line("binary"@, binary);
    lemma_field_line("binary"@, binary, Seq::empty());
    assert(line + Seq::<char>::empty() =~= line);
    let first = "binary"@ + "="@ + text::without_cr(binary);
    lemma_other_key(first, "mode"@ + "="@, 0);
    let all = text::lines_of(line);
    assert(all =~= seq![first]);
    assert(all[0] == first);
    assert(all.skip(1) =~= Seq::empty());
    assert(value_after(all.skip(1), "mode"@ + "="@) is None);
}

/// A file that holds nothing but a line for a process's number gives the number back.
pub proof fn law_single_pid_line_is_read_back(pid: u32)
    ensures
        recorded_pid(field_line("pid"@, number::digits_of(pid as nat))) == Some(pid as nat),
{
    let digits = number::digits_of(pid as nat);
    let line = field_line("pid"@, digits);
    number::law_render_parses_back(pid as nat);
    lemma_digits_line(pid);
    lemma_field_line("pid"@, digits, Seq::empty());
    assert(line + Seq::<char>::empty() =~= line);
    lemma_own_key("pid"@ + "="@, digits);
    assert(text::lines_of(line)[0] == "pid"@ + "="@ + digits);
}

/// The first line that begins with a key and `=` gives the key its value; a line that does not is
/// passed over, and without such a line there is no value.
pub proof fn law_first_line_for_a_key_counts(
    key: Seq<char>,
    value: Seq<char>,
    line: Seq<char>,
    rest: Seq<char>,
)
    requires
        !key.contains('\n'),
        !value.contains('\n'),
        value.len() > 0 ==> value.last() != '\r',
        !line.contains('\n'),
        line.len() > 0 ==> line.last() != '\r',
        !(key.len() < line.len() && line.take(key.len() as int) == key && line[key.len() as int]
            == '='),
    ensures
        field(key + seq!['='] + value + seq!['\n'] + rest, key) == Some(value),
        field(line + seq!['\n'] + rest, key) == field(rest, key),
        field(Seq::empty(), key) is None,
{
    reveal_strlit("=");
    assert("="@ =~= seq!['=']);
    let prefix = key + "="@;
    assert(key + seq!['='] + value + seq!['\n'] + rest =~= field_line(key, value) + rest);
    lemma_field_line(key, value, rest);
    lemma_own_key(prefix, value);
    let all = text::lines_of(field_line(key, value) + rest);
    assert(text::without_cr(value) == value);
    assert(all[0] == prefix + value);
    text::lemma_first_line(line, rest);
    assert(line.push('\n') + rest =~= line + seq!['\n'] + rest);
    let other = text::lines_of(line + seq!['\n'] + rest);
    assert(other[0] == line);
    assert(other.skip(1) =~= text::lines_of(rest));
    if text::begins_with(line, prefix) {
        let part = line.take(prefix.len() as int);
        assert(part[key.len() as int] == '=');
        assert(line.take(key.len() as int) =~= part.take(key.len() as int));
        assert(part.take(key.len() as int) =~= key);
    }
    assert(text::lines_of(Seq::empty()) =~= Seq::empty());
}

/// A file is this plugin's exactly if one whole line of it is the marker.
pub proof fn law_marker_line_makes_a_file_ours(line: Seq<char>, rest: Seq<char>)
    requires
        !line.contains('\n'),
        line.len() > 0 ==> line.last() != '\r',
    ensures
        is_ours(line + seq!['\n'] + rest) <==> line == "marker=HerdrStarshipPollDetached"@
            || is_ours(rest),
        is_ours(line) <==> line == "marker=HerdrStarshipPollDetached"@,
        !is_ours(Seq::empty()),
{
    let mark = "marker="@ + MARKER@;
    reveal_strlit("marker=");
    reveal_strlit("HerdrStarshipPollDetached");
    reveal_strlit("marker=HerdrStarshipPollDetached");
    assert(mark =~= "marker=HerdrStarshipPollDetached"@);
    text::law_lines_end_in_line_feeds(line, rest);
    let tail = text::lines_of(rest);
    let all = seq![line] + tail;
    assert(all.contains(mark) <==> line == mark || tail.contains(mark)) by {
        if tail.contains(mark) {
            let i = choose|i: int| 0 <= i < tail.len() && tail[i] == mark;
            assert(all[i + 1] == mark);
        }
        if line == mark {
            assert(all[0] == mark);
        }
        if all.contains(mark) {
            let i = choose|i: int| 0 <= i < all.len() && all[i] == mark;
            if i > 0 {
                assert(tail[i - 1] == mark);
            }
        }
    }
    if line.len() > 0 {
        assert(seq![line].contains(mark) <==> line == mark) by {
            if line == mark {
                assert(seq![line][0] == mark);
            }
        }
    } else {
        assert(mark.len() > 0);
    }
}

/// Only the words for the two background modes are read back, each as its own mode, and every mode
/// has a word of its own.
pub proof fn law_words_of_modes(word: Seq<char>, a: RefreshMode, b: RefreshMode)
    ensures
        background_mode(word) == Some(RefreshMode::Poll) <==> word == "poll"@,
        background_mode(word) == Some(RefreshMode::Watch) <==> word == "watch"@,
        background_mode(word) != Some(RefreshMode::Basic),
        mode_word(a) == mode_word(b) <==> a == b,
        a != RefreshMode::Basic ==> background_mode(mode_word(a)) == Some(a),
{
    reveal_strlit("basic");
    reveal_strlit("poll");
    reveal_strlit("watch");
    assert("basic"@[0] != "poll"@[0]);
    assert("basic"@[0] != "watch"@[0]);
    assert("poll"@[0] != "watch"@[0]);
}

/// A program counts as installed exactly if the pid file is there, is this plugin's, and names it.
pub proof fn law_only_own_record_names_the_program(file: Option<&str>, binary: Seq<char>)
    ensures
        installed_binary(file) == Some(binary) <==> file is Some && is_ours(file->0@) && field(
            file->0@,
            "binary"@,
        ) == Some(binary),
        file is None ==> installed_binary(file) is None,
{
}

/// The pid file and the lock stand in the same directory below the home directory, under names of
/// their own.
pub proof fn law_state_files_stand_below_home(home: &str, name: Seq<char>)
    requires
        home@.len() > 0,
        home@.last() != '/',
        name.len() > 0,
        name[0] != '/',
    ensures
        state_file(Some(home), name) == Some(
            home@ + "/.local/state/herdr/plugins/herdr-starship/"@ + name,
        ),
        state_file(None, name) is None,
{
    reveal_strlit(".local/state/herdr/plugins/herdr-starship");
    reveal_strlit("/.local/state/herdr/plugins/herdr-starship/");
    let dir = path::joined(home@, STATE_DIR@);
    assert(dir =~= home@ + seq!['/'] + STATE_DIR@);
    assert(path::joined(dir, name) =~= home@
        + "/.local/state/herdr/plugins/herdr-starship/"@ + name);
}

/// A record is four lines: the process, the marker, the program and the mode.
pub proof fn law_record_is_four_lines(pid: u32, binary: Seq<char>, mode: RefreshMode)
    ensures
        pid_file(pid, binary, mode) == "pid="@ + number::digits_of(pid as nat)
            + "\nmarker=HerdrStarshipPollDetached\nbinary="@ + binary + "\nmode="@ + mode_word(mode)
            + seq!['\n'],
        mode_word(RefreshMode::Basic) == "basic"@,
        mode_word(RefreshMode::Poll) == "poll"@,
        mode_word(RefreshMode::Watch) == "watch"@,
{
    reveal_strlit("pid");
    reveal_strlit("marker");
    reveal_strlit("binary");
    reveal_strlit("mode");
    reveal_strlit("=");
    reveal_strlit("HerdrStarshipPollDetached");
    reveal_strlit("pid=");
    reveal_strlit("\nmarker=HerdrStarshipPollDetached\nbinary=");
    reveal_strlit("\nmode=");
    assert(pid_file(pid, binary, mode) =~= "pid="@ + number::digits_of(pid as nat)
        + "\nmarker=HerdrStarshipPollDetached\nbinary="@ + binary + "\nmode="@ + mode_word(mode)
        + seq!['\n']);
}

/// The number, the program and the mode of a record are what its lines for them say.
pub proof fn law_record_is_read_by_its_keys(contents: Seq<char>, pid: u32)
    ensures
        recorded_binary(contents) == field(contents, "binary"@),
        field(contents, "pid"@) == Some(number::digits_of(pid as nat)) ==> recorded_pid(contents)
            == Some(pid as nat),
        field(contents, "pid"@) is None || number::parsed(field(contents, "pid"@)->0) is None
            || number::parsed(field(contents, "pid"@)->0)->0 > u32::MAX ==> recorded_pid(contents)
            is None,
        recorded_mode(contents) == Some(RefreshMode::Poll) <==> field(contents, "mode"@) == Some(
            "poll"@,
        ),
        recorded_mode(contents) == Some(RefreshMode::Watch) <==> field(contents, "mode"@) == Some(
            "watch"@,
        ),
        recorded_mode(contents) != Some(RefreshMode::Basic),
{
    number::law_render_parses_back(pid as nat);
    reveal_strlit("poll");
    reveal_strlit("watch");
    assert("poll"@[0] != "watch"@[0]);
}

} // verus!

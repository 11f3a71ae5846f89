//! Unix paths as text.

use crate::text::{self, chars_of, string_of};
use vstd::prelude::*;

verus! {

pub open spec fn is_absolute_path(path: Seq<char>) -> bool {
    path.len() > 0 && path[0] == '/'
}

/// `path`, taken as relative to `base`.
pub open spec fn joined(base: Seq<char>, path: Seq<char>) -> Seq<char> {
    if is_absolute_path(path) {
        path
    } else if base.len() == 0 || base.last() == '/' {
        base + path
    } else {
        base + seq!['/'] + path
    }
}

/// Whether `path` starts at the root.
pub fn is_absolute(path: &str) -> (res: bool)
    ensures
        res == is_absolute_path(path@),
{
    let chars = text::chars_of(path);
    chars.len() > 0 && chars[0] == '/'
}

/// Puts `path` behind `base`, with one separator between them. An absolute `path` stands alone.
pub fn join(base: &str, path: &str) -> (res: String)
    ensures
        res@ == joined(base@, path@),
{
    if is_absolute(path) {
        return path.to_owned();
    }
    let chars = text::chars_of(base);
    let mut res = base.to_owned();
    if chars.len() > 0 && chars[chars.len() - 1] != '/' {
        res.push('/');
    }
    res.append(path);
    assert(res@ =~= joined(base@, path@));
    res
}

/// `path` below `home`, if there is a home directory.
pub open spec fn below(home: Option<&str>, path: Seq<char>) -> Option<Seq<char>> {
    match home {
        Some(home) => Some(joined(home@, path)),
        None => None,
    }
}

/// Puts `path` below `home`, if there is a home directory.
pub fn home_path(home: Option<&str>, path: &str) -> (res: Option<String>)
    ensures
        text::maybe(res) == below(home, path@),
{
    match home {
        Some(home) => Some(join(home, path)),
        None => None,
    }
}

/// What follows the last `/` of a path.
pub open spec fn basename(path: Seq<char>) -> Seq<char>
    decreases path.len(),
{
    if path.len() == 0 || path.last() == '/' {
        Seq::empty()
    } else {
        basename(path.drop_last()).push(path.last())
    }
}

/// What follows the last `/` of `path`.
pub fn last_component(path: &str) -> (res: String)
    ensures
        res@ == basename(path@),
{
    let chars = chars_of(path);
    let mut start: usize = chars.len();
    proof {
        assert(path@.take(path@.len() as int) =~= path@);
        assert(basename(path@) + path@.skip(path@.len() as int) =~= basename(path@));
    }
    while start > 0 && chars[start - 1] != '/'
        invariant
            start <= chars@.len(),
            chars@ == path@,
            basename(path@) == basename(path@.take(start as int)) + path@.skip(start as int),
        decreases start,
    {
        proof {
            let part = path@.take(start as int);
            assert(part.drop_last() =~= path@.take(start - 1));
            assert(basename(part) == basename(part.drop_last()).push(part.last()));
            assert(basename(path@.take(start - 1)) + path@.skip(start - 1) =~= basename(part)
                + path@.skip(start as int));
        }
        start = start - 1;
    }
    proof {
        assert(basename(path@.take(start as int)) =~= Seq::<char>::empty());
        assert(path@.skip(start as int) =~= path@.subrange(start as int, path@.len() as int));
    }
    string_of(&chars, start, chars.len())
}

/// The last component of a path, unless it leads upwards. Empty components and those that mean the
/// directory itself do not count.
pub open spec fn file_name_of(path: Seq<char>) -> Option<Seq<char>>
    decreases path.len(),
{
    if path.len() == 0 {
        None
    } else {
        let name = basename(path);
        let slash = path.len() - name.len() - 1;
        if name.len() > 0 && name != "."@ {
            if name == ".."@ {
                None
            } else {
                Some(name)
            }
        } else if slash >= 0 {
            file_name_of(path.take(slash))
        } else {
            None
        }
    }
}

/// The last component of `path`, unless it leads upwards.
pub fn file_name(path: &str) -> (res: Option<String>)
    ensures
        text::maybe(res) == file_name_of(path@),
    decreases path@.len(),
{
    let chars = chars_of(path);
    if chars.len() == 0 {
        return None;
    }
    let name = last_component(path);
    let length = chars_of(name.as_str()).len();
    proof {
        lemma_basename_has_no_slash(path@);
    }
    if length > 0 && !name.as_str().eq(".") {
        if name.as_str().eq("..") {
            None
        } else {
            Some(name)
        }
    } else if length < chars.len() {
        let slash: usize = chars.len() - length - 1;
        let rest = string_of(&chars, 0, slash);
        assert(rest@ =~= path@.take(slash as int));
        file_name(rest.as_str())
    } else {
        None
    }
}

/// The components of a path, but for the root. Empty ones do not count, nor do those that mean the
/// directory itself, unless the path begins with one.
pub open spec fn parts(path: Seq<char>) -> Seq<Seq<char>>
    decreases path.len(),
{
    if path.len() == 0 {
        Seq::empty()
    } else {
        let name = basename(path);
        let slash = path.len() - name.len() - 1;
        if slash < 0 {
            seq![name]
        } else if name.len() == 0 || name == "."@ {
            parts(path.take(slash))
        } else {
            parts(path.take(slash)).push(name)
        }
    }
}

/// Components with one separator between each two.
pub open spec fn connected(parts: Seq<Seq<char>>) -> Seq<char>
    decreases parts.len(),
{
    if parts.len() == 0 {
        Seq::empty()
    } else if parts.len() == 1 {
        parts[0]
    } else {
        connected(parts.drop_last()).push('/') + parts.last()
    }
}

/// The shortest way to write a path that has the same root and components.
pub open spec fn normalized(path: Seq<char>) -> Seq<char> {
    if is_absolute_path(path) {
        seq!['/'] + connected(parts(path))
    } else {
        connected(parts(path))
    }
}

/// The components of `path`, but for the root.
fn parts_of(path: &str) -> (res: Vec<String>)
    ensures
        text::texts(res@) == parts(path@),
    decreases path@.len(),
{
    let chars = chars_of(path);
    if chars.len() == 0 {
        let res: Vec<String> = Vec::new();
        assert(text::texts(res@) =~= parts(path@));
        return res;
    }
    let name = last_component(path);
    let length = chars_of(name.as_str()).len();
    proof {
        lemma_basename_has_no_slash(path@);
    }
    if length == chars.len() {
        let mut res: Vec<String> = Vec::new();
        res.push(name);
        assert(text::texts(res@) =~= parts(path@));
        return res;
    }
    let slash: usize = chars.len() - length - 1;
    let rest = string_of(&chars, 0, slash);
    assert(rest@ =~= path@.take(slash as int));
    let mut res = parts_of(rest.as_str());
    if length > 0 && !name.as_str().eq(".") {
        res.push(name);
        assert(text::texts(res@) =~= parts(path@));
    }
    res
}

/// Writes `path` in the shortest way that has the same root and components. Two paths are the same
/// if they come out alike.
pub fn normalize(path: &str) -> (res: String)
    ensures
        res@ == normalized(path@),
{
    let list = parts_of(path);
    let ghost all = text::texts(list@);
    let mut res = String::new();
    if is_absolute(path) {
        res.push('/');
    }
    let ghost root = res@;
    let mut i: usize = 0;
    assert(res@ =~= root + connected(all.take(0)));
    while i < list.len()
        invariant
            i <= list@.len(),
            all == text::texts(list@),
            res@ == root + connected(all.take(i as int)),
        decreases list@.len() - i,
    {
        if i > 0 {
            res.push('/');
        }
        res.append(list[i].as_str());
        proof {
            let done = all.take(i + 1);
            assert(done.drop_last() =~= all.take(i as int));
            assert(done.last() == list@[i as int]@);
            assert(res@ =~= root + connected(done));
        }
        i = i + 1;
    }
    assert(all.take(i as int) =~= all);
    assert(res@ =~= normalized(path@));
    res
}

/// A list of components as `parts` gives it.
spec fn proper(parts: Seq<Seq<char>>, absolute: bool) -> bool {
    forall|i: int|
        0 <= i < parts.len() ==> {
            &&& (#[trigger] parts[i]).len() > 0
            &&& !parts[i].contains('/')
            &&& parts[i] == "."@ ==> i == 0 && !absolute
        }
}

proof fn lemma_basename_has_no_slash(path: Seq<char>)
    ensures
        !basename(path).contains('/'),
        basename(path).len() <= path.len(),
        basename(path).len() == path.len() ==> basename(path) == path,
        basename(path).len() < path.len() ==> path[path.len() - basename(path).len() - 1] == '/',
    decreases path.len(),
{
    if path.len() > 0 && path.last() != '/' {
        let rest = path.drop_last();
        lemma_basename_has_no_slash(rest);
        let name = basename(path);
        assert(name.drop_last() =~= basename(rest));
        assert forall|i: int| 0 <= i < name.len() implies name[i] != '/' by {
            if i < name.len() - 1 {
                assert(name[i] == basename(rest)[i]);
            }
        }
        if name.len() == path.len() {
            assert(name =~= path);
        } else {
            assert(path[path.len() - name.len() - 1] == rest[rest.len() - basename(rest).len()
                - 1]);
        }
    }
}

/// A name behind the last separator is the last component.
proof fn lemma_basename_is(front: Seq<char>, name: Seq<char>)
    requires
        !name.contains('/'),
    ensures
        basename(front.push('/') + name) == name,
        basename(name) == name,
    decreases name.len(),
{
    let path = front.push('/') + name;
    if name.len() > 0 {
        let less = name.drop_last();
        assert(!less.contains('/')) by {
            assert forall|i: int| 0 <= i < less.len() implies less[i] != '/' by {
                assert(less[i] == name[i]);
            }
        }
        lemma_basename_is(front, less);
        assert(name.contains(name.last()));
        assert(path.drop_last() =~= front.push('/') + less);
        assert(less.push(name.last()) =~= name);
    } else {
        assert(path =~= front.push('/'));
    }
}

proof fn lemma_parts_are_proper(path: Seq<char>)
    ensures
        proper(parts(path), is_absolute_path(path)),
    decreases path.len(),
{
    lemma_basename_has_no_slash(path);
    if path.len() > 0 {
        let name = basename(path);
        let slash = path.len() - name.len() - 1;
        if slash < 0 {
            assert(name == path);
            assert(!is_absolute_path(path)) by {
                if is_absolute_path(path) {
                    assert(path.contains(path[0]));
                }
            }
        } else {
            let front = path.take(slash);
            lemma_parts_are_proper(front);
            assert(slash > 0 ==> is_absolute_path(front) == is_absolute_path(path));
            if slash == 0 {
                assert(front =~= Seq::empty());
                assert(parts(front) =~= Seq::empty());
            }
        }
    }
}

/// Components that are put together fall apart into the same components.
proof fn lemma_parts_of_connected(list: Seq<Seq<char>>, absolute: bool)
    requires
        proper(list, absolute),
        list.len() > 0,
    ensures
        ({
            let root = if absolute {
                seq!['/']
            } else {
                Seq::empty()
            };
            parts(root + connected(list)) == list && connected(list).len() > 0
                && connected(list)[0] == list[0][0]
        }),
    decreases list.len(),
{
    let root = if absolute {
        seq!['/']
    } else {
        Seq::empty()
    };
    let path = root + connected(list);
    let name = list.last();
    assert(list[list.len() - 1] == name);
    assert(list[0].len() > 0);
    if list.len() == 1 {
        assert(path =~= root + name);
        if absolute {
            let nothing = Seq::<char>::empty();
            lemma_basename_is(nothing, name);
            assert(nothing.push('/') + name =~= path);
            assert(path.take(0) =~= nothing);
            assert(parts(nothing) =~= Seq::empty());
        } else {
            lemma_basename_is(Seq::empty(), name);
            assert(path =~= name);
        }
        assert(parts(path) =~= list);
    } else {
        let rest = list.drop_last();
        assert(proper(rest, absolute)) by {
            assert forall|i: int| 0 <= i < rest.len() implies {
                &&& (#[trigger] rest[i]).len() > 0
                &&& !rest[i].contains('/')
                &&& rest[i] == "."@ ==> i == 0 && !absolute
            } by {
                assert(rest[i] == list[i]);
            }
        }
        lemma_parts_of_connected(rest, absolute);
        let front = root + connected(rest);
        assert(path =~= front.push('/') + name);
        lemma_basename_is(front, name);
        assert(path.take(path.len() - name.len() - 1) =~= front);
        assert(parts(path) =~= rest.push(name));
        assert(rest.push(name) =~= list);
        assert(connected(list)[0] == connected(rest)[0]);
    }
}

/// A path that is written in the shortest way stays as it is.
pub proof fn law_normalized_stays(path: Seq<char>)
    ensures
        normalized(normalized(path)) == normalized(path),
{
    let list = parts(path);
    let absolute = is_absolute_path(path);
    let short = normalized(path);
    lemma_parts_are_proper(path);
    if list.len() > 0 {
        lemma_parts_of_connected(list, absolute);
        assert(list[0].contains(list[0][0]));
        assert(is_absolute_path(short) == absolute);
        assert(parts(short) == list) by {
            if !absolute {
                assert(Seq::<char>::empty() + connected(list) =~= short);
            }
        }
    } else if absolute {
        assert(short =~= seq!['/']);
        assert(basename(short) =~= Seq::empty());
        assert(short.take(0) =~= Seq::empty());
        assert(parts(short.take(0)) =~= Seq::empty());
        assert(parts(short) =~= Seq::empty());
    } else {
        assert(short =~= Seq::empty());
    }
}

/// What follows the last `/` is the last component, whatever stands before it.
pub proof fn law_basename_follows_the_last_slash(front: Seq<char>, name: Seq<char>)
    requires
        !name.contains('/'),
    ensures
        basename(front + seq!['/'] + name) == name,
        basename(name) == name,
{
    lemma_basename_is(front, name);
    assert(front + seq!['/'] + name =~= front.push('/') + name);
}

/// A relative path goes behind its base with one separator; an absolute one stands alone.
pub proof fn law_joined_paths(base: Seq<char>, path: Seq<char>)
    ensures
        path.len() > 0 && path[0] == '/' ==> joined(base, path) == path,
        (path.len() == 0 || path[0] != '/') && base.len() > 0 && base.last() != '/' ==> joined(
            base,
            path,
        ) == base + seq!['/'] + path,
        (path.len() == 0 || path[0] != '/') && base.len() > 0 && base.last() == '/' ==> joined(
            base,
            path,
        ) == base + path,
        base.len() == 0 ==> joined(base, path) == path,
{
    if base.len() == 0 {
        assert(base + path =~= path);
    }
}

/// The last component is the name of the file, however many empty components or mentions of the
/// directory itself follow it.
pub proof fn law_file_name_is_the_last_component(front: Seq<char>, name: Seq<char>)
    requires
        !name.contains('/'),
        name.len() > 0,
        name != seq!['.'],
        name != seq!['.', '.'],
    ensures
        file_name_of(front + seq!['/'] + name) == Some(name),
        file_name_of(name) == Some(name),
{
    law_basename_follows_the_last_slash(front, name);
    reveal_strlit(".");
    reveal_strlit("..");
    assert("."@ =~= seq!['.']);
    assert(".."@ =~= seq!['.', '.']);
}

/// A separator, or a mention of the directory itself, at the end of a path does not change which
/// file it names; a path that leads upwards names none.
pub proof fn law_file_name_looks_through_the_end(path: Seq<char>)
    ensures
        file_name_of(path + seq!['/']) == file_name_of(path),
        file_name_of(path + seq!['/', '.']) == file_name_of(path),
        file_name_of(path + seq!['/', '.', '.']) is None,
        file_name_of(seq!['.', '.']) is None,
        file_name_of(seq!['.']) is None,
        file_name_of(Seq::empty()) is None,
{
    let none = Seq::<char>::empty();
    let dot = seq!['.'];
    let up = seq!['.', '.'];
    reveal_strlit(".");
    reveal_strlit("..");
    assert("."@ =~= dot);
    assert(".."@ =~= up);
    lemma_basename_is(path, none);
    lemma_basename_is(path, dot);
    lemma_basename_is(path, up);
    assert(path + seq!['/'] =~= path.push('/') + none);
    assert(path + seq!['/', '.'] =~= path.push('/') + dot);
    assert(path + seq!['/', '.', '.'] =~= path.push('/') + up);
    let n = path.len() as int;
    assert((path + seq!['/']).take(n) =~= path);
    assert((path + seq!['/', '.']).take(n) =~= path);
    assert(up != dot) by {
        assert(up.len() != dot.len());
    }
    assert(dot.take(0) =~= none);
}

/// How a path is written in the shortest way, from its end: a separator or a mention of the
/// directory itself at the end goes, and any other component stays behind one separator.
pub proof fn law_normalized_from_the_end(path: Seq<char>, name: Seq<char>)
    requires
        path.len() > 0,
        !name.contains('/'),
    ensures
        name.len() == 0 || name == seq!['.'] ==> normalized(path + seq!['/'] + name) == normalized(
            path,
        ),
        name.len() > 0 && name != seq!['.'] && normalized(path) != seq!['/'] ==> normalized(
            path + seq!['/'] + name,
        ) == normalized(path) + seq!['/'] + name,
        name.len() > 0 && name != seq!['.'] && normalized(path) == seq!['/'] ==> normalized(
            path + seq!['/'] + name,
        ) == seq!['/'] + name,
{
    let whole = path + seq!['/'] + name;
    reveal_strlit(".");
    assert("."@ =~= seq!['.']);
    lemma_basename_is(path, name);
    assert(whole =~= path.push('/') + name);
    assert(whole.take(path.len() as int) =~= path);
    assert(is_absolute_path(whole) == is_absolute_path(path));
    if name.len() > 0 && name != seq!['.'] {
        let list = parts(path);
        lemma_parts_are_proper(path);
        assert(parts(whole) == list.push(name));
        assert(list.push(name).drop_last() =~= list);
        if list.len() == 0 {
            assert(connected(list.push(name)) == name);
            if !is_absolute_path(path) {
                lemma_relative_has_parts(path);
            }
            assert(normalized(path) =~= seq!['/']);
        } else {
            lemma_parts_of_connected(list, is_absolute_path(path));
            assert(list[0].contains(list[0][0]));
            if is_absolute_path(path) {
                assert(normalized(path)[1] == connected(list)[0]);
            } else {
                assert(normalized(path)[0] == connected(list)[0]);
            }
            assert(normalized(whole) =~= normalized(path) + seq!['/'] + name);
        }
    }
}

proof fn lemma_relative_has_parts(path: Seq<char>)
    requires
        path.len() > 0,
        !is_absolute_path(path),
    ensures
        parts(path).len() > 0,
    decreases path.len(),
{
    lemma_basename_has_no_slash(path);
    let name = basename(path);
    let slash = path.len() - name.len() - 1;
    if slash >= 0 {
        if slash > 0 {
            lemma_relative_has_parts(path.take(slash));
        }
    }
}

/// A single component, and a file at the root, are written as they stand; the root stays the root.
pub proof fn law_normalized_of_one_component(name: Seq<char>)
    requires
        !name.contains('/'),
    ensures
        normalized(name) == name,
        name.len() > 0 && name != seq!['.'] ==> normalized(seq!['/'] + name) == seq!['/'] + name,
        normalized(seq!['/']) == seq!['/'],
        normalized(seq!['/', '.']) == seq!['/'],
{
    let none = Seq::<char>::empty();
    let root = seq!['/'];
    reveal_strlit(".");
    assert("."@ =~= seq!['.']);
    lemma_basename_is(none, name);
    lemma_basename_is(none, none);
    lemma_basename_is(none, seq!['.']);
    assert(none.push('/') + name =~= root + name);
    assert(none.push('/') + none =~= root);
    assert(none.push('/') + seq!['.'] =~= seq!['/', '.']);
    assert((root + name).take(0) =~= none);
    assert(root.take(0) =~= none);
    assert(seq!['/', '.'].take(0) =~= none);
    assert(parts(none) =~= Seq::empty());
    if name.len() > 0 {
        assert(name.contains(name[0]));
        assert(parts(name) =~= seq![name]);
        assert(parts(root + name) =~= if name == seq!['.'] {
            Seq::empty()
        } else {
            seq![name]
        });
    }
    assert(parts(root) =~= Seq::empty());
    assert(parts(seq!['/', '.']) =~= Seq::empty());
    assert(normalized(name) =~= name);
    assert(normalized(root) =~= root);
    assert(normalized(seq!['/', '.']) =~= root);
    if name.len() > 0 && name != seq!['.'] {
        assert(normalized(root + name) =~= root + name);
    }
}

/// A file below the home directory stands there, and nowhere without one.
pub proof fn law_files_stand_below_home(home: &str, path: Seq<char>)
    requires
        home@.len() > 0,
        home@.last() != '/',
        path.len() > 0,
        path[0] != '/',
    ensures
        below(Some(home), path) == Some(home@ + seq!['/'] + path),
        below(None, path) is None,
{
}

} // verus!

//! Fitting rendered modules into a column budget.

use crate::ansi::{self, split_ansi_spans, Span, SpanView};
use crate::path::{self, last_component};
use crate::truncate::{self, truncate_with_ellipsis, ELLIPSIS};
use crate::width::{self, display_width};
use vstd::prelude::*;

verus! {

/// One rendered starship module: its name and its styled content, control sequences included.
#[derive(Debug, Clone, PartialEq, Eq)]
pub struct Module {
    pub name: String,
    pub content: String,
}

/// The model of a rendered module.
pub struct ModuleView {
    pub name: Seq<char>,
    pub content: Seq<char>,
}

impl View for Module {
    type V = ModuleView;

    open spec fn view(&self) -> ModuleView {
        ModuleView { name: self.name@, content: self.content@ }
    }
}

impl Module {
    pub fn new(name: &str, content: String) -> (res: Module)
        ensures
            res@ == (ModuleView { name: name@, content: content@ }),
    {
        Module { name: name.to_owned(), content }
    }
}

/// The models of a list of modules.
pub open spec fn views(modules: Seq<Module>) -> Seq<ModuleView> {
    modules.map_values(|m: Module| m@)
}

/// The one module that is shortened before it is dropped.
pub const DIRECTORY: &'static str = "directory";

/// Columns between two neighbouring modules.
pub const SEPARATOR_WIDTH: usize = 1;

/// The columns between `count` modules.
pub open spec fn separators(count: nat) -> nat {
    if count == 0 {
        0
    } else {
        ((count - 1) * SEPARATOR_WIDTH) as nat
    }
}

/// The columns that the contents of `modules` take.
pub open spec fn content_width(modules: Seq<ModuleView>) -> nat
    decreases modules.len(),
{
    if modules.len() == 0 {
        0
    } else {
        content_width(modules.drop_last()) + width::width(modules.last().content)
    }
}

/// The columns that `modules` take, separators counted in.
pub open spec fn total_width(modules: Seq<ModuleView>) -> nat {
    content_width(modules) + separators(modules.len())
}

/// The columns that the contents of the modules with another name take.
pub open spec fn others_width(modules: Seq<ModuleView>, name: Seq<char>) -> nat {
    content_width(without(modules, name))
}

/// The modules with another name.
pub open spec fn without(modules: Seq<ModuleView>, name: Seq<char>) -> Seq<ModuleView>
    decreases modules.len(),
{
    if modules.len() == 0 {
        modules
    } else if modules.last().name == name {
        without(modules.drop_last(), name)
    } else {
        without(modules.drop_last(), name).push(modules.last())
    }
}

/// The columns left for the modules called `name` once all else is placed.
pub open spec fn room_for(modules: Seq<ModuleView>, budget: nat, name: Seq<char>) -> nat {
    let taken = others_width(modules, name) + separators(modules.len());
    if taken <= budget {
        (budget - taken) as nat
    } else {
        0
    }
}

/// Where the first module called `name` stands, or the number of modules.
pub open spec fn position(modules: Seq<ModuleView>, name: Seq<char>) -> nat
    decreases modules.len(),
{
    if modules.len() == 0 || modules[0].name == name {
        0
    } else {
        1 + position(modules.skip(1), name)
    }
}

/// `modules` with the content of the first one called `name` replaced.
pub open spec fn with_content(
    modules: Seq<ModuleView>,
    name: Seq<char>,
    content: Seq<char>,
) -> Seq<ModuleView> {
    modules.update(position(modules, name) as int, ModuleView { name, content })
}

/// The segments with the last text among them shortened to its basename.
pub open spec fn abbreviated_spans(list: Seq<SpanView>) -> Seq<SpanView>
    decreases list.len(),
{
    if list.len() == 0 {
        list
    } else {
        match list.last() {
            SpanView::Text(t) => list.drop_last().push(SpanView::Text(path::basename(t))),
            SpanView::Escape(e) => abbreviated_spans(list.drop_last()).push(SpanView::Escape(e)),
        }
    }
}

/// A styled path shortened to its last component, control sequences intact around it.
pub open spec fn abbreviated(content: Seq<char>) -> Seq<char> {
    ansi::join(abbreviated_spans(ansi::spans(content)))
}

/// `modules` with the directory shortened to its basename.
pub open spec fn with_basename(modules: Seq<ModuleView>) -> Seq<ModuleView> {
    let at = position(modules, DIRECTORY@);
    if at < modules.len() {
        with_content(modules, DIRECTORY@, abbreviated(modules[at as int].content))
    } else {
        modules
    }
}

/// `modules` with the directory cut to the columns that are left for it.
pub open spec fn with_cut(modules: Seq<ModuleView>, budget: nat) -> Seq<ModuleView> {
    let at = position(modules, DIRECTORY@);
    if at < modules.len() {
        with_content(
            modules,
            DIRECTORY@,
            truncate::ellipsized(modules[at as int].content, room_for(modules, budget, DIRECTORY@)),
        )
    } else {
        modules
    }
}

/// The directory shortened as gently as the budget allows, or `None` where it must go.
pub open spec fn soft_degraded(modules: Seq<ModuleView>, budget: nat) -> Option<Seq<ModuleView>> {
    let short = with_basename(modules);
    let room = room_for(short, budget, DIRECTORY@);
    if total_width(short) <= budget {
        Some(short)
    } else if room >= width::width(ELLIPSIS@) && total_width(with_cut(short, budget)) <= budget {
        Some(with_cut(short, budget))
    } else {
        None
    }
}

/// `modules` degraded name by name until they fit: the directory is shortened if that is enough,
/// any other module goes.
pub open spec fn cascade(
    modules: Seq<ModuleView>,
    names: Seq<Seq<char>>,
    budget: nat,
) -> Seq<ModuleView>
    decreases names.len(),
{
    if names.len() == 0 || total_width(modules) <= budget {
        modules
    } else if names[0] == DIRECTORY@ && soft_degraded(modules, budget) is Some {
        soft_degraded(modules, budget)->0
    } else {
        cascade(without(modules, names[0]), names.skip(1), budget)
    }
}

/// The names of `modules`, the last one first.
pub open spec fn priority(modules: Seq<ModuleView>) -> Seq<Seq<char>>
    decreases modules.len(),
{
    if modules.len() == 0 {
        Seq::empty()
    } else {
        seq![modules.last().name] + priority(modules.drop_last())
    }
}

/// What is left of `modules` once they fit into `budget` columns.
pub open spec fn fitted(modules: Seq<ModuleView>, budget: nat) -> Seq<ModuleView> {
    cascade(modules, priority(modules), budget)
}

/// Whether `modules` fit into `budget` columns.
pub fn fits(modules: &Vec<Module>, budget: usize) -> (res: bool)
    ensures
        res == (total_width(views(modules@)) <= budget),
{
    let ghost all = views(modules@);
    let gaps: usize = if modules.len() == 0 {
        0
    } else {
        (modules.len() - 1) * SEPARATOR_WIDTH
    };
    if gaps > budget {
        return false;
    }
    let mut left: usize = budget - gaps;
    let mut i: usize = 0;
    while i < modules.len()
        invariant
            i <= modules@.len(),
            all == views(modules@),
            left + content_width(all.take(i as int)) + separators(all.len()) == budget,
        decreases modules@.len() - i,
    {
        let w = display_width(modules[i].content.as_str());
        assert(all.take(i + 1).drop_last() =~= all.take(i as int));
        assert(all[i as int] == modules@[i as int]@);
        if w > left {
            proof {
                lemma_content_width_split(all, i + 1);
            }
            return false;
        }
        left = left - w;
        i = i + 1;
    }
    assert(all.take(i as int) =~= all);
    true
}

proof fn lemma_content_width_split(modules: Seq<ModuleView>, n: int)
    requires
        0 <= n <= modules.len(),
    ensures
        content_width(modules.take(n)) <= content_width(modules),
    decreases modules.len(),
{
    if n < modules.len() {
        lemma_content_width_split(modules.drop_last(), n);
        assert(modules.drop_last().take(n) =~= modules.take(n));
    } else {
        assert(modules.take(n) =~= modules);
    }
}

/// The columns left for `name`: `budget` minus the other modules and the separators.
pub fn available_width(modules: &Vec<Module>, budget: usize, name: &str) -> (res: usize)
    ensures
        res == room_for(views(modules@), budget as nat, name@),
{
    let ghost all = views(modules@);
    let gaps: usize = if modules.len() == 0 {
        0
    } else {
        (modules.len() - 1) * SEPARATOR_WIDTH
    };
    let mut left: usize = budget.saturating_sub(gaps);
    let mut i: usize = 0;
    assert(all.take(0) =~= Seq::<ModuleView>::empty());
    while i < modules.len()
        invariant
            i <= modules@.len(),
            all == views(modules@),
            ({
                let taken = others_width(all.take(i as int), name@) + separators(all.len());
                left == if taken <= budget {
                    budget - taken
                } else {
                    0
                }
            }),
        decreases modules@.len() - i,
    {
        proof {
            let part = all.take(i + 1);
            assert(part.drop_last() =~= all.take(i as int));
            assert(all[i as int] == modules@[i as int]@);
            if part.last().name != name@ {
                assert(without(part, name@).drop_last() =~= without(part.drop_last(), name@));
            }
        }
        if !modules[i].name.as_str().eq(name) {
            left = left.saturating_sub(display_width(modules[i].content.as_str()));
        }
        i = i + 1;
    }
    assert(all.take(i as int) =~= all);
    left
}

/// Shortens a styled path to its last component, keeping the control sequences around it.
pub fn abbreviate_directory(content: &str) -> (res: String)
    ensures
        res@ == abbreviated(content@),
        ansi::escapes(res@) == ansi::escapes(content@),
{
    let list = split_ansi_spans(content);
    let ghost all = ansi::span_views(list@);
    let ghost goal = abbreviated_spans(all);
    let mut after: usize = list.len();
    let mut searching = true;
    assert(all.take(after as int) =~= all);
    assert(goal + all.skip(after as int) =~= goal);
    while searching && after > 0
        invariant
            after <= list@.len(),
            all == ansi::span_views(list@),
            goal == abbreviated_spans(all.take(after as int)) + all.skip(after as int),
            !searching ==> after > 0 && all[after - 1] is Text,
        decreases after + (if searching { 1int } else { 0int }),
    {
        assert(all[after - 1] == list@[after - 1]@);
        match &list[after - 1] {
            Span::Text(_) => {
                searching = false;
            },
            Span::Escape(_) => {
                proof {
                    let part = all.take(after as int);
                    assert(part.drop_last() =~= all.take(after - 1));
                    assert(abbreviated_spans(all.take(after - 1)) + all.skip(after - 1)
                        =~= abbreviated_spans(part) + all.skip(after as int));
                }
                after = after - 1;
            },
        }
    }
    proof {
        if after > 0 {
            let part = all.take(after as int);
            assert(part.drop_last() =~= all.take(after - 1));
            assert(goal =~= all.update(
                after - 1,
                SpanView::Text(path::basename(all[after - 1].chars())),
            ));
        } else {
            assert(goal =~= all);
        }
    }
    let mut res = String::new();
    let mut i: usize = 0;
    assert(goal.take(0) =~= Seq::<SpanView>::empty());
    while i < list.len()
        invariant
            i <= list@.len(),
            all == ansi::span_views(list@),
            goal.len() == list@.len(),
            forall|k: int|
                0 <= k < goal.len() ==> #[trigger] goal[k] == if k == after - 1 {
                    SpanView::Text(path::basename(all[k].chars()))
                } else {
                    all[k]
                },
            after > 0 ==> all[after - 1] is Text,
            res@ == ansi::join(goal.take(i as int)),
        decreases list@.len() - i,
    {
        assert(goal.take(i + 1).drop_last() =~= goal.take(i as int));
        assert(all[i as int] == list@[i as int]@);
        match &list[i] {
            Span::Text(t) => {
                if i + 1 == after {
                    res.append(last_component(t.as_str()).as_str());
                } else {
                    res.append(t.as_str());
                }
            },
            Span::Escape(e) => res.append(e.as_str()),
        }
        i = i + 1;
    }
    assert(goal.take(i as int) =~= goal);
    proof {
        ansi::law_spans_well_formed(content@);
        lemma_abbreviated_well_formed(all);
        ansi::law_join_splits_back(goal);
    }
    res
}

proof fn lemma_basename_plain(t: Seq<char>)
    requires
        ansi::is_plain(t),
    ensures
        ansi::is_plain(path::basename(t)),
        path::basename(t).len() <= t.len(),
        path::basename(t) == t.skip(t.len() - path::basename(t).len()),
    decreases t.len(),
{
    if t.len() > 0 && t.last() != '/' {
        let u = t.drop_last();
        assert forall|k: int| 0 <= k < u.len() - 1 implies !(#[trigger] u[k] == '\x1b' && u[k + 1]
            == '[') by {
            assert(u[k] == t[k] && u[k + 1] == t[k + 1]);
        }
        lemma_basename_plain(u);
        let b = path::basename(t);
        let from = t.len() - b.len();
        assert(b =~= t.skip(from));
        assert forall|k: int| 0 <= k < b.len() - 1 implies !(#[trigger] b[k] == '\x1b' && b[k + 1]
            == '[') by {
            assert(b[k] == t[from + k] && b[k + 1] == t[from + k + 1]);
        }
    } else {
        assert(path::basename(t) =~= t.skip(t.len() as int));
    }
}

proof fn lemma_abbreviated_well_formed(list: Seq<SpanView>)
    requires
        ansi::well_formed(list),
    ensures
        ansi::well_formed(abbreviated_spans(list)),
        abbreviated_spans(list).len() == list.len(),
        forall|i: int|
            0 <= i < list.len() ==> (#[trigger] abbreviated_spans(list)[i] is Escape
                <==> list[i] is Escape),
        ansi::escapes_of(abbreviated_spans(list)) == ansi::escapes_of(list),
    decreases list.len(),
{
    if list.len() > 0 {
        let init = list.drop_last();
        let last = list.last();
        let out = abbreviated_spans(list);
        assert(list[list.len() - 1] == last);
        assert(ansi::well_formed(init)) by {
            assert forall|i: int| 0 <= i < init.len() implies match #[trigger] init[i] {
                SpanView::Text(t) => ansi::is_plain(t) && (i + 1 < init.len() ==> init[i
                    + 1] is Escape),
                SpanView::Escape(e) => ansi::is_escape(e) && (i + 1 < init.len()
                    ==> ansi::is_terminated(e)),
            } by {
                assert(init[i] == list[i]);
                if i + 1 < init.len() {
                    assert(init[i + 1] == list[i + 1]);
                }
            }
        }
        lemma_abbreviated_well_formed(init);
        let short = match last {
            SpanView::Text(_) => init,
            SpanView::Escape(_) => abbreviated_spans(init),
        };
        let new_last = match last {
            SpanView::Text(t) => SpanView::Text(path::basename(t)),
            SpanView::Escape(e) => last,
        };
        assert(out == short.push(new_last));
        assert(out.drop_last() =~= short);
        if let SpanView::Text(t) = last {
            lemma_basename_plain(t);
        }
        assert forall|i: int| 0 <= i < out.len() implies match #[trigger] out[i] {
            SpanView::Text(t) => ansi::is_plain(t) && (i + 1 < out.len() ==> out[i + 1] is Escape),
            SpanView::Escape(e) => ansi::is_escape(e) && (i + 1 < out.len() ==> ansi::is_terminated(
                e,
            )),
        } by {
            if i < short.len() {
                assert(out[i] == short[i]);
                assert(init[i] == list[i]);
                if i + 1 < short.len() {
                    assert(out[i + 1] == short[i + 1]);
                } else {
                    assert(list[i + 1] == last);
                    if last is Escape {
                        // The last segment of `init` keeps its kind, so text is still followed
                        // by a control sequence; a control sequence here is unchanged.
                        lemma_abbreviated_keeps_escapes(init, i);
                    }
                }
            }
        }
        assert forall|i: int| 0 <= i < list.len() implies (#[trigger] out[i] is Escape
            <==> list[i] is Escape) by {
            if i < short.len() {
                assert(out[i] == short[i] && init[i] == list[i]);
            }
        }
    }
}

proof fn lemma_abbreviated_keeps_escapes(list: Seq<SpanView>, i: int)
    requires
        0 <= i < list.len(),
    ensures
        abbreviated_spans(list).len() == list.len(),
        list[i] is Escape ==> abbreviated_spans(list)[i] == list[i],
        list[i] is Text ==> abbreviated_spans(list)[i] is Text,
    decreases list.len(),
{
    let init = list.drop_last();
    if list.last() is Escape {
        if i < init.len() {
            lemma_abbreviated_keeps_escapes(init, i);
            assert(init[i] == list[i]);
        } else if init.len() > 0 {
            lemma_abbreviated_keeps_escapes(init, 0);
        }
    } else if i < init.len() {
        assert(init[i] == list[i]);
    }
}

proof fn lemma_position(modules: Seq<ModuleView>, name: Seq<char>)
    ensures
        position(modules, name) <= modules.len(),
        position(modules, name) < modules.len() ==> modules[position(modules, name) as int].name
            == name,
        forall|k: int|
            0 <= k < position(modules, name) ==> (#[trigger] modules[k]).name != name,
    decreases modules.len(),
{
    if modules.len() > 0 && modules[0].name != name {
        let rest = modules.skip(1);
        lemma_position(rest, name);
        assert forall|k: int| 0 <= k < position(modules, name) implies (
        #[trigger] modules[k]).name != name by {
            if k > 0 {
                assert(modules[k] == rest[k - 1]);
            }
        }
    }
}

/// Where the first module called `name` stands, if there is one.
fn find(modules: &Vec<Module>, name: &str) -> (res: Option<usize>)
    ensures
        res matches Some(i) ==> i == position(views(modules@), name@) && i < modules@.len(),
        res is None ==> position(views(modules@), name@) >= modules@.len(),
{
    let ghost all = views(modules@);
    let mut i: usize = 0;
    assert(all.skip(0) =~= all);
    while i < modules.len()
        invariant
            i <= modules@.len(),
            all == views(modules@),
            position(all, name@) == i + position(all.skip(i as int), name@),
        decreases modules@.len() - i,
    {
        assert(all.skip(i as int)[0] == modules@[i as int]@);
        if modules[i].name.as_str().eq(name) {
            return Some(i);
        }
        assert(all.skip(i as int).skip(1) =~= all.skip(i + 1));
        i = i + 1;
    }
    None
}

/// Drops every module called `name`.
fn drop_named(modules: Vec<Module>, name: &str) -> (res: Vec<Module>)
    ensures
        views(res@) == without(views(modules@), name@),
{
    let ghost all = views(modules@);
    let mut res: Vec<Module> = Vec::new();
    assert(all.take(0) =~= Seq::<ModuleView>::empty());
    for m in it: modules
        invariant
            all == views(it.seq()),
            views(res@) == without(all.take(it.index() as int), name@),
    {
        proof {
            let i = it.index() as int;
            assert(all[i] == m@);
            assert(all.take(i + 1).drop_last() =~= all.take(i));
            assert(views(res@.push(m)) =~= views(res@).push(m@));
        }
        if !m.name.as_str().eq(name) {
            res.push(m);
        }
    }
    assert(all.take(all.len() as int) =~= all);
    res
}

/// The names of `modules`, the last one first.
fn reversed_names(modules: &Vec<Module>) -> (res: Vec<String>)
    ensures
        crate::text::texts(res@) == priority(views(modules@)),
{
    let ghost all = views(modules@);
    let mut res: Vec<String> = Vec::new();
    let mut i: usize = modules.len();
    assert(all.take(i as int) =~= all);
    assert(crate::text::texts(res@) + priority(all) =~= priority(all));
    while i > 0
        invariant
            i <= modules@.len(),
            all == views(modules@),
            crate::text::texts(res@) + priority(all.take(i as int)) == priority(all),
        decreases i,
    {
        let name = modules[i - 1].name.clone();
        proof {
            let part = all.take(i as int);
            let before = crate::text::texts(res@);
            assert(part.last() == modules@[i - 1]@);
            assert(part.drop_last() =~= all.take(i - 1));
            assert(crate::text::texts(res@.push(name)) =~= before.push(name@));
            assert(before.push(name@) + priority(all.take(i - 1)) =~= before + priority(part));
        }
        res.push(name);
        i = i - 1;
    }
    assert(crate::text::texts(res@) + priority(all.take(0)) =~= crate::text::texts(res@));
    res
}

/// Replaces the content of the first module called `directory`.
fn set_content(modules: &mut Vec<Module>, at: usize, content: String)
    requires
        at < old(modules)@.len(),
        at == position(views(old(modules)@), DIRECTORY@),
    ensures
        views(final(modules)@) == with_content(views(old(modules)@), DIRECTORY@, content@),
{
    let ghost before = views(modules@);
    proof {
        lemma_position(before, DIRECTORY@);
        assert(before[at as int] == modules@[at as int]@);
    }
    let name = modules[at].name.clone();
    let ghost new = content@;
    modules.set(at, Module { name, content });
    assert(views(modules@) =~= with_content(before, DIRECTORY@, new));
}

/// `a` and `b` differ at most in the contents of modules called `name`.
pub open spec fn same_but_for(a: Seq<ModuleView>, b: Seq<ModuleView>, name: Seq<char>) -> bool {
    &&& a.len() == b.len()
    &&& forall|i: int|
        0 <= i < a.len() ==> a[i] == b[i] || ((#[trigger] a[i]).name == name && b[i].name == name)
}

proof fn lemma_without_rewritten(a: Seq<ModuleView>, b: Seq<ModuleView>, name: Seq<char>)
    requires
        same_but_for(a, b, name),
    ensures
        without(a, name) == without(b, name),
    decreases a.len(),
{
    if a.len() > 0 {
        let x = a.drop_last();
        let y = b.drop_last();
        assert(a[a.len() - 1] == a.last());
        assert forall|i: int| 0 <= i < x.len() implies x[i] == y[i] || ((
        #[trigger] x[i]).name == name && y[i].name == name) by {
            assert(x[i] == a[i] && y[i] == b[i]);
        }
        lemma_without_rewritten(x, y, name);
    }
}

proof fn lemma_softened(modules: Seq<ModuleView>, budget: nat)
    ensures
        same_but_for(modules, with_basename(modules), DIRECTORY@),
        same_but_for(modules, with_cut(with_basename(modules), budget), DIRECTORY@),
{
    let short = with_basename(modules);
    lemma_position(modules, DIRECTORY@);
    lemma_position(short, DIRECTORY@);
}

proof fn lemma_without(modules: Seq<ModuleView>, name: Seq<char>)
    ensures
        without(modules, name).len() <= modules.len(),
        forall|m: ModuleView| #[trigger]
            without(modules, name).contains(m) <==> modules.contains(m) && m.name != name,
    decreases modules.len(),
{
    if modules.len() > 0 {
        let init = modules.drop_last();
        let last = modules.last();
        let out = without(modules, name);
        let short = without(init, name);
        lemma_without(init, name);
        assert forall|m: ModuleView| #[trigger] out.contains(m) <==> modules.contains(m) && m.name
            != name by {
            if modules.contains(m) {
                let i = choose|i: int| 0 <= i < modules.len() && modules[i] == m;
                if i < init.len() {
                    assert(init[i] == m);
                    assert(init.contains(m));
                }
                if m.name != name {
                    if init.contains(m) {
                        assert(short.contains(m));
                        let k = choose|k: int| 0 <= k < short.len() && short[k] == m;
                        assert(out[k] == m);
                    } else {
                        assert(out[out.len() - 1] == m);
                    }
                }
            }
            if out.contains(m) {
                let k = choose|k: int| 0 <= k < out.len() && out[k] == m;
                if k < short.len() {
                    assert(short[k] == m);
                    assert(short.contains(m));
                    assert(init.contains(m));
                    let i = choose|i: int| 0 <= i < init.len() && init[i] == m;
                    assert(modules[i] == m);
                } else {
                    assert(modules[modules.len() - 1] == m);
                }
            }
        }
    }
}

proof fn lemma_priority(modules: Seq<ModuleView>)
    ensures
        priority(modules).len() == modules.len(),
        forall|i: int|
            0 <= i < modules.len() ==> #[trigger] priority(modules)[i] == modules[modules.len() - 1
                - i].name,
    decreases modules.len(),
{
    if modules.len() > 0 {
        let init = modules.drop_last();
        lemma_priority(init);
        assert forall|i: int| 0 <= i < modules.len() implies #[trigger] priority(modules)[i]
            == modules[modules.len() - 1 - i].name by {
            if i > 0 {
                assert(priority(modules)[i] == priority(init)[i - 1]);
                assert(init[init.len() - i] == modules[modules.len() - 1 - i]);
            }
        }
    }
}

/// `modules` without those called by one of `names`.
pub open spec fn without_all(modules: Seq<ModuleView>, names: Seq<Seq<char>>) -> Seq<ModuleView>
    decreases names.len(),
{
    if names.len() == 0 {
        modules
    } else {
        without_all(without(modules, names[0]), names.skip(1))
    }
}

/// The first `k` names are gone, the rest fits as it stands or with the directory shortened, and
/// one name fewer would not have been enough.
pub open spec fn degraded_to(
    modules: Seq<ModuleView>,
    names: Seq<Seq<char>>,
    budget: nat,
    k: int,
    res: Seq<ModuleView>,
) -> bool {
    let rest = without_all(modules, names.take(k));
    &&& 0 <= k <= names.len()
    &&& res == rest || (k < names.len() && names[k] == DIRECTORY@ && soft_degraded(rest, budget)
        == Some(res))
    &&& forall|j: int| 0 <= j < k ==> total_width(#[trigger] without_all(modules, names.take(j)))
        > budget
    &&& forall|j: int|
        0 <= j < k && names[j] == DIRECTORY@ ==> soft_degraded(
            #[trigger] without_all(modules, names.take(j)),
            budget,
        ) is None
    &&& res != rest ==> total_width(rest) > budget
}

proof fn lemma_cascade(modules: Seq<ModuleView>, names: Seq<Seq<char>>, budget: nat) -> (k: int)
    ensures
        degraded_to(modules, names, budget, k, cascade(modules, names, budget)),
    decreases names.len(),
{
    let res = cascade(modules, names, budget);
    assert(names.take(0) =~= Seq::<Seq<char>>::empty());
    assert(without_all(modules, names.take(0)) == modules);
    if names.len() == 0 || total_width(modules) <= budget {
        0
    } else if names[0] == DIRECTORY@ && soft_degraded(modules, budget) is Some {
        0
    } else {
        let tail = names.skip(1);
        let next = without(modules, names[0]);
        let m = lemma_cascade(next, tail, budget);
        let k = m + 1;
        assert forall|j: int| 0 < j <= names.len() implies #[trigger] without_all(
            modules,
            names.take(j),
        ) == without_all(next, tail.take(j - 1)) by {
            assert(names.take(j)[0] == names[0]);
            assert(names.take(j).skip(1) =~= tail.take(j - 1));
        }
        assert forall|j: int| 0 <= j < k implies total_width(
            #[trigger] without_all(modules, names.take(j)),
        ) > budget by {
            if j > 0 {
                assert(without_all(modules, names.take(j)) == without_all(next, tail.take(j - 1)));
            }
        }
        assert forall|j: int| 0 <= j < k && names[j] == DIRECTORY@ implies soft_degraded(
            #[trigger] without_all(modules, names.take(j)),
            budget,
        ) is None by {
            if j > 0 {
                assert(tail[j - 1] == names[j]);
                assert(without_all(modules, names.take(j)) == without_all(next, tail.take(j - 1)));
            }
        }
        assert(without_all(modules, names.take(k)) == without_all(next, tail.take(m)));
        if k < names.len() {
            assert(tail[m] == names[k]);
        }
        k
    }
}

proof fn lemma_cascade_fits(modules: Seq<ModuleView>, names: Seq<Seq<char>>, budget: nat)
    requires
        forall|m: ModuleView| #[trigger] modules.contains(m) ==> names.contains(m.name),
    ensures
        total_width(cascade(modules, names, budget)) <= budget,
    decreases names.len(),
{
    if names.len() == 0 {
        if modules.len() > 0 {
            assert(modules.contains(modules[0]));
        }
    } else if total_width(modules) > budget && !(names[0] == DIRECTORY@ && soft_degraded(
        modules,
        budget,
    ) is Some) {
        let next = without(modules, names[0]);
        lemma_without(modules, names[0]);
        assert forall|m: ModuleView| #[trigger] next.contains(m) implies names.skip(1).contains(
            m.name,
        ) by {
            assert(modules.contains(m));
            let i = choose|i: int| 0 <= i < names.len() && names[i] == m.name;
            assert(names.skip(1)[i - 1] == m.name);
        }
        lemma_cascade_fits(next, names.skip(1), budget);
    }
}

/// Whatever the modules and the budget, the result fits.
pub proof fn law_fit_stays_within_budget(modules: Seq<ModuleView>, budget: nat)
    ensures
        total_width(fitted(modules, budget)) <= budget,
{
    let names = priority(modules);
    lemma_priority(modules);
    assert forall|m: ModuleView| #[trigger] modules.contains(m) implies names.contains(m.name) by {
        let i = choose|i: int| 0 <= i < modules.len() && modules[i] == m;
        assert(names[modules.len() - 1 - i] == m.name);
    }
    lemma_cascade_fits(modules, names, budget);
}

/// Modules that fit are left alone.
pub proof fn law_fit_keeps_what_fits(modules: Seq<ModuleView>, budget: nat)
    requires
        total_width(modules) <= budget,
    ensures
        fitted(modules, budget) == modules,
{
}

/// Fitting a second time into the same budget changes nothing.
pub proof fn law_fit_is_idempotent(modules: Seq<ModuleView>, budget: nat)
    ensures
        fitted(fitted(modules, budget), budget) == fitted(modules, budget),
{
    law_fit_stays_within_budget(modules, budget);
    law_fit_keeps_what_fits(fitted(modules, budget), budget);
}

/// Modules go by name from the last one on, no more of them than needed. What is left is
/// unchanged, unless shortening the directory, when its turn had come, was enough.
pub proof fn law_fit_drops_the_last_first(modules: Seq<ModuleView>, budget: nat)
    ensures
        exists|k: int|
            degraded_to(modules, priority(modules), budget, k, fitted(modules, budget)),
{
    let k = lemma_cascade(modules, priority(modules), budget);
    assert(degraded_to(modules, priority(modules), budget, k, fitted(modules, budget)));
}

proof fn lemma_without_all_contains(
    modules: Seq<ModuleView>,
    names: Seq<Seq<char>>,
    m: ModuleView,
)
    requires
        without_all(modules, names).contains(m),
    ensures
        modules.contains(m),
    decreases names.len(),
{
    if names.len() > 0 {
        lemma_without_all_contains(without(modules, names[0]), names.skip(1), m);
        lemma_without(modules, names[0]);
    }
}

/// No module is rewritten but the directory.
pub proof fn law_fit_rewrites_only_the_directory(
    modules: Seq<ModuleView>,
    budget: nat,
    m: ModuleView,
)
    requires
        fitted(modules, budget).contains(m),
        m.name != DIRECTORY@,
    ensures
        modules.contains(m),
{
    let names = priority(modules);
    let res = fitted(modules, budget);
    let k = lemma_cascade(modules, names, budget);
    let rest = without_all(modules, names.take(k));
    if res != rest {
        lemma_softened(rest, budget);
        let i = choose|i: int| 0 <= i < res.len() && res[i] == m;
        assert(same_but_for(rest, res, DIRECTORY@));
        assert(rest[i] == res[i]);
        assert(rest.contains(m));
    }
    lemma_without_all_contains(modules, names.take(k), m);
}

/// No two modules share a name.
pub open spec fn distinct_names(modules: Seq<ModuleView>) -> bool {
    forall|i: int, j: int|
        0 <= i < j < modules.len() ==> (#[trigger] modules[i]).name != (#[trigger] modules[j]).name
}

proof fn lemma_without_absent(modules: Seq<ModuleView>, name: Seq<char>)
    requires
        forall|i: int| 0 <= i < modules.len() ==> (#[trigger] modules[i]).name != name,
    ensures
        without(modules, name) == modules,
    decreases modules.len(),
{
    if modules.len() > 0 {
        let init = modules.drop_last();
        assert(modules[modules.len() - 1] == modules.last());
        assert(forall|i: int| 0 <= i < init.len() ==> #[trigger] init[i] == modules[i]);
        lemma_without_absent(init, name);
        assert(without(modules, name) =~= modules);
    }
}

proof fn lemma_without_all_distinct(modules: Seq<ModuleView>, k: int)
    requires
        distinct_names(modules),
        0 <= k <= modules.len(),
    ensures
        without_all(modules, priority(modules).take(k)) == modules.take(modules.len() - k),
    decreases modules.len(),
{
    let names = priority(modules);
    lemma_priority(modules);
    if k == 0 {
        assert(names.take(0) =~= Seq::<Seq<char>>::empty());
        assert(modules.take(modules.len() as int) =~= modules);
    } else {
        let init = modules.drop_last();
        assert(forall|i: int| 0 <= i < init.len() ==> #[trigger] init[i] == modules[i]);
        assert(modules[modules.len() - 1] == modules.last());
        lemma_without_absent(init, modules.last().name);
        assert(without(modules, names[0]) == init);
        assert(names.take(k)[0] == names[0]);
        assert(names.take(k).skip(1) =~= priority(init).take(k - 1));
        lemma_without_all_distinct(init, k - 1);
        assert(init.take(init.len() - (k - 1)) =~= modules.take(modules.len() - k));
    }
}

/// With distinct names, a front part of the list stays, and all of it as it was, except that the
/// last module of that part may be a shortened directory.
pub proof fn law_fit_keeps_a_prefix(modules: Seq<ModuleView>, budget: nat)
    requires
        distinct_names(modules),
    ensures
        fitted(modules, budget).len() <= modules.len(),
        forall|i: int|
            0 <= i < fitted(modules, budget).len() ==> {
                ||| #[trigger] fitted(modules, budget)[i] == modules[i]
                ||| {
                    &&& i == fitted(modules, budget).len() - 1
                    &&& modules[i].name == DIRECTORY@
                    &&& fitted(modules, budget)[i].name == DIRECTORY@
                }
            },
{
    let names = priority(modules);
    let res = fitted(modules, budget);
    let k = lemma_cascade(modules, names, budget);
    lemma_priority(modules);
    lemma_without_all_distinct(modules, k);
    let rest = modules.take(modules.len() - k);
    if res != rest {
        lemma_softened(rest, budget);
        assert(same_but_for(rest, res, DIRECTORY@));
        let last = modules.len() - k - 1;
        assert(names[k] == modules[last].name);
        assert forall|i: int| 0 <= i < res.len() implies {
            ||| #[trigger] res[i] == modules[i]
            ||| i == res.len() - 1 && modules[i].name == DIRECTORY@ && res[i].name == DIRECTORY@
        } by {
            assert(rest[i] == modules[i]);
            if rest[i] != res[i] {
                assert(rest[i].name == DIRECTORY@);
                if i < last {
                    assert(modules[i].name != modules[last].name);
                }
            }
        }
    }
}

/// Degrades `modules` until they fit into `budget` columns. The last module is degraded first and
/// no module is exempt: `directory` is shortened to its basename, then cut, before it goes; every
/// other module just goes.
pub fn fit(modules: Vec<Module>, budget: usize) -> (res: Vec<Module>)
    ensures
        views(res@) == fitted(views(modules@), budget as nat),
        total_width(views(res@)) <= budget,
{
    let ghost all = views(modules@);
    let names = reversed_names(&modules);
    let ghost order = crate::text::texts(names@);
    let mut left = modules;
    let mut i: usize = 0;
    proof {
        assert(order.skip(0) =~= order);
        law_fit_stays_within_budget(all, budget as nat);
    }
    while i < names.len()
        invariant
            i <= names@.len(),
            order == crate::text::texts(names@),
            all == views(modules@),
            cascade(views(left@), order.skip(i as int), budget as nat) == fitted(
                all,
                budget as nat,
            ),
            total_width(fitted(all, budget as nat)) <= budget,
        decreases names@.len() - i,
    {
        if fits(&left, budget) {
            return left;
        }
        let name = names[i].as_str();
        let ghost current = views(left@);
        proof {
            assert(order.skip(i as int)[0] == name@);
            assert(order.skip(i as int).skip(1) =~= order.skip(i + 1));
        }
        if name.eq(DIRECTORY) {
            if let Some(at) = find(&left, name) {
                let short = abbreviate_directory(left[at].content.as_str());
                assert(current[at as int] == left@[at as int]@);
                set_content(&mut left, at, short);
            }
            let ghost short = views(left@);
            assert(short == with_basename(current));
            if fits(&left, budget) {
                return left;
            }
            let available = available_width(&left, budget, name);
            if available >= display_width(ELLIPSIS) {
                if let Some(at) = find(&left, name) {
                    let cut = truncate_with_ellipsis(left[at].content.as_str(), available);
                    assert(short[at as int] == left@[at as int]@);
                    set_content(&mut left, at, cut);
                }
                assert(views(left@) == with_cut(short, budget as nat));
                if fits(&left, budget) {
                    return left;
                }
            }
            proof {
                lemma_softened(current, budget as nat);
                lemma_without_rewritten(current, views(left@), name@);
            }
        }
        left = drop_named(left, name);
        i = i + 1;
    }
    left
}

/// Modules take the columns of their contents and one column between each two of them.
pub proof fn law_total_width_counts_contents_and_gaps(modules: Seq<ModuleView>, m: ModuleView)
    ensures
        total_width(Seq::empty()) == 0,
        total_width(seq![m]) == width::width(m.content),
        modules.len() > 0 ==> total_width(modules.push(m)) == total_width(modules) + 1
            + width::width(m.content),
{
    let none = Seq::<ModuleView>::empty();
    assert(seq![m].drop_last() =~= none);
    assert(content_width(none) == 0);
    assert(content_width(seq![m]) == width::width(m.content));
    assert(modules.push(m).drop_last() =~= modules);
}

/// The columns left for a name shrink by the content of every module of another name, and by the
/// gaps between all of them, down to none.
pub proof fn law_room_is_what_the_others_leave(
    modules: Seq<ModuleView>,
    m: ModuleView,
    budget: nat,
    name: Seq<char>,
)
    ensures
        room_for(Seq::empty(), budget, name) == budget,
        ({
            let gap: nat = if modules.len() > 0 {
                1
            } else {
                0
            };
            let more = gap + if m.name == name {
                0
            } else {
                width::width(m.content)
            };
            &&& room_for(modules.push(m), budget + more, name) == room_for(modules, budget, name)
            &&& budget <= more ==> room_for(modules.push(m), budget, name) == 0
        }),
{
    let none = Seq::<ModuleView>::empty();
    assert(without(none, name) =~= none);
    assert(content_width(none) == 0);
    let all = modules.push(m);
    assert(all.drop_last() =~= modules);
    if m.name != name {
        let short = without(modules, name);
        assert(without(all, name) == short.push(m));
        assert(short.push(m).drop_last() =~= short);
    }
}

proof fn lemma_abbreviated_at(list: Seq<SpanView>, k: int)
    requires
        0 <= k < list.len(),
        list[k] is Text,
        forall|i: int| k < i < list.len() ==> (#[trigger] list[i]) is Escape,
    ensures
        abbreviated_spans(list) == list.update(k, SpanView::Text(path::basename(list[k].chars()))),
    decreases list.len(),
{
    let init = list.drop_last();
    assert(list[list.len() - 1] == list.last());
    if k < init.len() {
        assert(forall|i: int| 0 <= i < init.len() ==> #[trigger] init[i] == list[i]);
        lemma_abbreviated_at(init, k);
    }
    assert(abbreviated_spans(list) =~= list.update(
        k,
        SpanView::Text(path::basename(list[k].chars())),
    ));
}

/// A path in styled text is shortened to what follows its last `/`, whatever stands before that:
/// the last text among the segments becomes the name, and every other segment stays.
pub proof fn law_styled_path_becomes_its_name(
    list: Seq<SpanView>,
    k: int,
    front: Seq<char>,
    name: Seq<char>,
)
    requires
        ansi::well_formed(list),
        forall|i: int| 0 <= i < list.len() ==> (#[trigger] list[i]).chars().len() > 0,
        0 <= k < list.len(),
        list[k] == SpanView::Text(front + seq!['/'] + name) || list[k] == SpanView::Text(name),
        !name.contains('/'),
        forall|i: int| k < i < list.len() ==> (#[trigger] list[i]) is Escape,
    ensures
        abbreviated(ansi::join(list)) == ansi::join(list.update(k, SpanView::Text(name))),
{
    ansi::law_join_splits_back(list);
    path::law_basename_follows_the_last_slash(front, name);
    lemma_abbreviated_at(list, k);
}

/// A path without control sequences is shortened to what follows its last `/`, whatever stands
/// before that, and one without a `/` stays as it is.
pub proof fn law_plain_path_becomes_its_name(front: Seq<char>, name: Seq<char>)
    requires
        !name.contains('/'),
    ensures
        ansi::is_plain(front + seq!['/'] + name) ==> abbreviated(front + seq!['/'] + name) == name,
        ansi::is_plain(name) ==> abbreviated(name) == name,
{
    let long = front + seq!['/'] + name;
    if ansi::is_plain(long) {
        let list = seq![SpanView::Text(long)];
        ansi::lemma_single(SpanView::Text(long));
        law_styled_path_becomes_its_name(list, 0, front, name);
        assert(list.update(0, SpanView::Text(name)) =~= seq![SpanView::Text(name)]);
        ansi::lemma_single(SpanView::Text(name));
    }
    if ansi::is_plain(name) {
        let list = seq![SpanView::Text(name)];
        ansi::lemma_single(SpanView::Text(name));
        if name.len() > 0 {
            law_styled_path_becomes_its_name(list, 0, front, name);
            assert(list.update(0, SpanView::Text(name)) =~= list);
        } else {
            assert(abbreviated(name) =~= name);
        }
    }
}

/// Text of nothing but control sequences stays as it is.
pub proof fn law_no_text_nothing_to_shorten(content: Seq<char>)
    requires
        ansi::visible(content).len() == 0,
    ensures
        abbreviated(content) == content,
{
    let list = ansi::spans(content);
    ansi::law_spans_well_formed(content);
    ansi::law_spans_join_back(content);
    lemma_no_text(list);
}

proof fn lemma_no_text(list: Seq<SpanView>)
    requires
        ansi::visible_of(list).len() == 0,
        forall|i: int| 0 <= i < list.len() ==> (#[trigger] list[i]).chars().len() > 0,
    ensures
        abbreviated_spans(list) == list,
    decreases list.len(),
{
    if list.len() > 0 {
        let init = list.drop_last();
        assert(list[list.len() - 1] == list.last());
        assert(forall|i: int| 0 <= i < init.len() ==> #[trigger] init[i] == list[i]);
        lemma_no_text(init);
        assert(abbreviated_spans(list) =~= list);
    }
}

/// A module other than the directory is the first to go if it comes last: either all modules stay,
/// or the rest is fitted as if it had never been there.
pub proof fn law_last_module_stays_or_goes_whole(
    modules: Seq<ModuleView>,
    m: ModuleView,
    budget: nat,
)
    requires
        m.name != "directory"@,
        forall|i: int| 0 <= i < modules.len() ==> (#[trigger] modules[i]).name != m.name,
    ensures
        fitted(modules.push(m), budget) == if total_width(modules.push(m)) <= budget {
            modules.push(m)
        } else {
            fitted(modules, budget)
        },
{
    let all = modules.push(m);
    assert(all.drop_last() =~= modules);
    assert(priority(all)[0] == m.name);
    assert(priority(all).skip(1) =~= priority(modules));
    lemma_without_absent(modules, m.name);
    assert(without(all, m.name) == modules);
}

/// The directory, if it comes last and does not fit, is shortened to its last component. If that
/// is still too much, it is cut to the columns that are left for it, as long as there is one. Only
/// otherwise it goes, and the rest is fitted as if it had never been there.
pub proof fn law_directory_is_shortened_before_it_goes(
    modules: Seq<ModuleView>,
    content: Seq<char>,
    budget: nat,
)
    requires
        forall|i: int| 0 <= i < modules.len() ==> (#[trigger] modules[i]).name != "directory"@,
    ensures
        ({
            let dir = |content: Seq<char>| ModuleView { name: "directory"@, content };
            let taken = total_width(modules) + if modules.len() > 0 {
                1int
            } else {
                0
            };
            let room = (budget - taken) as nat;
            let short = abbreviated(content);
            let cut = truncate::ellipsized(short, room);
            let res = fitted(modules.push(dir(content)), budget);
            if taken + width::width(content) <= budget {
                res == modules.push(dir(content))
            } else if taken + width::width(short) <= budget {
                res == modules.push(dir(short))
            } else if taken < budget && taken + width::width(cut) <= budget {
                res == modules.push(dir(cut))
            } else {
                res == fitted(modules, budget)
            }
        }),
{
    let name = "directory"@;
    let m = ModuleView { name, content };
    let all = modules.push(m);
    let taken = total_width(modules) + if modules.len() > 0 {
        1int
    } else {
        0
    };
    let room = (budget - taken) as nat;
    let short = ModuleView { name, content: abbreviated(content) };
    let cut = ModuleView { name, content: truncate::ellipsized(short.content, room) };
    lemma_total_push(modules, m);
    lemma_total_push(modules, short);
    lemma_total_push(modules, cut);
    assert(all.drop_last() =~= modules);
    assert(priority(all)[0] == name);
    assert(priority(all).skip(1) =~= priority(modules));
    lemma_without_absent(modules, name);
    assert(without(all, name) == modules);
    lemma_position_last(modules, m);
    lemma_position_last(modules, short);
    assert(with_basename(all) =~= modules.push(short));
    let shortened = modules.push(short);
    assert(shortened.drop_last() =~= modules);
    assert(without(shortened, name) == modules);
    assert(room_for(shortened, budget, name) == if taken <= budget {
        room
    } else {
        0
    });
    truncate::law_ellipsis_takes_one_column();
    if taken < budget {
        assert(with_cut(shortened, budget) =~= modules.push(cut));
    }
}

proof fn lemma_total_push(modules: Seq<ModuleView>, m: ModuleView)
    ensures
        total_width(modules.push(m)) == total_width(modules) + width::width(m.content)
            + if modules.len() > 0 {
            1int
        } else {
            0
        },
{
    assert(modules.push(m).drop_last() =~= modules);
}

proof fn lemma_position_last(modules: Seq<ModuleView>, m: ModuleView)
    requires
        forall|i: int| 0 <= i < modules.len() ==> (#[trigger] modules[i]).name != m.name,
    ensures
        position(modules.push(m), m.name) == modules.len(),
{
    let all = modules.push(m);
    lemma_position(all, m.name);
    let at = position(all, m.name) as int;
    if at < modules.len() {
        assert(all[at] == modules[at]);
    }
    assert(all[modules.len() as int].name == m.name);
}

/// A directory in printable ASCII ends up as its path, as its name, as the front of its name with an
/// ellipsis that fills the columns left for it, or not at all, in this order.
pub proof fn law_plain_directory_ends_in_an_ellipsis(
    modules: Seq<ModuleView>,
    front: Seq<char>,
    name: Seq<char>,
    budget: nat,
)
    requires
        forall|i: int| 0 <= i < modules.len() ==> (#[trigger] modules[i]).name != "directory"@,
        width::printable_ascii(front),
        width::printable_ascii(name),
        !name.contains('/'),
    ensures
        ({
            let dir = |content: Seq<char>| ModuleView { name: "directory"@, content };
            let path = front + seq!['/'] + name;
            let taken = total_width(modules) + if modules.len() > 0 {
                1int
            } else {
                0
            };
            let room = budget - taken;
            let res = fitted(modules.push(dir(path)), budget);
            if path.len() <= room {
                res == modules.push(dir(path))
            } else if name.len() <= room {
                res == modules.push(dir(name))
            } else if room >= 1 {
                res == modules.push(dir(name.take(room - 1) + seq!['\u{2026}']))
            } else {
                res == fitted(modules, budget)
            }
        }),
{
    let path = front + seq!['/'] + name;
    let taken = total_width(modules) + if modules.len() > 0 {
        1int
    } else {
        0
    };
    let room = budget - taken;
    assert forall|i: int| 0 <= i < path.len() implies ' ' <= #[trigger] path[i] <= '~' by {
        if i < front.len() {
            assert(path[i] == front[i]);
        } else if i > front.len() {
            assert(path[i] == name[i - front.len() - 1]);
        }
    }
    lemma_ascii_plain(path);
    lemma_ascii_plain(name);
    law_plain_path_becomes_its_name(front, name);
    law_directory_is_shortened_before_it_goes(modules, path, budget);
    if room >= 1 && name.len() > room {
        let part = name.take(room - 1);
        let cut = part + seq!['\u{2026}'];
        truncate::law_ellipsis_takes_one_column();
        truncate::law_plain_ascii_is_cut_to_a_prefix(name, (room - 1) as nat);
        reveal_strlit("\u{2026}");
        assert(ELLIPSIS@ =~= seq!['\u{2026}']);
        assert(truncate::ellipsized(name, room as nat) == cut);
        assert forall|i: int| 0 <= i < part.len() implies ' ' <= #[trigger] part[i] <= '~' by {
            assert(part[i] == name[i]);
        }
        assert(ansi::is_plain(cut)) by {
            assert forall|k: int| 0 <= k < cut.len() - 1 implies !(#[trigger] cut[k] == '\x1b'
                && cut[k + 1] == '[') by {
                assert(cut[k] == part[k]);
            }
        }
        ansi::law_plain_text_is_visible(cut);
        width::law_ascii_takes_a_column_each(part);
        assert(cut.drop_last() =~= part);
        assert(width::width(cut) == room);
    }
}

proof fn lemma_ascii_plain(s: Seq<char>)
    requires
        width::printable_ascii(s),
    ensures
        ansi::is_plain(s),
        width::width(s) == s.len(),
{
    assert forall|k: int| 0 <= k < s.len() - 1 implies !(#[trigger] s[k] == '\x1b' && s[k + 1]
        == '[') by {
        assert(' ' <= s[k]);
    }
    ansi::law_plain_text_is_visible(s);
    width::law_ascii_takes_a_column_each(s);
}

/// Without a directory among them, and each with a name of its own, as many modules stay as fit,
/// counted from the front.
pub proof fn law_as_many_stay_as_fit(modules: Seq<ModuleView>, k: int, budget: nat)
    requires
        forall|i: int, j: int|
            0 <= i < j < modules.len() ==> (#[trigger] modules[i]).name != (
            #[trigger] modules[j]).name,
        forall|i: int| 0 <= i < modules.len() ==> (#[trigger] modules[i]).name != "directory"@,
        0 <= k <= modules.len(),
        total_width(modules.take(k)) <= budget,
        k < modules.len() ==> total_width(modules.take(k + 1)) > budget,
    ensures
        fitted(modules, budget) == modules.take(k),
    decreases modules.len(),
{
    if k == modules.len() {
        assert(modules.take(k) =~= modules);
    } else {
        let init = modules.drop_last();
        let m = modules.last();
        assert(modules[modules.len() - 1] == m);
        assert(forall|i: int| 0 <= i < init.len() ==> #[trigger] init[i] == modules[i]);
        assert(init.push(m) =~= modules);
        assert(init.take(k) =~= modules.take(k));
        if k + 1 <= init.len() {
            assert(init.take(k + 1) =~= modules.take(k + 1));
        }
        lemma_content_width_split(modules, k + 1);
        law_last_module_stays_or_goes_whole(init, m, budget);
        if k < init.len() {
            law_as_many_stay_as_fit(init, k, budget);
        } else {
            law_fit_keeps_what_fits(init, budget);
            assert(init.take(k) =~= init);
        }
    }
}

proof fn lemma_without_all_is(modules: Seq<ModuleView>, names: Seq<Seq<char>>, m: ModuleView)
    ensures
        without_all(modules, names).contains(m) <==> modules.contains(m) && !names.contains(m.name),
    decreases names.len(),
{
    if names.len() > 0 {
        let tail = names.skip(1);
        lemma_without_all_is(without(modules, names[0]), tail, m);
        lemma_without(modules, names[0]);
        if names.contains(m.name) && m.name != names[0] {
            let i = choose|i: int| 0 <= i < names.len() && names[i] == m.name;
            assert(tail[i - 1] == m.name);
        }
        if tail.contains(m.name) {
            let i = choose|i: int| 0 <= i < tail.len() && tail[i] == m.name;
            assert(names[i + 1] == m.name);
        }
        assert(names.contains(names[0]));
    }
}

/// Modules that share a name stay or go together.
pub proof fn law_modules_of_one_name_go_together(
    modules: Seq<ModuleView>,
    budget: nat,
    a: ModuleView,
    b: ModuleView,
)
    requires
        modules.contains(a),
        modules.contains(b),
        a.name == b.name,
        a.name != "directory"@,
    ensures
        fitted(modules, budget).contains(a) <==> fitted(modules, budget).contains(b),
{
    let names = priority(modules);
    let res = fitted(modules, budget);
    let k = lemma_cascade(modules, names, budget);
    let rest = without_all(modules, names.take(k));
    lemma_without_all_is(modules, names.take(k), a);
    lemma_without_all_is(modules, names.take(k), b);
    if res != rest {
        lemma_softened(rest, budget);
        assert(same_but_for(rest, res, DIRECTORY@));
        lemma_same_others(rest, res, a);
        lemma_same_others(rest, res, b);
    }
}

proof fn lemma_same_others(x: Seq<ModuleView>, y: Seq<ModuleView>, m: ModuleView)
    requires
        same_but_for(x, y, DIRECTORY@),
        m.name != DIRECTORY@,
    ensures
        x.contains(m) <==> y.contains(m),
{
    if x.contains(m) {
        let i = choose|i: int| 0 <= i < x.len() && x[i] == m;
        assert(x[i] == y[i]);
    }
    if y.contains(m) {
        let i = choose|i: int| 0 <= i < y.len() && y[i] == m;
        assert(x[i] == y[i] || x[i].name == DIRECTORY@);
    }
}

/// `names` without one of them.
spec fn names_without(names: Seq<Seq<char>>, name: Seq<char>) -> Seq<Seq<char>>
    decreases names.len(),
{
    if names.len() == 0 {
        names
    } else if names[0] == name {
        names_without(names.skip(1), name)
    } else {
        seq![names[0]] + names_without(names.skip(1), name)
    }
}

proof fn lemma_priority_without(modules: Seq<ModuleView>, name: Seq<char>)
    ensures
        priority(without(modules, name)) == names_without(priority(modules), name),
    decreases modules.len(),
{
    if modules.len() > 0 {
        let init = modules.drop_last();
        let last = modules.last();
        lemma_priority_without(init, name);
        assert(priority(modules)[0] == last.name);
        assert(priority(modules).skip(1) =~= priority(init));
        if last.name != name {
            let short = without(init, name);
            assert(short.push(last).drop_last() =~= short);
        }
    }
}

proof fn lemma_cascade_skips_absent(
    modules: Seq<ModuleView>,
    names: Seq<Seq<char>>,
    name: Seq<char>,
    budget: nat,
)
    requires
        forall|m: ModuleView| #[trigger] modules.contains(m) ==> m.name != name,
    ensures
        cascade(modules, names, budget) == cascade(modules, names_without(names, name), budget),
    decreases names.len(),
{
    if names.len() > 0 {
        let tail = names.skip(1);
        let fewer = names_without(names, name);
        if names[0] == name {
            assert forall|i: int| 0 <= i < modules.len() implies (#[trigger] modules[i]).name
                != name by {
                assert(modules.contains(modules[i]));
            }
            lemma_without_absent(modules, name);
            lemma_cascade_skips_absent(modules, tail, name, budget);
            if name == DIRECTORY@ {
                lemma_position(modules, name);
            }
        } else {
            let next = without(modules, names[0]);
            lemma_without(modules, names[0]);
            lemma_cascade_skips_absent(next, tail, name, budget);
            assert(fewer[0] == names[0]);
            assert(fewer.skip(1) =~= names_without(tail, name));
        }
    }
}

proof fn lemma_without_is_filter(modules: Seq<ModuleView>, name: Seq<char>)
    ensures
        without(modules, name) == modules.filter(|m: ModuleView| m.name != name),
    decreases modules.len(),
{
    reveal(Seq::filter);
    if modules.len() > 0 {
        lemma_without_is_filter(modules.drop_last(), name);
    } else {
        assert(without(modules, name) =~= modules.filter(|m: ModuleView| m.name != name));
    }
}

/// Modules that do not fit lose the name of the last one, wherever it occurs, and are then fitted as
/// if no module had had that name; unless it is the directory, which is shortened first.
pub proof fn law_name_of_the_last_module_goes(
    modules: Seq<ModuleView>,
    m: ModuleView,
    budget: nat,
)
    requires
        m.name != "directory"@,
        total_width(modules.push(m)) > budget,
    ensures
        fitted(modules.push(m), budget) == fitted(
            modules.filter(|x: ModuleView| x.name != m.name),
            budget,
        ),
{
    let all = modules.push(m);
    assert(all.drop_last() =~= modules);
    assert(priority(all)[0] == m.name);
    assert(priority(all).skip(1) =~= priority(modules));
    let rest = without(modules, m.name);
    assert(without(all, m.name) == rest);
    lemma_without(modules, m.name);
    lemma_cascade_skips_absent(rest, priority(modules), m.name, budget);
    lemma_priority_without(modules, m.name);
    lemma_without_is_filter(modules, m.name);
}

/// When the turn of the directory has come and there is more than one module of that name, it is the
/// first of them that is shortened and cut; if that is not enough, all of them go.
pub proof fn law_first_directory_is_shortened(modules: Seq<ModuleView>, k: int, budget: nat)
    requires
        modules.len() > 0,
        modules.last().name == "directory"@,
        total_width(modules) > budget,
        0 <= k < modules.len(),
        modules[k].name == "directory"@,
        forall|i: int| 0 <= i < k ==> (#[trigger] modules[i]).name != "directory"@,
    ensures
        ({
            let name = "directory"@;
            let content = abbreviated(modules[k].content);
            let short = modules.update(k, ModuleView { name, content });
            let room = room_for(short, budget, name);
            let cut = modules.update(
                k,
                ModuleView { name, content: truncate::ellipsized(content, room) },
            );
            fitted(modules, budget) == if total_width(short) <= budget {
                short
            } else if room >= 1 && total_width(cut) <= budget {
                cut
            } else {
                fitted(modules.filter(|x: ModuleView| x.name != name), budget)
            }
        }),
{
    let name = "directory"@;
    let content = abbreviated(modules[k].content);
    let short = modules.update(k, ModuleView { name, content });
    let room = room_for(short, budget, name);
    let cut = modules.update(k, ModuleView { name, content: truncate::ellipsized(content, room) });
    let init = modules.drop_last();
    lemma_first_position(modules, name, k);
    lemma_first_position(short, name, k);
    assert(with_basename(modules) == short);
    assert(with_cut(short, budget) =~= cut);
    truncate::law_ellipsis_takes_one_column();
    assert(priority(modules)[0] == name);
    assert(priority(modules).skip(1) =~= priority(init));
    let rest = without(modules, name);
    assert(rest == without(init, name));
    lemma_without(modules, name);
    lemma_cascade_skips_absent(rest, priority(init), name, budget);
    lemma_priority_without(init, name);
    lemma_without_is_filter(modules, name);
}

proof fn lemma_first_position(modules: Seq<ModuleView>, name: Seq<char>, k: int)
    requires
        0 <= k < modules.len(),
        modules[k].name == name,
        forall|i: int| 0 <= i < k ==> (#[trigger] modules[i]).name != name,
    ensures
        position(modules, name) == k,
{
    lemma_position(modules, name);
    let at = position(modules, name) as int;
    if at < k {
        assert(modules[at].name != name);
    }
}

} // verus!

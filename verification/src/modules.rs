//! Which modules to render, what was rendered, and how it is shown.

use crate::ansi::{self, strip_ansi};
use crate::command::Invocation;
use crate::config::HerdrConfig;
use crate::fitter::{self, fit, Module, ModuleView};
use crate::starship::{self, push_tokens, AdapterError};
use crate::text::{self, chars_of, string_of};
use crate::width::{self, str_width};
use vstd::prelude::*;

verus! {

/// The name of the composite entry, which is not a module of its own.
pub const COMPOSITE: &'static str = "starship";

/// The modules that are rendered if the settings name none.
pub open spec fn defaults() -> Seq<Seq<char>> {
    seq!["directory"@, "git_branch"@, "git_status"@, "git_state"@, "rust"@]
}

/// The modules that are rendered if the settings name none.
pub fn default_modules() -> (res: Vec<String>)
    ensures
        text::texts(res@) == defaults(),
{
    let mut res: Vec<String> = Vec::new();
    res.push("directory".to_owned());
    res.push("git_branch".to_owned());
    res.push("git_status".to_owned());
    res.push("git_state".to_owned());
    res.push("rust".to_owned());
    assert(text::texts(res@) =~= defaults());
    res
}

/// The modules that the settings name, but for the composite entry.
pub open spec fn named_modules(names: Seq<Seq<char>>) -> Seq<Seq<char>> {
    names.filter(|name: Seq<char>| name != COMPOSITE@)
}

/// The modules to render: those that the settings name, or the defaults.
pub open spec fn resolved(names: Seq<Seq<char>>) -> Seq<Seq<char>> {
    if named_modules(names).len() == 0 {
        defaults()
    } else {
        named_modules(names)
    }
}

/// The modules to render. The composite entry, which most settings hold, is no module and does not
/// count.
pub fn resolve_modules(herdr_config: &HerdrConfig) -> (res: Vec<String>)
    ensures
        text::texts(res@) == resolved(herdr_config@.modules),
{
    let names = &herdr_config.modules;
    let ghost all = text::texts(names@);
    let ghost keep = |name: Seq<char>| name != COMPOSITE@;
    let mut res: Vec<String> = Vec::new();
    let mut i: usize = 0;
    assert(text::texts(res@) =~= all.take(0).filter(keep)) by {
        reveal(Seq::filter);
    }
    while i < names.len()
        invariant
            i <= names@.len(),
            all == text::texts(names@),
            keep == (|name: Seq<char>| name != COMPOSITE@),
            text::texts(res@) == all.take(i as int).filter(keep),
        decreases names@.len() - i,
    {
        let ghost before = text::texts(res@);
        proof {
            reveal(Seq::filter);
            assert(all.take(i + 1).drop_last() =~= all.take(i as int));
            assert(all.take(i + 1).last() == names@[i as int]@);
        }
        if !names[i].as_str().eq(COMPOSITE) {
            res.push(names[i].clone());
            assert(text::texts(res@) =~= before.push(names@[i as int]@));
        }
        i = i + 1;
    }
    assert(all.take(i as int) =~= all);
    if res.len() == 0 {
        default_modules()
    } else {
        res
    }
}

/// There is always a module to render, and the composite entry is never one of them.
pub proof fn law_there_is_always_a_module(names: Seq<Seq<char>>)
    ensures
        resolved(names).len() > 0,
        !resolved(names).contains(COMPOSITE@),
{
    reveal_strlit("starship");
    reveal_strlit("directory");
    reveal_strlit("git_branch");
    reveal_strlit("git_status");
    reveal_strlit("git_state");
    reveal_strlit("rust");
    assert(COMPOSITE@[0] == 's');
    let keep = |name: Seq<char>| name != COMPOSITE@;
    assert forall|i: int| 0 <= i < named_modules(names).len() implies named_modules(names)[i]
        != COMPOSITE@ by {
        names.lemma_filter_pred(keep, i);
    }
}

/// A module that was rendered.
pub open spec fn rendered_as(name: Seq<char>, res: Result<String, AdapterError>) -> Option<
    ModuleView,
> {
    match res {
        Ok(content) => Some(ModuleView { name, content: content@ }),
        Err(_) => None,
    }
}

/// What was rendered: the composite entry first, since the last is the first to go, then the
/// modules. What failed is left out.
pub open spec fn collected(
    prompt: Result<String, AdapterError>,
    rendered: Seq<(String, Result<String, AdapterError>)>,
) -> Seq<ModuleView> {
    let modules = rendered.filter_map(
        |e: (String, Result<String, AdapterError>)| rendered_as(e.0@, e.1),
    );
    match rendered_as(COMPOSITE@, prompt) {
        Some(composite) => seq![composite] + modules,
        None => modules,
    }
}

/// Puts together what was rendered: the composite line, and each module under its name.
pub fn collect_modules(
    prompt: Result<String, AdapterError>,
    rendered: Vec<(String, Result<String, AdapterError>)>,
) -> (res: Vec<Module>)
    ensures
        fitter::views(res@) == collected(prompt, rendered@),
{
    let ghost all = rendered@;
    let ghost pick = |e: (String, Result<String, AdapterError>)| rendered_as(e.0@, e.1);
    let ghost head = match rendered_as(COMPOSITE@, prompt) {
        Some(composite) => seq![composite],
        None => Seq::empty(),
    };
    let mut res: Vec<Module> = Vec::new();
    if let Ok(content) = prompt {
        res.push(Module::new(COMPOSITE, content));
    }
    assert(fitter::views(res@) =~= head);
    assert(head + all.take(0).filter_map(pick) =~= head);
    for entry in it: rendered
        invariant
            it.seq() == all,
            pick == (|e: (String, Result<String, AdapterError>)| rendered_as(e.0@, e.1)),
            fitter::views(res@) == head + all.take(it.index() as int).filter_map(pick),
    {
        let ghost before = fitter::views(res@);
        let ghost at = it.index() as int;
        proof {
            all.lemma_filter_map_take_succ(pick, at);
            assert(all[at] == entry);
        }
        let (name, outcome) = entry;
        if let Ok(content) = outcome {
            let module = Module::new(name.as_str(), content);
            res.push(module);
            assert(fitter::views(res@) =~= before.push(module@));
        }
        assert(fitter::views(res@) =~= head + all.take(at + 1).filter_map(pick));
    }
    assert(all.take(all.len() as int) =~= all);
    assert(fitter::views(res@) =~= collected(prompt, all));
    res
}

/// What a refresh leaves of what was rendered, once it fits into the sidebar.
pub open spec fn refreshed(
    prompt: Result<String, AdapterError>,
    rendered: Seq<(String, Result<String, AdapterError>)>,
    budget: usize,
) -> Seq<ModuleView> {
    fitter::fitted(collected(prompt, rendered), budget as nat)
}

/// The report with which a refresh of one workspace ends: what was rendered is put together, fitted
/// into `budget` columns, and handed over as tokens.
pub fn refresh_report(
    workspace_id: &str,
    prompt: Result<String, AdapterError>,
    rendered: Vec<(String, Result<String, AdapterError>)>,
    budget: usize,
) -> (res: Invocation)
    ensures
        res@ == starship::report_call(
            workspace_id@,
            starship::tokens_of(refreshed(prompt, rendered@, budget)),
        ),
{
    let fitted = fit(collect_modules(prompt, rendered), budget);
    push_tokens(workspace_id, &fitted)
}

/// What a refresh reports takes no more columns than the sidebar has.
pub proof fn law_refresh_stays_within_budget(
    prompt: Result<String, AdapterError>,
    rendered: Seq<(String, Result<String, AdapterError>)>,
    budget: usize,
)
    ensures
        fitter::total_width(refreshed(prompt, rendered, budget)) <= budget,
{
    fitter::law_fit_stays_within_budget(collected(prompt, rendered), budget as nat);
}

/// The columns that a styled text takes, by the count of `unicode-width` alone.
pub open spec fn raw_columns(s: Seq<char>) -> nat {
    width::counted_columns(ansi::visible(s))
}

/// The columns that `s` takes once its control sequences are gone, by the count of
/// `unicode-width` alone.
pub fn column_width(s: &str) -> (res: usize)
    ensures
        res == raw_columns(s@),
{
    str_width(strip_ansi(s).as_str())
}

/// The columns of the widest of some contents.
pub open spec fn widest(modules: Seq<ModuleView>) -> nat
    decreases modules.len(),
{
    if modules.len() == 0 {
        0
    } else {
        let rest = widest(modules.drop_last());
        let last = raw_columns(modules.last().content);
        if last > rest {
            last
        } else {
            rest
        }
    }
}

/// How Rust writes a string in source form, in quotes.
pub uninterp spec fn debug_form(s: Seq<char>) -> Seq<char>;

/// The `Debug` form of a string: it stands in quotes, with what cannot be printed escaped.
#[verifier::external_body]
fn debug_text(s: &str) -> (res: String)
    ensures
        res@ == debug_form(s@),
        res@.len() >= 2,
{
    format!("{:?}", s)
}

/// A row of blanks.
pub open spec fn blanks(n: nat) -> Seq<char> {
    Seq::new(n, |i: int| ' ')
}

/// Puts `n` blanks at the end of `s`.
fn put_blanks(s: &mut String, n: usize)
    ensures
        final(s)@ == old(s)@ + blanks(n as nat),
{
    let mut i: usize = 0;
    assert(s@ + blanks(0) =~= s@);
    while i < n
        invariant
            i <= n,
            s@ == old(s)@ + blanks(i as nat),
        decreases n - i,
    {
        s.push(' ');
        i = i + 1;
        assert(s@ =~= old(s)@ + blanks(i as nat));
    }
}

/// How wide the column of names is.
pub const NAME_WIDTH: usize = 12;

/// The line that shows a module beside others: its name to the right, its content as it looks, and
/// its content in source form, from the same column on in every line.
pub open spec fn line_of(
    module: ModuleView,
    columns: nat,
    source: Seq<char>,
    max_width: nat,
) -> Seq<char> {
    let name_pad = if module.name.len() < NAME_WIDTH {
        (NAME_WIDTH - module.name.len()) as nat
    } else {
        0
    };
    let pad = (max_width - columns + 2) as nat;
    blanks(name_pad) + module.name + ": "@ + module.content + "\x1b[0m"@ + blanks(pad) + "(r#\""@
        + source.subrange(1, source.len() - 1) + "\")\n"@
}

/// The line that shows a module beside others whose contents take at most `max_width` columns.
pub open spec fn module_line(module: ModuleView, max_width: nat) -> Seq<char> {
    line_of(module, raw_columns(module.content), debug_form(module.content), max_width)
}

/// The line that shows `module`, whose content takes `columns` columns and is `source` in source
/// form, quotes included, beside others that take at most `max_width`.
pub fn render_line(module: &Module, columns: usize, source: &str, max_width: usize) -> (res: String)
    requires
        columns <= max_width,
        source@.len() >= 2,
    ensures
        res@ == line_of(module@, columns as nat, source@, max_width as nat),
{
    let mut res = String::new();
    let name_length = chars_of(module.name.as_str()).len();
    let name_pad: usize = if name_length < NAME_WIDTH {
        NAME_WIDTH - name_length
    } else {
        0
    };
    put_blanks(&mut res, name_pad);
    assert(res@ =~= blanks(name_pad as nat));
    res.append(module.name.as_str());
    res.append(": ");
    res.append(module.content.as_str());
    res.append("\x1b[0m");
    let ghost front = res@;
    let pad: usize = max_width - columns;
    put_blanks(&mut res, pad);
    put_blanks(&mut res, 2);
    assert(res@ =~= front + blanks((pad + 2) as nat));
    res.append("(r#\"");
    let chars = chars_of(source);
    let raw = string_of(&chars, 1, chars.len() - 1);
    res.append(raw.as_str());
    res.append("\")\n");
    res
}

/// The lines that show modules, each aligned to the widest of all.
pub open spec fn module_lines(modules: Seq<ModuleView>, max_width: nat) -> Seq<char>
    decreases modules.len(),
{
    if modules.len() == 0 {
        Seq::empty()
    } else {
        module_lines(modules.drop_last(), max_width) + module_line(modules.last(), max_width)
    }
}

proof fn lemma_widest(modules: Seq<ModuleView>, i: int)
    requires
        0 <= i < modules.len(),
    ensures
        raw_columns(modules[i].content) <= widest(modules),
    decreases modules.len(),
{
    if i < modules.len() - 1 {
        lemma_widest(modules.drop_last(), i);
        assert(modules.drop_last()[i] == modules[i]);
    }
}

/// The columns of the widest of the contents of `modules`.
fn max_width(modules: &Vec<Module>) -> (res: usize)
    ensures
        res == widest(fitter::views(modules@)),
{
    let ghost all = fitter::views(modules@);
    let mut res: usize = 0;
    let mut i: usize = 0;
    while i < modules.len()
        invariant
            i <= modules@.len(),
            all == fitter::views(modules@),
            res == widest(all.take(i as int)),
        decreases modules@.len() - i,
    {
        let columns = column_width(modules[i].content.as_str());
        assert(all.take(i + 1).drop_last() =~= all.take(i as int));
        assert(all.take(i + 1).last() == modules@[i as int]@);
        if columns > res {
            res = columns;
        }
        i = i + 1;
    }
    assert(all.take(i as int) =~= all);
    res
}

/// The lines that show `modules`.
pub fn print_modules(modules: &Vec<Module>) -> (res: String)
    ensures
        res@ == module_lines(fitter::views(modules@), widest(fitter::views(modules@))),
{
    let ghost all = fitter::views(modules@);
    let limit = max_width(modules);
    let mut res = String::new();
    let mut i: usize = 0;
    assert(res@ =~= module_lines(all.take(0), limit as nat));
    while i < modules.len()
        invariant
            i <= modules@.len(),
            all == fitter::views(modules@),
            limit == widest(all),
            res@ == module_lines(all.take(i as int), limit as nat),
        decreases modules@.len() - i,
    {
        proof {
            lemma_widest(all, i as int);
            assert(all[i as int] == modules@[i as int]@);
            assert(all.take(i + 1).drop_last() =~= all.take(i as int));
            assert(all.take(i + 1).last() == modules@[i as int]@);
        }
        let content = modules[i].content.as_str();
        let source = debug_text(content);
        let line = render_line(&modules[i], column_width(content), source.as_str(), limit);
        res.append(line.as_str());
        i = i + 1;
    }
    assert(all.take(i as int) =~= all);
    res
}

proof fn lemma_named_push(names: Seq<Seq<char>>, name: Seq<char>)
    ensures
        named_modules(names.push(name)) == if name == COMPOSITE@ {
            named_modules(names)
        } else {
            named_modules(names).push(name)
        },
{
    reveal(Seq::filter);
    assert(names.push(name).drop_last() =~= names);
}

/// The modules to render are all that the settings name, in order and as often as they name them,
/// but for `starship`; if that leaves none, they are the five defaults.
pub proof fn law_named_modules_are_rendered_in_order(names: Seq<Seq<char>>, name: Seq<char>)
    ensures
        resolved(Seq::empty()) == seq![
            "directory"@,
            "git_branch"@,
            "git_status"@,
            "git_state"@,
            "rust"@,
        ],
        resolved(names.push("starship"@)) == resolved(names),
        name != "starship"@ && (forall|i: int|
            0 <= i < names.len() ==> #[trigger] names[i] == "starship"@) ==> resolved(
            names.push(name),
        ) == seq![name],
        name != "starship"@ && (exists|i: int|
            0 <= i < names.len() && #[trigger] names[i] != "starship"@) ==> resolved(
            names.push(name),
        ) == resolved(names).push(name),
{
    assert(named_modules(Seq::empty()).len() == 0) by {
        reveal(Seq::filter);
    }
    lemma_named_push(names, "starship"@);
    lemma_named_push(names, name);
    lemma_named_empty(names);
    if forall|i: int| 0 <= i < names.len() ==> #[trigger] names[i] == "starship"@ {
        assert(named_modules(names).push(name) =~= seq![name]);
    }
}

proof fn lemma_named_empty(names: Seq<Seq<char>>)
    ensures
        named_modules(names).len() == 0 <==> (forall|i: int|
            0 <= i < names.len() ==> #[trigger] names[i] == COMPOSITE@),
    decreases names.len(),
{
    if names.len() == 0 {
        reveal(Seq::filter);
    } else {
        let rest = names.drop_last();
        let last = names.last();
        assert(names[names.len() - 1] == last);
        assert(rest.push(last) =~= names);
        assert(forall|i: int| 0 <= i < rest.len() ==> #[trigger] rest[i] == names[i]);
        lemma_named_push(rest, last);
        lemma_named_empty(rest);
    }
}

/// What was rendered stands in order: first the whole line under `starship`, if it rendered, then
/// every module that rendered, under its own name and with its own content. What failed is left out
/// and changes nothing else.
pub proof fn law_rendered_modules_stand_in_order(
    line: String,
    e: AdapterError,
    rendered: Seq<(String, Result<String, AdapterError>)>,
    name: String,
    content: String,
    prompt: Result<String, AdapterError>,
)
    ensures
        collected(Err(e), Seq::empty()).len() == 0,
        collected(Ok(line), rendered) == seq![
            ModuleView { name: "starship"@, content: line@ },
        ] + collected(Err(e), rendered),
        collected(prompt, rendered.push((name, Ok(content)))) == collected(prompt, rendered).push(
            ModuleView { name: name@, content: content@ },
        ),
        collected(prompt, rendered.push((name, Err(e)))) == collected(prompt, rendered),
{
    let pick = |e: (String, Result<String, AdapterError>)| rendered_as(e.0@, e.1);
    let n = rendered.len() as int;
    let good: (String, Result<String, AdapterError>) = (name, Ok(content));
    let bad: (String, Result<String, AdapterError>) = (name, Err(e));
    let a = rendered.push(good);
    let b = rendered.push(bad);
    a.lemma_filter_map_take_succ(pick, n);
    b.lemma_filter_map_take_succ(pick, n);
    assert(a.take(n) =~= rendered && a.take(n + 1) =~= a);
    assert(b.take(n) =~= rendered && b.take(n + 1) =~= b);
    assert(Seq::<(String, Result<String, AdapterError>)>::empty().filter_map(pick) =~= Seq::empty());
    assert(collected(prompt, a) =~= collected(prompt, rendered).push(
        ModuleView { name: name@, content: content@ },
    ));
    assert(collected(prompt, b) =~= collected(prompt, rendered));
}

/// A refresh reports everything that was rendered if it fits, and otherwise what fitting leaves of
/// it.
pub proof fn law_refresh_reports_what_was_rendered(
    prompt: Result<String, AdapterError>,
    rendered: Seq<(String, Result<String, AdapterError>)>,
    budget: usize,
)
    ensures
        fitter::total_width(collected(prompt, rendered)) <= budget ==> refreshed(
            prompt,
            rendered,
            budget,
        ) == collected(prompt, rendered),
        refreshed(prompt, rendered, budget) == fitter::fitted(
            collected(prompt, rendered),
            budget as nat,
        ),
{
}

/// The widest content is one of them, and none is wider; no content takes no columns.
pub proof fn law_widest_is_the_widest(modules: Seq<ModuleView>, i: int)
    ensures
        widest(Seq::empty()) == 0,
        0 <= i < modules.len() ==> raw_columns(modules[i].content) <= widest(modules),
        modules.len() > 0 ==> exists|k: int|
            0 <= k < modules.len() && raw_columns((#[trigger] modules[k]).content) == widest(
                modules,
            ),
    decreases modules.len(),
{
    if 0 <= i < modules.len() {
        lemma_widest(modules, i);
    }
    if modules.len() > 0 {
        let rest = modules.drop_last();
        assert(modules[modules.len() - 1] == modules.last());
        if widest(modules) != raw_columns(modules.last().content) {
            law_widest_is_the_widest(rest, 0);
            if rest.len() > 0 {
                let k = choose|k: int|
                    0 <= k < rest.len() && raw_columns((#[trigger] rest[k]).content) == widest(
                        rest,
                    );
                assert(modules[k] == rest[k]);
            }
        }
    }
}

/// In printable ASCII every character is a column, and control sequences are none.
pub proof fn law_raw_columns_of_ascii(s: Seq<char>)
    requires
        width::printable_ascii(ansi::visible(s)),
    ensures
        raw_columns(s) == ansi::visible(s).len(),
{
}

/// A line shows the name flush right, then the content as it looks, then so many blanks that the
/// source form begins in the same column for every module.
pub proof fn law_lines_are_aligned(
    module: ModuleView,
    columns: nat,
    source: Seq<char>,
    max_width: nat,
)
    requires
        columns <= max_width,
        source.len() >= 2,
        module.name.len() <= 12,
    ensures
        ({
            let line = line_of(module, columns, source, max_width);
            let n = module.content.len() as int;
            let pad = (max_width - columns) as int;
            &&& line.subrange((12 - module.name.len()) as int, 12) == module.name
            &&& forall|i: int| 0 <= i < 12 - module.name.len() ==> #[trigger] line[i] == ' '
            &&& line.subrange(12, 14) == seq![':', ' ']
            &&& line.subrange(14, 14 + n) == module.content
            &&& line.subrange(14 + n, 18 + n) == seq!['\x1b', '[', '0', 'm']
            &&& forall|i: int| 18 + n <= i < 20 + n + pad ==> #[trigger] line[i] == ' '
            &&& line.subrange(20 + n + pad, 24 + n + pad) == seq!['(', 'r', '#', '"']
            &&& line.subrange(24 + n + pad, 22 + n + pad + source.len()) == source.subrange(
                1,
                source.len() - 1,
            )
            &&& line.skip(22 + n + pad + source.len()) == seq!['"', ')', '\n']
        }),
{
    reveal_strlit(": ");
    reveal_strlit("\x1b[0m");
    reveal_strlit("(r#\"");
    reveal_strlit("\")\n");
    let line = line_of(module, columns, source, max_width);
    let n = module.content.len() as int;
    let pad = (max_width - columns) as int;
    assert(line.subrange((12 - module.name.len()) as int, 12) =~= module.name);
    assert(line.subrange(12, 14) =~= seq![':', ' ']);
    assert(line.subrange(14, 14 + n) =~= module.content);
    assert(line.subrange(14 + n, 18 + n) =~= seq!['\x1b', '[', '0', 'm']);
    assert(line.subrange(20 + n + pad, 24 + n + pad) =~= seq!['(', 'r', '#', '"']);
    assert(line.subrange(24 + n + pad, 22 + n + pad + source.len()) =~= source.subrange(
        1,
        source.len() - 1,
    ));
    assert(line.skip(22 + n + pad + source.len()) =~= seq!['"', ')', '\n']);
}

/// Every module is shown on a line of its own, in order, by its own content and aligned to the same
/// width.
pub proof fn law_modules_are_shown_line_by_line(
    modules: Seq<ModuleView>,
    m: ModuleView,
    max_width: nat,
)
    ensures
        module_lines(Seq::empty(), max_width).len() == 0,
        module_lines(modules.push(m), max_width) == module_lines(modules, max_width) + line_of(
            m,
            raw_columns(m.content),
            debug_form(m.content),
            max_width,
        ),
{
    assert(modules.push(m).drop_last() =~= modules);
}

} // verus!

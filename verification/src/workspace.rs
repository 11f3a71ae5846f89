//! Herdr's workspaces: which are open, and which directory each of them shows.

use crate::command::{self, decode_lossy, CommandOutput, Invocation, InvocationView};
use crate::document::{self, child, read_json, text_in, Node, NodeView};
use crate::path::{self, join};
use crate::text::{self, chars_of, find_from, stands_at, string_of};
use vstd::prelude::*;

verus! {

/// The text of a field, up to its value.
pub open spec fn field_start(key: Seq<char>) -> Seq<char> {
    seq!['"'] + key + seq!['"', ':', '"']
}

/// Where a scan of JSON text has come to: how many objects and lists are open, whether it is inside
/// a string, and whether it is behind a backslash there.
pub open spec fn scan(s: Seq<char>) -> (int, bool, bool)
    decreases s.len(),
{
    if s.len() == 0 {
        (0int, false, false)
    } else {
        let (depth, quoted, escaped) = scan(s.drop_last());
        let c = s.last();
        if quoted {
            if escaped {
                (depth, true, false)
            } else {
                (depth, c != '"', c == '\\')
            }
        } else if c == '{' || c == '[' {
            (depth + 1, false, false)
        } else if c == '}' || c == ']' {
            (depth - 1, false, false)
        } else {
            (depth, c == '"', false)
        }
    }
}

/// A scan that has come to `s` is at the top level: at most one object is open, and it is not inside
/// a string.
pub open spec fn at_top_level(s: Seq<char>) -> bool {
    let (depth, quoted, escaped) = scan(s);
    depth <= 1 && !quoted && !escaped
}

/// A top-level `"key":"value"` field begins at `at`. It may stand in an object or in bare text.
pub open spec fn field_at(json: Seq<char>, key: Seq<char>, at: int) -> bool {
    0 <= at <= json.len() && at_top_level(json.take(at)) && text::begins_with(
        json.skip(at),
        field_start(key),
    )
}

/// The least position from `from` on at which a top-level field begins.
pub open spec fn first_field(json: Seq<char>, key: Seq<char>, from: nat) -> Option<nat>
    decreases json.len() + 1 - from,
{
    if from > json.len() {
        None
    } else if field_at(json, key, from as int) {
        Some(from)
    } else {
        first_field(json, key, from + 1)
    }
}

/// What stands in `json` from `from` on, up to the next quote.
pub open spec fn up_to_quote(json: Seq<char>, from: int) -> Option<Seq<char>> {
    let rest = json.skip(from);
    match text::first_at(rest, seq!['"']) {
        Some(end) => Some(rest.take(end as int)),
        None => None,
    }
}

/// What stands between the quotes behind `"key":` in the first top-level field of that name.
pub open spec fn quoted_value(json: Seq<char>, key: Seq<char>) -> Option<Seq<char>> {
    match first_field(json, key, 0) {
        Some(at) => up_to_quote(json, at + field_start(key).len() as int),
        None => None,
    }
}

/// Finds where the first top-level field begins whose text up to its value is `needle`.
fn find_field(chars: &Vec<char>, needle: &Vec<char>, Ghost(key): Ghost<Seq<char>>) -> (res: Option<
    usize,
>)
    requires
        needle@ == field_start(key),
    ensures
        match (res, first_field(chars@, key, 0)) {
            (Some(a), Some(b)) => a == b && a + needle@.len() <= chars@.len(),
            (None, None) => true,
            _ => false,
        },
{
    let ghost json = chars@;
    let total: usize = chars.len();
    let mut depth: i128 = 0;
    let mut quoted = false;
    let mut escaped = false;
    let mut i: usize = 0;
    assert(json.take(0) =~= Seq::empty());
    loop
        invariant
            i <= total,
            total == chars@.len(),
            json == chars@,
            needle@ == field_start(key),
            -i <= depth <= i,
            scan(json.take(i as int)) == (depth as int, quoted, escaped),
            first_field(json, key, 0) == first_field(json, key, i as nat),
        decreases total - i,
    {
        if depth <= 1 && !quoted && !escaped && stands_at(chars, i, needle) {
            return Some(i);
        }
        assert(!field_at(json, key, i as int));
        if i == total {
            assert(first_field(json, key, (i + 1) as nat) is None);
            return None;
        }
        let c = chars[i];
        proof {
            assert(json.take(i + 1).drop_last() =~= json.take(i as int));
            assert(json.take(i + 1).last() == c);
        }
        if quoted {
            if escaped {
                escaped = false;
            } else {
                escaped = c == '\\';
                quoted = c != '"';
            }
        } else if c == '{' || c == '[' {
            depth = depth + 1;
            escaped = false;
        } else if c == '}' || c == ']' {
            depth = depth - 1;
            escaped = false;
        } else {
            quoted = c == '"';
            escaped = false;
        }
        i = i + 1;
    }
}

/// Finds a top-level `"key":"value"` field in a text, without a full JSON parse.
pub fn extract_json_string(json: &str, key: &str) -> (res: Option<String>)
    ensures
        text::maybe(res) == quoted_value(json@, key@),
{
    let mut field = String::new();
    field.push('"');
    field.append(key);
    field.push('"');
    field.push(':');
    field.push('"');
    let needle = chars_of(field.as_str());
    assert(needle@ =~= field_start(key@));
    let chars = chars_of(json);
    let total: usize = chars.len();
    let at = match find_field(&chars, &needle, Ghost(key@)) {
        Some(at) => at,
        None => {
            return None;
        },
    };
    assert(at + needle@.len() <= total);
    let start: usize = at + needle.len();
    let mut quote: Vec<char> = Vec::new();
    quote.push('"');
    assert(quote@ =~= seq!['"']);
    match find_from(&chars, start, &quote) {
        Some(end) => {
            let res = string_of(&chars, start, end);
            assert(res@ =~= json@.skip(start as int).take(end - start));
            Some(res)
        },
        None => None,
    }
}

/// The directory of the workspace that a hook runs for.
pub open spec fn repo_of(context: Option<&str>, current_dir: Option<&str>) -> Option<Seq<char>> {
    let named = match context {
        Some(json) => quoted_value(json@, "workspace_cwd"@),
        None => None,
    };
    match (named, current_dir) {
        (Some(dir), _) => Some(dir),
        (None, Some(dir)) => Some(dir@),
        (None, None) => None,
    }
}

/// The directory to render: `workspace_cwd` in the context that Herdr hands to hooks, because they
/// run in the plugin's own directory, or else the current directory, if there is one.
pub fn target_repo(context: Option<&str>, current_dir: Option<&str>) -> (res: Option<String>)
    ensures
        text::maybe(res) == repo_of(context, current_dir),
{
    if let Some(json) = context {
        let named = extract_json_string(json, "workspace_cwd");
        if named.is_some() {
            return named;
        }
    }
    match current_dir {
        Some(dir) => Some(dir.to_owned()),
        None => None,
    }
}

/// Where the user's own prompt stands in the plugin's configuration directory.
pub fn user_config_path(config_dir: &str) -> (res: String)
    ensures
        res@ == path::joined(config_dir@, "starship.toml"@),
{
    join(config_dir, "starship.toml")
}

/// The prompt to render: the user's own, if there is one, or else the bundled one.
pub open spec fn prompt_config(
    config_dir: Option<&str>,
    has_user_config: bool,
    bundled_dir: Seq<char>,
) -> Seq<char> {
    match config_dir {
        Some(dir) if has_user_config => path::joined(dir@, "starship.toml"@),
        _ => path::joined(bundled_dir, "examples/starship-herdr.toml"@),
    }
}

/// The prompt to render. A user's own `starship.toml` in the plugin's configuration directory wins
/// over the bundled one; `has_user_config` tells whether it is there.
pub fn config_path(config_dir: Option<&str>, has_user_config: bool, bundled_dir: &str) -> (res:
    String)
    ensures
        res@ == prompt_config(config_dir, has_user_config, bundled_dir@),
{
    if let Some(dir) = config_dir {
        if has_user_config {
            return user_config_path(dir);
        }
    }
    join(bundled_dir, "examples/starship-herdr.toml")
}

/// `herdr pane list` for one workspace.
pub open spec fn pane_list_call(workspace_id: Seq<char>) -> InvocationView {
    command::call("herdr"@, seq!["pane"@, "list"@, "--workspace"@, workspace_id])
}

/// The call that lists the panes of a workspace.
pub fn pane_list_invocation(workspace_id: &str) -> (res: Invocation)
    ensures
        res@ == pane_list_call(workspace_id@),
{
    let mut cmd = Invocation::new("herdr");
    cmd.arg("pane");
    cmd.arg("list");
    cmd.arg("--workspace");
    cmd.arg(workspace_id);
    assert(cmd@.args =~= pane_list_call(workspace_id@).args);
    cmd
}

/// `herdr workspace list`.
pub open spec fn workspace_list_call() -> InvocationView {
    command::call("herdr"@, seq!["workspace"@, "list"@])
}

/// The call that lists the open workspaces.
pub fn workspace_list_invocation() -> (res: Invocation)
    ensures
        res@ == workspace_list_call(),
{
    let mut cmd = Invocation::new("herdr");
    cmd.arg("workspace");
    cmd.arg("list");
    assert(cmd@.args =~= workspace_list_call().args);
    cmd
}

/// A pane that belongs to a tab.
pub open spec fn in_tab(pane: NodeView, tab: Seq<char>) -> bool {
    document::text_of(pane.get("tab_id"@)) == Some(tab)
}

/// The first pane that belongs to a tab.
pub open spec fn first_in_tab(panes: Seq<NodeView>, tab: Seq<char>) -> Option<NodeView>
    decreases panes.len(),
{
    if panes.len() == 0 {
        None
    } else if in_tab(panes[0], tab) {
        Some(panes[0])
    } else {
        first_in_tab(panes.skip(1), tab)
    }
}

/// The pane that counts: the first one of the active tab, or else the first one of all.
pub open spec fn active_pane(panes: Seq<NodeView>, active_tab: Option<Seq<char>>) -> Option<NodeView> {
    let active = match active_tab {
        Some(tab) => first_in_tab(panes, tab),
        None => None,
    };
    if active is Some {
        active
    } else if panes.len() > 0 {
        Some(panes[0])
    } else {
        None
    }
}

/// The directory of the active pane in a parsed list of panes.
pub open spec fn active_cwd(value: NodeView, active_tab: Option<Seq<char>>) -> Option<Seq<char>> {
    match document::under(value.get("result"@), "panes"@) {
        Some(NodeView::List(panes)) => document::text_of(
            document::under(active_pane(panes, active_tab), "cwd"@),
        ),
        _ => None,
    }
}

/// The characters of a string that may be missing.
pub open spec fn maybe_str(s: Option<&str>) -> Option<Seq<char>> {
    match s {
        Some(t) => Some(t@),
        None => None,
    }
}

/// Finds the first pane that belongs to a tab.
fn find_pane<'a>(panes: &'a Vec<Node>, tab: &str) -> (res: Option<&'a Node>)
    ensures
        document::maybe_node(res) == first_in_tab(document::node_views(panes@), tab@),
{
    let ghost all = document::node_views(panes@);
    let mut i: usize = 0;
    assert(all.skip(0) =~= all);
    while i < panes.len()
        invariant
            i <= panes@.len(),
            all == document::node_views(panes@),
            first_in_tab(all, tab@) == first_in_tab(all.skip(i as int), tab@),
        decreases panes@.len() - i,
    {
        assert(all.skip(i as int)[0] == panes@[i as int]@);
        assert(all.skip(i as int).skip(1) =~= all.skip(i + 1));
        if let Some(id) = text_in(panes[i].get("tab_id")) {
            if id.as_str().eq(tab) {
                return Some(&panes[i]);
            }
        }
        i = i + 1;
    }
    None
}

/// The directory of the active pane in a parsed list of panes, or of the first one.
pub fn pane_cwd(value: &Node, active_tab_id: Option<&str>) -> (res: Option<String>)
    ensures
        text::maybe(res) == active_cwd(value@, maybe_str(active_tab_id)),
{
    let found = child(value.get("result"), "panes");
    match found {
        Some(Node::List(panes)) => {
            let ghost all = document::node_views(panes@);
            assert(all =~= document::maybe_node(found)->0->List_0);
            if let Some(tab) = active_tab_id {
                if let Some(pane) = find_pane(panes, tab) {
                    return text_in(pane.get("cwd"));
                }
            }
            if panes.len() > 0 {
                assert(all[0] == panes@[0]@);
                text_in(panes[0].get("cwd"))
            } else {
                None
            }
        },
        _ => None,
    }
}

/// The directory of the active pane, by what `herdr pane list` printed.
pub open spec fn listed_cwd(
    ran: Option<&CommandOutput>,
    active_tab: Option<Seq<char>>,
) -> Option<Seq<char>> {
    match ran {
        Some(output) => match document::json_document(output.stdout@) {
            Ok(value) if output.success => active_cwd(value, active_tab),
            _ => None,
        },
        None => None,
    }
}

/// The directory of a workspace's active pane, or of its first one, by what `herdr pane list`
/// printed.
pub fn resolve_pane_cwd(ran: Option<&CommandOutput>, active_tab_id: Option<&str>) -> (res: Option<
    String,
>)
    ensures
        text::maybe(res) == listed_cwd(ran, maybe_str(active_tab_id)),
{
    match ran {
        Some(output) => {
            if !output.success {
                return None;
            }
            match read_json(output.stdout.as_slice()) {
                Ok(value) => pane_cwd(&value, active_tab_id),
                Err(_) => None,
            }
        },
        None => None,
    }
}

/// An open workspace.
#[derive(Debug)]
pub struct Workspace {
    pub id: String,
    pub active_tab_id: Option<String>,
    /// Where its worktree is checked out.
    pub checkout_path: Option<String>,
}

/// The model of a workspace.
pub struct WorkspaceView {
    pub id: Seq<char>,
    pub active_tab_id: Option<Seq<char>>,
    pub checkout_path: Option<Seq<char>>,
}

impl View for Workspace {
    type V = WorkspaceView;

    open spec fn view(&self) -> WorkspaceView {
        WorkspaceView {
            id: self.id@,
            active_tab_id: text::maybe(self.active_tab_id),
            checkout_path: text::maybe(self.checkout_path),
        }
    }
}

/// The models of workspaces.
pub open spec fn workspace_views(list: Seq<Workspace>) -> Seq<WorkspaceView> {
    list.map_values(|w: Workspace| w@)
}

/// What an entry in the list of workspaces says. One without an id does not count.
pub open spec fn workspace_in(entry: NodeView) -> Option<WorkspaceView> {
    match document::text_of(entry.get("workspace_id"@)) {
        Some(id) => Some(
            WorkspaceView {
                id,
                active_tab_id: document::text_of(entry.get("active_tab_id"@)),
                checkout_path: document::text_of(
                    document::under(entry.get("worktree"@), "checkout_path"@),
                ),
            },
        ),
        None => None,
    }
}

/// The workspaces in a parsed list.
pub open spec fn workspaces_in(value: NodeView) -> Seq<WorkspaceView> {
    match document::under(value.get("result"@), "workspaces"@) {
        Some(NodeView::List(entries)) => entries.filter_map(
            |entry: NodeView| workspace_in(entry),
        ),
        _ => Seq::empty(),
    }
}

/// What an entry in the list of workspaces says.
fn read_workspace(entry: &Node) -> (res: Option<Workspace>)
    ensures
        match (res, workspace_in(entry@)) {
            (Some(a), Some(b)) => a@ == b,
            (None, None) => true,
            _ => false,
        },
{
    match text_in(entry.get("workspace_id")) {
        Some(id) => Some(
            Workspace {
                id,
                active_tab_id: text_in(entry.get("active_tab_id")),
                checkout_path: text_in(child(entry.get("worktree"), "checkout_path")),
            },
        ),
        None => None,
    }
}

/// The workspaces in a parsed list.
pub fn read_workspaces(value: &Node) -> (res: Vec<Workspace>)
    ensures
        workspace_views(res@) == workspaces_in(value@),
{
    let mut res: Vec<Workspace> = Vec::new();
    assert(workspace_views(res@) =~= Seq::empty());
    let found = child(value.get("result"), "workspaces");
    match found {
        Some(Node::List(entries)) => {
            let ghost all = document::node_views(entries@);
            let ghost pick = |entry: NodeView| workspace_in(entry);
            assert(all =~= document::maybe_node(found)->0->List_0);
            let mut i: usize = 0;
            assert(all.take(0).filter_map(pick) =~= Seq::empty());
            while i < entries.len()
                invariant
                    i <= entries@.len(),
                    all == document::node_views(entries@),
                    pick == (|entry: NodeView| workspace_in(entry)),
                    workspace_views(res@) == all.take(i as int).filter_map(pick),
                decreases entries@.len() - i,
            {
                let ghost so_far = workspace_views(res@);
                let workspace = read_workspace(&entries[i]);
                proof {
                    assert(all[i as int] == entries@[i as int]@);
                    all.lemma_filter_map_take_succ(pick, i as int);
                }
                if let Some(workspace) = workspace {
                    res.push(workspace);
                    assert(workspace_views(res@) =~= so_far.push(workspace@));
                }
                assert(workspace_views(res@) =~= all.take(i + 1).filter_map(pick));
                i = i + 1;
            }
            assert(all.take(i as int) =~= all);
        },
        _ => {},
    }
    res
}

/// Why the open workspaces could not be listed.
#[derive(Debug)]
pub enum ListFailure {
    NotRun(String),
    Failed(String),
    Malformed(String),
}

/// The model of such a reason.
pub enum ListFailureView {
    NotRun(Seq<char>),
    Failed(Seq<char>),
    Malformed(Seq<char>),
}

impl View for ListFailure {
    type V = ListFailureView;

    open spec fn view(&self) -> ListFailureView {
        match self {
            ListFailure::NotRun(message) => ListFailureView::NotRun(message@),
            ListFailure::Failed(message) => ListFailureView::Failed(message@),
            ListFailure::Malformed(message) => ListFailureView::Malformed(message@),
        }
    }
}

/// The open workspaces, by what `herdr workspace list` printed.
pub open spec fn listed_workspaces(ran: Result<CommandOutput, String>) -> Result<
    Seq<WorkspaceView>,
    ListFailureView,
> {
    match ran {
        Ok(output) => if output.success {
            match document::json_document(output.stdout@) {
                Ok(value) => Ok(workspaces_in(value)),
                Err(message) => Err(ListFailureView::Malformed(message)),
            }
        } else {
            Err(ListFailureView::Failed(command::lossy_text(output.stderr@)))
        },
        Err(message) => Err(ListFailureView::NotRun(message@)),
    }
}

/// The open workspaces, by what `herdr workspace list` printed.
pub fn list_workspaces(ran: Result<CommandOutput, String>) -> (res: Result<
    Vec<Workspace>,
    ListFailure,
>)
    ensures
        match (res, listed_workspaces(ran)) {
            (Ok(a), Ok(b)) => workspace_views(a@) == b,
            (Err(a), Err(b)) => a@ == b,
            _ => false,
        },
{
    match ran {
        Ok(output) => {
            if !output.success {
                return Err(ListFailure::Failed(decode_lossy(output.stderr.as_slice())));
            }
            match read_json(output.stdout.as_slice()) {
                Ok(value) => Ok(read_workspaces(&value)),
                Err(message) => Err(ListFailure::Malformed(message)),
            }
        },
        Err(message) => Err(ListFailure::NotRun(message)),
    }
}

/// A workspace and the directory to render for it: that of its active pane, or else its checkout.
pub open spec fn target_of(
    workspace: WorkspaceView,
    panes: Option<&CommandOutput>,
) -> Option<(Seq<char>, Seq<char>)> {
    match (listed_cwd(panes, workspace.active_tab_id), workspace.checkout_path) {
        (Some(cwd), _) => Some((workspace.id, cwd)),
        (None, Some(checkout)) => Some((workspace.id, checkout)),
        (None, None) => None,
    }
}

/// The directory to render for a workspace, by what `herdr pane list` printed for it.
pub fn workspace_target(workspace: &Workspace, panes: Option<&CommandOutput>) -> (res: Option<
    (String, String),
>)
    ensures
        match (res, target_of(workspace@, panes)) {
            (Some(a), Some(b)) => (a.0@, a.1@) == b,
            (None, None) => true,
            _ => false,
        },
{
    let active = match &workspace.active_tab_id {
        Some(id) => Some(id.as_str()),
        None => None,
    };
    let id = workspace.id.clone();
    match resolve_pane_cwd(panes, active) {
        Some(cwd) => Some((id, cwd)),
        None => match &workspace.checkout_path {
            Some(checkout) => Some((id, checkout.clone())),
            None => None,
        },
    }
}

/// The targets of a list of workspaces, each with what `herdr pane list` printed for it.
pub open spec fn targets_of(list: Seq<(Workspace, Option<CommandOutput>)>) -> Seq<
    (Seq<char>, Seq<char>),
> {
    list.filter_map(
        |e: (Workspace, Option<CommandOutput>)|
            match e.1 {
                Some(output) => target_of(e.0@, Some(&output)),
                None => target_of(e.0@, None),
            },
    )
}

/// The workspaces that have a directory to render, with that directory.
pub fn list_workspace_targets(list: &Vec<(Workspace, Option<CommandOutput>)>) -> (res: Vec<
    (String, String),
>)
    ensures
        command::pairs(res@) == targets_of(list@),
{
    let ghost pick = |e: (Workspace, Option<CommandOutput>)|
        match e.1 {
            Some(output) => target_of(e.0@, Some(&output)),
            None => target_of(e.0@, None),
        };
    let mut res: Vec<(String, String)> = Vec::new();
    assert(command::pairs(res@) =~= list@.take(0).filter_map(pick));
    let mut i: usize = 0;
    while i < list.len()
        invariant
            i <= list@.len(),
            pick == (|e: (Workspace, Option<CommandOutput>)|
                match e.1 {
                    Some(output) => target_of(e.0@, Some(&output)),
                    None => target_of(e.0@, None),
                }),
            command::pairs(res@) == list@.take(i as int).filter_map(pick),
        decreases list@.len() - i,
    {
        let ghost so_far = command::pairs(res@);
        proof {
            list@.lemma_filter_map_take_succ(pick, i as int);
        }
        let target = match &list[i].1 {
            Some(output) => workspace_target(&list[i].0, Some(output)),
            None => workspace_target(&list[i].0, None),
        };
        if let Some(target) = target {
            res.push(target);
            assert(command::pairs(res@) =~= so_far.push((target.0@, target.1@)));
        }
        assert(command::pairs(res@) =~= list@.take(i + 1).filter_map(pick));
        i = i + 1;
    }
    assert(list@.take(i as int) =~= list@);
    res
}

proof fn lemma_first_field(json: Seq<char>, key: Seq<char>, from: nat, at: int)
    requires
        from <= at,
        field_at(json, key, at),
        forall|k: int| from <= k < at ==> !#[trigger] field_at(json, key, k),
    ensures
        first_field(json, key, from) == Some(at as nat),
    decreases at - from,
{
    if from < at {
        assert(!field_at(json, key, from as int));
        lemma_first_field(json, key, from + 1, at);
    }
}

proof fn lemma_no_field(json: Seq<char>, key: Seq<char>, from: nat)
    requires
        forall|k: int| !#[trigger] field_at(json, key, k),
    ensures
        first_field(json, key, from) is None,
    decreases json.len() + 1 - from,
{
    if from <= json.len() {
        assert(!field_at(json, key, from as int));
        lemma_no_field(json, key, from + 1);
    }
}

/// The value is that of the first top-level field of the name, up to the next quote. Fields inside
/// other objects, and text inside strings, do not count.
pub proof fn law_first_top_level_field_counts(json: Seq<char>, key: Seq<char>, at: int)
    requires
        field_at(json, key, at),
        forall|k: int| 0 <= k < at ==> !#[trigger] field_at(json, key, k),
    ensures
        quoted_value(json, key) == up_to_quote(json, at + field_start(key).len()),
{
    lemma_first_field(json, key, 0, at);
}

/// Without a top-level field of the name there is no value.
pub proof fn law_no_top_level_field_no_value(json: Seq<char>, key: Seq<char>)
    requires
        forall|k: int| !#[trigger] field_at(json, key, k),
    ensures
        quoted_value(json, key) is None,
{
    lemma_no_field(json, key, 0);
}

/// The value of the first top-level field of that name is found, whatever stands before and after
/// it, as long as there is no quote in it.
pub proof fn law_first_field_is_found(
    front: Seq<char>,
    key: Seq<char>,
    value: Seq<char>,
    rest: Seq<char>,
)
    requires
        !value.contains('"'),
        at_top_level(front),
        forall|k: int|
            0 <= k < front.len() ==> !#[trigger] field_at(
                front + field_start(key) + value + seq!['"'] + rest,
                key,
                k,
            ),
    ensures
        quoted_value(front + field_start(key) + value + seq!['"'] + rest, key) == Some(value),
{
    let start = field_start(key);
    let quote = seq!['"'];
    let tail = value + quote + rest;
    let json = front + start + value + quote + rest;
    let n = front.len() as int;
    assert(json.take(n) =~= front);
    assert(json.skip(n) =~= start + tail);
    assert((start + tail).take(start.len() as int) =~= start);
    law_first_top_level_field_counts(json, key, n);
    assert(json.skip(n + start.len()) =~= tail);
    let m = value.len() as int;
    assert(tail.skip(m) =~= quote + rest);
    assert((quote + rest).take(1) =~= quote);
    assert forall|k: int| 0 <= k < m implies !text::begins_with(#[trigger] tail.skip(k), quote) by {
        if text::begins_with(tail.skip(k), quote) {
            assert(tail.skip(k).take(1)[0] == quote[0]);
            assert(tail.skip(k)[0] == value[k]);
            assert(value.contains(value[k]));
        }
    }
    text::lemma_first_at(tail, quote, m);
    assert(tail.take(m) =~= value);
}

/// The directory of the active pane is the target whenever the list of panes gives one, whether or
/// not there is a checkout; the checkout is the target only if the panes give none.
pub proof fn law_pane_comes_before_checkout(
    workspace: WorkspaceView,
    panes: Option<&CommandOutput>,
    checkout: Seq<char>,
)
    ensures
        ({
            let cwd = listed_cwd(panes, workspace.active_tab_id);
            let with = WorkspaceView { checkout_path: Some(checkout), ..workspace };
            let bare = WorkspaceView { checkout_path: None, ..workspace };
            &&& cwd is Some ==> target_of(workspace, panes) == Some((workspace.id, cwd->0))
            &&& cwd is Some ==> target_of(with, panes) == target_of(bare, panes)
            &&& cwd is None ==> target_of(with, panes) == Some((workspace.id, checkout))
            &&& cwd is None ==> target_of(bare, panes) is None
        }),
{
}

proof fn lemma_first_in_tab(panes: Seq<NodeView>, tab: Seq<char>, k: int)
    requires
        0 <= k <= panes.len(),
        forall|j: int| 0 <= j < k ==> document::text_of((#[trigger] panes[j]).get("tab_id"@))
            != Some(tab),
        k < panes.len() ==> document::text_of(panes[k].get("tab_id"@)) == Some(tab),
    ensures
        first_in_tab(panes, tab) == if k < panes.len() {
            Some(panes[k])
        } else {
            None
        },
    decreases k,
{
    if k > 0 {
        let rest = panes.skip(1);
        assert(forall|j: int| 0 <= j < rest.len() ==> #[trigger] rest[j] == panes[j + 1]);
        lemma_first_in_tab(rest, tab, k - 1);
    }
}

/// The directory that a list of panes gives is that of the first pane of the active tab. If there is
/// none in that tab, or no tab is active, it is that of the first pane of all.
pub proof fn law_active_pane_gives_the_directory(
    output: &CommandOutput,
    value: NodeView,
    panes: Seq<NodeView>,
    tab: Seq<char>,
    k: int,
)
    requires
        output.success,
        document::json_document(output.stdout@) == Ok::<NodeView, Seq<char>>(value),
        document::under(value.get("result"@), "panes"@) == Some(NodeView::List(panes)),
        0 <= k <= panes.len(),
        forall|j: int| 0 <= j < k ==> document::text_of((#[trigger] panes[j]).get("tab_id"@))
            != Some(tab),
        k < panes.len() ==> document::text_of(panes[k].get("tab_id"@)) == Some(tab),
    ensures
        k < panes.len() ==> listed_cwd(Some(output), Some(tab)) == document::text_of(
            panes[k].get("cwd"@),
        ),
        k == panes.len() && panes.len() > 0 ==> listed_cwd(Some(output), Some(tab))
            == document::text_of(panes[0].get("cwd"@)),
        panes.len() > 0 ==> listed_cwd(Some(output), None) == document::text_of(
            panes[0].get("cwd"@),
        ),
        panes.len() == 0 ==> listed_cwd(Some(output), Some(tab)) is None && listed_cwd(
            Some(output),
            None,
        ) is None,
{
    lemma_first_in_tab(panes, tab, k);
}

/// No directory comes from a list that was not printed with success, is no JSON, or holds no panes.
pub proof fn law_no_panes_no_directory(output: &CommandOutput, active_tab: Option<Seq<char>>)
    ensures
        listed_cwd(None, active_tab) is None,
        !output.success ==> listed_cwd(Some(output), active_tab) is None,
        document::json_document(output.stdout@) is Err ==> listed_cwd(Some(output), active_tab)
            is None,
        document::json_document(output.stdout@) is Ok && !(document::under(
            document::json_document(output.stdout@)->Ok_0.get("result"@),
            "panes"@,
        ) matches Some(NodeView::List(_))) ==> listed_cwd(Some(output), active_tab) is None,
{
}

/// The open workspaces are those in the list that have an id, in order, each with what its own entry
/// says.
pub proof fn law_workspaces_are_listed_one_by_one(
    value: NodeView,
    more: NodeView,
    entries: Seq<NodeView>,
    entry: NodeView,
)
    requires
        document::under(value.get("result"@), "workspaces"@) == Some(NodeView::List(entries)),
        document::under(more.get("result"@), "workspaces"@) == Some(
            NodeView::List(entries.push(entry)),
        ),
    ensures
        entries.len() == 0 ==> workspaces_in(value).len() == 0,
        match document::text_of(entry.get("workspace_id"@)) {
            Some(id) => {
                let new = WorkspaceView {
                    id,
                    active_tab_id: document::text_of(entry.get("active_tab_id"@)),
                    checkout_path: document::text_of(
                        document::under(entry.get("worktree"@), "checkout_path"@),
                    ),
                };
                workspaces_in(more) == workspaces_in(value).push(new)
            },
            None => workspaces_in(more) == workspaces_in(value),
        },
{
    let pick = |entry: NodeView| workspace_in(entry);
    let all = entries.push(entry);
    let n = entries.len() as int;
    all.lemma_filter_map_take_succ(pick, n);
    assert(all.take(n) =~= entries);
    assert(all.take(n + 1) =~= all);
    assert(workspaces_in(value) == entries.filter_map(pick));
    assert(workspaces_in(more) == all.filter_map(pick));
    if n == 0 {
        assert(entries.filter_map(pick) =~= Seq::empty());
    }
    assert(workspaces_in(more) =~= match workspace_in(entry) {
        Some(new) => workspaces_in(value).push(new),
        None => workspaces_in(value),
    });
}

/// The list of workspaces is read exactly if it was printed with success and is JSON; otherwise the
/// reason is given.
pub proof fn law_list_is_read_only_with_success(output: CommandOutput, message: String)
    ensures
        listed_workspaces(Ok(output)) is Ok <==> output.success && document::json_document(
            output.stdout@,
        ) is Ok,
        listed_workspaces(Ok(output)) is Ok ==> listed_workspaces(Ok(output))->Ok_0
            == workspaces_in(document::json_document(output.stdout@)->Ok_0),
        !output.success ==> listed_workspaces(Ok(output)) == Err::<
            Seq<WorkspaceView>,
            ListFailureView,
        >(ListFailureView::Failed(command::lossy_text(output.stderr@))),
        output.success && document::json_document(output.stdout@) is Err ==> listed_workspaces(
            Ok(output),
        ) == Err::<Seq<WorkspaceView>, ListFailureView>(
            ListFailureView::Malformed(document::json_document(output.stdout@)->Err_0),
        ),
        listed_workspaces(Err(message)) == Err::<Seq<WorkspaceView>, ListFailureView>(
            ListFailureView::NotRun(message@),
        ),
{
}

/// Every workspace that has a directory to render is a target, in order, with the directory that it
/// has by itself.
pub proof fn law_targets_are_found_one_by_one(
    list: Seq<(Workspace, Option<CommandOutput>)>,
    workspace: Workspace,
    panes: Option<CommandOutput>,
)
    ensures
        targets_of(Seq::empty()).len() == 0,
        ({
            let target = match panes {
                Some(output) => target_of(workspace@, Some(&output)),
                None => target_of(workspace@, None),
            };
            targets_of(list.push((workspace, panes))) == match target {
                Some(t) => targets_of(list).push(t),
                None => targets_of(list),
            }
        }),
{
    let pick = |e: (Workspace, Option<CommandOutput>)|
        match e.1 {
            Some(output) => target_of(e.0@, Some(&output)),
            None => target_of(e.0@, None),
        };
    let all = list.push((workspace, panes));
    let n = list.len() as int;
    all.lemma_filter_map_take_succ(pick, n);
    assert(all.take(n) =~= list);
    assert(all.take(n + 1) =~= all);
    assert(targets_of(all) == all.filter_map(pick));
    assert(targets_of(list) == list.filter_map(pick));
    assert(targets_of(Seq::empty()) =~= Seq::empty());
    assert(all[n] == (workspace, panes));
    assert(targets_of(all) =~= match pick((workspace, panes)) {
        Some(t) => targets_of(list).push(t),
        None => targets_of(list),
    });
}

/// The workspace's directory in Herdr's context comes before the current directory.
pub proof fn law_context_comes_before_the_current_dir(json: &str, here: &str)
    ensures
        quoted_value(json@, "workspace_cwd"@) is Some ==> repo_of(Some(json), Some(here))
            == quoted_value(json@, "workspace_cwd"@) && repo_of(Some(json), None) == quoted_value(
            json@,
            "workspace_cwd"@,
        ),
        quoted_value(json@, "workspace_cwd"@) is None ==> repo_of(Some(json), Some(here)) == Some(
            here@,
        ) && repo_of(Some(json), None) is None,
        repo_of(None, Some(here)) == Some(here@),
        repo_of(None, None) is None,
{
}

/// The user's own prompt is rendered exactly if there is one; otherwise the bundled one is.
pub proof fn law_own_prompt_comes_first(dir: &str, bundled: Seq<char>)
    requires
        dir@.len() > 0,
        dir@.last() != '/',
        bundled.len() > 0,
        bundled.last() != '/',
    ensures
        prompt_config(Some(dir), true, bundled) == dir@ + "/starship.toml"@,
        prompt_config(Some(dir), false, bundled) == bundled + "/examples/starship-herdr.toml"@,
        prompt_config(None, true, bundled) == bundled + "/examples/starship-herdr.toml"@,
        prompt_config(None, false, bundled) == bundled + "/examples/starship-herdr.toml"@,
{
    reveal_strlit("starship.toml");
    reveal_strlit("/starship.toml");
    reveal_strlit("examples/starship-herdr.toml");
    reveal_strlit("/examples/starship-herdr.toml");
    assert(dir@ + seq!['/'] + "starship.toml"@ =~= dir@ + "/starship.toml"@);
    assert(bundled + seq!['/'] + "examples/starship-herdr.toml"@ =~= bundled
        + "/examples/starship-herdr.toml"@);
}

/// The calls of `herdr` that list workspaces and the panes of one of them.
pub proof fn law_lists_are_asked_of_herdr(workspace_id: Seq<char>)
    ensures
        pane_list_call(workspace_id).program == "herdr"@,
        pane_list_call(workspace_id).args == seq!["pane"@, "list"@, "--workspace"@, workspace_id],
        workspace_list_call().program == "herdr"@,
        workspace_list_call().args == seq!["workspace"@, "list"@],
{
}

/// How a scan goes on: brackets outside strings change the depth, a string is passed over as a
/// whole, a backslash takes the meaning from the character behind it, and other text changes
/// nothing.
pub proof fn law_scan_passes_over_strings(front: Seq<char>, body: Seq<char>, c: char)
    requires
        !scan(front).1,
        !scan(front).2,
        forall|i: int| 0 <= i < body.len() ==> #[trigger] body[i] != '"' && body[i] != '\\',
    ensures
        scan(Seq::empty()) == (0int, false, false),
        scan(front.push('{')) == (scan(front).0 + 1, false, false),
        scan(front.push('[')) == (scan(front).0 + 1, false, false),
        scan(front.push('}')) == (scan(front).0 - 1, false, false),
        scan(front.push(']')) == (scan(front).0 - 1, false, false),
        scan(front.push('"') + body) == (scan(front).0, true, false),
        scan((front.push('"') + body).push('"')) == scan(front),
        scan((front.push('"') + body).push('\\').push(c)) == (scan(front).0, true, false),
        !seq!['{', '[', '}', ']', '"'].contains(c) ==> scan(front.push(c)) == scan(front),
    decreases body.len(),
{
    let open = front.push('"');
    let inside = open + body;
    assert(front.push('{').drop_last() =~= front);
    assert(front.push('[').drop_last() =~= front);
    assert(front.push('}').drop_last() =~= front);
    assert(front.push(']').drop_last() =~= front);
    assert(open.drop_last() =~= front);
    assert(front.push(c).drop_last() =~= front);
    let brackets = seq!['{', '[', '}', ']', '"'];
    assert(brackets[0] == '{' && brackets[1] == '[' && brackets[2] == '}' && brackets[3] == ']'
        && brackets[4] == '"');
    if body.len() == 0 {
        assert(inside =~= open);
    } else {
        let less = body.drop_last();
        assert(forall|i: int| 0 <= i < less.len() ==> #[trigger] less[i] == body[i]);
        law_scan_passes_over_strings(front, less, c);
        assert(inside.drop_last() =~= open + less);
        assert(inside.last() == body[body.len() - 1]);
    }
    assert(scan(inside) == (scan(front).0, true, false));
    assert(inside.push('"').drop_last() =~= inside);
    assert(inside.push('"').last() == '"');
    assert(scan(inside.push('"')) == (scan(front).0, false, false));
    assert(inside.push('\\').drop_last() =~= inside);
    assert(scan(inside.push('\\')) == (scan(front).0, true, true));
    assert(inside.push('\\').push(c).drop_last() =~= inside.push('\\'));
}

/// A value ends at the next quote; without one there is no value.
pub proof fn law_value_needs_its_closing_quote(json: Seq<char>, from: int)
    requires
        0 <= from <= json.len(),
    ensures
        up_to_quote(json, from) is None <==> !json.skip(from).contains('"'),
        up_to_quote(json, from) is Some ==> {
            let value = up_to_quote(json, from)->0;
            &&& !value.contains('"')
            &&& from + value.len() < json.len()
            &&& json.subrange(from, from + value.len() as int) == value
            &&& json[from + value.len() as int] == '"'
        },
{
    let rest = json.skip(from);
    let quote = seq!['"'];
    text::law_first_place_is_the_first(rest, quote);
    if rest.contains('"') {
        let k = choose|k: int| 0 <= k < rest.len() && rest[k] == '"';
        assert(rest.subrange(k, k + 1) =~= quote);
    }
    if let Some(n) = text::first_at(rest, quote) {
        let value = rest.take(n as int);
        assert(rest.subrange(n as int, n as int + 1)[0] == quote[0]);
        assert(rest.contains(rest[n as int]));
        assert(json.subrange(from, from + n) =~= value);
        assert forall|k: int| 0 <= k < value.len() implies value[k] != '"' by {
            if value[k] == '"' {
                assert(rest.subrange(k, k + 1) =~= quote);
            }
        }
    }
}

} // verus!

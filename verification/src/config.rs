//! Settings: what Herdr's sidebar asks for, and how often to refresh it.

use crate::document::{self, child, read_toml, text_in, Node, NodeView};
use crate::path::{self, home_path};
use crate::text::{self, strip_prefix};
use vstd::prelude::*;

verus! {

/// Data read from `~/.config/herdr/config.toml`. The caller picks the fallback.
#[derive(Debug, PartialEq)]
pub struct HerdrConfig {
    /// Bare module names taken from every `$`-prefixed token in `rows`.
    /// This list can hold `"starship"`, which the caller must leave out if needed.
    pub modules: Vec<String>,
    pub sidebar_width: Option<usize>,
}

/// The model of the sidebar settings.
pub struct HerdrConfigView {
    pub modules: Seq<Seq<char>>,
    pub sidebar_width: Option<usize>,
}

impl View for HerdrConfig {
    type V = HerdrConfigView;

    open spec fn view(&self) -> HerdrConfigView {
        HerdrConfigView {
            modules: text::texts(self.modules@),
            sidebar_width: self.sidebar_width,
        }
    }
}

/// No settings at all.
pub open spec fn empty_config() -> HerdrConfigView {
    HerdrConfigView { modules: Seq::empty(), sidebar_width: None }
}

impl Default for HerdrConfig {
    fn default() -> (res: HerdrConfig)
        ensures
            res@ == empty_config(),
    {
        let res = HerdrConfig { modules: Vec::new(), sidebar_width: None };
        assert(res@.modules =~= Seq::empty());
        res
    }
}

/// `~/.config/herdr/config.toml`, or `None` without a home directory.
pub fn default_path(home: Option<&str>) -> (res: Option<String>)
    ensures
        text::maybe(res) == path::below(home, ".config/herdr/config.toml"@),
{
    home_path(home, ".config/herdr/config.toml")
}

/// The text of a row's token: plain, or under `token` in an inline table.
pub open spec fn token_text(token: NodeView) -> Option<Seq<char>> {
    match token {
        NodeView::Text(s) => Some(s),
        NodeView::Table(_) => document::text_of(token.get("token"@)),
        _ => None,
    }
}

/// The name that a row's token asks for: its text after `$`.
pub open spec fn token_name(token: NodeView) -> Option<Seq<char>> {
    match token_text(token) {
        Some(s) => text::after_prefix(s, "$"@),
        None => None,
    }
}

/// The names that the tokens of one row ask for, in order.
pub open spec fn row_names(tokens: Seq<NodeView>) -> Seq<Seq<char>> {
    tokens.filter_map(|token: NodeView| token_name(token))
}

/// The names that the rows ask for, in order. A row that is no list asks for nothing.
pub open spec fn names_in(rows: Seq<NodeView>) -> Seq<Seq<char>>
    decreases rows.len(),
{
    if rows.len() == 0 {
        Seq::empty()
    } else {
        match rows.last() {
            NodeView::List(tokens) => names_in(rows.drop_last()) + row_names(tokens),
            _ => names_in(rows.drop_last()),
        }
    }
}

/// The names that `[ui.sidebar.spaces].rows` asks for.
pub open spec fn discovered(value: NodeView) -> Seq<Seq<char>> {
    let spaces = document::under(document::under(value.get("ui"@), "sidebar"@), "spaces"@);
    match document::under(spaces, "rows"@) {
        Some(NodeView::List(rows)) => names_in(rows),
        _ => Seq::empty(),
    }
}

/// `[ui].sidebar_width`, if it is a number of columns.
pub open spec fn configured_width(value: NodeView) -> Option<usize> {
    match document::under(value.get("ui"@), "sidebar_width"@) {
        Some(NodeView::Integer(n)) => if 0 <= n <= usize::MAX {
            Some(n as usize)
        } else {
            None
        },
        _ => None,
    }
}

/// The settings that a parsed document holds.
pub open spec fn config_in(value: NodeView) -> HerdrConfigView {
    HerdrConfigView { modules: discovered(value), sidebar_width: configured_width(value) }
}

/// The name that a row's token asks for.
fn name_of_token(token: &Node) -> (res: Option<String>)
    ensures
        text::maybe(res) == token_name(token@),
{
    match token {
        Node::Text(s) => strip_prefix(s.as_str(), "$"),
        Node::Table(_) => match text_in(token.get("token")) {
            Some(s) => strip_prefix(s.as_str(), "$"),
            None => None,
        },
        _ => None,
    }
}

/// Puts the names that the tokens of one row ask for at the end of `names`.
fn collect_row(names: &mut Vec<String>, tokens: &Vec<Node>)
    ensures
        text::texts(final(names)@) == text::texts(old(names)@) + row_names(
            document::node_views(tokens@),
        ),
{
    let ghost all = document::node_views(tokens@);
    let ghost pick = |token: NodeView| token_name(token);
    let ghost before = text::texts(names@);
    let mut i: usize = 0;
    assert(all.take(0).filter_map(pick) =~= Seq::<Seq<char>>::empty());
    assert(before + all.take(0).filter_map(pick) =~= before);
    while i < tokens.len()
        invariant
            i <= tokens@.len(),
            all == document::node_views(tokens@),
            pick == (|token: NodeView| token_name(token)),
            text::texts(names@) == before + all.take(i as int).filter_map(pick),
        decreases tokens@.len() - i,
    {
        let ghost so_far = text::texts(names@);
        let name = name_of_token(&tokens[i]);
        proof {
            assert(all[i as int] == tokens@[i as int]@);
            all.lemma_filter_map_take_succ(pick, i as int);
        }
        if let Some(name) = name {
            names.push(name);
            assert(text::texts(names@) =~= so_far.push(name@));
        }
        assert(text::texts(names@) =~= before + all.take(i + 1).filter_map(pick));
        i = i + 1;
    }
    assert(all.take(i as int) =~= all);
}

/// Reads the rows of the sidebar. A token is plain text (`"$aws"`) or an inline table like
/// `{ token = "$aws", fg = "blue" }`. Returns the names with `$` removed.
pub fn discover_modules(value: &Node) -> (res: Vec<String>)
    ensures
        text::texts(res@) == discovered(value@),
{
    let mut res: Vec<String> = Vec::new();
    assert(text::texts(res@) =~= Seq::empty());
    let spaces = child(child(value.get("ui"), "sidebar"), "spaces");
    let found = child(spaces, "rows");
    match found {
        Some(Node::List(rows)) => {
            let ghost all = document::node_views(rows@);
            assert(all =~= document::maybe_node(found)->0->List_0);
            let mut i: usize = 0;
            while i < rows.len()
                invariant
                    i <= rows@.len(),
                    all == document::node_views(rows@),
                    text::texts(res@) == names_in(all.take(i as int)),
                decreases rows@.len() - i,
            {
                assert(all.take(i + 1).drop_last() =~= all.take(i as int));
                assert(all.take(i + 1).last() == rows@[i as int]@);
                if let Some(tokens) = rows[i].as_list() {
                    collect_row(&mut res, tokens);
                }
                i = i + 1;
            }
            assert(all.take(i as int) =~= all);
        },
        _ => {},
    }
    res
}

/// `[ui].sidebar_width`, next to `sidebar_min_width` and `sidebar_max_width`.
pub fn read_sidebar_width(value: &Node) -> (res: Option<usize>)
    ensures
        res == configured_width(value@),
{
    match child(value.get("ui"), "sidebar_width") {
        Some(Node::Integer(n)) => {
            if *n >= 0 && *n as u64 <= usize::MAX as u64 {
                Some(*n as usize)
            } else {
                None
            }
        },
        _ => None,
    }
}

/// The settings that a parsed document holds.
pub fn read_config(value: &Node) -> (res: HerdrConfig)
    ensures
        res@ == config_in(value@),
{
    HerdrConfig { modules: discover_modules(value), sidebar_width: read_sidebar_width(value) }
}

/// The settings that a parsed file holds. What is no document holds none.
pub open spec fn settings(parsed: Result<NodeView, Seq<char>>) -> HerdrConfigView {
    match parsed {
        Ok(value) => config_in(value),
        Err(_) => empty_config(),
    }
}

/// What `load` makes of a file that was read and handed to the TOML parser.
pub fn config_of(parsed: &Result<Node, String>) -> (res: HerdrConfig)
    ensures
        res@ == settings(document::outcome(*parsed)),
{
    match parsed {
        Ok(value) => read_config(value),
        Err(_) => HerdrConfig::default(),
    }
}

/// Parses the text of Herdr's settings. A missing file or bad TOML gives an empty `HerdrConfig`,
/// because this file holds settings that other tools use too.
pub fn load(file: Option<&str>) -> (res: HerdrConfig)
    ensures
        res@ == match file {
            Some(contents) => settings(document::toml_document(contents@)),
            None => empty_config(),
        },
{
    match file {
        Some(contents) => config_of(&read_toml(contents)),
        None => HerdrConfig::default(),
    }
}

/// How the tokens of open workspaces are kept up to date.
#[derive(Debug, Clone, Copy, PartialEq, Eq, Structural)]
pub enum RefreshMode {
    /// On Herdr's own events only.
    Basic,
    /// By a background process, at regular intervals.
    Poll,
    /// By a background process, when files change.
    Watch,
}

/// The plugin's own settings.
#[derive(Debug, Clone, Copy, PartialEq, Eq, Structural)]
pub struct RefreshConfig {
    pub refresh: RefreshMode,
    pub poll_interval_seconds: u64,
}

/// The interval between two ticks if the settings name none.
pub const DEFAULT_POLL_INTERVAL: u64 = 5;

/// No background process.
pub open spec fn basic_refresh() -> RefreshConfig {
    RefreshConfig {
        refresh: RefreshMode::Basic,
        poll_interval_seconds: DEFAULT_POLL_INTERVAL,
    }
}

impl Default for RefreshConfig {
    fn default() -> (res: RefreshConfig)
        ensures
            res == basic_refresh(),
    {
        RefreshConfig {
            refresh: RefreshMode::Basic,
            poll_interval_seconds: DEFAULT_POLL_INTERVAL,
        }
    }
}

/// `~/.config/herdr/plugins/config/herdr-starship/config.toml`, or `None` without a home directory.
pub fn refresh_config_path(home: Option<&str>) -> (res: Option<String>)
    ensures
        text::maybe(res) == path::below(
            home,
            ".config/herdr/plugins/config/herdr-starship/config.toml"@,
        ),
{
    home_path(home, ".config/herdr/plugins/config/herdr-starship/config.toml")
}

/// The mode that a word names. Every other word, the reserved `hook` among them, means `Basic`.
pub open spec fn mode_named(word: Option<Seq<char>>) -> RefreshMode {
    if word == Some("poll"@) {
        RefreshMode::Poll
    } else if word == Some("watch"@) {
        RefreshMode::Watch
    } else {
        RefreshMode::Basic
    }
}

/// The refresh settings that a parsed document holds.
pub open spec fn refresh_in(value: NodeView) -> RefreshConfig {
    RefreshConfig {
        refresh: mode_named(document::text_of(value.get("refresh"@))),
        poll_interval_seconds: match value.get("poll_interval_seconds"@) {
            Some(NodeView::Integer(n)) => if 0 <= n <= u64::MAX {
                n as u64
            } else {
                DEFAULT_POLL_INTERVAL
            },
            _ => DEFAULT_POLL_INTERVAL,
        },
    }
}

/// The refresh settings that a parsed file holds. What is no document holds none.
pub open spec fn refresh_settings(parsed: Result<NodeView, Seq<char>>) -> RefreshConfig {
    match parsed {
        Ok(value) => refresh_in(value),
        Err(_) => basic_refresh(),
    }
}

/// Reads the refresh settings out of a parsed document.
pub fn read_refresh(value: &Node) -> (res: RefreshConfig)
    ensures
        res == refresh_in(value@),
{
    let refresh = match text_in(value.get("refresh")) {
        Some(word) => {
            if word.as_str().eq("poll") {
                RefreshMode::Poll
            } else if word.as_str().eq("watch") {
                RefreshMode::Watch
            } else {
                RefreshMode::Basic
            }
        },
        None => RefreshMode::Basic,
    };
    let poll_interval_seconds: u64 = match value.get("poll_interval_seconds") {
        Some(Node::Integer(n)) => {
            if *n >= 0 {
                *n as u64
            } else {
                DEFAULT_POLL_INTERVAL
            }
        },
        _ => DEFAULT_POLL_INTERVAL,
    };
    RefreshConfig { refresh, poll_interval_seconds }
}

/// What `load_refresh` makes of a file that was read and handed to the TOML parser.
pub fn refresh_of(parsed: &Result<Node, String>) -> (res: RefreshConfig)
    ensures
        res == refresh_settings(document::outcome(*parsed)),
{
    match parsed {
        Ok(value) => read_refresh(value),
        Err(_) => RefreshConfig::default(),
    }
}

/// Parses the text of the plugin's settings. A missing file or bad TOML means `Basic`.
pub fn load_refresh(file: Option<&str>) -> (res: RefreshConfig)
    ensures
        res == match file {
            Some(contents) => refresh_settings(document::toml_document(contents@)),
            None => basic_refresh(),
        },
{
    match file {
        Some(contents) => refresh_of(&read_toml(contents)),
        None => RefreshConfig::default(),
    }
}

/// Whether the settings ask for the reserved `hook` mode, which acts as `Basic` and is worth a
/// notice.
pub fn asks_for_hook(value: &Node) -> (res: bool)
    ensures
        res == (document::text_of(value@.get("refresh"@)) == Some("hook"@)),
{
    match text_in(value.get("refresh")) {
        Some(word) => word.as_str().eq("hook"),
        None => false,
    }
}

/// A token asks for the name behind its `$`, whether it is plain text or stands in a table; any other
/// token asks for nothing.
pub proof fn law_token_asks_for_the_name_behind_its_sign(token: NodeView, name: Seq<char>)
    ensures
        token_name(NodeView::Text(seq!['$'] + name)) == Some(name),
        name.len() == 0 || name[0] != '$' ==> token_name(NodeView::Text(name)) is None,
        token is Table ==> token_name(token) == match token.get("token"@) {
            Some(NodeView::Text(s)) => token_name(NodeView::Text(s)),
            _ => None,
        },
        !(token is Table) && !(token is Text) ==> token_name(token) is None,
{
    reveal_strlit("$");
    assert("$"@ =~= seq!['$']);
    text::law_prefix_comes_off("$"@, name);
    if text::begins_with(name, "$"@) {
        assert(name.take(1)[0] == '$');
    }
}

/// The names come from all tokens of all rows, in order; what is no row, or asks for nothing, is
/// passed over.
pub proof fn law_names_come_token_by_token(
    rows: Seq<NodeView>,
    tokens: Seq<NodeView>,
    token: NodeView,
    other: NodeView,
)
    requires
        !(other is List),
    ensures
        names_in(Seq::empty()).len() == 0,
        names_in(rows.push(other)) == names_in(rows),
        names_in(rows.push(NodeView::List(Seq::empty()))) == names_in(rows),
        names_in(rows.push(NodeView::List(tokens.push(token)))) == names_in(
            rows.push(NodeView::List(tokens)),
        ) + match token_name(token) {
            Some(name) => seq![name],
            None => Seq::empty(),
        },
{
    let pick = |token: NodeView| token_name(token);
    let all = tokens.push(token);
    let n = tokens.len() as int;
    all.lemma_filter_map_take_succ(pick, n);
    assert(all.take(n) =~= tokens);
    assert(all.take(n + 1) =~= all);
    assert(rows.push(other).drop_last() =~= rows);
    assert(rows.push(NodeView::List(Seq::empty())).drop_last() =~= rows);
    assert(rows.push(NodeView::List(tokens)).drop_last() =~= rows);
    assert(rows.push(NodeView::List(all)).drop_last() =~= rows);
    assert(row_names(Seq::empty()) =~= Seq::empty());
    assert(names_in(rows) + row_names(Seq::empty()) =~= names_in(rows));
    assert(row_names(all) =~= row_names(tokens) + match token_name(token) {
        Some(name) => seq![name],
        None => Seq::empty(),
    });
    assert(names_in(rows.push(NodeView::List(all))) =~= names_in(
        rows.push(NodeView::List(tokens)),
    ) + match token_name(token) {
        Some(name) => seq![name],
        None => Seq::empty(),
    });
}

/// The rows stand under `ui`, `sidebar`, `spaces` and `rows`, and the width under `ui` and
/// `sidebar_width`; without a list there are no names, and without a number in range no width.
pub proof fn law_settings_stand_in_their_places(
    value: NodeView,
    ui: NodeView,
    sidebar: NodeView,
    spaces: NodeView,
    rows: Seq<NodeView>,
    n: int,
)
    requires
        value.get("ui"@) == Some(ui),
    ensures
        ui.get("sidebar"@) == Some(sidebar) && sidebar.get("spaces"@) == Some(spaces)
            && spaces.get("rows"@) == Some(NodeView::List(rows)) ==> config_in(value).modules
            == names_in(rows),
        ui.get("sidebar"@) == Some(sidebar) && sidebar.get("spaces"@) == Some(spaces) && !(
        spaces.get("rows"@) matches Some(NodeView::List(_))) ==> config_in(value).modules.len()
            == 0,
        ui.get("sidebar"@) is None ==> config_in(value).modules.len() == 0,
        ui.get("sidebar_width"@) == Some(NodeView::Integer(n)) && 0 <= n <= usize::MAX ==> config_in(
            value,
        ).sidebar_width is Some && config_in(value).sidebar_width->0 == n,
        ui.get("sidebar_width"@) == Some(NodeView::Integer(n)) && n < 0 ==> config_in(
            value,
        ).sidebar_width is None,
        !(ui.get("sidebar_width"@) matches Some(NodeView::Integer(_))) ==> config_in(
            value,
        ).sidebar_width is None,
{
}

/// What is no document has no settings at all.
pub proof fn law_bad_files_hold_no_settings(message: Seq<char>, value: NodeView)
    ensures
        settings(Err(message)).modules.len() == 0,
        settings(Err(message)).sidebar_width is None,
        settings(Ok(value)) == config_in(value),
        refresh_settings(Err(message)).refresh == RefreshMode::Basic,
        refresh_settings(Err(message)).poll_interval_seconds == 5,
        refresh_settings(Ok(value)) == refresh_in(value),
{
}

/// The two background modes are asked for by their names; everything else, `hook` among it, means
/// `basic`. The interval is what the settings say, or five seconds.
pub proof fn law_refresh_settings_are_read(value: NodeView, n: int)
    ensures
        refresh_in(value).refresh == RefreshMode::Poll <==> value.get("refresh"@) == Some(
            NodeView::Text("poll"@),
        ),
        refresh_in(value).refresh == RefreshMode::Watch <==> value.get("refresh"@) == Some(
            NodeView::Text("watch"@),
        ),
        value.get("poll_interval_seconds"@) == Some(NodeView::Integer(n)) && 0 <= n <= u64::MAX
            ==> refresh_in(value).poll_interval_seconds == n,
        value.get("poll_interval_seconds"@) == Some(NodeView::Integer(n)) && n < 0 ==> refresh_in(
            value,
        ).poll_interval_seconds == 5,
        !(value.get("poll_interval_seconds"@) matches Some(NodeView::Integer(_))) ==> refresh_in(
            value,
        ).poll_interval_seconds == 5,
{
    reveal_strlit("poll");
    reveal_strlit("watch");
    assert("poll"@[0] != "watch"@[0]);
}

} // verus!

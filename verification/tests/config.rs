use herdr_starship::config::{
    asks_for_hook, config_of, default_path, discover_modules, load, load_refresh, read_refresh,
    read_sidebar_width, refresh_config_path, refresh_of, HerdrConfig, RefreshConfig, RefreshMode,
};
use herdr_starship::document::{read_json, read_toml, Node};

#[test]
fn load_missing_file_returns_empty_config() {
    let result = load(None);

    assert_eq!(result, HerdrConfig::default());
}

#[test]
fn load_malformed_toml_returns_empty_config() {
    let result = load(Some(
        "this is not [[[ toml",
    ));

    assert_eq!(result, HerdrConfig::default());
}

#[test]
fn discover_modules_plain_string_tokens() {
    let result = load(Some(
        r#"
        [ui.sidebar.spaces]
        rows = [["state_icon", "$aws"], ["$rust"]]
        "#,
    ));

    assert_eq!(result.modules, vec!["aws".to_string(), "rust".to_string()]);
}

#[test]
fn discover_modules_inline_table_tokens() {
    let result = load(Some(
        r#"
        [ui.sidebar.spaces]
        rows = [[{ token = "$aws", fg = "blue" }]]
        "#,
    ));

    assert_eq!(result.modules, vec!["aws".to_string()]);
}

#[test]
fn discover_modules_row_mixing_both_shapes() {
    let result = load(Some(
        r#"
        [ui.sidebar.spaces]
        rows = [["$aws", { token = "$rust", bold = true }]]
        "#,
    ));

    assert_eq!(result.modules, vec!["aws".to_string(), "rust".to_string()]);
}

#[test]
fn discover_modules_missing_rows_key_returns_empty() {
    let result = load(Some(
        r#"
        [ui.sidebar.spaces]
        "#,
    ));

    assert_eq!(result.modules, Vec::<String>::new());
}

#[test]
fn discover_modules_empty_rows_returns_empty() {
    let result = load(Some(
        r#"
        [ui.sidebar.spaces]
        rows = []
        "#,
    ));

    assert_eq!(result.modules, Vec::<String>::new());
}

/// Non-starship `$`-tokens (for example `$num`) pass through unfiltered.
/// Parser does not need to know which tokens are starship modules.
#[test]
fn discover_modules_includes_non_starship_tokens() {
    let result = load(Some(
        r#"
        [ui.sidebar.spaces]
        rows = [["$num", "$rust"]]
        "#,
    ));

    assert_eq!(result.modules, vec!["num".to_string(), "rust".to_string()]);
}

/// Parser only extracts tokens; it does not know "starship" is reserved.
/// `resolve_modules` leaves it out, where that reservation is defined.
#[test]
fn discover_modules_includes_starship_token_unfiltered() {
    let result = load(Some(
        r#"
        [ui.sidebar.spaces]
        rows = [["$starship"]]
        "#,
    ));

    assert_eq!(result.modules, vec!["starship".to_string()]);
}

#[test]
fn sidebar_width_reads_ui_sidebar_width() {
    let result = load(Some(
        r#"
        [ui]
        sidebar_width = 40
        "#,
    ));

    assert_eq!(result.sidebar_width, Some(40));
}

#[test]
fn sidebar_width_missing_is_none() {
    let result = load(Some(
        r#"
        [ui]
        sidebar_min_width = 10
        "#,
    ));

    assert_eq!(result.sidebar_width, None);
}

#[test]
fn default_path_stands_below_home() {
    assert_eq!(default_path(Some("/home/u")), Some("/home/u/.config/herdr/config.toml".to_string()));
    assert_eq!(default_path(Some("/home/u/")), Some("/home/u/.config/herdr/config.toml".to_string()));
    assert_eq!(default_path(None), None);
}

#[test]
fn sidebar_width_out_of_range_is_none() {
    assert_eq!(load(Some("[ui]\nsidebar_width = -1\n")).sidebar_width, None);
    assert_eq!(load(Some("[ui]\nsidebar_width = \"40\"\n")).sidebar_width, None);
    assert_eq!(load(Some("[ui]\nsidebar_width = 40.0\n")).sidebar_width, None);
    assert_eq!(load(Some("[ui]\nsidebar_width = 0\n")).sidebar_width, Some(0));
}

/// Tokens without `$`, and what is no token, are passed over.
#[test]
fn discover_modules_passes_over_what_is_no_token() {
    let text = "[ui.sidebar.spaces]\nrows = [\"$outside\", [1, \"plain\", { fg = \"$x\" }, \"$a\"], [[\"$deep\"]], [\"$$b\"]]\n";

    assert_eq!(load(Some(text)).modules, vec!["a".to_string(), "$b".to_string()]);
}

/// The same rules on a document that was built by hand.
#[test]
fn discover_modules_on_a_given_document() {
    let token = Node::Table(vec![("token".to_string(), Node::Text("$aws".to_string()))]);
    let rows = Node::List(vec![
        Node::Integer(1),
        Node::List(vec![token, Node::Text("$rust".to_string()), Node::Other]),
    ]);
    let spaces = Node::Table(vec![("rows".to_string(), rows)]);
    let sidebar = Node::Table(vec![("spaces".to_string(), spaces)]);
    let ui = Node::Table(vec![
        ("sidebar".to_string(), sidebar),
        ("sidebar_width".to_string(), Node::Integer(31)),
    ]);
    let document = Node::Table(vec![("ui".to_string(), ui)]);

    assert_eq!(discover_modules(&document), vec!["aws".to_string(), "rust".to_string()]);
    assert_eq!(read_sidebar_width(&document), Some(31));
    assert_eq!(read_sidebar_width(&Node::Other), None);
    let config = config_of(&Ok(document));
    assert_eq!(config.sidebar_width, Some(31));
    assert_eq!(config_of(&Err("bad".to_string())), HerdrConfig::default());
}

#[test]
fn refresh_config_path_stands_below_home() {
    assert_eq!(
        refresh_config_path(Some("/home/u")),
        Some("/home/u/.config/herdr/plugins/config/herdr-starship/config.toml".to_string())
    );
    assert_eq!(refresh_config_path(None), None);
}

#[test]
fn load_refresh_defaults_to_basic_every_five_seconds() {
    let basic = RefreshConfig { refresh: RefreshMode::Basic, poll_interval_seconds: 5 };

    assert_eq!(RefreshConfig::default(), basic);
    assert_eq!(load_refresh(None), basic);
    assert_eq!(load_refresh(Some("")), basic);
    assert_eq!(load_refresh(Some("not [[[ toml")), basic);
    assert_eq!(refresh_of(&Err("bad".to_string())), basic);
}

#[test]
fn load_refresh_reads_mode_and_interval() {
    assert_eq!(
        load_refresh(Some("refresh = \"poll\"\npoll_interval_seconds = 7\n")),
        RefreshConfig { refresh: RefreshMode::Poll, poll_interval_seconds: 7 }
    );
    assert_eq!(
        load_refresh(Some("refresh = \"watch\"\npoll_interval_seconds = -7\n")),
        RefreshConfig { refresh: RefreshMode::Watch, poll_interval_seconds: 5 }
    );
    assert_eq!(load_refresh(Some("refresh = 3\n")).refresh, RefreshMode::Basic);
}

/// `hook` is reserved: it reads without an error and acts as `basic`.
#[test]
fn load_refresh_hook_acts_as_basic() {
    let document = read_toml("refresh = \"hook\"\n").unwrap();

    assert_eq!(read_refresh(&document).refresh, RefreshMode::Basic);
    assert!(asks_for_hook(&document));
    assert!(!asks_for_hook(&read_toml("refresh = \"poll\"\n").unwrap()));
    assert!(!asks_for_hook(&read_toml("").unwrap()));
}

/// Each kind of value comes over from TOML as it is.
#[test]
fn read_toml_hands_over_every_kind_of_value() {
    let text = "s = \"x\"\nn = -3\nl = [1, \"y\"]\nf = 1.5\nb = true\nd = 2020-01-01\n[t]\nk = \"v\"\n";
    let document = read_toml(text).unwrap();

    assert_eq!(document.get("s").unwrap().as_text(), Some("x"));
    assert!(matches!(document.get("n"), Some(Node::Integer(-3))));
    let list = document.get("l").unwrap().as_list().unwrap();
    assert!(matches!(list[0], Node::Integer(1)));
    assert_eq!(list[1].as_text(), Some("y"));
    assert!(matches!(document.get("f"), Some(Node::Other)));
    assert!(matches!(document.get("b"), Some(Node::Other)));
    assert!(matches!(document.get("d"), Some(Node::Other)));
    assert_eq!(document.get("t").unwrap().get("k").unwrap().as_text(), Some("v"));
    assert!(document.get("missing").is_none());
    assert!(read_toml("x = ").is_err());
}

/// Each kind of value comes over from JSON as it is; numbers are not looked into.
#[test]
fn read_json_hands_over_every_kind_of_value() {
    let document = read_json(br#"{"s":"x","n":3,"l":["y",null,true],"o":{"k":"v"}}"#).unwrap();

    assert_eq!(document.get("s").unwrap().as_text(), Some("x"));
    assert!(matches!(document.get("n"), Some(Node::Other)));
    let list = document.get("l").unwrap().as_list().unwrap();
    assert_eq!(list.len(), 3);
    assert_eq!(list[0].as_text(), Some("y"));
    assert!(matches!(list[1], Node::Other));
    assert!(matches!(list[2], Node::Other));
    assert_eq!(document.get("o").unwrap().get("k").unwrap().as_text(), Some("v"));
    assert!(read_json(b"{").is_err());
    assert!(read_json(b"").is_err());
}

//! Parsed TOML and JSON documents, reduced to what the plugin reads from them.

use crate::text;
use vstd::prelude::*;

verus! {

/// The model of a value in a document.
pub enum NodeView {
    Text(Seq<char>),
    Integer(int),
    List(Seq<NodeView>),
    Table(Seq<(Seq<char>, NodeView)>),
    Other,
}

/// A value in a document: text, a TOML integer, a list, a table, or something that is never read.
#[derive(Debug)]
pub enum Node {
    Text(String),
    Integer(i64),
    List(Vec<Node>),
    Table(Vec<(String, Node)>),
    Other,
}

impl Node {
    /// The model of this value, and of the values inside it.
    pub open spec fn model(self) -> NodeView
        decreases self,
    {
        match self {
            Node::Text(s) => NodeView::Text(s@),
            Node::Integer(n) => NodeView::Integer(n as int),
            Node::List(items) => NodeView::List(
                Seq::new(
                    items@.len(),
                    |i: int|
                        if 0 <= i < items@.len() {
                            items@[i].model()
                        } else {
                            NodeView::Other
                        },
                ),
            ),
            Node::Table(entries) => NodeView::Table(
                Seq::new(
                    entries@.len(),
                    |i: int|
                        if 0 <= i < entries@.len() {
                            (entries@[i].0@, entries@[i].1.model())
                        } else {
                            (Seq::empty(), NodeView::Other)
                        },
                ),
            ),
            Node::Other => NodeView::Other,
        }
    }
}

impl View for Node {
    type V = NodeView;

    open spec fn view(&self) -> NodeView {
        self.model()
    }
}

/// The value that `key` has in a table.
pub open spec fn entry(entries: Seq<(Seq<char>, NodeView)>, key: Seq<char>) -> Option<NodeView>
    decreases entries.len(),
{
    if entries.len() == 0 {
        None
    } else if entries[0].0 == key {
        Some(entries[0].1)
    } else {
        entry(entries.skip(1), key)
    }
}

impl NodeView {
    /// The value under `key`, if this is a table that has the key.
    pub open spec fn get(self, key: Seq<char>) -> Option<NodeView> {
        match self {
            NodeView::Table(entries) => entry(entries, key),
            _ => None,
        }
    }

    /// The text, if this is text.
    pub open spec fn text(self) -> Option<Seq<char>> {
        match self {
            NodeView::Text(s) => Some(s),
            _ => None,
        }
    }
}

/// The text of a value that may be missing.
pub open spec fn text_of(value: Option<NodeView>) -> Option<Seq<char>> {
    match value {
        Some(v) => v.text(),
        None => None,
    }
}

/// The value under `key` in a value that may be missing.
pub open spec fn under(value: Option<NodeView>, key: Seq<char>) -> Option<NodeView> {
    match value {
        Some(v) => v.get(key),
        None => None,
    }
}

/// The model of a value that may be missing.
pub open spec fn maybe_node(value: Option<&Node>) -> Option<NodeView> {
    match value {
        Some(v) => Some(v@),
        None => None,
    }
}

/// The items of a value that may be missing or no list.
pub open spec fn items_of(value: Option<NodeView>) -> Option<Seq<NodeView>> {
    match value {
        Some(NodeView::List(items)) => Some(items),
        _ => None,
    }
}

/// The models of a list of values.
pub open spec fn node_views(items: Seq<Node>) -> Seq<NodeView> {
    items.map_values(|n: Node| n@)
}

impl Node {
    /// The value under `key`, if this is a table that has the key.
    pub fn get(&self, key: &str) -> (res: Option<&Node>)
        ensures
            maybe_node(res) == self@.get(key@),
    {
        match self {
            Node::Table(entries) => {
                let ghost all = self@->Table_0;
                let mut i: usize = 0;
                assert(all.skip(0) =~= all);
                while i < entries.len()
                    invariant
                        i <= entries@.len(),
                        self@ == NodeView::Table(all),
                        all.len() == entries@.len(),
                        forall|k: int|
                            0 <= k < all.len() ==> #[trigger] all[k] == (
                                entries@[k].0@,
                                entries@[k].1@,
                            ),
                        entry(all, key@) == entry(all.skip(i as int), key@),
                    decreases entries@.len() - i,
                {
                    assert(all.skip(i as int)[0] == all[i as int]);
                    if entries[i].0.as_str().eq(key) {
                        return Some(&entries[i].1);
                    }
                    assert(all.skip(i as int).skip(1) =~= all.skip(i + 1));
                    i = i + 1;
                }
                None
            },
            _ => None,
        }
    }

    /// The text, if this is text.
    pub fn as_text(&self) -> (res: Option<&str>)
        ensures
            match (res, self@.text()) {
                (Some(a), Some(b)) => a@ == b,
                (None, None) => true,
                _ => false,
            },
    {
        match self {
            Node::Text(s) => Some(s.as_str()),
            _ => None,
        }
    }

    /// The items, if this is a list.
    pub fn as_list(&self) -> (res: Option<&Vec<Node>>)
        ensures
            match (res, items_of(Some(self@))) {
                (Some(a), Some(b)) => node_views(a@) == b,
                (None, None) => true,
                _ => false,
            },
    {
        match self {
            Node::List(items) => {
                assert(node_views(items@) =~= self@->List_0);
                Some(items)
            },
            _ => None,
        }
    }
}

/// The value under `key` in a value that may be missing.
pub fn child<'a>(value: Option<&'a Node>, key: &str) -> (res: Option<&'a Node>)
    ensures
        maybe_node(res) == under(maybe_node(value), key@),
{
    match value {
        Some(v) => v.get(key),
        None => None,
    }
}

/// The text of a value that may be missing.
pub fn text_in(value: Option<&Node>) -> (res: Option<String>)
    ensures
        text::maybe(res) == text_of(maybe_node(value)),
{
    match value {
        Some(v) => match v.as_text() {
            Some(s) => Some(s.to_owned()),
            None => None,
        },
        None => None,
    }
}

#[verifier::external_type_specification]
#[verifier::external_body]
pub struct ExTomlValue(toml::Value);

#[verifier::external_type_specification]
#[verifier::external_body]
pub struct ExJsonValue(serde_json::Value);

/// What a TOML value holds.
pub uninterp spec fn toml_node(value: toml::Value) -> NodeView;

/// What a JSON value holds.
pub uninterp spec fn json_node(value: serde_json::Value) -> NodeView;

/// What the `toml` crate makes of a text: the document, or the reason why it is none.
pub uninterp spec fn toml_document(text: Seq<char>) -> Result<NodeView, Seq<char>>;

/// What `serde_json` makes of a row of bytes: the document, or the reason why it is none.
pub uninterp spec fn json_document(bytes: Seq<u8>) -> Result<NodeView, Seq<char>>;

/// One layer of a value of an outside crate, with the values inside it as that crate has them.
pub enum Layer<V> {
    Text(String),
    Integer(i64),
    List(Vec<V>),
    Table(Vec<(String, V)>),
    Other,
}

/// `<toml::Table as FromStr>::from_str`: the table at the root of the document, or the error's
/// message.
#[verifier::external_body]
fn parse_toml(text: &str) -> (res: Result<toml::Value, String>)
    ensures
        match res {
            Ok(value) => toml_document(text@) == Ok::<NodeView, Seq<char>>(toml_node(value)),
            Err(message) => toml_document(text@) == Err::<NodeView, Seq<char>>(message@),
        },
{
    text.parse::<toml::Table>().map(toml::Value::Table).map_err(|e| e.to_string())
}

/// The variants of `toml::Value`, told apart: strings, integers, arrays and tables hand out what
/// they hold, a table its entries by way of `toml::map::Map::into_iter`. Floats, booleans and
/// dates are not looked into.
#[verifier::external_body]
fn open_toml(value: toml::Value) -> (res: Layer<toml::Value>)
    ensures
        match res {
            Layer::Text(s) => toml_node(value) == NodeView::Text(s@),
            Layer::Integer(n) => toml_node(value) == NodeView::Integer(n as int),
            Layer::List(items) => toml_node(value) == NodeView::List(
                items@.map_values(|v: toml::Value| toml_node(v)),
            ),
            Layer::Table(entries) => toml_node(value) == NodeView::Table(
                entries@.map_values(|e: (String, toml::Value)| (e.0@, toml_node(e.1))),
            ),
            Layer::Other => toml_node(value) == NodeView::Other,
        },
{
    match value {
        toml::Value::String(s) => Layer::Text(s),
        toml::Value::Integer(n) => Layer::Integer(n),
        toml::Value::Array(items) => Layer::List(items),
        toml::Value::Table(table) => Layer::Table(table.into_iter().collect()),
        toml::Value::Float(_) => Layer::Other,
        toml::Value::Boolean(_) => Layer::Other,
        toml::Value::Datetime(_) => Layer::Other,
    }
}

/// `serde_json::from_slice` into a `serde_json::Value`: the value, or the error's message.
#[verifier::external_body]
fn parse_json(bytes: &[u8]) -> (res: Result<serde_json::Value, String>)
    ensures
        match res {
            Ok(value) => json_document(bytes@) == Ok::<NodeView, Seq<char>>(json_node(value)),
            Err(message) => json_document(bytes@) == Err::<NodeView, Seq<char>>(message@),
        },
{
    serde_json::from_slice::<serde_json::Value>(bytes).map_err(|e| e.to_string())
}

/// The variants of `serde_json::Value`, told apart: strings, arrays and objects hand out what they
/// hold, an object its entries by way of `serde_json::Map::into_iter`. Null, booleans and numbers
/// are not looked into.
#[verifier::external_body]
fn open_json(value: serde_json::Value) -> (res: Layer<serde_json::Value>)
    ensures
        match res {
            Layer::Text(s) => json_node(value) == NodeView::Text(s@),
            Layer::Integer(n) => json_node(value) == NodeView::Integer(n as int),
            Layer::List(items) => json_node(value) == NodeView::List(
                items@.map_values(|v: serde_json::Value| json_node(v)),
            ),
            Layer::Table(entries) => json_node(value) == NodeView::Table(
                entries@.map_values(|e: (String, serde_json::Value)| (e.0@, json_node(e.1))),
            ),
            Layer::Other => json_node(value) == NodeView::Other,
        },
{
    match value {
        serde_json::Value::String(s) => Layer::Text(s),
        serde_json::Value::Array(items) => Layer::List(items),
        serde_json::Value::Object(object) => Layer::Table(object.into_iter().collect()),
        serde_json::Value::Null => Layer::Other,
        serde_json::Value::Bool(_) => Layer::Other,
        serde_json::Value::Number(_) => Layer::Other,
    }
}

/// Copies a TOML value into a value of this library.
fn import_toml(value: toml::Value) -> (res: Node)
    ensures
        res@ == toml_node(value),
    decreases toml_node(value),
{
    match open_toml(value) {
        Layer::Text(s) => Node::Text(s),
        Layer::Integer(n) => Node::Integer(n),
        Layer::List(items) => {
            let ghost all = items@;
            let mut out: Vec<Node> = Vec::new();
            for item in it: items
                invariant
                    it.seq() == all,
                    toml_node(value) == NodeView::List(
                        all.map_values(|v: toml::Value| toml_node(v)),
                    ),
                    out@.len() == it.index(),
                    forall|i: int|
                        0 <= i < out@.len() ==> (#[trigger] out@[i])@ == toml_node(all[i]),
            {
                assert(toml_node(value)->List_0[it.index() as int] == toml_node(item));
                assert(decreases_to!(toml_node(value) => toml_node(value)->List_0));
                out.push(import_toml(item));
            }
            let res = Node::List(out);
            assert(res@->List_0 =~= toml_node(value)->List_0);
            res
        },
        Layer::Table(entries) => {
            let ghost all = entries@;
            let mut out: Vec<(String, Node)> = Vec::new();
            for item in it: entries
                invariant
                    it.seq() == all,
                    toml_node(value) == NodeView::Table(
                        all.map_values(|e: (String, toml::Value)| (e.0@, toml_node(e.1))),
                    ),
                    out@.len() == it.index(),
                    forall|i: int|
                        0 <= i < out@.len() ==> (#[trigger] out@[i]).0@ == all[i].0@ && out@[i].1@
                            == toml_node(all[i].1),
            {
                proof {
                    let table = toml_node(value)->Table_0;
                    let at = it.index() as int;
                    assert(table[at] == (item.0@, toml_node(item.1)));
                    assert(decreases_to!(toml_node(value) => table));
                    assert(decreases_to!(table => table[at]));
                    assert(decreases_to!(table[at] => table[at].1));
                }
                out.push((item.0, import_toml(item.1)));
            }
            let res = Node::Table(out);
            assert(res@->Table_0 =~= toml_node(value)->Table_0);
            res
        },
        Layer::Other => Node::Other,
    }
}

/// Copies a JSON value into a value of this library.
fn import_json(value: serde_json::Value) -> (res: Node)
    ensures
        res@ == json_node(value),
    decreases json_node(value),
{
    match open_json(value) {
        Layer::Text(s) => Node::Text(s),
        Layer::Integer(n) => Node::Integer(n),
        Layer::List(items) => {
            let ghost all = items@;
            let mut out: Vec<Node> = Vec::new();
            for item in it: items
                invariant
                    it.seq() == all,
                    json_node(value) == NodeView::List(
                        all.map_values(|v: serde_json::Value| json_node(v)),
                    ),
                    out@.len() == it.index(),
                    forall|i: int|
                        0 <= i < out@.len() ==> (#[trigger] out@[i])@ == json_node(all[i]),
            {
                assert(json_node(value)->List_0[it.index() as int] == json_node(item));
                assert(decreases_to!(json_node(value) => json_node(value)->List_0));
                out.push(import_json(item));
            }
            let res = Node::List(out);
            assert(res@->List_0 =~= json_node(value)->List_0);
            res
        },
        Layer::Table(entries) => {
            let ghost all = entries@;
            let mut out: Vec<(String, Node)> = Vec::new();
            for item in it: entries
                invariant
                    it.seq() == all,
                    json_node(value) == NodeView::Table(
                        all.map_values(|e: (String, serde_json::Value)| (e.0@, json_node(e.1))),
                    ),
                    out@.len() == it.index(),
                    forall|i: int|
                        0 <= i < out@.len() ==> (#[trigger] out@[i]).0@ == all[i].0@ && out@[i].1@
                            == json_node(all[i].1),
            {
                proof {
                    let table = json_node(value)->Table_0;
                    let at = it.index() as int;
                    assert(table[at] == (item.0@, json_node(item.1)));
                    assert(decreases_to!(json_node(value) => table));
                    assert(decreases_to!(table => table[at]));
                    assert(decreases_to!(table[at] => table[at].1));
                }
                out.push((item.0, import_json(item.1)));
            }
            let res = Node::Table(out);
            assert(res@->Table_0 =~= json_node(value)->Table_0);
            res
        },
        Layer::Other => Node::Other,
    }
}

/// The model of the outcome of a parse.
pub open spec fn outcome(res: Result<Node, String>) -> Result<NodeView, Seq<char>> {
    match res {
        Ok(node) => Ok(node@),
        Err(message) => Err(message@),
    }
}

/// Parses a TOML document. An error carries the parser's message.
pub fn read_toml(text: &str) -> (res: Result<Node, String>)
    ensures
        outcome(res) == toml_document(text@),
{
    match parse_toml(text) {
        Ok(value) => Ok(import_toml(value)),
        Err(message) => Err(message),
    }
}

/// Parses a JSON document. An error carries the parser's message.
pub fn read_json(bytes: &[u8]) -> (res: Result<Node, String>)
    ensures
        outcome(res) == json_document(bytes@),
{
    match parse_json(bytes) {
        Ok(value) => Ok(import_json(value)),
        Err(message) => Err(message),
    }
}

/// The value of a key is that of the first entry with it; other entries do not matter.
pub proof fn law_first_entry_counts(
    entries: Seq<(Seq<char>, NodeView)>,
    key: Seq<char>,
    other: Seq<char>,
    value: NodeView,
)
    requires
        other != key,
    ensures
        NodeView::Table(seq![(key, value)] + entries).get(key) == Some(value),
        NodeView::Table(seq![(other, value)] + entries).get(key) == NodeView::Table(entries).get(
            key,
        ),
        NodeView::Table(Seq::empty()).get(key) is None,
        !(value is Table) ==> value.get(key) is None,
{
    let own = seq![(key, value)] + entries;
    let foreign = seq![(other, value)] + entries;
    assert(own[0] == (key, value));
    assert(foreign[0] == (other, value));
    assert(foreign.skip(1) =~= entries);
}

/// A value that is missing has nothing under any key and no text; only text has text, and only a
/// list has items.
pub proof fn law_missing_values_hold_nothing(
    value: NodeView,
    key: Seq<char>,
    s: Seq<char>,
    items: Seq<NodeView>,
)
    ensures
        under(Some(value), key) == value.get(key),
        under(None, key) is None,
        text_of(Some(NodeView::Text(s))) == Some(s),
        !(value is Text) ==> text_of(Some(value)) is None,
        text_of(None) is None,
        items_of(Some(NodeView::List(items))) == Some(items),
        !(value is List) ==> items_of(Some(value)) is None,
        items_of(None) is None,
{
}

} // verus!

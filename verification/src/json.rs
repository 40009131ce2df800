//! Reading values out of JSON texts, one level at a time.
use vstd::prelude::*;
use crate::text::{hex_byte, same_text};

verus! {

/// The top level of a JSON text. Numbers that are no `u64` have no value here; the values inside
/// an array or an object are JSON texts again.
#[derive(Debug)]
pub enum JsonNode {
    Null,
    Bool(bool),
    Number(Option<u64>),
    Text(String),
    Items(Vec<String>),
    Members(Vec<(String, String)>),
}

/// What a [`JsonNode`] holds.
pub enum NodeView {
    Null,
    Bool(bool),
    Number(Option<u64>),
    Text(Seq<char>),
    Items(Seq<Seq<char>>),
    Members(Seq<(Seq<char>, Seq<char>)>),
}

impl View for JsonNode {
    type V = NodeView;

    open spec fn view(&self) -> NodeView {
        match *self {
            JsonNode::Null => NodeView::Null,
            JsonNode::Bool(b) => NodeView::Bool(b),
            JsonNode::Number(n) => NodeView::Number(n),
            JsonNode::Text(s) => NodeView::Text(s@),
            JsonNode::Items(v) => NodeView::Items(Seq::new(v@.len(), |i: int| v@[i]@)),
            JsonNode::Members(v) => NodeView::Members(
                Seq::new(v@.len(), |i: int| (v@[i].0@, v@[i].1@)),
            ),
        }
    }
}

/// The top level of a text as `serde_json` reads it; nothing for a text that it refuses.
pub uninterp spec fn node_of(text: Seq<char>) -> Option<NodeView>;

/// `serde_json::from_str` reads a text as a JSON value or refuses it, by the text alone. The
/// result is the top level of that value; the values inside it are written out again by
/// `serde_json::Value::to_string`. What the reader makes of a given text is not stated.
#[verifier::external_body]
pub(crate) fn parse_node(text: &str) -> (r: Option<JsonNode>)
    ensures
        match (r, node_of(text@)) {
            (Some(node), Some(v)) => node@ == v,
            (None, None) => true,
            _ => false,
        },
{
    match serde_json::from_str::<serde_json::Value>(text).ok()? {
        serde_json::Value::Null => Some(JsonNode::Null),
        serde_json::Value::Bool(b) => Some(JsonNode::Bool(b)),
        serde_json::Value::Number(n) => Some(JsonNode::Number(n.as_u64())),
        serde_json::Value::String(s) => Some(JsonNode::Text(s)),
        serde_json::Value::Array(a) => Some(JsonNode::Items(
            a.iter().map(|v| v.to_string()).collect(),
        )),
        serde_json::Value::Object(o) => Some(JsonNode::Members(
            o.iter().map(|(k, v)| (k.clone(), v.to_string())).collect(),
        )),
    }
}

/// A character inside a JSON string. Quotes, backslashes and control characters are escaped.
pub open spec fn escaped_char(c: char) -> Seq<char> {
    if c == '"' || c == '\\' {
        seq!['\\', c]
    } else if c as u32 == 8 {
        seq!['\\', 'b']
    } else if c as u32 == 9 {
        seq!['\\', 't']
    } else if c as u32 == 10 {
        seq!['\\', 'n']
    } else if c as u32 == 12 {
        seq!['\\', 'f']
    } else if c as u32 == 13 {
        seq!['\\', 'r']
    } else if (c as u32) < 32 {
        seq!['\\', 'u', '0', '0'] + hex_byte(c as u8)
    } else {
        seq![c]
    }
}

/// A text inside a JSON string.
pub open spec fn escaped(text: Seq<char>) -> Seq<char>
    decreases text.len(),
{
    if text.len() == 0 {
        Seq::empty()
    } else {
        escaped(text.drop_last()) + escaped_char(text.last())
    }
}

/// A text as a JSON string, with quotes.
pub open spec fn quoted(text: Seq<char>) -> Seq<char> {
    seq!['"'] + escaped(text) + seq!['"']
}

/// `serde_json::Value::to_string` writes a string as a JSON string: between quotes, each
/// character as it is but for quotes, backslashes and control characters, which it escapes by
/// one letter where JSON has one, else by their number.
#[verifier::external_body]
pub(crate) fn quote(text: &str) -> (r: String)
    ensures
        r@ == quoted(text@),
{
    serde_json::Value::String(text.to_owned()).to_string()
}

/// The text of the first character comes first.
proof fn lemma_escaped_first(s: Seq<char>)
    requires
        s.len() > 0,
    ensures
        escaped(s) == escaped_char(s[0]) + escaped(s.drop_first()),
    decreases s.len(),
{
    let front = s.drop_last();
    if front.len() == 0 {
        assert(escaped(front) =~= Seq::<char>::empty());
        assert(s.drop_first() =~= Seq::<char>::empty());
        assert(escaped(s.drop_first()) =~= Seq::<char>::empty());
        assert(escaped(s) =~= escaped_char(s[0]));
    } else {
        lemma_escaped_first(front);
        assert(s.drop_first().drop_last() =~= front.drop_first());
        assert(s.drop_first().last() == s.last());
        assert(escaped(s) =~= escaped_char(s[0]) + escaped(s.drop_first()));
    }
}

/// Different characters have different texts, whatever follows.
proof fn lemma_escaped_chars_apart(a: char, b: char, x: Seq<char>, y: Seq<char>)
    requires
        escaped_char(a) + x == escaped_char(b) + y,
    ensures
        a == b,
        x == y,
{
    let s = escaped_char(a) + x;
    let (m, n) = (escaped_char(a).len(), escaped_char(b).len());
    assert(m == 1 || m == 2 || m == 6);
    assert(n == 1 || n == 2 || n == 6);
    assert(s[0] == escaped_char(a)[0] && s[0] == escaped_char(b)[0]);
    if m > 1 && n > 1 {
        assert(s[1] == escaped_char(a)[1] && s[1] == escaped_char(b)[1]);
        if m == 6 && n == 6 {
            let (c, d) = (a as u8, b as u8);
            assert(s[4] == escaped_char(a)[4] && s[4] == escaped_char(b)[4]);
            assert(s[5] == escaped_char(a)[5] && s[5] == escaped_char(b)[5]);
            assert(hex_byte(c)[0] == hex_byte(d)[0] && hex_byte(c)[1] == hex_byte(d)[1]);
            assert(c / 16 == d / 16 && c % 16 == d % 16);
        }
    }
    assert(a == b);
    assert(x =~= s.skip(m as int));
    assert(y =~= s.skip(m as int));
}

proof fn lemma_escaped_apart(s: Seq<char>, t: Seq<char>)
    requires
        escaped(s) == escaped(t),
    ensures
        s == t,
    decreases s.len(),
{
    if s.len() > 0 {
        lemma_escaped_first(s);
        assert(escaped(s).len() > 0);
    }
    if t.len() > 0 {
        lemma_escaped_first(t);
        assert(escaped(t).len() > 0);
    }
    if s.len() > 0 && t.len() > 0 {
        lemma_escaped_chars_apart(s[0], t[0], escaped(s.drop_first()), escaped(t.drop_first()));
        lemma_escaped_apart(s.drop_first(), t.drop_first());
        assert(s =~= seq![s[0]] + s.drop_first());
        assert(t =~= seq![t[0]] + t.drop_first());
    } else {
        assert(s =~= t);
    }
}

/// Two texts with the same JSON string are the same.
pub proof fn quoted_texts_are_apart(s: Seq<char>, t: Seq<char>)
    requires
        quoted(s) == quoted(t),
    ensures
        s == t,
{
    assert(escaped(s) =~= quoted(s).subrange(1, quoted(s).len() - 1));
    assert(escaped(t) =~= quoted(t).subrange(1, quoted(t).len() - 1));
    lemma_escaped_apart(s, t);
}

/// Texts with commas between them.
pub open spec fn comma_joined(items: Seq<Seq<char>>) -> Seq<char>
    decreases items.len(),
{
    if items.len() == 0 {
        Seq::empty()
    } else if items.len() == 1 {
        items[0]
    } else {
        comma_joined(items.drop_last()) + ","@ + items.last()
    }
}

/// A JSON array of JSON texts.
pub open spec fn array_text(items: Seq<Seq<char>>) -> Seq<char> {
    "["@ + comma_joined(items) + "]"@
}

/// A JSON array of strings.
pub open spec fn string_array(items: Seq<Seq<char>>) -> Seq<char> {
    array_text(Seq::new(items.len(), |i: int| quoted(items[i])))
}

/// The value under `key`; the last one where there are several.
pub open spec fn member_of(members: Seq<(Seq<char>, Seq<char>)>, key: Seq<char>) -> Option<
    Seq<char>,
>
    decreases members.len(),
{
    if members.len() == 0 {
        None
    } else if members.last().0 == key {
        Some(members.last().1)
    } else {
        member_of(members.drop_last(), key)
    }
}

/// The value under `key` where the text is an object that has one.
pub open spec fn member_in(node: Option<NodeView>, key: Seq<char>) -> Option<Seq<char>> {
    match node {
        Some(NodeView::Members(members)) => member_of(members, key),
        _ => None,
    }
}

/// The string where the text is one.
pub open spec fn text_in(node: Option<NodeView>) -> Option<Seq<char>> {
    match node {
        Some(NodeView::Text(s)) => Some(s),
        _ => None,
    }
}

/// The number where the text is one that is a `u64`.
pub open spec fn number_in(node: Option<NodeView>) -> Option<u64> {
    match node {
        Some(NodeView::Number(n)) => n,
        _ => None,
    }
}

/// The items where the text is an array.
pub open spec fn items_in(node: Option<NodeView>) -> Option<Seq<Seq<char>>> {
    match node {
        Some(NodeView::Items(items)) => Some(items),
        _ => None,
    }
}

/// The string under `key` of an object.
pub open spec fn text_under(node: Option<NodeView>, key: Seq<char>) -> Option<Seq<char>> {
    match member_in(node, key) {
        Some(child) => text_in(node_of(child)),
        None => None,
    }
}

/// The number under `key` of an object.
pub open spec fn number_under(node: Option<NodeView>, key: Seq<char>) -> Option<u64> {
    match member_in(node, key) {
        Some(child) => number_in(node_of(child)),
        None => None,
    }
}

/// The view of a node that may be missing.
pub open spec fn node_view(node: Option<JsonNode>) -> Option<NodeView> {
    match node {
        Some(n) => Some(n@),
        None => None,
    }
}

/// The view of a string that may be missing.
pub open spec fn text_view(s: Option<String>) -> Option<Seq<char>> {
    match s {
        Some(t) => Some(t@),
        None => None,
    }
}

/// The value under `key`, as a JSON text, where the node is an object that has one.
pub fn member(node: &Option<JsonNode>, key: &str) -> (r: Option<String>)
    ensures
        text_view(r) == member_in(node_view(*node), key@),
{
    let members = match node {
        Some(JsonNode::Members(members)) => members,
        _ => return None,
    };
    let ghost all = Seq::new(members@.len(), |i: int| (members@[i].0@, members@[i].1@));
    let mut r: Option<String> = None;
    let mut i: usize = 0;
    while i < members.len()
        invariant
            i <= members@.len(),
            all == Seq::new(members@.len(), |i: int| (members@[i].0@, members@[i].1@)),
            text_view(r) == member_of(all.take(i as int), key@),
        decreases members@.len() - i,
    {
        let ghost more = all.take(i + 1);
        assert(more.drop_last() =~= all.take(i as int));
        assert(more.last() == all[i as int]);
        if same_text(members[i].0.as_str(), key) {
            r = Some(members[i].1.clone());
        }
        i = i + 1;
    }
    assert(all.take(i as int) =~= all);
    r
}

/// The string under `key`, where the node is an object that has one.
pub fn member_text(node: &Option<JsonNode>, key: &str) -> (r: Option<String>)
    ensures
        text_view(r) == text_under(node_view(*node), key@),
{
    match member(node, key) {
        Some(child) => match parse_node(child.as_str()) {
            Some(JsonNode::Text(s)) => Some(s),
            _ => None,
        },
        None => None,
    }
}

/// The number under `key`, where the node is an object that has one that is a `u64`.
pub fn member_number(node: &Option<JsonNode>, key: &str) -> (r: Option<u64>)
    ensures
        r == number_under(node_view(*node), key@),
{
    match member(node, key) {
        Some(child) => match parse_node(child.as_str()) {
            Some(JsonNode::Number(n)) => n,
            _ => None,
        },
        None => None,
    }
}

/// The value under a key is the one that was last put there; a key that was not put there has
/// none.
pub proof fn last_member_counts(
    members: Seq<(Seq<char>, Seq<char>)>,
    key: Seq<char>,
    value: Seq<char>,
    other: Seq<char>,
)
    requires
        other != key,
    ensures
        member_of(members.push((key, value)), key) == Some(value),
        member_of(members.push((key, value)), other) == member_of(members, other),
        member_of(Seq::empty(), key) is None,
        member_in(Some(NodeView::Members(members)), key) == member_of(members, key),
{
    assert(members.push((key, value)).drop_last() =~= members);
}

/// A node gives what its kind holds, and nothing of another kind: only an object has members, only
/// a string is a text, only a number is one, only an array has items.
pub proof fn nodes_give_their_own_kind(node: NodeView, key: Seq<char>)
    ensures
        text_in(Some(node)) is Some <==> node is Text,
        node matches NodeView::Text(s) ==> text_in(Some(node)) == Some(s),
        node matches NodeView::Number(n) ==> number_in(Some(node)) == n,
        !(node is Number) ==> number_in(Some(node)) is None,
        items_in(Some(node)) is Some <==> node is Items,
        node matches NodeView::Items(items) ==> items_in(Some(node)) == Some(items),
        !(node is Members) ==> member_in(Some(node), key) is None,
        text_in(None) is None,
        number_in(None) is None,
        items_in(None) is None,
        member_in(None, key) is None,
{
}

/// What stands under a key is read as the JSON text that it is: a string or a number there, or
/// nothing where the key is missing.
pub proof fn members_are_read_by_kind(members: Seq<(Seq<char>, Seq<char>)>, key: Seq<char>)
    ensures
        match member_of(members, key) {
            Some(child) => {
                &&& text_under(Some(NodeView::Members(members)), key) == match node_of(child) {
                    Some(NodeView::Text(s)) => Some(s),
                    _ => None,
                }
                &&& number_under(Some(NodeView::Members(members)), key) == match node_of(child) {
                    Some(NodeView::Number(n)) => n,
                    _ => None,
                }
            },
            None => {
                &&& text_under(Some(NodeView::Members(members)), key) is None
                &&& number_under(Some(NodeView::Members(members)), key) is None
            },
        },
{
}

} // verus!

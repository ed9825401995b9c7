//! JSON documents as plain values.
//!
//! [`Json`] holds what the decisions in this crate read of a document. Texts are parsed and
//! quoted by `serde_json`.

use crate::ids::hex_digit;
use crate::text::same;
use vstd::prelude::*;
use vstd::string::*;

verus! {

/// `serde_json::Value`, carried from the parser to [`read_value`].
#[verifier::external_type_specification]
#[verifier::external_body]
pub struct ExValue(serde_json::Value);

/// A JSON document.
#[derive(Debug)]
pub enum Json {
    Null,
    Bool(bool),
    /// A number, as far as it is a whole number that fits.
    Number { signed: Option<i64>, unsigned: Option<u64> },
    Text(String),
    List(Vec<Json>),
    /// The members in the order that the parser keeps them in.
    Object(Vec<(String, Json)>),
}

/// A JSON document, mathematically.
pub enum Tree {
    Null,
    Bool(bool),
    Number { signed: Option<i64>, unsigned: Option<u64> },
    Text(Seq<char>),
    List(Seq<Tree>),
    Object(Seq<(Seq<char>, Tree)>),
}

impl Json {
    /// The document, mathematically.
    pub open spec fn tree(self) -> Tree
        decreases self,
    {
        match self {
            Json::Null => Tree::Null,
            Json::Bool(b) => Tree::Bool(b),
            Json::Number { signed, unsigned } => Tree::Number { signed, unsigned },
            Json::Text(s) => Tree::Text(s@),
            Json::List(items) => Tree::List(trees(items@)),
            Json::Object(members) => Tree::Object(member_trees(members@)),
        }
    }
}

/// The documents of a list, mathematically.
pub open spec fn trees(items: Seq<Json>) -> Seq<Tree>
    decreases items,
{
    if items.len() == 0 {
        Seq::empty()
    } else {
        trees(items.drop_last()).push(items.last().tree())
    }
}

/// The members of an object, mathematically.
pub open spec fn member_trees(members: Seq<(String, Json)>) -> Seq<(Seq<char>, Tree)>
    decreases members,
{
    if members.len() == 0 {
        Seq::empty()
    } else {
        member_trees(members.drop_last()).push((members.last().0@, members.last().1.tree()))
    }
}

/// The documents of a list stand in its order.
pub proof fn trees_in_order(items: Seq<Json>)
    ensures
        trees(items).len() == items.len(),
        forall|i: int| 0 <= i < items.len() ==> #[trigger] trees(items)[i] == items[i].tree(),
    decreases items.len(),
{
    if items.len() > 0 {
        trees_in_order(items.drop_last());
        assert forall|i: int| 0 <= i < items.len() implies #[trigger] trees(items)[i]
            == items[i].tree() by {
            if i < items.len() - 1 {
                assert(trees(items)[i] == trees(items.drop_last())[i]);
                assert(items.drop_last()[i] == items[i]);
            }
        }
    }
}

/// The members of an object stand in its order.
pub proof fn members_in_order(members: Seq<(String, Json)>)
    ensures
        member_trees(members).len() == members.len(),
        forall|i: int|
            0 <= i < members.len() ==> #[trigger] member_trees(members)[i] == (
                members[i].0@,
                members[i].1.tree(),
            ),
    decreases members.len(),
{
    if members.len() > 0 {
        members_in_order(members.drop_last());
        assert forall|i: int| 0 <= i < members.len() implies #[trigger] member_trees(members)[i]
            == (members[i].0@, members[i].1.tree()) by {
            if i < members.len() - 1 {
                assert(member_trees(members)[i] == member_trees(members.drop_last())[i]);
                assert(members.drop_last()[i] == members[i]);
            }
        }
    }
}

/// One level of a `serde_json::Value`.
enum Opened {
    Null,
    Bool(bool),
    Number { signed: Option<i64>, unsigned: Option<u64> },
    Text(String),
    List(Vec<serde_json::Value>),
    Object(Vec<(String, serde_json::Value)>),
}

/// The document that a parsed value holds.
pub uninterp spec fn value_tree(value: serde_json::Value) -> Tree;

/// The document that `serde_json` reads in a text, where it reads one.
pub uninterp spec fn parsed_tree(text: Seq<char>) -> Option<Tree>;

/// Whether one level of a value agrees with the document that it holds.
spec fn opens(opened: Opened, tree: Tree) -> bool {
    match opened {
        Opened::Null => tree == Tree::Null,
        Opened::Bool(b) => tree == Tree::Bool(b),
        Opened::Number { signed, unsigned } => tree == Tree::Number { signed, unsigned },
        Opened::Text(s) => tree == Tree::Text(s@),
        Opened::List(items) => tree matches Tree::List(list) && {
            &&& list.len() == items@.len()
            &&& forall|i: int|
                0 <= i < list.len() ==> #[trigger] list[i] == value_tree(items@[i])
        },
        Opened::Object(members) => tree matches Tree::Object(list) && {
            &&& list.len() == members@.len()
            &&& forall|i: int|
                0 <= i < list.len() ==> #[trigger] list[i] == (
                    members@[i].0@,
                    value_tree(members@[i].1),
                )
        },
    }
}

/// `serde_json::from_str`: reads a text as a JSON value. Which value it reads, and whether it
/// reads one, depends on the text alone.
#[verifier::external_body]
fn serde_json_from_str(text: &str) -> (r: Option<serde_json::Value>)
    ensures
        match r {
            Some(v) => parsed_tree(text@) == Some(value_tree(v)),
            None => parsed_tree(text@) is None,
        },
{
    serde_json::from_str(text).ok()
}

/// `serde_json::Value`'s variants: one level of the value, its fields as they are, a number by
/// `Number::as_i64` and `Number::as_u64`, an object's members in the order of its iterator.
#[verifier::external_body]
fn serde_json_open(value: serde_json::Value) -> (r: Opened)
    ensures
        opens(r, value_tree(value)),
{
    match value {
        serde_json::Value::Null => Opened::Null,
        serde_json::Value::Bool(b) => Opened::Bool(b),
        serde_json::Value::Number(n) => {
            Opened::Number { signed: n.as_i64(), unsigned: n.as_u64() }
        },
        serde_json::Value::String(s) => Opened::Text(s),
        serde_json::Value::Array(items) => Opened::List(items),
        serde_json::Value::Object(members) => Opened::Object(members.into_iter().collect()),
    }
}

/// The document that a value holds.
fn read_value(value: serde_json::Value) -> (r: Json)
    ensures
        r.tree() == value_tree(value),
    decreases value_tree(value),
{
    let ghost tree = value_tree(value);
    match serde_json_open(value) {
        Opened::Null => Json::Null,
        Opened::Bool(b) => Json::Bool(b),
        Opened::Number { signed, unsigned } => Json::Number { signed, unsigned },
        Opened::Text(s) => Json::Text(s),
        Opened::List(items) => {
            let ghost all = items@;
            let mut out: Vec<Json> = Vec::new();
            for item in it: items
                invariant
                    it.seq() == all,
                    tree == value_tree(value),
                    tree matches Tree::List(list) && list.len() == all.len() && forall|i: int|
                        0 <= i < list.len() ==> #[trigger] list[i] == value_tree(all[i]),
                    out@.len() == it.index(),
                    forall|i: int|
                        0 <= i < out@.len() ==> (#[trigger] out@[i]).tree() == value_tree(all[i]),
            {
                assert(tree->List_0[it.index() as int] == value_tree(item));
                out.push(read_value(item));
            }
            proof {
                trees_in_order(out@);
                assert(trees(out@) =~= tree->List_0);
            }
            Json::List(out)
        },
        Opened::Object(members) => {
            let ghost all = members@;
            let mut out: Vec<(String, Json)> = Vec::new();
            for member in it: members
                invariant
                    it.seq() == all,
                    tree == value_tree(value),
                    tree matches Tree::Object(list) && list.len() == all.len() && forall|i: int|
                        0 <= i < list.len() ==> #[trigger] list[i] == (
                            all[i].0@,
                            value_tree(all[i].1),
                        ),
                    out@.len() == it.index(),
                    forall|i: int|
                        0 <= i < out@.len() ==> (#[trigger] out@[i]).0@ == all[i].0@
                            && out@[i].1.tree() == value_tree(all[i].1),
            {
                assert(tree->Object_0[it.index() as int] == (member.0@, value_tree(member.1)));
                proof {
                    let list = tree->Object_0;
                    assert(decreases_to!(tree => list[it.index() as int]));
                    assert(decreases_to!(list[it.index() as int] => list[it.index() as int].1));
                }
                let (key, inner) = member;
                out.push((key, read_value(inner)));
            }
            proof {
                members_in_order(out@);
                assert(member_trees(out@) =~= tree->Object_0);
            }
            Json::Object(out)
        },
    }
}

/// How a character stands in a JSON string: a quote, a backslash and a control character are
/// escaped, and everything else stands for itself.
pub open spec fn escaped_char(c: char) -> Seq<char> {
    if c == '"' || c == '\\' {
        seq!['\\', c]
    } else if c == '\u{8}' {
        seq!['\\', 'b']
    } else if c == '\t' {
        seq!['\\', 't']
    } else if c == '\n' {
        seq!['\\', 'n']
    } else if c == '\u{c}' {
        seq!['\\', 'f']
    } else if c == '\r' {
        seq!['\\', 'r']
    } else if (c as int) < 32 {
        seq!['\\', 'u', '0', '0', hex_digit(c as int / 16), hex_digit(c as int % 16)]
    } else {
        seq![c]
    }
}

/// How a text stands between the quotes of a JSON string.
pub open spec fn escaped(s: Seq<char>) -> Seq<char>
    decreases s.len(),
{
    if s.len() == 0 {
        Seq::empty()
    } else {
        escaped(s.drop_last()) + escaped_char(s.last())
    }
}

/// A text as a JSON string.
pub open spec fn quoted(s: Seq<char>) -> Seq<char> {
    seq!['"'] + escaped(s) + seq!['"']
}

/// `serde_json::Value` made of a string, as its `Display` shows it: the text in quotes. Quotes,
/// backslashes and control characters are escaped, the latter by a letter where JSON has one
/// and by their number in lower-case hex where it has none.
#[verifier::external_body]
pub(crate) fn quote(s: &str) -> (r: String)
    ensures
        r@ == quoted(s@),
{
    serde_json::Value::from(s).to_string()
}

/// The member of an object under `key`: the first one.
pub open spec fn member(members: Seq<(Seq<char>, Tree)>, key: Seq<char>) -> Option<Tree>
    decreases members.len(),
{
    if members.len() == 0 {
        None
    } else if members[0].0 == key {
        Some(members[0].1)
    } else {
        member(members.drop_first(), key)
    }
}

impl Tree {
    /// The member under `key`, where this is an object that has one.
    pub open spec fn get(self, key: Seq<char>) -> Option<Tree> {
        match self {
            Tree::Object(members) => member(members, key),
            _ => None,
        }
    }

    /// The number, where this is a whole number that fits.
    pub open spec fn as_i64(self) -> Option<i64> {
        match self {
            Tree::Number { signed, unsigned } => signed,
            _ => None,
        }
    }

    /// The number, where this is a whole number that fits.
    pub open spec fn as_u64(self) -> Option<u64> {
        match self {
            Tree::Number { signed, unsigned } => unsigned,
            _ => None,
        }
    }

    pub open spec fn as_bool(self) -> Option<bool> {
        match self {
            Tree::Bool(b) => Some(b),
            _ => None,
        }
    }

    pub open spec fn as_text(self) -> Option<Seq<char>> {
        match self {
            Tree::Text(s) => Some(s),
            _ => None,
        }
    }

    pub open spec fn as_list(self) -> Option<Seq<Tree>> {
        match self {
            Tree::List(items) => Some(items),
            _ => None,
        }
    }

    /// The number under `key`.
    pub open spec fn i64_at(self, key: Seq<char>) -> Option<i64> {
        match self.get(key) {
            Some(t) => t.as_i64(),
            None => None,
        }
    }

    /// The number under `key`.
    pub open spec fn u64_at(self, key: Seq<char>) -> Option<u64> {
        match self.get(key) {
            Some(t) => t.as_u64(),
            None => None,
        }
    }

    /// The text under `key`.
    pub open spec fn text_at(self, key: Seq<char>) -> Option<Seq<char>> {
        match self.get(key) {
            Some(t) => t.as_text(),
            None => None,
        }
    }

    /// Whether there is a list under `key`.
    pub open spec fn list_at(self, key: Seq<char>) -> bool {
        self.get(key) matches Some(t) && t is List
    }
}

/// The first of two, where it is there.
pub open spec fn either<T>(a: Option<T>, b: Option<T>) -> Option<T> {
    match a {
        Some(x) => Some(x),
        None => b,
    }
}

impl Json {
    /// Reads a JSON text.
    pub fn parse(text: &str) -> (r: Option<Json>)
        ensures
            match r {
                Some(j) => parsed_tree(text@) == Some(j.tree()),
                None => parsed_tree(text@) is None,
            },
    {
        match serde_json_from_str(text) {
            Some(value) => Some(read_value(value)),
            None => None,
        }
    }

    /// The member under `key`, where this is an object that has one.
    pub fn get(&self, key: &str) -> (r: Option<&Json>)
        ensures
            match r {
                Some(j) => self.tree().get(key@) == Some(j.tree()),
                None => self.tree().get(key@) is None,
            },
    {
        match self {
            Json::Object(members) => {
                let ghost list = member_trees(members@);
                proof {
                    members_in_order(members@);
                    assert(list.skip(0) =~= list);
                }
                for i in 0..members.len()
                    invariant
                        self.tree() == Tree::Object(list),
                        list.len() == members@.len(),
                        forall|k: int|
                            0 <= k < members@.len() ==> #[trigger] list[k] == (
                                members@[k].0@,
                                members@[k].1.tree(),
                            ),
                        member(list, key@) == member(list.skip(i as int), key@),
                {
                    proof {
                        let rest = list.skip(i as int);
                        assert(rest[0] == list[i as int]);
                        assert(rest.drop_first() =~= list.skip(i as int + 1));
                    }
                    if same(members[i].0.as_str(), key) {
                        return Some(&members[i].1);
                    }
                }
                None
            },
            _ => None,
        }
    }

    pub fn as_i64(&self) -> (r: Option<i64>)
        ensures
            r == self.tree().as_i64(),
    {
        match self {
            Json::Number { signed, .. } => *signed,
            _ => None,
        }
    }

    pub fn as_u64(&self) -> (r: Option<u64>)
        ensures
            r == self.tree().as_u64(),
    {
        match self {
            Json::Number { unsigned, .. } => *unsigned,
            _ => None,
        }
    }

    pub fn as_bool(&self) -> (r: Option<bool>)
        ensures
            r == self.tree().as_bool(),
    {
        match self {
            Json::Bool(b) => Some(*b),
            _ => None,
        }
    }

    pub fn as_str(&self) -> (r: Option<&str>)
        ensures
            match r {
                Some(s) => self.tree().as_text() == Some(s@),
                None => self.tree().as_text() is None,
            },
    {
        match self {
            Json::Text(s) => Some(s.as_str()),
            _ => None,
        }
    }

    pub fn as_array(&self) -> (r: Option<&Vec<Json>>)
        ensures
            match r {
                Some(items) => self.tree().as_list() == Some(trees(items@)),
                None => self.tree().as_list() is None,
            },
    {
        match self {
            Json::List(items) => Some(items),
            _ => None,
        }
    }

    /// The number under `key`.
    pub fn i64_at(&self, key: &str) -> (r: Option<i64>)
        ensures
            r == self.tree().i64_at(key@),
    {
        match self.get(key) {
            Some(j) => j.as_i64(),
            None => None,
        }
    }

    /// The number under `key`.
    pub fn u64_at(&self, key: &str) -> (r: Option<u64>)
        ensures
            r == self.tree().u64_at(key@),
    {
        match self.get(key) {
            Some(j) => j.as_u64(),
            None => None,
        }
    }

    /// The text under `key`.
    pub fn text_at(&self, key: &str) -> (r: Option<&str>)
        ensures
            match r {
                Some(s) => self.tree().text_at(key@) == Some(s@),
                None => self.tree().text_at(key@) is None,
            },
    {
        match self.get(key) {
            Some(j) => j.as_str(),
            None => None,
        }
    }

    /// Whether there is a list under `key`.
    pub fn list_at(&self, key: &str) -> (r: bool)
        ensures
            r == self.tree().list_at(key@),
    {
        match self.get(key) {
            Some(j) => j.as_array().is_some(),
            None => false,
        }
    }
}

} // verus!

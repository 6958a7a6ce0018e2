//! JSON documents: how they are read, and what the rest of the library asks of them.

use vstd::prelude::*;

use crate::text::{opt_text, same};

verus! {

/// A JSON document. The members of an object stand in the order in which they are walked.
#[derive(Debug, PartialEq)]
pub enum Json {
    Null,
    Bool(bool),
    Number(serde_json::Number),
    Text(String),
    Array(Vec<Json>),
    Object(Vec<(String, Json)>),
}

/// What a JSON document says, with its strings as sequences of characters.
pub enum JsonTree {
    Null,
    Bool(bool),
    Number(serde_json::Number),
    Text(Seq<char>),
    Array(Seq<JsonTree>),
    Object(Seq<(Seq<char>, JsonTree)>),
}

impl Json {
    /// What the document says.
    pub open spec fn tree(self) -> JsonTree
        decreases self,
    {
        match self {
            Json::Null => JsonTree::Null,
            Json::Bool(b) => JsonTree::Bool(b),
            Json::Number(n) => JsonTree::Number(n),
            Json::Text(s) => JsonTree::Text(s@),
            Json::Array(items) => JsonTree::Array(
                Seq::new(
                    items@.len(),
                    |i: int|
                        if 0 <= i < items@.len() {
                            items@[i].tree()
                        } else {
                            JsonTree::Null
                        },
                ),
            ),
            Json::Object(members) => JsonTree::Object(
                Seq::new(
                    members@.len(),
                    |i: int|
                        if 0 <= i < members@.len() {
                            (members@[i].0@, members@[i].1.tree())
                        } else {
                            (Seq::<char>::empty(), JsonTree::Null)
                        },
                ),
            ),
        }
    }
}

/// What each of the documents says.
pub open spec fn trees(items: Seq<Json>) -> Seq<JsonTree> {
    items.map_values(|j: Json| j.tree())
}

/// What each of the members says.
pub open spec fn member_trees(members: Seq<(String, Json)>) -> Seq<(Seq<char>, JsonTree)> {
    members.map_values(|m: (String, Json)| (m.0@, m.1.tree()))
}

pub broadcast proof fn lemma_array_tree(items: Vec<Json>)
    ensures
        #[trigger] Json::Array(items).tree() == JsonTree::Array(trees(items@)),
{
    let t = Json::Array(items).tree();
    assert(t->Array_0 =~= trees(items@));
}

pub broadcast proof fn lemma_object_tree(members: Vec<(String, Json)>)
    ensures
        #[trigger] Json::Object(members).tree() == JsonTree::Object(member_trees(members@)),
{
    let t = Json::Object(members).tree();
    assert(t->Object_0 =~= member_trees(members@));
}

// ---------------------------------------------------------------------------
// Reading
// ---------------------------------------------------------------------------

/// A JSON value of `serde_json`.
#[verifier::external_type_specification]
#[verifier::external_body]
pub struct ExValue(serde_json::Value);

/// A JSON number of `serde_json`, carried through as it was read.
#[verifier::external_type_specification]
#[verifier::external_body]
pub struct ExNumber(serde_json::Number);

/// What a value of `serde_json` says.
pub uninterp spec fn value_tree(value: serde_json::Value) -> JsonTree;

/// What `serde_json::from_str` reads from a text, or `None` where the text is no JSON document.
pub uninterp spec fn parsed(text: Seq<char>) -> Option<JsonTree>;

/// The outermost layer of a value.
pub enum Layer {
    Null,
    Bool(bool),
    Number(serde_json::Number),
    Text(String),
    Array(Vec<serde_json::Value>),
    Object(Vec<(String, serde_json::Value)>),
}

/// What a layer says.
pub open spec fn layer_tree(layer: Layer) -> JsonTree {
    match layer {
        Layer::Null => JsonTree::Null,
        Layer::Bool(b) => JsonTree::Bool(b),
        Layer::Number(n) => JsonTree::Number(n),
        Layer::Text(s) => JsonTree::Text(s@),
        Layer::Array(items) => JsonTree::Array(
            items@.map_values(|v: serde_json::Value| value_tree(v)),
        ),
        Layer::Object(members) => JsonTree::Object(
            members@.map_values(|m: (String, serde_json::Value)| (m.0@, value_tree(m.1))),
        ),
    }
}

/// `serde_json::from_str`, to a `serde_json::Value`. It fails where the text is no JSON document
/// (or nests too deeply); both what it reads and whether it fails follow from the text alone.
#[verifier::external_body]
fn parse_value(text: &str) -> (r: Option<serde_json::Value>)
    ensures
        r is Some <==> parsed(text@) is Some,
        r matches Some(v) ==> parsed(text@) == Some(value_tree(v)),
{
    serde_json::from_str(text).ok()
}

/// Tells the six variants of a `serde_json::Value` apart and hands out what each holds. The
/// members of an object come in the order of `serde_json::Map`'s own iterator.
#[verifier::external_body]
fn open_value(value: serde_json::Value) -> (r: Layer)
    ensures
        layer_tree(r) == value_tree(value),
{
    match value {
        serde_json::Value::Null => Layer::Null,
        serde_json::Value::Bool(b) => Layer::Bool(b),
        serde_json::Value::Number(n) => Layer::Number(n),
        serde_json::Value::String(s) => Layer::Text(s),
        serde_json::Value::Array(items) => Layer::Array(items),
        serde_json::Value::Object(members) => Layer::Object(members.into_iter().collect()),
    }
}

/// The document that `value` holds.
fn from_value(value: serde_json::Value) -> (r: Json)
    ensures
        r.tree() == value_tree(value),
    decreases value_tree(value),
{
    broadcast use {lemma_array_tree, lemma_object_tree};

    match open_value(value) {
        Layer::Null => Json::Null,
        Layer::Bool(b) => Json::Bool(b),
        Layer::Number(n) => Json::Number(n),
        Layer::Text(s) => Json::Text(s),
        Layer::Array(items) => {
            let ghost all = items@;
            let ghost parts = all.map_values(|v: serde_json::Value| value_tree(v));
            let mut out: Vec<Json> = Vec::new();
            for item in it: items
                invariant
                    it.seq() == all,
                    value_tree(value) == JsonTree::Array(parts),
                    parts == all.map_values(|v: serde_json::Value| value_tree(v)),
                    trees(out@) == parts.take(it.index() as int),
            {
                let ghost before = trees(out@);
                let ghost k = it.index() as int;
                proof {
                    assert(parts[k] == value_tree(item));
                    assert(decreases_to!(value_tree(value) => value_tree(value)->Array_0));
                    assert(decreases_to!(parts => parts[k]));
                }
                let j = from_value(item);
                out.push(j);
                assert(trees(out@) == before.push(j.tree()));
                assert(trees(out@) == parts.take(k + 1));
            }
            assert(trees(out@) == parts);
            Json::Array(out)
        },
        Layer::Object(members) => {
            let ghost all = members@;
            let ghost parts = all.map_values(
                |m: (String, serde_json::Value)| (m.0@, value_tree(m.1)),
            );
            let mut out: Vec<(String, Json)> = Vec::new();
            for member in it: members
                invariant
                    it.seq() == all,
                    value_tree(value) == JsonTree::Object(parts),
                    parts == all.map_values(
                        |m: (String, serde_json::Value)| (m.0@, value_tree(m.1)),
                    ),
                    member_trees(out@) == parts.take(it.index() as int),
            {
                let ghost before = member_trees(out@);
                let ghost k = it.index() as int;
                let (name, inner) = member;
                proof {
                    assert(parts[k] == (name@, value_tree(inner)));
                    assert(decreases_to!(value_tree(value) => value_tree(value)->Object_0));
                    assert(decreases_to!(parts => parts[k]));
                    assert(decreases_to!(parts[k] => parts[k].1));
                }
                let j = from_value(inner);
                out.push((name, j));
                assert(member_trees(out@) == before.push((name@, j.tree())));
                assert(member_trees(out@) == parts.take(k + 1));
            }
            assert(member_trees(out@) == parts);
            Json::Object(out)
        },
    }
}

/// Reads a JSON document; `None` where `text` is none.
pub fn parse_json(text: &str) -> (r: Option<Json>)
    ensures
        r is Some <==> parsed(text@) is Some,
        r matches Some(j) ==> parsed(text@) == Some(j.tree()),
{
    match parse_value(text) {
        Some(value) => Some(from_value(value)),
        None => None,
    }
}

// ---------------------------------------------------------------------------
// Writing
// ---------------------------------------------------------------------------

/// What `serde_json` writes for an object with these members, all of them texts.
pub uninterp spec fn written(members: Seq<(Seq<char>, Seq<char>)>) -> Seq<char>;

/// What members are.
pub open spec fn member_texts(members: Seq<(&str, &str)>) -> Seq<(Seq<char>, Seq<char>)> {
    members.map_values(|m: (&str, &str)| (m.0@, m.1@))
}

/// `serde::Serializer::collect_map` of `serde_json::Serializer::new`: writes an object with these
/// members, in this order and without spaces, and escapes control characters. What is written is
/// one line in braces, and `serde_json::from_str` reads the members back from it.
#[verifier::external_body]
pub(crate) fn write_members(members: &Vec<(&str, &str)>) -> (r: String)
    requires
        forall|i: int, k: int|
            0 <= i < k < members@.len() ==> (#[trigger] members@[i]).0@ != (
            #[trigger] members@[k]).0@,
    ensures
        r@ == written(member_texts(members@)),
        r@.len() > 0 && r@[0] == '{' && r@.last() == '}' && !r@.contains('\n'),
        parsed(r@) is Some,
        forall|i: int|
            0 <= i < members@.len() ==> parsed(r@)->0.member_text((#[trigger] members@[i]).0@)
                == Some(members@[i].1@),
{
    let mut bytes: Vec<u8> = Vec::new();
    let mut serializer = serde_json::Serializer::new(&mut bytes);
    serde::Serializer::collect_map(&mut serializer, members.iter().copied()).ok();
    String::from_utf8_lossy(&bytes).into_owned()
}

// ---------------------------------------------------------------------------
// Looking inside
// ---------------------------------------------------------------------------

/// The value of the first member called `name`.
pub open spec fn find_member(members: Seq<(Seq<char>, JsonTree)>, name: Seq<char>) -> Option<
    JsonTree,
>
    decreases members.len(),
{
    if members.len() == 0 {
        None
    } else if members[0].0 == name {
        Some(members[0].1)
    } else {
        find_member(members.skip(1), name)
    }
}

impl JsonTree {
    /// The member called `name`, where this is an object that has one.
    pub open spec fn member(self, name: Seq<char>) -> Option<JsonTree> {
        match self {
            JsonTree::Object(members) => find_member(members, name),
            _ => None,
        }
    }

    /// The text, where this is one.
    pub open spec fn text(self) -> Option<Seq<char>> {
        match self {
            JsonTree::Text(s) => Some(s),
            _ => None,
        }
    }

    /// The text of the member called `name`, where this is an object that has one.
    pub open spec fn member_text(self, name: Seq<char>) -> Option<Seq<char>> {
        match self.member(name) {
            Some(t) => t.text(),
            None => None,
        }
    }
}

/// What a reference to a document, where there is one, says.
pub open spec fn opt_tree(r: Option<&Json>) -> Option<JsonTree> {
    match r {
        Some(j) => Some(j.tree()),
        None => None,
    }
}

/// Where the first member called `name` stands; `members.len()` where there is none.
pub open spec fn member_index(members: Seq<(Seq<char>, JsonTree)>, name: Seq<char>) -> nat
    decreases members.len(),
{
    if members.len() == 0 || members[0].0 == name {
        0
    } else {
        1 + member_index(members.skip(1), name)
    }
}

pub proof fn lemma_member_index(members: Seq<(Seq<char>, JsonTree)>, name: Seq<char>)
    ensures
        member_index(members, name) <= members.len(),
        forall|i: int| 0 <= i < member_index(members, name) ==> members[i].0 != name,
        member_index(members, name) < members.len() ==> members[member_index(
            members,
            name,
        ) as int].0 == name && find_member(members, name) == Some(
            members[member_index(members, name) as int].1,
        ),
        member_index(members, name) == members.len() ==> find_member(members, name) is None,
    decreases members.len(),
{
    if members.len() > 0 && members[0].0 != name {
        lemma_member_index(members.skip(1), name);
        assert forall|i: int| 0 <= i < member_index(members, name) implies members[i].0
            != name by {
            if i > 0 {
                assert(members[i] == members.skip(1)[i - 1]);
            }
        }
    }
}

/// `member_index` is the only number with the properties of [`lemma_member_index`].
pub proof fn lemma_member_index_is(
    members: Seq<(Seq<char>, JsonTree)>,
    name: Seq<char>,
    n: nat,
)
    requires
        n <= members.len(),
        forall|i: int| 0 <= i < n ==> members[i].0 != name,
        n < members.len() ==> members[n as int].0 == name,
    ensures
        member_index(members, name) == n,
{
    lemma_member_index(members, name);
    let m = member_index(members, name);
    if m < n {
        assert(members[m as int].0 == name);
    } else if n < m {
        assert(members[n as int].0 == name);
    }
}

/// Of an object, the first member with a name is the one that is found, with the whole of its
/// value; a name that no member has is not found, and what is no object has no members.
pub proof fn law_the_first_member_is_found(
    members: Seq<(Seq<char>, JsonTree)>,
    name: Seq<char>,
    n: nat,
)
    requires
        n <= members.len(),
        forall|i: int| 0 <= i < n ==> (#[trigger] members[i]).0 != name,
        n < members.len() ==> members[n as int].0 == name,
    ensures
        n < members.len() ==> JsonTree::Object(members).member(name) == Some(members[n as int].1),
        n == members.len() ==> JsonTree::Object(members).member(name) is None,
        forall|doc: JsonTree| !(doc is Object) ==> #[trigger] doc.member(name) is None,
{
    lemma_member_index_is(members, name, n);
    lemma_member_index(members, name);
}

/// The text of a member is all of the member, where that is a text.
pub proof fn law_member_texts_are_whole(doc: JsonTree, name: Seq<char>)
    ensures
        doc.member_text(name) == match doc.member(name) {
            Some(JsonTree::Text(text)) => Some(text),
            _ => None,
        },
{
}

/// Where the first of `members` called `name` stands.
pub fn position_of(members: &Vec<(String, Json)>, name: &str) -> (r: Option<usize>)
    ensures
        match r {
            Some(i) => i < members@.len() && i == member_index(member_trees(members@), name@),
            None => member_index(member_trees(members@), name@) == members@.len(),
        },
{
    let ghost all = member_trees(members@);
    let mut i: usize = 0;
    while i < members.len()
        invariant
            i <= members@.len(),
            all == member_trees(members@),
            forall|j: int| 0 <= j < i ==> all[j].0 != name@,
        decreases members@.len() - i,
    {
        if same(members[i].0.as_str(), name) {
            proof {
                lemma_member_index_is(all, name@, i as nat);
            }
            return Some(i);
        }
        i += 1;
    }
    proof {
        lemma_member_index_is(all, name@, i as nat);
    }
    None
}

impl Json {
    /// The member called `name`, where this is an object that has one.
    pub fn member(&self, name: &str) -> (r: Option<&Json>)
        ensures
            opt_tree(r) == self.tree().member(name@),
    {
        broadcast use lemma_object_tree;

        match self {
            Json::Object(members) => {
                proof {
                    lemma_member_index(member_trees(members@), name@);
                }
                match position_of(members, name) {
                    Some(i) => Some(&members[i].1),
                    None => None,
                }
            },
            _ => None,
        }
    }

    /// The text, where this is one.
    pub fn text(&self) -> (r: Option<String>)
        ensures
            opt_text(r) == self.tree().text(),
    {
        match self {
            Json::Text(s) => Some(s.clone()),
            _ => None,
        }
    }

    /// The text of the member called `name`, where this is an object that has one.
    pub fn member_text(&self, name: &str) -> (r: Option<String>)
        ensures
            opt_text(r) == self.tree().member_text(name@),
    {
        match self.member(name) {
            Some(j) => j.text(),
            None => None,
        }
    }

    /// Whether the member called `name` is the text `value`.
    pub fn member_is(&self, name: &str, value: &str) -> (r: bool)
        ensures
            r == (self.tree().member_text(name@) == Some(value@)),
    {
        match self.member_text(name) {
            Some(s) => same(s.as_str(), value),
            None => false,
        }
    }
}

} // verus!

//! Finding the prompt in what an agent's hook hands in.

use vstd::prelude::*;

use crate::json::{
    lemma_array_tree, lemma_object_tree, member_trees, parse_json, parsed, trees, Json,
    JsonTree,
};
use crate::text::{lossy_text, opt_text, utf8_lossy};

verus! {

/// Why a prompt was not recorded.
#[derive(Debug, Clone, Copy, PartialEq, Eq, Structural)]
pub enum PromptError {
    /// The input is a JSON document without a prompt.
    FieldNotFound,
    /// The prompt holds nothing but white space.
    Empty,
    /// The log would lie inside the workspace.
    InsideWorkspace,
}

/// The text of the first of the members `prompt`, `user_prompt` and `input` that is a text.
pub open spec fn own_prompt(object: JsonTree) -> Option<Seq<char>> {
    if object.member_text("prompt"@) is Some {
        object.member_text("prompt"@)
    } else if object.member_text("user_prompt"@) is Some {
        object.member_text("user_prompt"@)
    } else {
        object.member_text("input"@)
    }
}

/// The prompt in a JSON value: that of an object itself, or else the first that one of the values
/// inside an object or an array has.
pub open spec fn prompt_in(value: JsonTree) -> Option<Seq<char>>
    decreases value,
{
    match value {
        JsonTree::Object(members) => if own_prompt(value) is Some {
            own_prompt(value)
        } else {
            prompt_in_members(members)
        },
        JsonTree::Array(items) => prompt_in_items(items),
        _ => None,
    }
}

/// The first prompt in the values of the members.
pub open spec fn prompt_in_members(members: Seq<(Seq<char>, JsonTree)>) -> Option<Seq<char>>
    decreases members,
{
    if members.len() == 0 {
        None
    } else if prompt_in(members[0].1) is Some {
        prompt_in(members[0].1)
    } else {
        prompt_in_members(members.skip(1))
    }
}

/// The first prompt in the items.
pub open spec fn prompt_in_items(items: Seq<JsonTree>) -> Option<Seq<char>>
    decreases items,
{
    if items.len() == 0 {
        None
    } else if prompt_in(items[0]) is Some {
        prompt_in(items[0])
    } else {
        prompt_in_items(items.skip(1))
    }
}

/// The prompt in the input, where that is the document `doc`: a bare text is the prompt itself.
pub open spec fn prompt_of_document(doc: JsonTree) -> Result<Seq<char>, PromptError> {
    match doc {
        JsonTree::Text(s) => Ok(s),
        _ => match prompt_in(doc) {
            Some(s) => Ok(s),
            None => Err(PromptError::FieldNotFound),
        },
    }
}

/// The prompt in the input: that in a JSON document, or else all of the text.
pub open spec fn prompt_of(text: Seq<char>) -> Result<Seq<char>, PromptError> {
    match parsed(text) {
        Some(doc) => prompt_of_document(doc),
        None => Ok(text),
    }
}

/// A text that is no JSON document is the prompt, all of it; a document that is a text is the
/// prompt itself.
pub proof fn law_plain_input_is_the_prompt(text: Seq<char>, said: Seq<char>)
    ensures
        parsed(text) is None ==> prompt_of(text) == Ok::<Seq<char>, PromptError>(text),
        parsed(text) == Some(JsonTree::Text(said)) ==> prompt_of(text) == Ok::<
            Seq<char>,
            PromptError,
        >(said),
{
}

/// Of an object, a text called `prompt` is the prompt, else one called `user_prompt`, else one
/// called `input`, each in full.
pub proof fn law_prompt_members_are_taken_in_order(text: Seq<char>, doc: JsonTree)
    requires
        parsed(text) == Some(doc),
        doc is Object,
    ensures
        match (doc.member("prompt"@), doc.member("user_prompt"@), doc.member("input"@)) {
            (Some(JsonTree::Text(said)), _, _) => prompt_of(text) == Ok::<Seq<char>, PromptError>(
                said,
            ),
            (_, Some(JsonTree::Text(said)), _) => prompt_of(text) == Ok::<Seq<char>, PromptError>(
                said,
            ),
            (_, _, Some(JsonTree::Text(said))) => prompt_of(text) == Ok::<Seq<char>, PromptError>(
                said,
            ),
            _ => true,
        },
{
}

/// An object without such a text has the first prompt that one of its values has, and a list that
/// of the first item that has one; a number, a truth value or nothing has none.
pub proof fn law_nested_prompts_are_found(
    members: Seq<(Seq<char>, JsonTree)>,
    items: Seq<JsonTree>,
    n: nat,
)
    ensures
        n <= members.len() && own_prompt(JsonTree::Object(members)) is None && (forall|i: int|
            0 <= i < n ==> prompt_in((#[trigger] members[i]).1) is None) && (n < members.len()
            ==> prompt_in(members[n as int].1) is Some) ==> prompt_in(JsonTree::Object(members))
            == if n < members.len() {
            prompt_in(members[n as int].1)
        } else {
            None
        },
        n <= items.len() && (forall|i: int| 0 <= i < n ==> prompt_in(#[trigger] items[i]) is None)
            && (n < items.len() ==> prompt_in(items[n as int]) is Some) ==> prompt_in(
            JsonTree::Array(items),
        ) == if n < items.len() {
            prompt_in(items[n as int])
        } else {
            None
        },
        forall|doc: JsonTree| !(doc is Object || doc is Array) ==> #[trigger] prompt_in(
            doc,
        ) is None,
{
    if n <= members.len() && (forall|i: int|
        0 <= i < n ==> prompt_in((#[trigger] members[i]).1) is None) && (n < members.len()
        ==> prompt_in(members[n as int].1) is Some) {
        lemma_first_in_members(members, n);
    }
    if n <= items.len() && (forall|i: int|
        0 <= i < n ==> prompt_in(#[trigger] items[i]) is None) && (n < items.len() ==> prompt_in(
        items[n as int],
    ) is Some) {
        lemma_first_in_items(items, n);
    }
}

proof fn lemma_first_in_members(members: Seq<(Seq<char>, JsonTree)>, n: nat)
    requires
        n <= members.len(),
        forall|i: int| 0 <= i < n ==> prompt_in((#[trigger] members[i]).1) is None,
        n < members.len() ==> prompt_in(members[n as int].1) is Some,
    ensures
        prompt_in_members(members) == if n < members.len() {
            prompt_in(members[n as int].1)
        } else {
            None
        },
    decreases n,
{
    if n > 0 {
        let rest = members.skip(1);
        assert(prompt_in(members[0].1) is None);
        assert forall|i: int| 0 <= i < n - 1 implies prompt_in((#[trigger] rest[i]).1) is None by {
            assert(rest[i] == members[i + 1]);
        }
        lemma_first_in_members(rest, (n - 1) as nat);
    }
}

proof fn lemma_first_in_items(items: Seq<JsonTree>, n: nat)
    requires
        n <= items.len(),
        forall|i: int| 0 <= i < n ==> prompt_in(#[trigger] items[i]) is None,
        n < items.len() ==> prompt_in(items[n as int]) is Some,
    ensures
        prompt_in_items(items) == if n < items.len() {
            prompt_in(items[n as int])
        } else {
            None
        },
    decreases n,
{
    if n > 0 {
        let rest = items.skip(1);
        assert(prompt_in(items[0]) is None);
        assert forall|i: int| 0 <= i < n - 1 implies prompt_in(#[trigger] rest[i]) is None by {
            assert(rest[i] == items[i + 1]);
        }
        lemma_first_in_items(rest, (n - 1) as nat);
    }
}

/// What a document in the input says: a prompt that is found in it, or that there is none.
pub proof fn law_documents_hold_a_prompt_or_none(text: Seq<char>, doc: JsonTree)
    requires
        parsed(text) == Some(doc),
        !(doc is Text),
    ensures
        prompt_of(text) == match prompt_in(doc) {
            Some(said) => Ok::<Seq<char>, PromptError>(said),
            None => Err(PromptError::FieldNotFound),
        },
{
}

/// What a result with a string says.
pub open spec fn result_text(r: Result<String, PromptError>) -> Result<Seq<char>, PromptError> {
    match r {
        Ok(s) => Ok(s@),
        Err(e) => Err(e),
    }
}

/// Searches a JSON value, recursively, for a `prompt`, `user_prompt` or `input` text.
pub fn prompt_field(value: &Json) -> (r: Option<String>)
    ensures
        opt_text(r) == prompt_in(value.tree()),
    decreases value,
{
    broadcast use {lemma_array_tree, lemma_object_tree};

    match value {
        Json::Object(members) => {
            if let Some(s) = value.member_text("prompt") {
                return Some(s);
            }
            if let Some(s) = value.member_text("user_prompt") {
                return Some(s);
            }
            if let Some(s) = value.member_text("input") {
                return Some(s);
            }
            let ghost all = member_trees(members@);
            let mut i: usize = 0;
            assert(all.skip(0) == all);
            while i < members.len()
                invariant
                    i <= members@.len(),
                    *value == Json::Object(*members),
                    all == member_trees(members@),
                    prompt_in(value.tree()) == prompt_in_members(all),
                    prompt_in_members(all) == prompt_in_members(all.skip(i as int)),
                decreases members@.len() - i,
            {
                assert(all.skip(i as int)[0].1 == members@[i as int].1.tree());
                assert(all.skip(i as int).skip(1) == all.skip(i + 1));
                let found = prompt_field(&members[i].1);
                if found.is_some() {
                    return found;
                }
                i += 1;
            }
            None
        },
        Json::Array(items) => {
            let ghost all = trees(items@);
            let mut i: usize = 0;
            assert(all.skip(0) == all);
            while i < items.len()
                invariant
                    i <= items@.len(),
                    *value == Json::Array(*items),
                    all == trees(items@),
                    prompt_in(value.tree()) == prompt_in_items(all),
                    prompt_in_items(all) == prompt_in_items(all.skip(i as int)),
                decreases items@.len() - i,
            {
                assert(all.skip(i as int)[0] == items@[i as int].tree());
                assert(all.skip(i as int).skip(1) == all.skip(i + 1));
                let found = prompt_field(&items[i]);
                if found.is_some() {
                    return found;
                }
                i += 1;
            }
            None
        },
        _ => None,
    }
}

/// The prompt in the input, where that is the document `doc`.
pub fn document_prompt(doc: &Json) -> (r: Result<String, PromptError>)
    ensures
        result_text(r) == prompt_of_document(doc.tree()),
{
    match doc {
        Json::Text(s) => Ok(s.clone()),
        _ => match prompt_field(doc) {
            Some(s) => Ok(s),
            None => Err(PromptError::FieldNotFound),
        },
    }
}

/// Extracts the prompt from the payload of an agent's hook, or takes the input as plain text.
pub fn extract_prompt(data: &[u8]) -> (r: Result<String, PromptError>)
    ensures
        result_text(r) == prompt_of(utf8_lossy(data@)),
{
    let text = lossy_text(data);
    match parse_json(text.as_str()) {
        Some(doc) => document_prompt(&doc),
        None => Ok(text),
    }
}

} // verus!

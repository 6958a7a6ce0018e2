//! Installing the hook that records every prompt.

use vstd::prelude::*;

use crate::json::{
    find_member, lemma_array_tree, lemma_member_index, lemma_member_index_is, lemma_object_tree,
    member_index, member_trees, parse_json, parsed, position_of, trees, Json, JsonTree,
};
use crate::text::{same, starts_with};

verus! {

/// What installing the hook did to the settings.
#[derive(Debug, Clone, Copy, PartialEq, Eq, Structural)]
pub enum InstallOutcome {
    Installed,
    Updated,
    AlreadyExists,
}

// ---------------------------------------------------------------------------
// Model
// ---------------------------------------------------------------------------

/// `members` with the first member called `name` set to `value`, or with such a member added at
/// the end.
pub open spec fn with_member(
    members: Seq<(Seq<char>, JsonTree)>,
    name: Seq<char>,
    value: JsonTree,
) -> Seq<(Seq<char>, JsonTree)> {
    let i = member_index(members, name);
    if i < members.len() {
        members.update(i as int, (name, value))
    } else {
        members.push((name, value))
    }
}

/// The members of `settings`; none where it is no object.
pub open spec fn members_of(settings: JsonTree) -> Seq<(Seq<char>, JsonTree)> {
    match settings {
        JsonTree::Object(members) => members,
        _ => seq![],
    }
}

/// The hooks of `settings`, by the event that they listen to; none where they are malformed.
pub open spec fn events_of(settings: JsonTree) -> Seq<(Seq<char>, JsonTree)> {
    match find_member(members_of(settings), "hooks"@) {
        Some(hooks) => members_of(hooks),
        None => seq![],
    }
}

/// The items of an array; none where `value` is no array.
pub open spec fn items_of(value: JsonTree) -> Seq<JsonTree> {
    match value {
        JsonTree::Array(items) => items,
        _ => seq![],
    }
}

/// The entries of `settings` that listen to submitted prompts; none where they are malformed.
pub open spec fn entries_of(settings: JsonTree) -> Seq<JsonTree> {
    match find_member(events_of(settings), "UserPromptSubmit"@) {
        Some(entries) => items_of(entries),
        None => seq![],
    }
}

/// The hooks of an entry; none where they are malformed.
pub open spec fn hooks_of(entry: JsonTree) -> Seq<JsonTree> {
    match entry.member("hooks"@) {
        Some(hooks) => items_of(hooks),
        None => seq![],
    }
}

/// Whether a hook runs the program `binary`.
pub open spec fn hook_runs(hook: JsonTree, binary: Seq<char>) -> bool {
    match hook.member_text("command"@) {
        Some(command) => binary.is_prefix_of(command),
        None => false,
    }
}

/// Where the first hook that runs `binary` stands; `hooks.len()` where there is none.
pub open spec fn hook_index(hooks: Seq<JsonTree>, binary: Seq<char>) -> nat
    decreases hooks.len(),
{
    if hooks.len() == 0 || hook_runs(hooks[0], binary) {
        0
    } else {
        1 + hook_index(hooks.skip(1), binary)
    }
}

/// Whether one of the hooks of an entry runs the program `binary`.
pub open spec fn runs(entry: JsonTree, binary: Seq<char>) -> bool {
    hook_index(hooks_of(entry), binary) < hooks_of(entry).len()
}

/// The command of the first hook of an entry that runs `binary`.
pub open spec fn entry_command(entry: JsonTree, binary: Seq<char>) -> Option<Seq<char>> {
    if runs(entry, binary) {
        hooks_of(entry)[hook_index(hooks_of(entry), binary) as int].member_text("command"@)
    } else {
        None
    }
}

/// Where the first entry that runs `binary` stands; `entries.len()` where there is none.
pub open spec fn entry_index(entries: Seq<JsonTree>, binary: Seq<char>) -> nat
    decreases entries.len(),
{
    if entries.len() == 0 || runs(entries[0], binary) {
        0
    } else {
        1 + entry_index(entries.skip(1), binary)
    }
}

/// An entry with one hook, which runs `command`.
pub open spec fn fresh_entry(command: Seq<char>) -> JsonTree {
    JsonTree::Object(
        seq![
            (
                "hooks"@,
                JsonTree::Array(
                    seq![
                        JsonTree::Object(
                            seq![
                                ("type"@, JsonTree::Text("command"@)),
                                ("command"@, JsonTree::Text(command)),
                            ],
                        ),
                    ],
                ),
            ),
        ],
    )
}

/// `hook` with its command set to `command`.
pub open spec fn changed_hook(hook: JsonTree, command: Seq<char>) -> JsonTree {
    JsonTree::Object(with_member(members_of(hook), "command"@, JsonTree::Text(command)))
}

/// `entry` with the command of its first hook that runs `binary` set to `command`.
pub open spec fn with_command(entry: JsonTree, binary: Seq<char>, command: Seq<char>) -> JsonTree {
    let hooks = hooks_of(entry);
    let h = hook_index(hooks, binary) as int;
    JsonTree::Object(
        with_member(
            members_of(entry),
            "hooks"@,
            JsonTree::Array(hooks.update(h, changed_hook(hooks[h], command))),
        ),
    )
}

/// What happens to the entries when a hook is installed that runs `command` of `binary`.
pub open spec fn upsert_entries(
    entries: Seq<JsonTree>,
    binary: Seq<char>,
    command: Seq<char>,
) -> (Seq<JsonTree>, InstallOutcome) {
    let i = entry_index(entries, binary);
    if i >= entries.len() {
        (entries.push(fresh_entry(command)), InstallOutcome::Installed)
    } else if entry_command(entries[i as int], binary) == Some(command) {
        (entries, InstallOutcome::AlreadyExists)
    } else {
        (
            entries.update(i as int, with_command(entries[i as int], binary, command)),
            InstallOutcome::Updated,
        )
    }
}

/// `settings` with `entries` as those that listen to submitted prompts.
pub open spec fn with_entries(settings: JsonTree, entries: Seq<JsonTree>) -> JsonTree {
    JsonTree::Object(
        with_member(
            members_of(settings),
            "hooks"@,
            JsonTree::Object(
                with_member(
                    events_of(settings),
                    "UserPromptSubmit"@,
                    JsonTree::Array(entries),
                ),
            ),
        ),
    )
}

/// What happens to `settings` when a hook is installed that runs `command` of `binary`.
pub open spec fn upsert(settings: JsonTree, binary: Seq<char>, command: Seq<char>) -> (
    JsonTree,
    InstallOutcome,
) {
    let (entries, outcome) = upsert_entries(entries_of(settings), binary, command);
    (with_entries(settings, entries), outcome)
}

// ---------------------------------------------------------------------------
// Lemmas
// ---------------------------------------------------------------------------

proof fn lemma_hook_index(hooks: Seq<JsonTree>, binary: Seq<char>)
    ensures
        hook_index(hooks, binary) <= hooks.len(),
        forall|i: int| 0 <= i < hook_index(hooks, binary) ==> !hook_runs(hooks[i], binary),
        hook_index(hooks, binary) < hooks.len() ==> hook_runs(
            hooks[hook_index(hooks, binary) as int],
            binary,
        ),
    decreases hooks.len(),
{
    if hooks.len() > 0 && !hook_runs(hooks[0], binary) {
        lemma_hook_index(hooks.skip(1), binary);
        assert forall|i: int| 0 <= i < hook_index(hooks, binary) implies !hook_runs(
            hooks[i],
            binary,
        ) by {
            if i > 0 {
                assert(hooks[i] == hooks.skip(1)[i - 1]);
            }
        }
    }
}

proof fn lemma_hook_index_is(hooks: Seq<JsonTree>, binary: Seq<char>, n: nat)
    requires
        n <= hooks.len(),
        forall|i: int| 0 <= i < n ==> !hook_runs(hooks[i], binary),
        n < hooks.len() ==> hook_runs(hooks[n as int], binary),
    ensures
        hook_index(hooks, binary) == n,
{
    lemma_hook_index(hooks, binary);
    let m = hook_index(hooks, binary);
    if m < n {
        assert(hook_runs(hooks[m as int], binary));
    } else if n < m {
        assert(hook_runs(hooks[n as int], binary));
    }
}

proof fn lemma_entry_index(entries: Seq<JsonTree>, binary: Seq<char>)
    ensures
        entry_index(entries, binary) <= entries.len(),
        forall|i: int| 0 <= i < entry_index(entries, binary) ==> !runs(entries[i], binary),
        entry_index(entries, binary) < entries.len() ==> runs(
            entries[entry_index(entries, binary) as int],
            binary,
        ),
    decreases entries.len(),
{
    if entries.len() > 0 && !runs(entries[0], binary) {
        lemma_entry_index(entries.skip(1), binary);
        assert forall|i: int| 0 <= i < entry_index(entries, binary) implies !runs(
            entries[i],
            binary,
        ) by {
            if i > 0 {
                assert(entries[i] == entries.skip(1)[i - 1]);
            }
        }
    }
}

proof fn lemma_entry_index_is(entries: Seq<JsonTree>, binary: Seq<char>, n: nat)
    requires
        n <= entries.len(),
        forall|i: int| 0 <= i < n ==> !runs(entries[i], binary),
        n < entries.len() ==> runs(entries[n as int], binary),
    ensures
        entry_index(entries, binary) == n,
{
    lemma_entry_index(entries, binary);
    let m = entry_index(entries, binary);
    if m < n {
        assert(runs(entries[m as int], binary));
    } else if n < m {
        assert(runs(entries[n as int], binary));
    }
}

/// Setting a member makes it the one that is found, and leaves every other member as it was.
pub proof fn lemma_with_member(
    members: Seq<(Seq<char>, JsonTree)>,
    name: Seq<char>,
    value: JsonTree,
)
    ensures
        find_member(with_member(members, name, value), name) == Some(value),
        member_index(with_member(members, name, value), name) == member_index(members, name),
        forall|other: Seq<char>|
            other != name ==> #[trigger] find_member(with_member(members, name, value), other)
                == find_member(members, other),
{
    let after = with_member(members, name, value);
    let i = member_index(members, name);
    lemma_member_index(members, name);
    lemma_member_index_is(after, name, i);
    lemma_member_index(after, name);
    assert forall|other: Seq<char>| other != name implies #[trigger] find_member(after, other)
        == find_member(members, other) by {
        let k = member_index(members, other);
        lemma_member_index(members, other);
        if k < members.len() {
            lemma_member_index_is(after, other, k);
        } else {
            lemma_member_index_is(after, other, after.len());
        }
        lemma_member_index(after, other);
    }
}

/// Setting a member twice is setting it once, to the later value.
proof fn lemma_with_member_twice(
    members: Seq<(Seq<char>, JsonTree)>,
    name: Seq<char>,
    first: JsonTree,
    second: JsonTree,
)
    ensures
        with_member(with_member(members, name, first), name, second) == with_member(
            members,
            name,
            second,
        ),
{
    lemma_with_member(members, name, first);
    lemma_member_index(members, name);
    assert(with_member(with_member(members, name, first), name, second) =~= with_member(
        members,
        name,
        second,
    ));
}

/// What the parts of the settings are after the entries have been set.
proof fn lemma_with_entries(settings: JsonTree, entries: Seq<JsonTree>)
    ensures
        entries_of(with_entries(settings, entries)) == entries,
        forall|again: Seq<JsonTree>| #[trigger]
            with_entries(with_entries(settings, entries), again) == with_entries(settings, again),
{
    let hooks = JsonTree::Object(
        with_member(events_of(settings), "UserPromptSubmit"@, JsonTree::Array(entries)),
    );
    lemma_with_member(members_of(settings), "hooks"@, hooks);
    lemma_with_member(events_of(settings), "UserPromptSubmit"@, JsonTree::Array(entries));
    assert forall|again: Seq<JsonTree>| #[trigger]
        with_entries(with_entries(settings, entries), again) == with_entries(settings, again) by {
        let later = JsonTree::Object(
            with_member(events_of(settings), "UserPromptSubmit"@, JsonTree::Array(again)),
        );
        lemma_with_member_twice(
            events_of(settings),
            "UserPromptSubmit"@,
            JsonTree::Array(entries),
            JsonTree::Array(again),
        );
        lemma_with_member_twice(members_of(settings), "hooks"@, hooks, later);
    }
}

/// Setting the command of a hook leaves the other hooks, and everything else in the entry and in
/// the hook, as it was.
proof fn lemma_with_command(entry: JsonTree, binary: Seq<char>, command: Seq<char>)
    requires
        runs(entry, binary),
    ensures
        ({
            let hooks = hooks_of(entry);
            let h = hook_index(hooks, binary) as int;
            let after = with_command(entry, binary, command);
            &&& hooks_of(after) == hooks.update(h, changed_hook(hooks[h], command))
            &&& hooks_of(after)[h].member_text("command"@) == Some(command)
            &&& forall|name: Seq<char>|
                name != "command"@ ==> #[trigger] find_member(members_of(hooks_of(after)[h]), name)
                    == find_member(members_of(hooks[h]), name)
            &&& forall|name: Seq<char>|
                name != "hooks"@ ==> #[trigger] find_member(members_of(after), name) == find_member(
                    members_of(entry),
                    name,
                )
        }),
{
    let hooks = hooks_of(entry);
    let h = hook_index(hooks, binary) as int;
    let list = JsonTree::Array(hooks.update(h, changed_hook(hooks[h], command)));
    lemma_with_member(members_of(hooks[h]), "command"@, JsonTree::Text(command));
    lemma_with_member(members_of(entry), "hooks"@, list);
    assert(hooks_of(with_command(entry, binary, command)) == items_of(list));
}

/// The hook whose command is set is the one that is found.
proof fn lemma_command_is_found(entry: JsonTree, binary: Seq<char>, command: Seq<char>)
    requires
        runs(entry, binary),
        binary.is_prefix_of(command),
    ensures
        runs(with_command(entry, binary, command), binary),
        entry_command(with_command(entry, binary, command), binary) == Some(command),
{
    let hooks = hooks_of(entry);
    let h = hook_index(hooks, binary);
    lemma_with_command(entry, binary, command);
    lemma_hook_index(hooks, binary);
    let after = hooks_of(with_command(entry, binary, command));
    assert forall|i: int| 0 <= i < h implies !hook_runs(after[i], binary) by {
        assert(after[i] == hooks[i]);
    }
    assert(hook_runs(after[h as int], binary));
    lemma_hook_index_is(after, binary, h);
}

proof fn lemma_fresh_entry(command: Seq<char>)
    ensures
        hooks_of(fresh_entry(command)).len() == 1,
        hooks_of(fresh_entry(command))[0].member_text("command"@) == Some(command),
{
    reveal_strlit("type");
    reveal_strlit("command");
    let hook = seq![
        ("type"@, JsonTree::Text("command"@)),
        ("command"@, JsonTree::Text(command)),
    ];
    let members = members_of(fresh_entry(command));
    assert("type"@.len() != "command"@.len());
    lemma_member_index_is(members, "hooks"@, 0);
    lemma_member_index(members, "hooks"@);
    lemma_member_index_is(hook, "command"@, 1);
    lemma_member_index(hook, "command"@);
}

/// A new entry runs the program of its command.
proof fn lemma_fresh_entry_runs(binary: Seq<char>, command: Seq<char>)
    requires
        binary.is_prefix_of(command),
    ensures
        runs(fresh_entry(command), binary),
        entry_command(fresh_entry(command), binary) == Some(command),
{
    lemma_fresh_entry(command);
    assert(hook_runs(hooks_of(fresh_entry(command))[0], binary));
    lemma_hook_index_is(hooks_of(fresh_entry(command)), binary, 0);
}

// ---------------------------------------------------------------------------
// Laws
// ---------------------------------------------------------------------------

/// Installing a hook a second time finds it and changes nothing.
pub proof fn law_install_is_idempotent(
    settings: JsonTree,
    binary: Seq<char>,
    command: Seq<char>,
)
    requires
        binary.is_prefix_of(command),
    ensures
        upsert(upsert(settings, binary, command).0, binary, command) == (
            upsert(settings, binary, command).0,
            InstallOutcome::AlreadyExists,
        ),
{
    let before = entries_of(settings);
    let (after, _outcome) = upsert_entries(before, binary, command);
    let i = entry_index(before, binary);
    lemma_entry_index(before, binary);
    lemma_fresh_entry_runs(binary, command);
    if i < before.len() {
        lemma_command_is_found(before[i as int], binary, command);
    }
    lemma_entry_index_is(after, binary, i);
    lemma_with_entries(settings, after);
}

/// A hook that was installed with one command is updated, and no second one is added, when it is
/// installed with another command of the same program.
pub proof fn law_install_updates_in_place(
    settings: JsonTree,
    binary: Seq<char>,
    first: Seq<char>,
    second: Seq<char>,
)
    requires
        binary.is_prefix_of(first),
        binary.is_prefix_of(second),
        first != second,
    ensures
        ({
            let once = upsert(settings, binary, first).0;
            let (twice, outcome) = upsert(once, binary, second);
            let i = entry_index(entries_of(once), binary);
            &&& outcome == InstallOutcome::Updated
            &&& entries_of(twice).len() == entries_of(once).len()
            &&& i < entries_of(once).len()
            &&& entry_command(entries_of(twice)[i as int], binary) == Some(second)
            &&& forall|k: int|
                0 <= k < entries_of(once).len() && k != i ==> entries_of(twice)[k] == entries_of(
                    once,
                )[k]
        }),
{
    let before = entries_of(settings);
    let (after, _outcome) = upsert_entries(before, binary, first);
    let i = entry_index(before, binary);
    lemma_entry_index(before, binary);
    lemma_fresh_entry_runs(binary, first);
    if i < before.len() {
        lemma_command_is_found(before[i as int], binary, first);
    }
    lemma_entry_index_is(after, binary, i);
    lemma_with_entries(settings, after);
    let (last, _outcome) = upsert_entries(after, binary, second);
    lemma_command_is_found(after[i as int], binary, second);
    lemma_with_entries(upsert(settings, binary, first).0, last);
}

/// Installing a hook leaves every unrelated setting, every hook on another event, every other entry
/// on submitted prompts, and in an entry that is updated every other hook as it was.
pub proof fn law_install_preserves_the_rest(
    settings: JsonTree,
    binary: Seq<char>,
    command: Seq<char>,
)
    ensures
        ({
            let (after, outcome) = upsert(settings, binary, command);
            let i = entry_index(entries_of(settings), binary);
            &&& forall|name: Seq<char>|
                name != "hooks"@ ==> #[trigger] find_member(members_of(after), name)
                    == find_member(members_of(settings), name)
            &&& forall|event: Seq<char>|
                event != "UserPromptSubmit"@ ==> #[trigger] find_member(events_of(after), event)
                    == find_member(events_of(settings), event)
            &&& forall|k: int|
                0 <= k < entries_of(settings).len() && k != i ==> entries_of(after)[k]
                    == entries_of(settings)[k]
            &&& outcome == InstallOutcome::Installed <==> i == entries_of(settings).len()
            &&& entries_of(after).len() == entries_of(settings).len() + if outcome
                == InstallOutcome::Installed {
                1int
            } else {
                0
            }
            &&& i < entries_of(after).len()
            &&& if outcome == InstallOutcome::Installed {
                entries_of(after)[i as int] == fresh_entry(command)
            } else {
                let old = entries_of(settings)[i as int];
                let new = entries_of(after)[i as int];
                let h = hook_index(hooks_of(old), binary) as int;
                &&& hooks_of(new).len() == hooks_of(old).len()
                &&& 0 <= h < hooks_of(old).len()
                &&& hooks_of(new)[h].member_text("command"@) == Some(command)
                &&& forall|k: int|
                    0 <= k < hooks_of(old).len() && k != h ==> hooks_of(new)[k] == hooks_of(old)[k]
                &&& forall|name: Seq<char>|
                    name != "command"@ ==> #[trigger] find_member(
                        members_of(hooks_of(new)[h]),
                        name,
                    ) == find_member(members_of(hooks_of(old)[h]), name)
                &&& forall|name: Seq<char>|
                    name != "hooks"@ ==> #[trigger] find_member(members_of(new), name)
                        == find_member(members_of(old), name)
            }
        }),
{
    let before = entries_of(settings);
    let (entries, _outcome) = upsert_entries(before, binary, command);
    let i = entry_index(before, binary);
    lemma_entry_index(before, binary);
    if i < before.len() {
        lemma_with_command(before[i as int], binary, command);
    }
    lemma_with_entries(settings, entries);
    lemma_with_member(events_of(settings), "UserPromptSubmit"@, JsonTree::Array(entries));
    lemma_with_member(
        members_of(settings),
        "hooks"@,
        JsonTree::Object(
            with_member(events_of(settings), "UserPromptSubmit"@, JsonTree::Array(entries)),
        ),
    );
}

/// Where no hook on submitted prompts runs the program, an entry with one hook that runs the
/// command comes behind the entries that there are, and everything else in the settings stays.
/// Hooks that are no object, and entries that are no list, count as none.
pub proof fn law_missing_hooks_are_added(
    settings: JsonTree,
    hooks: JsonTree,
    entries: Seq<JsonTree>,
    binary: Seq<char>,
    command: Seq<char>,
)
    requires
        settings is Object,
        hooks == match settings.member("hooks"@) {
            Some(JsonTree::Object(events)) => JsonTree::Object(events),
            _ => JsonTree::Object(seq![]),
        },
        entries == match hooks.member("UserPromptSubmit"@) {
            Some(JsonTree::Array(items)) => items,
            _ => seq![],
        },
        forall|i: int, h: int, list: Seq<JsonTree>, text: Seq<char>|
            0 <= i < entries.len() && 0 <= h < list.len() && #[trigger] entries[i].member(
                "hooks"@,
            ) == Some(JsonTree::Array(list)) && #[trigger] list[h].member("command"@) == Some(
                JsonTree::Text(text),
            ) ==> !(#[trigger] binary.is_prefix_of(text)),
    ensures
        ({
            let (after, outcome) = upsert(settings, binary, command);
            let hook = JsonTree::Object(
                seq![
                    ("type"@, JsonTree::Text("command"@)),
                    ("command"@, JsonTree::Text(command)),
                ],
            );
            let entry = JsonTree::Object(seq![("hooks"@, JsonTree::Array(seq![hook]))]);
            &&& outcome == InstallOutcome::Installed
            &&& after.member("hooks"@) matches Some(now)
            &&& now.member("UserPromptSubmit"@) == Some(JsonTree::Array(entries.push(entry)))
            &&& forall|name: Seq<char>|
                name != "UserPromptSubmit"@ ==> #[trigger] now.member(name) == hooks.member(name)
            &&& forall|name: Seq<char>|
                name != "hooks"@ ==> #[trigger] after.member(name) == settings.member(name)
        }),
{
    assert(entries_of(settings) =~= entries);
    assert forall|i: int| 0 <= i < entries.len() implies !runs(entries[i], binary) by {
        let list = hooks_of(entries[i]);
        lemma_hook_index(list, binary);
        if runs(entries[i], binary) {
            let h = hook_index(list, binary) as int;
            assert(hook_runs(list[h], binary));
            assert(entries[i].member("hooks"@) == Some(JsonTree::Array(list)));
            let text = list[h].member_text("command"@)->0;
            assert(list[h].member("command"@) == Some(JsonTree::Text(text)));
            assert(!binary.is_prefix_of(text));
        }
    }
    lemma_entry_index_is(entries, binary, entries.len());
    lemma_installed(settings, hooks, entries.push(fresh_entry(command)));
}

/// What the settings hold after the entries have been set.
proof fn lemma_installed(settings: JsonTree, hooks: JsonTree, entries: Seq<JsonTree>)
    requires
        settings is Object,
        hooks == match settings.member("hooks"@) {
            Some(JsonTree::Object(events)) => JsonTree::Object(events),
            _ => JsonTree::Object(seq![]),
        },
    ensures
        ({
            let after = with_entries(settings, entries);
            &&& after.member("hooks"@) matches Some(now)
            &&& now.member("UserPromptSubmit"@) == Some(JsonTree::Array(entries))
            &&& forall|name: Seq<char>|
                name != "UserPromptSubmit"@ ==> #[trigger] now.member(name) == hooks.member(name)
            &&& forall|name: Seq<char>|
                name != "hooks"@ ==> #[trigger] after.member(name) == settings.member(name)
        }),
{
    let after = with_entries(settings, entries);
    let now = JsonTree::Object(
        with_member(events_of(settings), "UserPromptSubmit"@, JsonTree::Array(entries)),
    );
    lemma_with_member(events_of(settings), "UserPromptSubmit"@, JsonTree::Array(entries));
    lemma_with_member(members_of(settings), "hooks"@, now);
    assert(after.member("hooks"@) == Some(now));
    assert(hooks == JsonTree::Object(events_of(settings)));
    assert forall|name: Seq<char>| name != "UserPromptSubmit"@ implies #[trigger] now.member(name)
        == hooks.member(name) by {
        assert(find_member(
            with_member(events_of(settings), "UserPromptSubmit"@, JsonTree::Array(entries)),
            name,
        ) == find_member(events_of(settings), name));
    }
    assert forall|name: Seq<char>| name != "hooks"@ implies #[trigger] after.member(name)
        == settings.member(name) by {
        assert(find_member(with_member(members_of(settings), "hooks"@, now), name) == find_member(
            members_of(settings),
            name,
        ));
    }
}

/// The first hook on submitted prompts whose command begins with the program is the one that is
/// installed: it stays where it has the command, and else gets it. Nothing else changes.
pub proof fn law_installed_hooks_are_updated(
    settings: JsonTree,
    hooks: JsonTree,
    entries: Seq<JsonTree>,
    i: int,
    list: Seq<JsonTree>,
    h: int,
    current: Seq<char>,
    binary: Seq<char>,
    command: Seq<char>,
)
    requires
        settings is Object,
        settings.member("hooks"@) == Some(hooks),
        hooks.member("UserPromptSubmit"@) == Some(JsonTree::Array(entries)),
        0 <= i < entries.len(),
        entries[i].member("hooks"@) == Some(JsonTree::Array(list)),
        0 <= h < list.len(),
        list[h].member("command"@) == Some(JsonTree::Text(current)),
        binary.is_prefix_of(current),
        forall|k: int| 0 <= k < i ==> !runs(#[trigger] entries[k], binary),
        forall|k: int, text: Seq<char>|
            0 <= k < h && #[trigger] list[k].member("command"@) == Some(JsonTree::Text(text))
                ==> !(#[trigger] binary.is_prefix_of(text)),
    ensures
        ({
            let (after, outcome) = upsert(settings, binary, command);
            &&& outcome == if current == command {
                InstallOutcome::AlreadyExists
            } else {
                InstallOutcome::Updated
            }
            &&& after.member("hooks"@) matches Some(now)
            &&& now.member("UserPromptSubmit"@) matches Some(JsonTree::Array(changed))
            &&& changed.len() == entries.len()
            &&& forall|k: int|
                0 <= k < entries.len() && k != i ==> #[trigger] changed[k] == entries[k]
            &&& changed[i].member("hooks"@) matches Some(JsonTree::Array(kept))
            &&& kept.len() == list.len()
            &&& forall|k: int| 0 <= k < list.len() && k != h ==> #[trigger] kept[k] == list[k]
            &&& kept[h].member("command"@) == Some(JsonTree::Text(command))
            &&& forall|name: Seq<char>|
                name != "command"@ ==> #[trigger] kept[h].member(name) == list[h].member(name)
            &&& forall|name: Seq<char>|
                name != "hooks"@ ==> #[trigger] changed[i].member(name) == entries[i].member(name)
            &&& forall|name: Seq<char>|
                name != "UserPromptSubmit"@ ==> #[trigger] now.member(name) == hooks.member(name)
            &&& forall|name: Seq<char>|
                name != "hooks"@ ==> #[trigger] after.member(name) == settings.member(name)
        }),
{
    let entry = entries[i];
    assert(hooks is Object);
    assert(entries_of(settings) == entries);
    assert(hooks_of(entry) == list);
    assert(hook_runs(list[h], binary));
    assert forall|k: int| 0 <= k < h implies !hook_runs(list[k], binary) by {
        if hook_runs(list[k], binary) {
            let text = list[k].member_text("command"@)->0;
            assert(list[k].member("command"@) == Some(JsonTree::Text(text)));
            assert(!binary.is_prefix_of(text));
        }
    }
    lemma_hook_index_is(list, binary, h as nat);
    assert(runs(entry, binary));
    lemma_entry_index_is(entries, binary, i as nat);
    lemma_with_command(entry, binary, command);
    let (changed, _outcome) = upsert_entries(entries, binary, command);
    lemma_installed(settings, hooks, changed);
    let kept = hooks_of(changed[i]);
    let after = with_command(entry, binary, command);
    if current != command {
        assert(list[h] is Object && entry is Object);
        assert(changed[i] == after);
        assert(kept == list.update(h, changed_hook(list[h], command)));
        lemma_with_member(
            members_of(entry),
            "hooks"@,
            JsonTree::Array(list.update(h, changed_hook(list[h], command))),
        );
        assert(changed[i].member("hooks"@) == Some(JsonTree::Array(kept)));
        lemma_with_member(members_of(list[h]), "command"@, JsonTree::Text(command));
        assert forall|name: Seq<char>| name != "command"@ implies #[trigger] kept[h].member(name)
            == list[h].member(name) by {
            assert(find_member(members_of(kept[h]), name) == find_member(
                members_of(list[h]),
                name,
            ));
        }
        assert forall|name: Seq<char>| name != "hooks"@ implies #[trigger] changed[i].member(name)
            == entry.member(name) by {
            assert(find_member(members_of(after), name) == find_member(members_of(entry), name));
        }
    } else {
        assert(changed == entries);
    }
}

/// Settings that are no object count as empty.
pub proof fn law_malformed_settings_are_replaced(
    settings: JsonTree,
    binary: Seq<char>,
    command: Seq<char>,
)
    requires
        !(settings is Object),
    ensures
        upsert(settings, binary, command) == upsert(JsonTree::Object(seq![]), binary, command),
{
    assert(members_of(settings) =~= members_of(JsonTree::Object(seq![])));
}

// ---------------------------------------------------------------------------
// Code
// ---------------------------------------------------------------------------

/// Sets the first member called `name`, or adds one at the end.
fn set_member(members: &mut Vec<(String, Json)>, name: &str, value: Json)
    ensures
        member_trees(final(members)@) == with_member(
            member_trees(old(members)@),
            name@,
            value.tree(),
        ),
{
    let ghost before = member_trees(members@);
    let found = position_of(members, name);
    let member = (name.to_owned(), value);
    match found {
        Some(i) => {
            members.set(i, member);
            assert(member_trees(members@) == before.update(i as int, (name@, value.tree())));
        },
        None => {
            members.push(member);
            assert(member_trees(members@) == before.push((name@, value.tree())));
        },
    }
}

/// Takes the value of the first member called `name` out, and leaves `Null` in its place.
fn take_member(members: &mut Vec<(String, Json)>, name: &str) -> (r: Option<Json>)
    ensures
        match r {
            Some(value) => {
                &&& find_member(member_trees(old(members)@), name@) == Some(value.tree())
                &&& member_trees(final(members)@) == with_member(
                    member_trees(old(members)@),
                    name@,
                    JsonTree::Null,
                )
            },
            None => {
                &&& find_member(member_trees(old(members)@), name@) is None
                &&& final(members)@ == old(members)@
            },
        },
{
    let ghost before = member_trees(members@);
    proof {
        lemma_member_index(before, name@);
    }
    match position_of(members, name) {
        Some(i) => {
            let (key, value) = members.remove(i);
            members.insert(i, (key, Json::Null));
            assert(before[i as int] == (key@, value.tree()));
            assert(member_trees(members@) == before.update(i as int, (name@, JsonTree::Null)));
            Some(value)
        },
        None => None,
    }
}

/// Where the first hook of an entry that runs `binary` stands, and its command.
fn find_hook(entry: &Json, binary: &str) -> (r: Option<(usize, String)>)
    ensures
        match r {
            Some((h, command)) => {
                &&& runs(entry.tree(), binary@)
                &&& h == hook_index(hooks_of(entry.tree()), binary@)
                &&& entry_command(entry.tree(), binary@) == Some(command@)
            },
            None => !runs(entry.tree(), binary@),
        },
{
    broadcast use lemma_array_tree;

    match entry.member("hooks") {
        Some(Json::Array(hooks)) => {
            let ghost all = trees(hooks@);
            let mut h: usize = 0;
            while h < hooks.len()
                invariant
                    h <= hooks@.len(),
                    all == trees(hooks@),
                    hooks_of(entry.tree()) == all,
                    forall|k: int| 0 <= k < h ==> !hook_runs(all[k], binary@),
                decreases hooks@.len() - h,
            {
                assert(all[h as int] == hooks@[h as int].tree());
                if let Some(command) = hooks[h].member_text("command") {
                    if starts_with(command.as_str(), binary) {
                        proof {
                            lemma_hook_index_is(all, binary@, h as nat);
                        }
                        return Some((h, command));
                    }
                }
                h += 1;
            }
            proof {
                lemma_hook_index_is(all, binary@, h as nat);
            }
            None
        },
        _ => None,
    }
}

/// Where the first entry that runs `binary` stands.
fn find_entry(entries: &Vec<Json>, binary: &str) -> (r: Option<usize>)
    ensures
        match r {
            Some(i) => i < entries@.len() && i == entry_index(trees(entries@), binary@),
            None => entry_index(trees(entries@), binary@) == entries@.len(),
        },
{
    let ghost all = trees(entries@);
    let mut i: usize = 0;
    while i < entries.len()
        invariant
            i <= entries@.len(),
            all == trees(entries@),
            forall|j: int| 0 <= j < i ==> !runs(all[j], binary@),
        decreases entries@.len() - i,
    {
        assert(all[i as int] == entries@[i as int].tree());
        if find_hook(&entries[i], binary).is_some() {
            proof {
                lemma_entry_index_is(all, binary@, i as nat);
            }
            return Some(i);
        }
        i += 1;
    }
    proof {
        lemma_entry_index_is(all, binary@, i as nat);
    }
    None
}

/// `entry` with the command of its hook `h`, the first that runs `binary`, set to `command`.
fn updated_entry(entry: Json, h: usize, binary: &str, command: &str) -> (r: Json)
    requires
        runs(entry.tree(), binary@),
        h == hook_index(hooks_of(entry.tree()), binary@),
    ensures
        r.tree() == with_command(entry.tree(), binary@, command@),
{
    broadcast use {lemma_array_tree, lemma_object_tree};

    proof {
        lemma_hook_index(hooks_of(entry.tree()), binary@);
    }
    match entry {
        Json::Object(mut members) => {
            let ghost before = member_trees(members@);
            match take_member(&mut members, "hooks") {
                Some(Json::Array(mut hooks)) => {
                    let ghost items = trees(hooks@);
                    let hook = hooks.remove(h);
                    assert(items[h as int] == hook.tree());
                    match hook {
                        Json::Object(mut hook) => {
                            set_member(&mut hook, "command", Json::Text(command.to_owned()));
                            let changed = Json::Object(hook);
                            hooks.insert(h, changed);
                            assert(trees(hooks@) == items.update(h as int, changed.tree()));
                            let list = Json::Array(hooks);
                            proof {
                                lemma_with_member_twice(
                                    before,
                                    "hooks"@,
                                    JsonTree::Null,
                                    list.tree(),
                                );
                            }
                            set_member(&mut members, "hooks", list);
                            Json::Object(members)
                        },
                        other => other,
                    }
                },
                _ => Json::Object(members),
            }
        },
        other => other,
    }
}

/// An entry with one hook, which runs `command`.
fn new_entry(command: &str) -> (r: Json)
    ensures
        r.tree() == fresh_entry(command@),
{
    broadcast use {lemma_array_tree, lemma_object_tree};

    let mut hook: Vec<(String, Json)> = Vec::new();
    hook.push(("type".to_owned(), Json::Text("command".to_owned())));
    hook.push(("command".to_owned(), Json::Text(command.to_owned())));
    assert(member_trees(hook@) == seq![
        ("type"@, JsonTree::Text("command"@)),
        ("command"@, JsonTree::Text(command@)),
    ]);
    let mut hooks: Vec<Json> = Vec::new();
    hooks.push(Json::Object(hook));
    assert(trees(hooks@) == seq![JsonTree::Object(member_trees(hook@))]);
    let mut entry: Vec<(String, Json)> = Vec::new();
    entry.push(("hooks".to_owned(), Json::Array(hooks)));
    assert(member_trees(entry@) == seq![("hooks"@, JsonTree::Array(trees(hooks@)))]);
    Json::Object(entry)
}

/// Installs the hook among the entries on submitted prompts.
fn upsert_into(entries: &mut Vec<Json>, binary_path: &str, command: &str) -> (r: InstallOutcome)
    ensures
        (trees(final(entries)@), r) == upsert_entries(
            trees(old(entries)@),
            binary_path@,
            command@,
        ),
{
    let ghost before = trees(entries@);
    proof {
        lemma_entry_index(before, binary_path@);
    }
    match find_entry(entries, binary_path) {
        Some(i) => {
            assert(before[i as int] == entries@[i as int].tree());
            match find_hook(&entries[i], binary_path) {
                Some((h, current)) => if same(current.as_str(), command) {
                    InstallOutcome::AlreadyExists
                } else {
                    let entry = entries.remove(i);
                    let changed = updated_entry(entry, h, binary_path, command);
                    entries.insert(i, changed);
                    assert(trees(entries@) == before.update(i as int, changed.tree()));
                    InstallOutcome::Updated
                },
                None => InstallOutcome::AlreadyExists,
            }
        },
        None => {
            let entry = new_entry(command);
            entries.push(entry);
            assert(trees(entries@) == before.push(entry.tree()));
            InstallOutcome::Installed
        },
    }
}

/// Inserts or updates the hook on submitted prompts that runs `command`.
///
/// A hook whose command starts with `binary_path` is updated in place, so that installing again
/// for a workspace that was moved adds no second one. Settings, hooks or entries that do not have
/// the right shape are replaced by empty ones.
pub fn upsert_user_prompt_hook(settings: Json, binary_path: &str, command: &str) -> (r: (
    Json,
    InstallOutcome,
))
    ensures
        (r.0.tree(), r.1) == upsert(settings.tree(), binary_path@, command@),
{
    broadcast use {lemma_array_tree, lemma_object_tree};

    let mut root: Vec<(String, Json)> = match settings {
        Json::Object(members) => members,
        _ => Vec::new(),
    };
    assert(member_trees(root@) == members_of(settings.tree()));
    let ghost root_before = member_trees(root@);
    let mut events: Vec<(String, Json)> = match take_member(&mut root, "hooks") {
        Some(Json::Object(members)) => members,
        _ => Vec::new(),
    };
    assert(member_trees(events@) == events_of(settings.tree()));
    let ghost events_before = member_trees(events@);
    let mut entries: Vec<Json> = match take_member(&mut events, "UserPromptSubmit") {
        Some(Json::Array(items)) => items,
        _ => Vec::new(),
    };
    assert(trees(entries@) == entries_of(settings.tree()));
    let outcome = upsert_into(&mut entries, binary_path, command);
    let list = Json::Array(entries);
    proof {
        lemma_with_member_twice(
            events_before,
            "UserPromptSubmit"@,
            JsonTree::Null,
            list.tree(),
        );
    }
    set_member(&mut events, "UserPromptSubmit", list);
    let hooks = Json::Object(events);
    proof {
        lemma_with_member_twice(root_before, "hooks"@, JsonTree::Null, hooks.tree());
    }
    set_member(&mut root, "hooks", hooks);
    (Json::Object(root), outcome)
}

/// The command of the hook: it hands each prompt to `add` for the workspace.
pub fn hook_command(binary: &str, workspace_root: &str) -> (r: String)
    ensures
        r@ == binary@ + " add -p "@ + workspace_root@,
        // So the hook is found again when it is installed for another workspace.
        binary@.is_prefix_of(r@),
{
    let r = binary.to_owned().concat(" add -p ").concat(workspace_root);
    assert(r@.subrange(0, binary@.len() as int) =~= binary@);
    r
}

/// The settings with the hook for a workspace, and what that did to them. `existing` is the
/// content of the settings file at `path`, where there is one; a message where that is not JSON.
pub fn install_hook(
    existing: Option<&str>,
    path: &str,
    binary: &str,
    workspace_root: &str,
) -> (r: Result<(Json, InstallOutcome), String>)
    ensures
        ({
            let command = binary@ + " add -p "@ + workspace_root@;
            let settings = match existing {
                Some(text) => parsed(text@),
                None => Some(JsonTree::Object(seq![])),
            };
            match settings {
                Some(tree) => r matches Ok(done) && (done.0.tree(), done.1) == upsert(
                    tree,
                    binary@,
                    command,
                ),
                None => r matches Err(message) && message@ == path@ + " is not valid JSON"@,
            }
        }),
{
    let settings = match existing {
        Some(text) => parse_json(text),
        None => Some(empty_object()),
    };
    match settings {
        Some(settings) => Ok(
            upsert_user_prompt_hook(
                settings,
                binary,
                hook_command(binary, workspace_root).as_str(),
            ),
        ),
        None => Err(path.to_owned().concat(" is not valid JSON")),
    }
}

/// An object without members.
fn empty_object() -> (r: Json)
    ensures
        r.tree() == JsonTree::Object(seq![]),
{
    broadcast use lemma_object_tree;

    let r = Json::Object(Vec::new());
    assert(r.tree()->Object_0 =~= seq![]);
    r
}

impl InstallOutcome {
    /// What is said of the outcome; `path` is where the settings are.
    pub fn message(&self, path: &str) -> (r: String)
        ensures
            r@ == match *self {
                InstallOutcome::Installed => "Hook installed to "@,
                InstallOutcome::Updated => "Hook updated in "@,
                InstallOutcome::AlreadyExists => "Hook already present in "@,
            } + path@,
    {
        let what = match self {
            InstallOutcome::Installed => "Hook installed to ",
            InstallOutcome::Updated => "Hook updated in ",
            InstallOutcome::AlreadyExists => "Hook already present in ",
        };
        what.to_owned().concat(path)
    }
}

} // verus!

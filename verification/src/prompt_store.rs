//! Records the prompts that a user sends to coding agents and folds them into commit messages.
//!
//! Prompts are kept in one append-only log for each workspace, outside of it, and later inserted
//! into the generated description as a quoted section. Only the user's instructions are stored.

use sha2::Digest;
use vstd::prelude::*;
use vstd::utf8::{encode_utf8, encode_utf8_decode_utf8};

use crate::paths::PathParts;
use crate::prompt_entry::{record_of, write_entry, EntryView};
use crate::prompt_input::{extract_prompt, prompt_of, PromptError};
use crate::prompt_log::log_entry;
use crate::prompt_time::{adds_prompt, law_added_prompts_are_read_back};
use crate::text::{is_blank, trim, utf8_lossy};

verus! {

/// The heading of the section with the recorded prompts, unless another one is configured.
pub const DEFAULT_HEADING: &'static str = "AI Instructions";

/// Where prompts are stored, and how the section that quotes them is headed.
pub struct PromptStore {
    pub storage_dir: PathParts,
    pub heading: String,
}

/// What SHA-256 makes of a message.
pub uninterp spec fn sha256(message: Seq<u8>) -> Seq<u8>;

/// `sha2::Sha256::digest`: the SHA-256 digest of the bytes, which is 32 bytes long.
#[verifier::external_body]
fn sha256_digest(message: &[u8]) -> (r: Vec<u8>)
    ensures
        r@ == sha256(message@),
        r@.len() == 32,
{
    sha2::Sha256::digest(message).to_vec()
}

/// The hexadecimal digit `d`.
pub open spec fn hex_digit(d: nat) -> char {
    if d < 10 {
        (48 + d) as char
    } else {
        (87 + d) as char
    }
}

/// The bytes in hexadecimal notation, two digits for each.
pub open spec fn hex(bytes: Seq<u8>) -> Seq<char>
    decreases bytes.len(),
{
    if bytes.len() == 0 {
        seq![]
    } else {
        let b = bytes.last() as nat;
        hex(bytes.drop_last()) + seq![hex_digit(b / 16), hex_digit(b % 16)]
    }
}

/// The identifier of the workspace whose canonical path is `path`.
pub open spec fn workspace_id(path: Seq<char>) -> Seq<char> {
    hex(sha256(encode_utf8(path)))
}

/// The path of the log of a workspace, below the storage directory.
pub open spec fn log_path_of(storage: Seq<Seq<u8>>, workspace: Seq<char>) -> Seq<Seq<u8>> {
    storage.push(encode_utf8("workspaces"@)).push(
        encode_utf8(workspace_id(workspace) + ".jsonl"@),
    )
}

/// Whether a character is a hexadecimal digit, with small letters.
pub open spec fn is_hex_digit(c: char) -> bool {
    '0' <= c <= '9' || 'a' <= c <= 'f'
}

proof fn lemma_hex(bytes: Seq<u8>)
    ensures
        hex(bytes).len() == 2 * bytes.len(),
        forall|i: int| 0 <= i < hex(bytes).len() ==> is_hex_digit(#[trigger] hex(bytes)[i]),
    decreases bytes.len(),
{
    if bytes.len() > 0 {
        let front = hex(bytes.drop_last());
        lemma_hex(bytes.drop_last());
        assert forall|i: int| 0 <= i < hex(bytes).len() implies is_hex_digit(
            #[trigger] hex(bytes)[i],
        ) by {
            if i < front.len() {
                assert(hex(bytes)[i] == front[i]);
            }
        }
    }
}

/// Different bytes have different notations.
pub proof fn law_hex_tells_bytes_apart(a: Seq<u8>, b: Seq<u8>)
    requires
        a != b,
    ensures
        hex(a) != hex(b),
    decreases a.len(),
{
    lemma_hex(a);
    lemma_hex(b);
    if hex(a) == hex(b) {
        if a.len() == 0 {
            assert(a =~= b);
        } else {
            let n = hex(a).len();
            let x = a.last() as nat;
            let y = b.last() as nat;
            lemma_hex(a.drop_last());
            lemma_hex(b.drop_last());
            assert(hex(a)[n - 2] == hex_digit(x / 16) && hex(a)[n - 1] == hex_digit(x % 16));
            assert(hex(b)[n - 2] == hex_digit(y / 16) && hex(b)[n - 1] == hex_digit(y % 16));
            assert(x / 16 == y / 16 && x % 16 == y % 16);
            assert(a.last() == b.last());
            assert(hex(a).take(n - 2) =~= hex(a.drop_last()));
            assert(hex(b).take(n - 2) =~= hex(b.drop_last()));
            if a.drop_last() == b.drop_last() {
                assert(a =~= a.drop_last().push(a.last()));
                assert(b =~= b.drop_last().push(b.last()));
            } else {
                law_hex_tells_bytes_apart(a.drop_last(), b.drop_last());
            }
        }
    }
}

/// Workspaces whose paths have different digests have different logs.
pub proof fn law_workspaces_have_their_own_logs(
    storage: Seq<Seq<u8>>,
    a: Seq<char>,
    b: Seq<char>,
)
    requires
        sha256(encode_utf8(a)) != sha256(encode_utf8(b)),
    ensures
        log_path_of(storage, a) != log_path_of(storage, b),
{
    law_hex_tells_bytes_apart(sha256(encode_utf8(a)), sha256(encode_utf8(b)));
    let x = workspace_id(a) + ".jsonl"@;
    let y = workspace_id(b) + ".jsonl"@;
    if log_path_of(storage, a) == log_path_of(storage, b) {
        assert(log_path_of(storage, a).last() == encode_utf8(x));
        assert(log_path_of(storage, b).last() == encode_utf8(y));
        encode_utf8_decode_utf8(x);
        encode_utf8_decode_utf8(y);
        assert(x == y);
        assert(x.len() - ".jsonl"@.len() == workspace_id(a).len());
        assert(workspace_id(a) =~= x.take(workspace_id(a).len() as int));
        assert(workspace_id(b) =~= y.take(workspace_id(b).len() as int));
    }
}

/// The hexadecimal digit `d`.
fn hex_char(d: u8) -> (r: char)
    requires
        d < 16,
    ensures
        r == hex_digit(d as nat),
{
    if d < 10 {
        (48 + d) as char
    } else {
        (87 + d) as char
    }
}

/// The bytes in hexadecimal notation.
pub fn hex_of(bytes: &Vec<u8>) -> (r: String)
    ensures
        r@ == hex(bytes@),
{
    let mut r = String::new();
    let mut i: usize = 0;
    while i < bytes.len()
        invariant
            i <= bytes@.len(),
            r@ == hex(bytes@.take(i as int)),
        decreases bytes@.len() - i,
    {
        assert(bytes@.take(i + 1).drop_last() == bytes@.take(i as int));
        let ghost before = r@;
        let b: u8 = bytes[i];
        r.push(hex_char(b / 16));
        r.push(hex_char(b % 16));
        assert(r@ == before + seq![hex_digit(b as nat / 16), hex_digit(b as nat % 16)]);
        i += 1;
    }
    assert(bytes@.take(i as int) == bytes@);
    r
}

/// A stable identifier for the workspace whose canonical path is `path`.
pub fn hash_path(path: &str) -> (r: String)
    ensures
        r@ == workspace_id(path@),
        r@.len() == 64,
        forall|i: int| 0 <= i < r@.len() ==> is_hex_digit(#[trigger] r@[i]),
{
    let digest = sha256_digest(path.as_bytes());
    proof {
        lemma_hex(digest@);
    }
    hex_of(&digest)
}

/// The storage directory that is used where none is configured: `jc` in the platform's directory
/// for data, or else `.jc-prompts`.
pub fn default_storage_dir(data_dir: Option<PathParts>) -> (r: PathParts)
    ensures
        r@ == match data_dir {
            Some(dir) => dir@.push(encode_utf8("jc"@)),
            None => seq![encode_utf8(".jc-prompts"@)],
        },
{
    match data_dir {
        Some(dir) => dir.join("jc"),
        None => PathParts::single(".jc-prompts"),
    }
}

impl PromptStore {
    /// A store for what is configured: `storage_dir` and `heading` override the defaults, but a
    /// blank heading does not.
    pub fn new(
        storage_dir: Option<PathParts>,
        data_dir: Option<PathParts>,
        heading: Option<String>,
    ) -> (r: Self)
        ensures
            r.storage_dir@ == match storage_dir {
                Some(dir) => dir@,
                None => match data_dir {
                    Some(dir) => dir@.push(encode_utf8("jc"@)),
                    None => seq![encode_utf8(".jc-prompts"@)],
                },
            },
            r.heading@ == match heading {
                Some(text) => if trim(text@).len() > 0 {
                    text@
                } else {
                    DEFAULT_HEADING@
                },
                None => DEFAULT_HEADING@,
            },
    {
        let storage_dir = match storage_dir {
            Some(dir) => dir,
            None => default_storage_dir(data_dir),
        };
        let heading = match heading {
            Some(text) => if is_blank(text.as_str()) {
                DEFAULT_HEADING.to_owned()
            } else {
                text
            },
            None => DEFAULT_HEADING.to_owned(),
        };
        PromptStore { storage_dir, heading }
    }

    /// The path of the log of the workspace whose canonical path is `workspace_root`.
    pub fn log_path(&self, workspace_root: &str) -> (r: PathParts)
        ensures
            r@ == log_path_of(self.storage_dir@, workspace_root@),
    {
        log_below(&self.storage_dir, workspace_root)
    }

    /// Refuses a log inside the workspace, so that prompts are never committed. Both paths are
    /// canonical.
    pub fn validate_outside(log: &PathParts, workspace_root: &PathParts) -> (r: Result<
        (),
        PromptError,
    >)
        ensures
            r == if workspace_root@.is_prefix_of(log@) {
                Err(PromptError::InsideWorkspace)
            } else {
                Ok(())
            },
    {
        if log.starts_with(workspace_root) {
            Err(PromptError::InsideWorkspace)
        } else {
            Ok(())
        }
    }

    /// What is appended to the log when `raw` is handed in at this time: the record of the prompt
    /// in it, which is then read back as the last prompt of the log. `storage` is the canonical
    /// path of the storage directory; `workspace_root` is that of the workspace, and `workspace`
    /// the same as text.
    pub fn add(
        storage: &PathParts,
        workspace_root: &PathParts,
        workspace: &str,
        timestamp: &str,
        raw: &[u8],
    ) -> (r: Result<String, PromptError>)
        ensures
            match recorded(storage@, workspace_root@, workspace@, utf8_lossy(raw@)) {
                Ok(prompt) => {
                    &&& r matches Ok(appended)
                    &&& appended@ == record_of(
                        EntryView { timestamp: timestamp@, prompt },
                    ).push('\n')
                    &&& adds_prompt(appended@, prompt)
                },
                Err(e) => r == Err::<String, PromptError>(e),
            },
    {
        let prompt = match extract_prompt(raw) {
            Ok(prompt) => prompt,
            Err(e) => return Err(e),
        };
        if is_blank(prompt.as_str()) {
            return Err(PromptError::Empty);
        }
        let log = log_below(storage, workspace);
        match Self::validate_outside(&log, workspace_root) {
            Ok(()) => {
                let record = write_entry(timestamp, prompt.as_str());
                proof {
                    law_added_prompts_are_read_back(
                        record@,
                        EntryView { timestamp: timestamp@, prompt: prompt@ },
                    );
                }
                Ok(log_entry(record.as_str()))
            },
            Err(e) => Err(e),
        }
    }
}

/// The path of the log of a workspace below a storage directory.
fn log_below(storage: &PathParts, workspace: &str) -> (r: PathParts)
    ensures
        r@ == log_path_of(storage@, workspace@),
{
    let id = hash_path(workspace);
    let name = id.concat(".jsonl");
    storage.join("workspaces").join(name.as_str())
}

/// What is recorded of a text that is handed in: the prompt in it, unless that is blank or the log
/// lies inside the workspace.
pub open spec fn recorded(
    storage: Seq<Seq<u8>>,
    workspace_root: Seq<Seq<u8>>,
    workspace: Seq<char>,
    text: Seq<char>,
) -> Result<Seq<char>, PromptError> {
    match prompt_of(text) {
        Err(e) => Err(e),
        Ok(prompt) => if trim(prompt).len() == 0 {
            Err(PromptError::Empty)
        } else if workspace_root.is_prefix_of(log_path_of(storage, workspace)) {
            Err(PromptError::InsideWorkspace)
        } else {
            Ok(prompt)
        },
    }
}

/// The prompt in the input is recorded as it is, unless it is blank or the log lies inside the
/// workspace.
pub proof fn law_prompts_are_recorded_in_full(
    storage: Seq<Seq<u8>>,
    workspace_root: Seq<Seq<u8>>,
    workspace: Seq<char>,
    text: Seq<char>,
)
    ensures
        recorded(storage, workspace_root, workspace, text) == match prompt_of(text) {
            Ok(prompt) => if trim(prompt).len() == 0 {
                Err(PromptError::Empty)
            } else if workspace_root.len() <= storage.len() + 2 && log_path_of(
                storage,
                workspace,
            ).subrange(0, workspace_root.len() as int) == workspace_root {
                Err(PromptError::InsideWorkspace)
            } else {
                Ok(prompt)
            },
            Err(e) => Err(e),
        },
{
}

/// Unless another heading is configured, the section is headed `AI Instructions`.
pub proof fn law_the_default_heading()
    ensures
        DEFAULT_HEADING@ == "AI Instructions"@,
{
}

/// The log of a workspace is a file below `workspaces` in the storage directory, and is named by
/// the digest of the path of the workspace.
pub proof fn law_logs_are_named_by_digests(storage: Seq<Seq<u8>>, workspace: Seq<char>)
    ensures
        log_path_of(storage, workspace) == storage + seq![
            encode_utf8("workspaces"@),
            encode_utf8(hex(sha256(encode_utf8(workspace))) + ".jsonl"@),
        ],
{
    assert(log_path_of(storage, workspace) =~= storage + seq![
        encode_utf8("workspaces"@),
        encode_utf8(hex(sha256(encode_utf8(workspace))) + ".jsonl"@),
    ]);
}

/// Each byte is written as two digits, the sixteens first; digits above nine are the letters from
/// `a` on.
pub proof fn law_bytes_are_written_in_hexadecimal(bytes: Seq<u8>, byte: u8)
    ensures
        hex(Seq::<u8>::empty()) == Seq::<char>::empty(),
        ({
            let high = byte as int / 16;
            let low = byte as int % 16;
            hex(bytes.push(byte)) == hex(bytes).push(
                (if high < 10 {
                    '0' as int + high
                } else {
                    'a' as int + high - 10
                }) as char,
            ).push(
                (if low < 10 {
                    '0' as int + low
                } else {
                    'a' as int + low - 10
                }) as char,
            )
        }),
{
    assert(bytes.push(byte).drop_last() =~= bytes);
    let b = byte as nat;
    assert(hex(bytes) + seq![hex_digit(b / 16), hex_digit(b % 16)] =~= hex(bytes).push(
        hex_digit(b / 16),
    ).push(hex_digit(b % 16)));
}

/// No prompt is ever recorded in a log inside the workspace.
pub proof fn law_log_is_outside_the_workspace(
    storage: Seq<Seq<u8>>,
    workspace_root: Seq<Seq<u8>>,
    workspace: Seq<char>,
    text: Seq<char>,
)
    requires
        recorded(storage, workspace_root, workspace, text) is Ok,
    ensures
        !workspace_root.is_prefix_of(log_path_of(storage, workspace)),
{
}

/// A storage directory inside the workspace is refused.
pub proof fn law_storage_in_the_workspace_is_refused(
    storage: Seq<Seq<u8>>,
    workspace_root: Seq<Seq<u8>>,
    workspace: Seq<char>,
    text: Seq<char>,
)
    requires
        workspace_root.is_prefix_of(storage),
    ensures
        recorded(storage, workspace_root, workspace, text) is Err,
{
    let log = log_path_of(storage, workspace);
    let n = workspace_root.len() as int;
    assert(workspace_root =~= log.subrange(0, n)) by {
        assert(workspace_root == storage.subrange(0, n));
        assert(forall|i: int| 0 <= i < n ==> log[i] == storage[i]);
    }
}

impl PromptError {
    /// What is said of the error; `storage_dir` is how the storage directory is displayed.
    pub open spec fn spec_message(self, storage_dir: Seq<char>) -> Seq<char> {
        match self {
            PromptError::FieldNotFound =>
                "prompt field not found in hook input (expected prompt/user_prompt/input)"@,
            PromptError::Empty => "empty prompt"@,
            PromptError::InsideWorkspace => "JC_PROMPT_STORAGE_DIR ("@ + storage_dir
                + ") must be outside the workspace"@,
        }
    }

    /// What is said of the error; `storage_dir` is how the storage directory is displayed.
    pub fn message(&self, storage_dir: &str) -> (r: String)
        ensures
            r@ == self.spec_message(storage_dir@),
    {
        match self {
            PromptError::FieldNotFound =>
                "prompt field not found in hook input (expected prompt/user_prompt/input)".to_owned(),
            PromptError::Empty => "empty prompt".to_owned(),
            PromptError::InsideWorkspace => "JC_PROMPT_STORAGE_DIR (".to_owned().concat(
                storage_dir,
            ).concat(") must be outside the workspace"),
        }
    }
}

} // verus!

//! Generating commit messages.

use vstd::prelude::*;

use crate::selection::{request, request_for, split_reply, MARKER};
use crate::text::{
    chars, is_white, join, law_a_single_occurrence_is_replaced, law_lines_end_at_newlines,
    law_trim_takes_the_ends, law_white_space, lemma_lines_concat, lemma_lines_one,
    lemma_lines_pieces, lemma_trim_plain, lemma_trim_push, lemma_until_is, lines, lines_of, opt_str,
    opt_text, replace_all, replaced, strip_cr, trim, trim_end, trim_start, trimmed, views, white,
};

verus! {

/// Generates commit messages in a language with a model.
pub struct CommitMessageGenerator<'a> {
    pub language: &'a str,
    pub model: &'a str,
}

/// What comes after a reply of the model.
pub enum MessageStep {
    /// There is a message.
    Done(String),
    /// The model is asked once more, with an emphasized prompt; the message so far is kept.
    Retry(Option<String>),
    /// There is no message.
    Failed,
}

// ---------------------------------------------------------------------------
// Titles
// ---------------------------------------------------------------------------

/// A conventional title: `kind(scope)!: text`, where the scope and the mark may be missing.
pub struct Title {
    pub kind: Seq<char>,
    pub scope: Option<Seq<char>>,
    pub breaking: bool,
    pub space: char,
    pub text: Seq<char>,
}

impl Title {
    /// Whether the parts are what they must be: a kind of small letters, a scope that is not
    /// empty and does not end early, white space, and a text that does not begin with a newline.
    pub open spec fn is_valid(self) -> bool {
        &&& self.kind.len() > 0
        &&& forall|i: int| 0 <= i < self.kind.len() ==> 'a' <= #[trigger] self.kind[i] <= 'z'
        &&& self.scope matches Some(scope) ==> scope.len() > 0 && !scope.contains(')')
        &&& is_white(self.space)
        &&& self.text.len() > 0
        &&& self.text[0] != '\n'
    }

    /// The scope in brackets.
    pub open spec fn written_scope(self) -> Seq<char> {
        match self.scope {
            Some(scope) => seq!['('] + scope + seq![')'],
            None => seq![],
        }
    }

    /// The mark of a breaking change.
    pub open spec fn written_mark(self) -> Seq<char> {
        if self.breaking {
            seq!['!']
        } else {
            seq![]
        }
    }

    /// The title as it is written.
    pub open spec fn written(self) -> Seq<char> {
        self.kind + self.written_scope() + self.written_mark() + seq![':', self.space] + self.text
    }
}

/// Whether a line is a conventional title.
pub open spec fn is_conventional(line: Seq<char>) -> bool {
    exists|title: Title| #[trigger] title.is_valid() && title.written() == line
}

/// Where the parts of a written title stand.
proof fn lemma_written(title: Title)
    requires
        title.is_valid(),
    ensures
        ({
            let s = title.written();
            let n = title.kind.len() as int;
            let a = n + title.written_scope().len();
            let b = a + title.written_mark().len();
            &&& forall|i: int| 0 <= i < n ==> 'a' <= #[trigger] s[i] <= 'z'
            &&& n <= a <= b <= a + 1
            &&& b + 2 < s.len()
            &&& title.scope is None ==> a == n
            &&& title.scope is Some ==> s[n] == '(' && a > n + 2 && s[a - 1] == ')' && (forall|i:
                int|
                n < i < a - 1 ==> #[trigger] s[i] != ')')
            &&& title.breaking ==> s[a] == '!' && b == a + 1
            &&& !title.breaking ==> b == a
            &&& s[b] == ':'
            &&& is_white(s[b + 1])
            &&& s[b + 2] != '\n'
        }),
{
    let s = title.written();
    let n = title.kind.len() as int;
    assert forall|i: int| 0 <= i < n implies 'a' <= #[trigger] s[i] <= 'z' by {
        assert(s[i] == title.kind[i]);
    }
    if let Some(scope) = title.scope {
        let a = n + title.written_scope().len();
        assert forall|i: int| n < i < a - 1 implies #[trigger] s[i] != ')' by {
            assert(s[i] == title.written_scope()[i - n]);
            assert(s[i] == scope[i - n - 1]);
            assert(scope.contains(scope[i - n - 1]));
        }
    }
}

/// The kind of a title ends at its first character that is not a small letter, and the scope
/// begins there if there is one.
proof fn lemma_same_kind(title: Title, n: int)
    requires
        title.is_valid(),
        0 <= n <= title.written().len(),
        forall|i: int| 0 <= i < n ==> 'a' <= #[trigger] title.written()[i] <= 'z',
        n < title.written().len() ==> !('a' <= title.written()[n] <= 'z'),
    ensures
        title.kind.len() == n,
        title.scope is Some <==> title.written()[n] == '(',
{
    let s = title.written();
    let m = title.kind.len() as int;
    lemma_written(title);
    assert(s[m] == '(' || s[m] == '!' || s[m] == ':');
    if m < n {
        assert('a' <= s[m] <= 'z');
    }
}

/// How far the parts of a title in `s` reach, as far as `s` has them: the small letters up to `n`,
/// a scope up to `a`, a mark up to `b`.
spec fn reaches(s: Seq<char>, n: int, a: int, b: int) -> bool {
    &&& 0 <= n <= a <= b <= s.len()
    &&& forall|i: int| 0 <= i < n ==> 'a' <= #[trigger] s[i] <= 'z'
    &&& n < s.len() ==> !('a' <= s[n] <= 'z')
    &&& if n < s.len() && s[n] == '(' {
        &&& a > n + 2
        &&& s[a - 1] == ')'
        &&& forall|i: int| n < i < a - 1 ==> #[trigger] s[i] != ')'
    } else {
        a == n
    }
    &&& if a < s.len() && s[a] == '!' {
        b == a + 1
    } else {
        b == a
    }
}

/// Whether the end of a title follows at `b`.
spec fn ends_as_title(s: Seq<char>, b: int) -> bool {
    &&& b + 2 < s.len()
    &&& s[b] == ':'
    &&& is_white(s[b + 1])
    &&& s[b + 2] != '\n'
}

proof fn lemma_is_title(s: Seq<char>, n: int, a: int, b: int)
    requires
        reaches(s, n, a, b),
        n > 0,
        ends_as_title(s, b),
    ensures
        is_conventional(s),
{
    let scope = s.subrange(n + 1, a - 1);
    let scoped = s[n] == '(';
    let title = Title {
        kind: s.take(n),
        scope: if scoped {
            Some(scope)
        } else {
            None
        },
        breaking: s[a] == '!',
        space: s[b + 1],
        text: s.skip(b + 2),
    };
    assert forall|i: int| 0 <= i < title.kind.len() implies 'a' <= #[trigger] title.kind[i]
        <= 'z' by {
        assert(title.kind[i] == s[i]);
    }
    if scoped && scope.contains(')') {
        let j = choose|j: int| 0 <= j < scope.len() && scope[j] == ')';
        assert(s[n + 1 + j] == ')');
    }
    assert(title.is_valid());
    if scoped {
        assert(s =~= s.take(n) + (seq!['('] + scope + seq![')']) + title.written_mark() + seq![
            ':',
            s[b + 1],
        ] + s.skip(b + 2));
    } else {
        assert(s =~= s.take(n) + Seq::<char>::empty() + title.written_mark() + seq![':', s[b + 1]]
            + s.skip(b + 2));
    }
    assert(title.written() == s);
}

proof fn lemma_title_reaches(title: Title, n: int, a: int, b: int)
    requires
        title.is_valid(),
        reaches(title.written(), n, a, b),
    ensures
        n > 0,
        ends_as_title(title.written(), b),
{
    let s = title.written();
    lemma_written(title);
    lemma_same_kind(title, n);
    if title.scope is Some {
        let end = n + title.written_scope().len() - 1;
        if end < a - 1 {
            assert(s[end] != ')');
        }
        if a - 1 < end {
            assert(s[a - 1] != ')');
        }
    }
}

/// Whether a line is a conventional title.
pub fn is_conventional_title(line: &str) -> (r: bool)
    ensures
        r == is_conventional(line@),
{
    let v = chars(line);
    let ghost s = line@;
    let len: usize = v.len();
    let mut n: usize = 0;
    while n < len && 'a' <= v[n] && v[n] <= 'z'
        invariant
            n <= len == v@.len(),
            v@ == s,
            forall|i: int| 0 <= i < n ==> 'a' <= #[trigger] s[i] <= 'z',
        decreases len - n,
    {
        n += 1;
    }
    let mut a: usize = n;
    if n < len && v[n] == '(' {
        let mut close: usize = n + 1;
        while close < len && v[close] != ')'
            invariant
                n < close <= len == v@.len(),
                v@ == s,
                forall|i: int| n < i < close ==> #[trigger] s[i] != ')',
            decreases len - close,
        {
            close += 1;
        }
        if close == len || close == n + 1 {
            proof {
                lemma_no_scope(s, n as int, close as int);
            }
            return false;
        }
        a = close + 1;
    }
    let b: usize = if a < len && v[a] == '!' {
        a + 1
    } else {
        a
    };
    assert(reaches(s, n as int, a as int, b as int));
    let r = n > 0 && len - b > 2 && v[b] == ':' && white(v[b + 1]) && v[b + 2] != '\n';
    proof {
        if r {
            lemma_is_title(s, n as int, a as int, b as int);
        } else if is_conventional(s) {
            let title = choose|title: Title| #[trigger] title.is_valid() && title.written() == s;
            lemma_title_reaches(title, n as int, a as int, b as int);
        }
    }
    r
}

/// A scope that is empty, or that does not end, makes no title.
proof fn lemma_no_scope(s: Seq<char>, n: int, close: int)
    requires
        0 <= n < close <= s.len(),
        forall|i: int| 0 <= i < n ==> 'a' <= #[trigger] s[i] <= 'z',
        s[n] == '(',
        forall|i: int| n < i < close ==> #[trigger] s[i] != ')',
        close == s.len() || (close == n + 1 && s[close] == ')'),
    ensures
        !is_conventional(s),
{
    if is_conventional(s) {
        let title = choose|title: Title| #[trigger] title.is_valid() && title.written() == s;
        lemma_written(title);
        lemma_same_kind(title, n);
        let end = n + title.written_scope().len() - 1;
        assert(s[end] == ')');
        if close == n + 1 && close < s.len() {
            assert(s[close] != ')');
        }
    }
}

// ---------------------------------------------------------------------------
// Messages
// ---------------------------------------------------------------------------

/// The first line of a message, trimmed.
pub open spec fn first_line(message: Seq<char>) -> Seq<char> {
    if lines(message).len() > 0 {
        trim(lines(message)[0])
    } else {
        seq![]
    }
}

/// Whether a message begins with a conventional title.
pub open spec fn has_title(message: Seq<char>) -> bool {
    is_conventional(first_line(message))
}

/// The message in a reply; none where the command gave no reply or it is blank.
pub open spec fn message_in(reply: Option<Seq<char>>) -> Option<Seq<char>> {
    match reply {
        Some(text) => if trim(text).len() > 0 {
            Some(trim(text))
        } else {
            None
        },
        None => None,
    }
}

/// A message below a title.
pub open spec fn titled(title: Seq<char>, message: Seq<char>) -> Seq<char> {
    title + "\n\n"@ + message
}

/// What a step is.
pub enum Step {
    Done(Seq<char>),
    Retry(Option<Seq<char>>),
    Failed,
}

pub open spec fn step_view(step: MessageStep) -> Step {
    match step {
        MessageStep::Done(message) => Step::Done(message@),
        MessageStep::Retry(kept) => Step::Retry(opt_text(kept)),
        MessageStep::Failed => Step::Failed,
    }
}

/// What comes after the reply to a prompt that was emphasized, or was not, where the message `kept`
/// came earlier. The last message without a title gets the default one.
pub open spec fn step_after(
    emphasize: bool,
    kept: Option<Seq<char>>,
    reply: Option<Seq<char>>,
    default_title: Seq<char>,
) -> Step {
    match message_in(reply) {
        Some(message) if has_title(message) => Step::Done(message),
        found => {
            let last = if found is Some {
                found
            } else {
                kept
            };
            if !emphasize {
                Step::Retry(last)
            } else {
                match last {
                    Some(message) => Step::Done(titled(default_title, message)),
                    None => Step::Failed,
                }
            }
        },
    }
}

/// What the model is asked: the template with the language and the diff, what it is to do with the
/// recorded prompts, and before that the emphasis where there is one.
pub open spec fn prompt_text(
    template: Seq<char>,
    language: Seq<char>,
    diff: Seq<char>,
    instruction_prompts: Seq<Seq<char>>,
    emphasis: Option<Seq<char>>,
) -> Seq<char> {
    let filled = replace_all(
        replace_all(template, "{language}"@, language),
        "{diff_content}"@,
        diff,
    ) + request(instruction_prompts);
    match emphasis {
        Some(text) => text + filled,
        None => filled,
    }
}

// ---------------------------------------------------------------------------
// Laws
// ---------------------------------------------------------------------------

/// The first line of a message below a title of one line is the title.
proof fn lemma_titled(title: Seq<char>, message: Seq<char>)
    requires
        !title.contains('\n'),
    ensures
        first_line(titled(title, message)) == trim(title),
{
    reveal_strlit("\n\n");
    let rest = seq!['\n'] + message;
    assert(titled(title, message) =~= title.push('\n') + rest);
    lemma_lines_concat(title, rest);
    lemma_lines_one(title);
    if title.len() > 0 && title.last() == '\r' {
        assert(title =~= title.drop_last().push('\r'));
        lemma_trim_push(title.drop_last(), '\r');
    }
}

/// Whatever the model replies, a message that comes out begins with a conventional title.
pub proof fn law_messages_have_a_title(
    emphasize: bool,
    kept: Option<Seq<char>>,
    reply: Option<Seq<char>>,
    default_title: Seq<char>,
)
    requires
        !default_title.contains('\n'),
        is_conventional(trim(default_title)),
    ensures
        step_after(emphasize, kept, reply, default_title) matches Step::Done(message) ==> has_title(
            message,
        ),
{
    if let Step::Done(message) = step_after(emphasize, kept, reply, default_title) {
        let last = if message_in(reply) is Some {
            message_in(reply)
        } else {
            kept
        };
        if let Some(text) = last {
            lemma_titled(default_title, text);
        }
    }
}

/// The model is asked at most twice, and there is a message where one of the replies is not blank.
pub proof fn law_two_attempts_decide(
    first: Option<Seq<char>>,
    second: Option<Seq<char>>,
    default_title: Seq<char>,
)
    ensures
        match step_after(false, None, first, default_title) {
            Step::Done(message) => message_in(first) == Some(message),
            Step::Retry(kept) => {
                &&& kept == message_in(first)
                &&& !(step_after(true, kept, second, default_title) is Retry)
                &&& step_after(true, kept, second, default_title) is Failed <==> message_in(
                    first,
                ) is None && message_in(second) is None
            },
            Step::Failed => false,
        },
{
}

/// No word of the last message is lost: it is the message, or it stands below the default title.
pub proof fn law_the_reply_is_kept(
    emphasize: bool,
    kept: Option<Seq<char>>,
    reply: Option<Seq<char>>,
    default_title: Seq<char>,
)
    requires
        message_in(reply) is Some,
    ensures
        match step_after(emphasize, kept, reply, default_title) {
            Step::Done(message) => message == message_in(reply)->0 || message == titled(
                default_title,
                message_in(reply)->0,
            ),
            Step::Retry(last) => last == message_in(reply),
            Step::Failed => false,
        },
{
}

/// The language and the diff take the places of their placeholders, each in one piece, and
/// everything around them stays; the emphasis comes first. What the model is to do with recorded
/// prompts comes last.
pub proof fn law_the_diff_stands_in_the_prompt(
    before: Seq<char>,
    between: Seq<char>,
    after: Seq<char>,
    language: Seq<char>,
    diff: Seq<char>,
    prompts: Seq<Seq<char>>,
    emphasis: Option<Seq<char>>,
)
    requires
        ({
            let rest = between + "{diff_content}"@ + after;
            forall|k: int|
                0 <= k <= before.len() + rest.len() && k != before.len() ==> #[trigger] (before
                    + "{language}"@ + rest).subrange(k, k + "{language}"@.len()) != "{language}"@
        }),
        ({
            let start = before + language + between;
            forall|k: int|
                0 <= k <= start.len() + after.len() && k != start.len() ==> #[trigger] (start
                    + "{diff_content}"@ + after).subrange(k, k + "{diff_content}"@.len())
                    != "{diff_content}"@
        }),
    ensures
        ({
            let template = before + "{language}"@ + (between + "{diff_content}"@ + after);
            let filled = before + language + between + diff + after + request(prompts);
            prompt_text(template, language, diff, prompts, emphasis) == match emphasis {
                Some(text) => text + filled,
                None => filled,
            }
        }),
{
    reveal_strlit("{language}");
    reveal_strlit("{diff_content}");
    let rest = between + "{diff_content}"@ + after;
    let start = before + language + between;
    law_a_single_occurrence_is_replaced(before, "{language}"@, rest, language);
    assert(before + language + rest =~= start + "{diff_content}"@ + after);
    law_a_single_occurrence_is_replaced(start, "{diff_content}"@, after, diff);
}

/// A reply that begins with a conventional title is the message, all of it, without the white space
/// around it: small letters, a scope in brackets if there is one, an exclamation mark if the change
/// is breaking, a colon, a space, and a text.
pub proof fn law_replies_with_a_title_are_messages(
    emphasize: bool,
    kept: Option<Seq<char>>,
    default_title: Seq<char>,
    front: Seq<char>,
    back: Seq<char>,
    kind: Seq<char>,
    scope: Option<Seq<char>>,
    breaking: bool,
    text: Seq<char>,
    body: Seq<char>,
)
    requires
        forall|i: int| 0 <= i < front.len() ==> is_white(#[trigger] front[i]),
        forall|i: int| 0 <= i < back.len() ==> is_white(#[trigger] back[i]),
        kind.len() > 0,
        forall|i: int| 0 <= i < kind.len() ==> 'a' <= #[trigger] kind[i] <= 'z',
        scope matches Some(name) ==> name.len() > 0 && !name.contains(')') && !name.contains('\n'),
        text.len() > 0 && !text.contains('\n') && !is_white(text.last()),
        body.len() > 0 ==> body[0] == '\n' && !is_white(body.last()),
    ensures
        ({
            let message = kind + match scope {
                Some(name) => seq!['('] + name + seq![')'],
                None => seq![],
            } + if breaking {
                seq!['!']
            } else {
                seq![]
            } + seq![':', ' '] + text + body;
            step_after(emphasize, kept, Some(front + message + back), default_title) == Step::Done(
                message,
            )
        }),
{
    let title = Title { kind, scope, breaking, space: ' ', text };
    let line = title.written();
    let message = line + body;
    assert(text.contains(text[0]));
    law_white_space(' ');
    assert(title.is_valid());
    assert(is_conventional(line));
    lemma_written(title);
    assert(!line.contains('\n')) by {
        if line.contains('\n') {
            let k = choose|k: int| 0 <= k < line.len() && line[k] == '\n';
            let n = kind.len() as int;
            let a = n + title.written_scope().len();
            let b = a + title.written_mark().len();
            if k < n {
                assert(line[k] == kind[k]);
            } else if k < a {
                assert(line[k] == title.written_scope()[k - n]);
                let name = scope->0;
                if n < k < a - 1 {
                    assert(name[k - n - 1] == '\n');
                }
            } else if k < b {
                assert(line[k] == '!');
            } else if k >= b + 2 {
                assert(line[k] == text[k - b - 2]);
                assert(text.contains('\n'));
            }
        }
    }
    assert(line[0] == kind[0]);
    assert(line.last() == text.last());
    law_white_space(line[0]);
    lemma_trim_plain(line);
    law_trim_takes_the_ends(front, message, back);
    if body.len() == 0 {
        assert(message =~= line);
        law_lines_end_at_newlines(line, seq![]);
    } else {
        assert(message =~= line + seq!['\n'] + body.skip(1));
        law_lines_end_at_newlines(line, body.skip(1));
        law_white_space('\r');
    }
    assert(first_line(message) == line);
    assert(has_title(message));
}

/// A message has a title exactly where its first line, without the white space around it, is one.
pub proof fn law_titles_stand_on_the_first_line(line: Seq<char>, rest: Seq<char>)
    requires
        line.len() > 0 && !line.contains('\n') && line.last() != '\r',
        rest.len() > 0 ==> rest[0] == '\n',
    ensures
        has_title(line + rest) <==> is_conventional(trim(line)),
{
    if rest.len() == 0 {
        assert(line + rest =~= line);
        law_lines_end_at_newlines(line, seq![]);
    } else {
        assert(line + rest =~= line + seq!['\n'] + rest.skip(1));
        law_lines_end_at_newlines(line, rest.skip(1));
    }
}

/// A reply without a title leads to a second attempt and is kept for it, in full; after that, the
/// default title is put above it.
pub proof fn law_replies_without_a_title_are_kept(
    kept: Option<Seq<char>>,
    default_title: Seq<char>,
    front: Seq<char>,
    message: Seq<char>,
    back: Seq<char>,
)
    requires
        forall|i: int| 0 <= i < front.len() ==> is_white(#[trigger] front[i]),
        forall|i: int| 0 <= i < back.len() ==> is_white(#[trigger] back[i]),
        message.len() > 0 && !is_white(message[0]) && !is_white(message.last()),
        !has_title(message),
    ensures
        step_after(false, kept, Some(front + message + back), default_title) == Step::Retry(
            Some(message),
        ),
        step_after(true, kept, Some(front + message + back), default_title) == Step::Done(
            default_title + "\n\n"@ + message,
        ),
{
    law_trim_takes_the_ends(front, message, back);
}

/// Without a reply, or with a blank one, what was kept is kept; after the second attempt it gets
/// the default title, and where nothing was kept there is no message.
pub proof fn law_missing_replies_change_nothing(
    kept: Option<Seq<char>>,
    default_title: Seq<char>,
    blank: Seq<char>,
)
    requires
        forall|i: int| 0 <= i < blank.len() ==> is_white(#[trigger] blank[i]),
    ensures
        step_after(false, kept, None, default_title) == Step::Retry(kept),
        step_after(false, kept, Some(blank), default_title) == Step::Retry(kept),
        kept matches Some(message) ==> step_after(true, kept, None, default_title) == Step::Done(
            default_title + "\n\n"@ + message,
        ) && step_after(true, kept, Some(blank), default_title) == Step::Done(
            default_title + "\n\n"@ + message,
        ),
        kept is None ==> step_after(true, kept, None, default_title) is Failed && step_after(
            true,
            kept,
            Some(blank),
            default_title,
        ) is Failed,
{
    law_trim_takes_the_ends(blank, seq![], seq![]);
    assert(blank + Seq::<char>::empty() + Seq::<char>::empty() =~= blank);
}

/// Whatever is put together in this form is a title.
pub proof fn law_lines_of_the_form_are_titles(
    kind: Seq<char>,
    scope: Option<Seq<char>>,
    breaking: bool,
    space: char,
    text: Seq<char>,
)
    requires
        kind.len() > 0,
        forall|i: int| 0 <= i < kind.len() ==> 'a' <= #[trigger] kind[i] <= 'z',
        scope matches Some(name) ==> name.len() > 0 && !name.contains(')'),
        is_white(space),
        text.len() > 0 && text[0] != '\n',
    ensures
        is_conventional(
            kind + match scope {
                Some(name) => seq!['('] + name + seq![')'],
                None => seq![],
            } + if breaking {
                seq!['!']
            } else {
                seq![]
            } + seq![':', space] + text,
        ),
{
    let title = Title { kind, scope, breaking, space, text };
    assert(title.is_valid());
    assert(is_conventional(title.written()));
}

/// A title can be taken apart: small letters, a scope in brackets that is not empty if there is
/// one, an exclamation mark if the change is breaking, a colon, white space, and a text.
pub proof fn law_titles_have_a_form(line: Seq<char>) -> (r: (
    Seq<char>,
    Option<Seq<char>>,
    bool,
    char,
    Seq<char>,
))
    requires
        is_conventional(line),
    ensures
        r.0.len() > 0,
        forall|i: int| 0 <= i < r.0.len() ==> 'a' <= #[trigger] r.0[i] <= 'z',
        r.1 matches Some(scope) ==> scope.len() > 0 && !scope.contains(')'),
        is_white(r.3),
        r.4.len() > 0 && r.4[0] != '\n',
        line == r.0 + match r.1 {
            Some(scope) => seq!['('] + scope + seq![')'],
            None => seq![],
        } + if r.2 {
            seq!['!']
        } else {
            seq![]
        } + seq![':', r.3] + r.4,
{
    let title = choose|title: Title| #[trigger] title.is_valid() && title.written() == line;
    (title.kind, title.scope, title.breaking, title.space, title.text)
}

/// What is left of a text without its trailing white space, where it begins with something else.
proof fn lemma_trim_end_keeps_start(s: Seq<char>)
    requires
        s.len() > 0,
        !is_white(s[0]),
    ensures
        trim_end(s).len() > 0,
        trim_end(s)[0] == s[0],
        !is_white(trim_end(s).last()),
        trim_end(s).is_prefix_of(s),
    decreases s.len(),
{
    if is_white(s.last()) {
        assert(s.len() > 1);
        let front = s.drop_last();
        lemma_trim_end_keeps_start(front);
        let n = trim_end(front).len() as int;
        assert(trim_end(s) =~= s.subrange(0, n)) by {
            assert(trim_end(front) == front.subrange(0, n));
            assert(front.subrange(0, n) =~= s.subrange(0, n));
        }
    } else {
        assert(s =~= s.subrange(0, s.len() as int));
    }
}

/// The first line of a text is the same after trimming, where it is not blank.
proof fn lemma_first_line_trimmed(line: Seq<char>, rest: Seq<char>)
    requires
        line.len() > 0,
        !is_white(line[0]),
        !line.contains('\n'),
        rest.len() > 0 ==> rest[0] == '\n',
    ensures
        first_line(trim_end(line + rest)) == trim_end(line),
    decreases rest.len(),
{
    let all = line + rest;
    lemma_trim_end_keeps_start(line);
    let kept = trim_end(line);
    lemma_trim_plain(kept);
    if rest.len() == 0 {
        assert(all =~= line);
        assert(!kept.contains('\n')) by {
            if kept.contains('\n') {
                let k = choose|k: int| 0 <= k < kept.len() && kept[k] == '\n';
                assert(kept == line.subrange(0, kept.len() as int));
                assert(line[k] == '\n');
            }
        }
        assert forall|i: int| 0 <= i < kept.len() implies kept[i] != '\n' by {
            assert(kept.contains(kept[i]));
        }
        lemma_until_is(kept, '\n', kept.len());
        assert(lines(kept) =~= seq![kept]);
    } else if is_white(all.last()) {
        assert(all.drop_last() =~= line + rest.drop_last());
        lemma_first_line_trimmed(line, rest.drop_last());
    } else {
        let more = rest.skip(1);
        assert(all =~= line.push('\n') + more);
        lemma_lines_concat(line, more);
        lemma_lines_one(line);
        assert(lines(all)[0] == strip_cr(line));
        if line.last() == '\r' {
            assert(line =~= line.drop_last().push('\r'));
            lemma_trim_push(line.drop_last(), '\r');
        }
        assert(trim(line) == kept);
    }
}

/// White space in front of a text does not reach past its first line, where that is not blank.
proof fn lemma_trim_start_line(line: Seq<char>, rest: Seq<char>)
    requires
        trim_start(line).len() > 0,
    ensures
        trim_start(line + rest) == trim_start(line) + rest,
        !is_white(trim_start(line)[0]),
        forall|c: char| !line.contains(c) ==> !trim_start(line).contains(c),
    decreases line.len(),
{
    if line.len() > 0 && is_white(line[0]) {
        let short = line.skip(1);
        assert((line + rest).skip(1) =~= short + rest);
        lemma_trim_start_line(short, rest);
        assert forall|c: char| !line.contains(c) implies !trim_start(line).contains(c) by {
            if short.contains(c) {
                let k = choose|k: int| 0 <= k < short.len() && short[k] == c;
                assert(line[k + 1] == c);
            }
        }
    }
}

/// The texts joined by newlines begin with the first of them.
proof fn lemma_join_begins(parts: Seq<Seq<char>>) -> (rest: Seq<char>)
    requires
        parts.len() > 0,
    ensures
        join(parts, "\n"@) == parts[0] + rest,
        rest.len() > 0 ==> rest[0] == '\n',
    decreases parts.len(),
{
    reveal_strlit("\n");
    if parts.len() == 1 {
        assert(parts[0] + Seq::<char>::empty() =~= parts[0]);
        Seq::empty()
    } else {
        let front = lemma_join_begins(parts.drop_last());
        let rest = front + "\n"@ + parts.last();
        assert(join(parts, "\n"@) =~= parts[0] + rest);
        rest
    }
}

/// Taking the line with the selection of prompts off a message leaves its title.
pub proof fn law_selection_keeps_the_title(message: Seq<char>, count: nat)
    requires
        has_title(message),
    ensures
        has_title(split_reply(message, count).0),
{
    let all = lines(message);
    let title = first_line(message);
    let parts = choose|parts: Title| #[trigger] parts.is_valid() && parts.written() == title;
    lemma_written(parts);
    assert('a' <= title[0] <= 'z');
    reveal_strlit("Relevant instructions:");
    if all.len() > 0 && MARKER@.is_prefix_of(trim(all.last())) {
        if all.len() == 1 {
            assert(MARKER@[0] == title[0]);
            assert(false);
        }
        let front = all.drop_last();
        assert(front[0] == all[0]);
        lemma_lines_pieces(message);
        let rest = lemma_join_begins(front);
        let line = trim_start(all[0]);
        if line.len() == 0 {
            assert(trim(all[0]).len() == 0);
        }
        lemma_trim_start_line(all[0], rest);
        lemma_first_line_trimmed(line, rest);
        assert(trim(join(front, "\n"@)) == trim_end(line + rest));
        assert(first_line(trim(join(front, "\n"@))) == title);
    }
}

// ---------------------------------------------------------------------------
// Generating
// ---------------------------------------------------------------------------

/// Whether a message begins with a conventional title.
pub fn is_titled(message: &str) -> (r: bool)
    ensures
        r == has_title(message@),
{
    let all = lines_of(message);
    assert(views(all@).len() == all@.len());
    let first = if all.len() > 0 {
        assert(views(all@)[0] == all@[0]@);
        trimmed(all[0].as_str())
    } else {
        String::new()
    };
    assert(first@ == first_line(message@));
    is_conventional_title(first.as_str())
}

impl<'a> CommitMessageGenerator<'a> {
    pub fn new(language: &'a str, model: &'a str) -> (r: Self)
        ensures
            r.language == language,
            r.model == model,
    {
        CommitMessageGenerator { language, model }
    }

    /// What the model is asked. The prompts are those that it is to judge the relevance of, and the
    /// emphasis is for a second attempt.
    pub fn prompt(
        &self,
        template: &str,
        diff_content: &str,
        instruction_prompts: &[String],
        emphasis: Option<&str>,
    ) -> (r: String)
        ensures
            r@ == prompt_text(
                template@,
                self.language@,
                diff_content@,
                views(instruction_prompts@),
                opt_str(emphasis),
            ),
    {
        let filled = replaced(template, "{language}", self.language);
        let filled = replaced(filled.as_str(), "{diff_content}", diff_content).concat(
            request_for(instruction_prompts).as_str(),
        );
        match emphasis {
            Some(text) => text.to_owned().concat(filled.as_str()),
            None => filled,
        }
    }

    /// What is shown while the backend with this name works.
    pub fn spinner_message(backend: &str) -> (r: String)
        ensures
            r@ == "Generating commit message with "@ + backend@ + "..."@,
    {
        "Generating commit message with ".to_owned().concat(backend).concat("...")
    }

    /// What comes after the reply to a prompt that was emphasized, or was not, where the message
    /// `kept` came earlier; `None` stands for a command that gave no reply. The lines of the
    /// message stay as long as the model made them.
    pub fn generate(
        emphasize: bool,
        kept: Option<String>,
        reply: Option<&str>,
        default_title: &str,
    ) -> (r: MessageStep)
        ensures
            step_view(r) == step_after(
                emphasize,
                opt_text(kept),
                opt_str(reply),
                default_title@,
            ),
    {
        let found = match reply {
            Some(text) => {
                let message = trimmed(text);
                if message.as_str().is_empty() {
                    None
                } else {
                    Some(message)
                }
            },
            None => None,
        };
        let last = match found {
            Some(message) => {
                if is_titled(message.as_str()) {
                    return MessageStep::Done(message);
                }
                Some(message)
            },
            None => kept,
        };
        if !emphasize {
            return MessageStep::Retry(last);
        }
        match last {
            Some(message) => MessageStep::Done(
                default_title.to_owned().concat("\n\n").concat(message.as_str()),
            ),
            None => MessageStep::Failed,
        }
    }
}

impl<'a> Default for CommitMessageGenerator<'a> {
    fn default() -> (r: Self)
        ensures
            r.language@ == "English"@,
            r.model@ == "auto"@,
    {
        CommitMessageGenerator::new("English", "auto")
    }
}

} // verus!

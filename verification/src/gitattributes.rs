//! Which files `.gitattributes` marks as not worth showing in full.

use vstd::prelude::*;

use crate::globs::{
    first_match, glob_is_valid, globs_compile, lemma_first_match, patterns_of, PathGlob,
    PathMatcher,
};
use crate::text::{
    lines, lines_of, opt_str, same, starts_with_char, trim, trimmed, views, words, words_of,
};

verus! {

/// A rule: a glob pattern, and why the files that it matches are collapsed.
pub type Rule = (Seq<char>, Seq<char>);

/// Why a file with the attribute is collapsed.
pub open spec fn attribute_reason(attribute: Seq<char>) -> Option<Seq<char>> {
    if attribute == "-diff"@ || attribute == "diff=false"@ {
        Some("collapsed: gitattributes (-diff)"@)
    } else if attribute == "binary"@ {
        Some("collapsed: gitattributes (binary)"@)
    } else if attribute == "linguist-generated"@ || attribute == "linguist-generated=true"@ {
        Some("collapsed: gitattributes (linguist-generated)"@)
    } else {
        None
    }
}

/// Why a file with these attributes is collapsed: the first that gives a reason decides.
pub open spec fn attributes_reason(attributes: Seq<Seq<char>>) -> Option<Seq<char>>
    decreases attributes.len(),
{
    if attributes.len() == 0 {
        None
    } else if attribute_reason(attributes[0]) is Some {
        attribute_reason(attributes[0])
    } else {
        attributes_reason(attributes.skip(1))
    }
}

/// The rule on a line: a pattern, followed by attributes. Blank lines, comments, lines without an
/// attribute that gives a reason, and lines with a pattern that is not valid hold none.
pub open spec fn rule_on(line: Seq<char>) -> Option<Rule> {
    let t = trim(line);
    let w = words(t);
    if t.len() == 0 || t[0] == '#' || w.len() == 0 {
        None
    } else {
        match attributes_reason(w.skip(1)) {
            Some(reason) => if glob_is_valid(w[0]) {
                Some((w[0], reason))
            } else {
                None
            },
            None => None,
        }
    }
}

/// The rules on the lines.
pub open spec fn rules_on(all: Seq<Seq<char>>) -> Seq<Rule>
    decreases all.len(),
{
    if all.len() == 0 {
        seq![]
    } else {
        match rule_on(all.last()) {
            Some(rule) => rules_on(all.drop_last()).push(rule),
            None => rules_on(all.drop_last()),
        }
    }
}

/// The patterns of the rules.
pub open spec fn rule_patterns(rules: Seq<Rule>) -> Seq<Seq<char>> {
    rules.map_values(|r: Rule| r.0)
}

/// Why the rules collapse a file: the first rule that matches decides.
pub open spec fn reason_for(rules: Seq<Rule>, path: Seq<char>) -> Option<Seq<char>> {
    match first_match(rule_patterns(rules), path) {
        Some(i) => Some(rules[i as int].1),
        None => None,
    }
}

/// `-diff`, `diff=false`, `binary`, `linguist-generated` and `linguist-generated=true` collapse a
/// file, each with its own reason; other attributes do not.
pub proof fn law_attributes_have_reasons(attribute: Seq<char>)
    ensures
        attribute_reason("-diff"@) == Some("collapsed: gitattributes (-diff)"@),
        attribute_reason("diff=false"@) == Some("collapsed: gitattributes (-diff)"@),
        attribute_reason("binary"@) == Some("collapsed: gitattributes (binary)"@),
        attribute_reason("linguist-generated"@) == Some(
            "collapsed: gitattributes (linguist-generated)"@,
        ),
        attribute_reason("linguist-generated=true"@) == Some(
            "collapsed: gitattributes (linguist-generated)"@,
        ),
        attribute_reason(attribute) is Some ==> attribute == "-diff"@ || attribute == "diff=false"@
            || attribute == "binary"@ || attribute == "linguist-generated"@ || attribute
            == "linguist-generated=true"@,
{
    reveal_strlit("-diff");
    reveal_strlit("diff=false");
    reveal_strlit("binary");
    reveal_strlit("linguist-generated");
    reveal_strlit("linguist-generated=true");
    assert("-diff"@.len() == 5 && "diff=false"@.len() == 10 && "binary"@.len() == 6);
    assert("linguist-generated"@.len() == 18 && "linguist-generated=true"@.len() == 23);
}

/// A line that is no comment holds a pattern and attributes, and the first attribute with a reason
/// decides; a line without one, or whose pattern is not valid, holds no rule.
pub proof fn law_lines_hold_rules(
    line: Seq<char>,
    pattern: Seq<char>,
    attributes: Seq<Seq<char>>,
    n: nat,
)
    requires
        trim(line).len() > 0,
        words(trim(line)) == seq![pattern] + attributes,
        n <= attributes.len(),
        forall|i: int| 0 <= i < n ==> attribute_reason(#[trigger] attributes[i]) is None,
        n < attributes.len() ==> attribute_reason(attributes[n as int]) is Some,
    ensures
        rule_on(line) == if trim(line)[0] != '#' && n < attributes.len() && glob_is_valid(pattern) {
            Some((pattern, attribute_reason(attributes[n as int])->0))
        } else {
            None
        },
{
    let w = words(trim(line));
    assert(w.skip(1) =~= attributes);
    assert(w[0] == pattern);
    lemma_first_reason(attributes, n);
}

/// A blank line holds no rule.
pub proof fn law_blank_lines_hold_no_rule(line: Seq<char>)
    requires
        trim(line).len() == 0,
    ensures
        rule_on(line) is None,
{
}

proof fn lemma_first_reason(attributes: Seq<Seq<char>>, n: nat)
    requires
        n <= attributes.len(),
        forall|i: int| 0 <= i < n ==> attribute_reason(#[trigger] attributes[i]) is None,
        n < attributes.len() ==> attribute_reason(attributes[n as int]) is Some,
    ensures
        attributes_reason(attributes) == if n < attributes.len() {
            attribute_reason(attributes[n as int])
        } else {
            None
        },
    decreases n,
{
    if n > 0 {
        let rest = attributes.skip(1);
        assert(attribute_reason(attributes[0]) is None);
        assert forall|i: int| 0 <= i < n - 1 implies attribute_reason(
            #[trigger] rest[i],
        ) is None by {
            assert(rest[i] == attributes[i + 1]);
        }
        lemma_first_reason(rest, (n - 1) as nat);
    }
}

/// The rules stand in the order of their lines.
pub proof fn law_rules_keep_the_order_of_their_lines(all: Seq<Seq<char>>, line: Seq<char>)
    ensures
        rules_on(Seq::<Seq<char>>::empty()) == Seq::<Rule>::empty(),
        rules_on(all.push(line)) == match rule_on(line) {
            Some(rule) => rules_on(all).push(rule),
            None => rules_on(all),
        },
{
    assert(all.push(line).drop_last() =~= all);
}

/// Decides by `.gitattributes` which files are collapsed.
pub struct GitAttrMatcher {
    matcher: PathMatcher,
    reasons: Vec<&'static str>,
}

impl GitAttrMatcher {
    #[verifier::type_invariant]
    spec fn has_reasons(self) -> bool {
        self.reasons@.len() == self.matcher.patterns().len()
    }

    /// The rules, in the order in which they stand in the file.
    pub closed spec fn rules(self) -> Seq<Rule> {
        Seq::new(
            self.reasons@.len(),
            |i: int| (self.matcher.patterns()[i], self.reasons@[i]@),
        )
    }

    /// Why a file is collapsed, or `None` where it is not.
    pub fn collapse_reason(&self, path: &str) -> (r: Option<&'static str>)
        ensures
            opt_str(r) == reason_for(self.rules(), path@),
    {
        proof {
            use_type_invariant(self);
            assert(rule_patterns(self.rules()) =~= self.matcher.patterns());
            lemma_first_match(self.matcher.patterns(), path@);
        }
        match self.matcher.first(path) {
            Some(i) => Some(self.reasons[i]),
            None => None,
        }
    }
}

/// Why a file with the attribute is collapsed.
fn reason_of_attribute(attribute: &str) -> (r: Option<&'static str>)
    ensures
        opt_str(r) == attribute_reason(attribute@),
{
    if same(attribute, "-diff") || same(attribute, "diff=false") {
        Some("collapsed: gitattributes (-diff)")
    } else if same(attribute, "binary") {
        Some("collapsed: gitattributes (binary)")
    } else if same(attribute, "linguist-generated") || same(attribute, "linguist-generated=true") {
        Some("collapsed: gitattributes (linguist-generated)")
    } else {
        None
    }
}

/// Why a file with the attributes in `parts`, which begin behind the pattern, is collapsed.
fn reason_of_line(parts: &Vec<String>) -> (r: Option<&'static str>)
    requires
        parts@.len() > 0,
    ensures
        opt_str(r) == attributes_reason(views(parts@).skip(1)),
{
    let ghost all = views(parts@);
    let mut i: usize = 1;
    while i < parts.len()
        invariant
            1 <= i <= parts@.len(),
            all == views(parts@),
            attributes_reason(all.skip(1)) == attributes_reason(all.skip(i as int)),
        decreases parts@.len() - i,
    {
        assert(all.skip(i as int)[0] == parts@[i as int]@);
        assert(all.skip(i as int).skip(1) == all.skip(i + 1));
        let reason = reason_of_attribute(parts[i].as_str());
        if reason.is_some() {
            return reason;
        }
        i += 1;
    }
    None
}

/// The rule on a line.
fn parse_rule(line: &str) -> (r: Option<(PathGlob, &'static str)>)
    ensures
        match r {
            Some(rule) => rule_on(line@) == Some((rule.0.pattern(), rule.1@)),
            None => rule_on(line@) is None,
        },
{
    let line = trimmed(line);
    if line.as_str().is_empty() || starts_with_char(line.as_str(), '#') {
        return None;
    }
    let parts = words_of(line.as_str());
    let ghost all = views(parts@);
    if parts.len() == 0 {
        return None;
    }
    assert(all[0] == parts@[0]@);
    match reason_of_line(&parts) {
        Some(reason) => match PathGlob::new(parts[0].as_str()) {
            Some(glob) => Some((glob, reason)),
            None => None,
        },
        None => None,
    }
}

/// Reads the content of a `.gitattributes` file. There is no matcher where it holds no rule, or
/// where the patterns cannot be compiled together.
pub fn load_gitattributes(content: &str) -> (r: Option<GitAttrMatcher>)
    ensures
        r is Some <==> rules_on(lines(content@)).len() > 0 && globs_compile(
            rule_patterns(rules_on(lines(content@))),
        ),
        r matches Some(matcher) ==> matcher.rules() == rules_on(lines(content@)),
{
    let all = lines_of(content);
    let ghost model = lines(content@);
    let mut globs: Vec<PathGlob> = Vec::new();
    let mut reasons: Vec<&'static str> = Vec::new();
    let mut i: usize = 0;
    while i < all.len()
        invariant
            i <= all@.len(),
            views(all@) == model,
            globs@.len() == reasons@.len() == rules_on(model.take(i as int)).len(),
            forall|k: int|
                0 <= k < globs@.len() ==> #[trigger] rules_on(model.take(i as int))[k] == (
                    globs@[k].pattern(),
                    reasons@[k]@,
                ),
        decreases all@.len() - i,
    {
        assert(views(all@)[i as int] == all@[i as int]@);
        assert(model.take(i + 1).drop_last() == model.take(i as int));
        assert(model.take(i + 1).last() == all@[i as int]@);
        if let Some((glob, reason)) = parse_rule(all[i].as_str()) {
            globs.push(glob);
            reasons.push(reason);
        }
        i += 1;
    }
    assert(model.take(i as int) == model);
    if globs.len() == 0 {
        return None;
    }
    let ghost rules = rules_on(model);
    assert(patterns_of(globs@) =~= rule_patterns(rules));
    match PathMatcher::build(globs) {
        Some(matcher) => {
            let r = GitAttrMatcher { matcher, reasons };
            assert(r.rules() =~= rules);
            Some(r)
        },
        None => None,
    }
}

} // verus!

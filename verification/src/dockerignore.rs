use vstd::prelude::*;
use vstd::string::StrSliceExecFns;
use crate::globpat::{compile_pattern, pattern_matches, pattern_source, glob_compiles, glob_match};

verus! {

/// One line of an ignore file: a comment, a negated pattern, or a plain
/// exclusion pattern. `pattern` is `None` when the glob text failed to
/// compile; such a rule is permanently inert.
pub struct DockerIgnoreLine {
    pub string: String,
    pub lineno: usize,
    pub is_comment: bool,
    pub is_negate: bool,
    pub pattern: Option<glob::Pattern>,
}

/// An ordered rule list read from an ignore file, immutable once built.
pub struct DockerIgnore {
    pub lines: Vec<DockerIgnoreLine>,
}

/// The glob text of a line: the line itself, with the leading `!` stripped
/// when the line is a negation.
pub open spec fn pattern_text(line: Seq<char>) -> Seq<char> {
    if line.len() > 0 && line[0] == '!' {
        line.skip(1)
    } else {
        line
    }
}

impl DockerIgnoreLine {
    /// The stored flags and compiled pattern agree with the stored text.
    pub open spec fn wf(self) -> bool {
        &&& self.is_comment == (self.string@.len() > 0 && self.string@[0] == '#')
        &&& self.is_negate == (self.string@.len() > 0 && self.string@[0] == '!')
        &&& (self.pattern matches Some(p) ==> pattern_source(p) == pattern_text(self.string@))
    }

    /// A rule takes part in evaluation only when it is not a comment and its
    /// pattern compiled.
    pub open spec fn is_active(self) -> bool {
        !self.is_comment && self.pattern is Some
    }

    /// An active rule matches a path when its glob text matches it.
    pub open spec fn matches(self, path: Seq<char>) -> bool {
        self.is_active() && glob_match(pattern_text(self.string@), path)
    }
}

/// Last match wins: the verdict of the rule list on a path. A path is
/// ignored exactly when the last rule that matches it is not negated; with
/// no matching rule the path is kept.
pub open spec fn ignored_by(rules: Seq<DockerIgnoreLine>, path: Seq<char>) -> bool
    decreases rules.len(),
{
    if rules.len() == 0 {
        false
    } else if rules.last().matches(path) {
        !rules.last().is_negate
    } else {
        ignored_by(rules.drop_last(), path)
    }
}

impl DockerIgnore {
    pub open spec fn wf(self) -> bool {
        forall|i: int| 0 <= i < self.lines@.len() ==> (#[trigger] self.lines@[i]).wf()
    }

    /// Builds the rule set from the lines of an ignore file, in file order.
    /// Every line yields a rule: comments and uncompilable patterns are kept
    /// but marked so that evaluation skips them, so loading never fails.
    pub fn from_lines(lines: &Vec<String>) -> (r: DockerIgnore)
        ensures
            r.wf(),
            r.lines@.len() == lines@.len(),
            forall|i: int| 0 <= i < lines@.len() ==> {
                &&& (#[trigger] r.lines@[i]).string@ == lines@[i]@
                &&& r.lines@[i].lineno == i + 1
                &&& r.lines@[i].pattern is Some <==> glob_compiles(pattern_text(lines@[i]@))
            },
    {
        let mut out: Vec<DockerIgnoreLine> = Vec::new();
        let mut i: usize = 0;
        while i < lines.len()
            invariant
                i <= lines@.len(),
                out@.len() == i,
                forall|j: int| 0 <= j < i ==> (#[trigger] out@[j]).wf(),
                forall|j: int| 0 <= j < i ==> {
                    &&& (#[trigger] out@[j]).string@ == lines@[j]@
                    &&& out@[j].lineno == j + 1
                    &&& out@[j].pattern is Some <==> glob_compiles(pattern_text(lines@[j]@))
                },
            decreases lines@.len() - i,
        {
            let string = lines[i].clone();
            let len = string.as_str().unicode_len();
            let is_comment = len > 0 && string.as_str().get_char(0) == '#';
            let is_negate = len > 0 && string.as_str().get_char(0) == '!';
            let text: &str = if is_negate {
                string.as_str().substring_char(1, len)
            } else {
                string.as_str()
            };
            assert(text@ == pattern_text(string@));
            let pattern = compile_pattern(text);
            out.push(DockerIgnoreLine { string, lineno: i + 1, is_comment, is_negate, pattern });
            i += 1;
        }
        DockerIgnore { lines: out }
    }

    /// Folds the rules in file order over the root-relative path: a match
    /// on a plain rule marks the path ignored, a match on a negated rule
    /// re-includes it, and the last matching rule decides.
    pub fn check_path_ignored(&self, path: &str) -> (r: bool)
        requires
            self.wf(),
        ensures
            r == ignored_by(self.lines@, path@),
    {
        let mut is_ignored = false;
        let mut i: usize = 0;
        while i < self.lines.len()
            invariant
                self.wf(),
                i <= self.lines@.len(),
                is_ignored == ignored_by(self.lines@.take(i as int), path@),
            decreases self.lines@.len() - i,
        {
            let ie = &self.lines[i];
            if !ie.is_comment {
                if let Some(p) = &ie.pattern {
                    if pattern_matches(p, path) {
                        is_ignored = !ie.is_negate;
                    }
                }
            }
            proof {
                let taken = self.lines@.take(i + 1);
                assert(taken.drop_last() =~= self.lines@.take(i as int));
                assert(taken.last() == self.lines@[i as int]);
            }
            i += 1;
        }
        proof {
            assert(self.lines@.take(self.lines@.len() as int) =~= self.lines@);
        }
        is_ignored
    }
}

/// The last matching rule decides: if rule `k` matches `path` and no later
/// rule does, the verdict on `path` is the opposite of `k`'s negation flag.
pub proof fn lemma_last_match_wins(rules: Seq<DockerIgnoreLine>, path: Seq<char>, k: int)
    requires
        0 <= k < rules.len(),
        rules[k].matches(path),
        forall|j: int| k < j < rules.len() ==> !(#[trigger] rules[j]).matches(path),
    ensures
        ignored_by(rules, path) == !rules[k].is_negate,
    decreases rules.len(),
{
    if k == rules.len() - 1 {
    } else {
        assert(!rules.last().matches(path));
        assert(rules.drop_last()[k] == rules[k]);
        lemma_last_match_wins(rules.drop_last(), path, k);
    }
}

/// A path that no rule matches is not ignored.
pub proof fn lemma_no_match_not_ignored(rules: Seq<DockerIgnoreLine>, path: Seq<char>)
    requires
        forall|j: int| 0 <= j < rules.len() ==> !(#[trigger] rules[j]).matches(path),
    ensures
        !ignored_by(rules, path),
    decreases rules.len(),
{
    if rules.len() > 0 {
        lemma_no_match_not_ignored(rules.drop_last(), path);
    }
}

/// Removing an inactive rule (a comment, or a rule whose pattern failed to
/// compile) changes no verdict.
pub proof fn lemma_inactive_rule_inert(rules: Seq<DockerIgnoreLine>, path: Seq<char>, k: int)
    requires
        0 <= k < rules.len(),
        !rules[k].is_active(),
    ensures
        ignored_by(rules.remove(k), path) == ignored_by(rules, path),
    decreases rules.len(),
{
    if k == rules.len() - 1 {
        assert(rules.remove(k) =~= rules.drop_last());
        assert(!rules.last().matches(path));
    } else {
        assert(rules.remove(k).last() == rules.last());
        if !rules.last().matches(path) {
            assert(rules.remove(k).drop_last() =~= rules.drop_last().remove(k));
            lemma_inactive_rule_inert(rules.drop_last(), path, k);
        }
    }
}

/// Comment lines never influence the verdict on any path.
pub proof fn lemma_comment_never_influences(rules: Seq<DockerIgnoreLine>, path: Seq<char>, k: int)
    requires
        0 <= k < rules.len(),
        rules[k].is_comment,
    ensures
        ignored_by(rules.remove(k), path) == ignored_by(rules, path),
{
    lemma_inactive_rule_inert(rules, path, k);
}

/// A rule whose glob pattern failed to compile never influences the verdict
/// on any path.
pub proof fn lemma_bad_pattern_never_influences(
    rules: Seq<DockerIgnoreLine>,
    path: Seq<char>,
    k: int,
)
    requires
        0 <= k < rules.len(),
        rules[k].pattern is None,
    ensures
        ignored_by(rules.remove(k), path) == ignored_by(rules, path),
{
    lemma_inactive_rule_inert(rules, path, k);
}

} // verus!

//! The decisions of one rollup event, from the opened issue to the comment.
use vstd::prelude::*;
use crate::aggregate::{MentionState, aggregate, aggregation};
use crate::classify::{MentionRule, classify, matched_keys, rules_view};

verus! {

pub open spec fn rollup_prefix() -> Seq<char> {
    seq!['R', 'o', 'l', 'l', 'u', 'p', ' ', 'o', 'f']
}

/// Only an opened, non-draft issue whose title starts with `Rollup of` is checked.
pub open spec fn is_active_rollup_spec(opened: bool, title: Seq<char>, draft: bool) -> bool {
    opened && !draft && title.len() >= rollup_prefix().len() && title.take(
        rollup_prefix().len() as int,
    ) == rollup_prefix()
}

pub fn is_active_rollup(opened: bool, title: &str, draft: bool) -> (r: bool)
    ensures
        r == is_active_rollup_spec(opened, title@, draft),
{
    if !opened || draft {
        return false;
    }
    let prefix = vec!['R', 'o', 'l', 'l', 'u', 'p', ' ', 'o', 'f'];
    assert(prefix@ =~= rollup_prefix());
    let n = title.unicode_len();
    if n < prefix.len() {
        return false;
    }
    let mut k: usize = 0;
    while k < prefix.len()
        invariant
            n == title@.len(),
            prefix@ == rollup_prefix(),
            n >= prefix@.len(),
            k <= prefix@.len(),
            forall|j: int| 0 <= j < k ==> title@[j] == prefix@[j],
        decreases prefix.len() - k,
    {
        if title.get_char(k) != prefix[k] {
            assert(title@.take(prefix@.len() as int)[k as int] != prefix@[k as int]);
            return false;
        }
        k = k + 1;
    }
    assert(title@.take(prefix@.len() as int) =~= prefix@);
    true
}

/// The changed files of each bundled pull request; `None` where the diff
/// could not be fetched.
pub open spec fn files_view(files: Seq<Option<Vec<String>>>) -> Seq<Option<Seq<Seq<char>>>> {
    files.map_values(
        |f: Option<Vec<String>>|
            match f {
                Some(v) => Some(v.deep_view()),
                None => None,
            },
    )
}

/// The matched keys of each bundled pull request, in their order; one whose
/// diff is missing matches nothing.
pub open spec fn matched_per_pr(
    files: Seq<Option<Seq<Seq<char>>>>,
    rules: Seq<crate::classify::RuleView>,
    author: Seq<char>,
) -> Seq<Seq<Seq<char>>> {
    files.map_values(
        |f: Option<Seq<Seq<char>>>|
            match f {
                Some(fs) => matched_keys(rules, fs, author),
                None => seq![],
            },
    )
}

/// Classifies each bundled pull request; a missing diff gives no keys and the
/// others are still classified.
pub fn classify_all(files: &Vec<Option<Vec<String>>>, rules: &Vec<MentionRule>, author: &str) -> (r:
    Vec<Vec<String>>)
    ensures
        r.deep_view() == matched_per_pr(files_view(files@), rules_view(rules@), author@),
{
    let ghost want = matched_per_pr(files_view(files@), rules_view(rules@), author@);
    let mut out: Vec<Vec<String>> = Vec::new();
    let mut i: usize = 0;
    while i < files.len()
        invariant
            i <= files.len(),
            want == matched_per_pr(files_view(files@), rules_view(rules@), author@),
            want.len() == files.len(),
            out.deep_view() == want.take(i as int),
        decreases files.len() - i,
    {
        let keys = match &files[i] {
            Some(fs) => classify(fs, rules, author),
            None => Vec::new(),
        };
        assert(keys.deep_view() =~= want[i as int]);
        let ghost before = out.deep_view();
        out.push(keys);
        assert(out.deep_view() =~= before.push(want[i as int]));
        assert(out.deep_view() =~= want.take(i + 1));
        i = i + 1;
    }
    assert(want.take(files.len() as int) =~= want);
    out
}

/// The comment and the state to keep for a rollup by `author`, from the
/// changed files of each bundled pull request and the issue's saved state.
pub fn rollup_mentions(
    files: &Vec<Option<Vec<String>>>,
    prior: &MentionState,
    rules: &Vec<MentionRule>,
    author: &str,
) -> (r: (Option<String>, MentionState))
    ensures
        (match r.0 {
            Some(c) => Some(c@),
            None => None,
        }, r.1@) == aggregation(
            matched_per_pr(files_view(files@), rules_view(rules@), author@),
            prior@,
            rules_view(rules@),
        ),
{
    let matched = classify_all(files, rules, author);
    aggregate(&matched, prior, rules)
}

} // verus!

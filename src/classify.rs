//! Classification of a bundled pull request's changed files against the
//! configured sensitive paths.
use vstd::prelude::*;

verus! {

/// A configured sensitive path: the mention that a change under it earns.
#[derive(Debug)]
pub struct MentionRule {
    /// The path prefix; also the rule's key in the persisted state.
    pub path: String,
    /// A message of its own, in place of the default one.
    pub message: Option<String>,
    /// Handles to cc, each with its `@`.
    pub cc: Vec<String>,
}

pub struct RuleView {
    pub path: Seq<char>,
    pub message: Option<Seq<char>>,
    pub cc: Seq<Seq<char>>,
}

impl View for MentionRule {
    type V = RuleView;

    open spec fn view(&self) -> RuleView {
        RuleView {
            path: self.path@,
            message: match self.message {
                Some(m) => Some(m@),
                None => None,
            },
            cc: self.cc.deep_view(),
        }
    }
}

pub open spec fn rules_view(rules: Seq<MentionRule>) -> Seq<RuleView> {
    rules.map_values(|r: MentionRule| r@)
}

/// What `Path::new(path).starts_with(base)` returns: `base` is a prefix of
/// `path` component by component.
pub uninterp spec fn path_starts_with(path: Seq<char>, base: Seq<char>) -> bool;

/// Relies on std::path::Path::starts_with, which compares whole components,
/// so that `compiler` is a prefix of `compiler/src` and not of `compiler2/src`.
#[verifier::external_body]
fn path_has_prefix(path: &str, base: &str) -> (r: bool)
    ensures
        r == path_starts_with(path@, base@),
{
    std::path::Path::new(path).starts_with(std::path::Path::new(base))
}

/// A handle without its leading `@` signs.
pub open spec fn strip_sigil(s: Seq<char>) -> Seq<char>
    decreases s.len(),
{
    if s.len() > 0 && s[0] == '@' {
        strip_sigil(s.drop_first())
    } else {
        s
    }
}

/// The cc list is the author alone: mentioning it would ping the author
/// about their own change.
pub open spec fn only_author(cc: Seq<Seq<char>>, author: Seq<char>) -> bool {
    cc.len() == 1 && strip_sigil(cc[0]) == author
}

pub open spec fn touches(files: Seq<Seq<char>>, base: Seq<char>) -> bool {
    exists|i: int| 0 <= i < files.len() && path_starts_with(#[trigger] files[i], base)
}

pub open spec fn rule_applies(rule: RuleView, files: Seq<Seq<char>>, author: Seq<char>) -> bool {
    touches(files, rule.path) && !only_author(rule.cc, author)
}

/// The keys of the rules that apply, in configuration order.
pub open spec fn matched_keys(rules: Seq<RuleView>, files: Seq<Seq<char>>, author: Seq<char>) -> Seq<
    Seq<char>,
>
    decreases rules.len(),
{
    if rules.len() == 0 {
        seq![]
    } else {
        let before = matched_keys(rules.drop_last(), files, author);
        if rule_applies(rules.last(), files, author) {
            before.push(rules.last().path)
        } else {
            before
        }
    }
}

/// Whether `s` with its leading `@` signs taken off equals `author`.
fn is_author(s: &str, author: &str) -> (r: bool)
    ensures
        r == (strip_sigil(s@) == author@),
{
    let n = s.unicode_len();
    let mut a: usize = 0;
    assert(s@.subrange(0, n as int) =~= s@);
    while a < n && s.get_char(a) == '@'
        invariant
            a <= n == s@.len(),
            strip_sigil(s@) == strip_sigil(s@.subrange(a as int, n as int)),
        decreases n - a,
    {
        assert(s@.subrange(a as int, n as int).drop_first() =~= s@.subrange(a + 1, n as int));
        a = a + 1;
    }
    let ghost rest = s@.subrange(a as int, n as int);
    assert(strip_sigil(rest) == rest);
    let m = author.unicode_len();
    if n - a != m {
        assert(rest.len() != author@.len());
        return false;
    }
    let mut k: usize = 0;
    while k < m
        invariant
            a <= n == s@.len(),
            m == author@.len(),
            n - a == m,
            k <= m,
            rest == s@.subrange(a as int, n as int),
            strip_sigil(s@) == rest,
            forall|j: int| 0 <= j < k ==> rest[j] == author@[j],
        decreases m - k,
    {
        if s.get_char(a + k) != author.get_char(k) {
            assert(rest[k as int] == s@[a + k]);
            assert(rest[k as int] != author@[k as int]);
            return false;
        }
        k = k + 1;
    }
    assert(rest =~= author@);
    true
}

/// Whether the mention would reach someone other than the author: false only
/// where the one handle to cc is the author.
pub fn pings_non_author(cc: &Vec<String>, author: &str) -> (r: bool)
    ensures
        r == !only_author(cc.deep_view(), author@),
{
    if cc.len() == 1 {
        !is_author(cc[0].as_str(), author)
    } else {
        true
    }
}

/// Whether some changed file lies under `base`.
pub fn touches_path(files: &Vec<String>, base: &str) -> (r: bool)
    ensures
        r == touches(files.deep_view(), base@),
{
    let mut i: usize = 0;
    while i < files.len()
        invariant
            i <= files.len(),
            forall|j: int| 0 <= j < i ==> !path_starts_with(#[trigger] files.deep_view()[j], base@),
        decreases files.len() - i,
    {
        if path_has_prefix(files[i].as_str(), base) {
            assert(path_starts_with(files.deep_view()[i as int], base@));
            return true;
        }
        i = i + 1;
    }
    false
}

/// The keys of the rules whose path some changed file lies under, in
/// configuration order, leaving out a rule whose one handle to cc is the author.
pub fn classify(files: &Vec<String>, rules: &Vec<MentionRule>, author: &str) -> (r: Vec<String>)
    ensures
        r.deep_view() == matched_keys(rules_view(rules@), files.deep_view(), author@),
{
    let ghost rv = rules_view(rules@);
    let mut keys: Vec<String> = Vec::new();
    let mut i: usize = 0;
    while i < rules.len()
        invariant
            i <= rules.len(),
            rv == rules_view(rules@),
            keys.deep_view() == matched_keys(rv.take(i as int), files.deep_view(), author@),
        decreases rules.len() - i,
    {
        let rule = &rules[i];
        assert(rv.take(i + 1).drop_last() =~= rv.take(i as int));
        assert(rv.take(i + 1).last() == rule@);
        if touches_path(files, rule.path.as_str()) && pings_non_author(&rule.cc, author) {
            let ghost before = keys.deep_view();
            keys.push(rule.path.clone());
            assert(keys.deep_view() =~= before.push(rule@.path));
        }
        i = i + 1;
    }
    assert(rv.take(rules.len() as int) =~= rv);
    keys
}

/// Whether any changed file earns a mention under the rules.
pub fn dangerous_files(files: &Vec<String>, rules: &Vec<MentionRule>, author: &str) -> (r: bool)
    ensures
        r == (matched_keys(rules_view(rules@), files.deep_view(), author@).len() > 0),
{
    classify(files, rules, author).len() > 0
}

/// `key` is the path of a rule that applies.
pub open spec fn key_of_applying_rule(
    rules: Seq<RuleView>,
    files: Seq<Seq<char>>,
    author: Seq<char>,
    key: Seq<char>,
) -> bool {
    exists|j: int| 0 <= j < rules.len() && rules[j].path == key && rule_applies(rules[j], files, author)
}

proof fn lemma_matched_from_applying_rule(
    rules: Seq<RuleView>,
    files: Seq<Seq<char>>,
    author: Seq<char>,
)
    ensures
        forall|k: int|
            0 <= k < matched_keys(rules, files, author).len() ==> key_of_applying_rule(
                rules,
                files,
                author,
                #[trigger] matched_keys(rules, files, author)[k],
            ),
    decreases rules.len(),
{
    if rules.len() > 0 {
        let init = rules.drop_last();
        lemma_matched_from_applying_rule(init, files, author);
        let before = matched_keys(init, files, author);
        let after = matched_keys(rules, files, author);
        assert forall|k: int| 0 <= k < after.len() implies key_of_applying_rule(
            rules,
            files,
            author,
            #[trigger] after[k],
        ) by {
            if k < before.len() {
                assert(after[k] == before[k]);
                assert(key_of_applying_rule(init, files, author, before[k]));
                let j = choose|j: int|
                    0 <= j < init.len() && init[j].path == before[k] && rule_applies(
                        init[j],
                        files,
                        author,
                    );
                assert(rules[j] == init[j]);
            } else {
                let j = rules.len() - 1;
                assert(rules[j] == rules.last());
                assert(rules[j].path == after[k] && rule_applies(rules[j], files, author));
            }
        };
    }
}

/// A rule whose one handle to cc is the author is never among the matched keys,
/// whichever files it covers (in a configuration whose keys are distinct).
pub proof fn author_only_rule_never_matched(
    rules: Seq<RuleView>,
    files: Seq<Seq<char>>,
    author: Seq<char>,
    i: int,
)
    requires
        0 <= i < rules.len(),
        forall|a: int, b: int|
            0 <= a < rules.len() && 0 <= b < rules.len() && #[trigger] rules[a].path
                == #[trigger] rules[b].path ==> a == b,
        only_author(rules[i].cc, author),
    ensures
        !matched_keys(rules, files, author).contains(rules[i].path),
{
    lemma_matched_from_applying_rule(rules, files, author);
    let m = matched_keys(rules, files, author);
    if m.contains(rules[i].path) {
        let k = choose|k: int| 0 <= k < m.len() && m[k] == rules[i].path;
        assert(key_of_applying_rule(rules, files, author, m[k]));
        let j = choose|j: int|
            0 <= j < rules.len() && rules[j].path == m[k] && rule_applies(rules[j], files, author);
        assert(j == i);
    }
}

} // verus!

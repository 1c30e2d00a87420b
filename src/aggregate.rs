//! Aggregation of the matched rules of all bundled pull requests into one
//! mention comment and the updated per-issue state.
use vstd::prelude::*;
use crate::classify::{MentionRule, RuleView, rules_view};

verus! {

/// The rule keys already mentioned on an issue.
#[derive(Debug)]
pub struct MentionState {
    pub paths: Vec<String>,
}

impl View for MentionState {
    type V = Seq<Seq<char>>;

    open spec fn view(&self) -> Seq<Seq<char>> {
        self.paths.deep_view()
    }
}

impl MentionState {
    pub fn new() -> (r: MentionState)
        ensures
            r@ == Seq::<Seq<char>>::empty(),
    {
        let r = MentionState { paths: Vec::new() };
        assert(r@ =~= Seq::<Seq<char>>::empty());
        r
    }

    /// A copy holding the same keys.
    pub fn copy(&self) -> (r: MentionState)
        ensures
            r@ == self@,
    {
        let mut paths: Vec<String> = Vec::new();
        let mut i: usize = 0;
        while i < self.paths.len()
            invariant
                i <= self.paths.len(),
                paths.deep_view() == self@.take(i as int),
            decreases self.paths.len() - i,
        {
            let ghost before = paths.deep_view();
            let key = self.paths[i].clone();
            assert(key@ == self@[i as int]);
            paths.push(key);
            assert(paths.deep_view() =~= before.push(self@[i as int]));
            assert(paths.deep_view() =~= self@.take(i + 1));
            i = i + 1;
        }
        assert(self@.take(self.paths.len() as int) =~= self@);
        MentionState { paths }
    }
}

/// The matched keys of all bundled pull requests, one after the other.
pub open spec fn flatten(matched: Seq<Seq<Seq<char>>>) -> Seq<Seq<char>>
    decreases matched.len(),
{
    if matched.len() == 0 {
        seq![]
    } else {
        flatten(matched.drop_last()) + matched.last()
    }
}

/// The keys of `ks` that are not in `prior`, each at its first occurrence.
pub open spec fn fresh_keys(ks: Seq<Seq<char>>, prior: Seq<Seq<char>>) -> Seq<Seq<char>>
    decreases ks.len(),
{
    if ks.len() == 0 {
        seq![]
    } else {
        let before = fresh_keys(ks.drop_last(), prior);
        if before.contains(ks.last()) || prior.contains(ks.last()) {
            before
        } else {
            before.push(ks.last())
        }
    }
}

/// The first rule configured under `key`.
pub open spec fn find_rule(rules: Seq<RuleView>, key: Seq<char>) -> Option<RuleView>
    decreases rules.len(),
{
    if rules.len() == 0 {
        None
    } else if rules[0].path == key {
        Some(rules[0])
    } else {
        find_rule(rules.drop_first(), key)
    }
}

/// `parts` with `sep` between each two of them.
pub open spec fn join(parts: Seq<Seq<char>>, sep: Seq<char>) -> Seq<char>
    decreases parts.len(),
{
    if parts.len() == 0 {
        seq![]
    } else if parts.len() == 1 {
        parts[0]
    } else {
        join(parts.drop_last(), sep) + sep + parts.last()
    }
}

pub open spec fn default_message(key: Seq<char>) -> Seq<char> {
    "Some changes occurred in "@ + key
}

/// The message block of one key: the rule's message or the default one, then
/// the handles to cc, if any.
pub open spec fn block(rule: Option<RuleView>, key: Seq<char>) -> Seq<char> {
    let message = match rule {
        Some(r) => match r.message {
            Some(m) => m,
            None => default_message(key),
        },
        None => default_message(key),
    };
    let cc = match rule {
        Some(r) => r.cc,
        None => seq![],
    };
    if cc.len() > 0 {
        message + "\n\ncc "@ + join(cc, ", "@)
    } else {
        message
    }
}

pub open spec fn blocks(keys: Seq<Seq<char>>, rules: Seq<RuleView>) -> Seq<Seq<char>>
    decreases keys.len(),
{
    if keys.len() == 0 {
        seq![]
    } else {
        blocks(keys.drop_last(), rules).push(block(find_rule(rules, keys.last()), keys.last()))
    }
}

proof fn lemma_blocks_len(keys: Seq<Seq<char>>, rules: Seq<RuleView>)
    ensures
        blocks(keys, rules).len() == keys.len(),
    decreases keys.len(),
{
    if keys.len() > 0 {
        lemma_blocks_len(keys.drop_last(), rules);
    }
}

/// The comment on `keys`: their blocks, a blank line between each two.
pub open spec fn comment(keys: Seq<Seq<char>>, rules: Seq<RuleView>) -> Seq<char> {
    join(blocks(keys, rules), "\n\n"@)
}

/// The comment to post, if any, and the state to keep after posting it.
pub open spec fn aggregation(
    matched: Seq<Seq<Seq<char>>>,
    prior: Seq<Seq<char>>,
    rules: Seq<RuleView>,
) -> (Option<Seq<char>>, Seq<Seq<char>>) {
    let fresh = fresh_keys(flatten(matched), prior);
    if fresh.len() == 0 {
        (None, prior)
    } else {
        (Some(comment(fresh, rules)), prior + fresh)
    }
}

fn contains_key(v: &Vec<String>, key: &String) -> (r: bool)
    ensures
        r == v.deep_view().contains(key@),
{
    let mut i: usize = 0;
    while i < v.len()
        invariant
            i <= v.len(),
            forall|j: int| 0 <= j < i ==> v.deep_view()[j] != key@,
        decreases v.len() - i,
    {
        if v[i] == *key {
            assert(v.deep_view()[i as int] == key@);
            return true;
        }
        i = i + 1;
    }
    false
}

/// The matched keys, in the order of the bundled pull requests and then of the
/// configuration, each once, without those already mentioned.
pub fn new_mentions(matched: &Vec<Vec<String>>, prior: &MentionState) -> (r: Vec<String>)
    ensures
        r.deep_view() == fresh_keys(flatten(matched.deep_view()), prior@),
{
    let ghost mv = matched.deep_view();
    let mut out: Vec<String> = Vec::new();
    let mut i: usize = 0;
    while i < matched.len()
        invariant
            i <= matched.len(),
            mv == matched.deep_view(),
            out.deep_view() == fresh_keys(flatten(mv.take(i as int)), prior@),
        decreases matched.len() - i,
    {
        let keys = &matched[i];
        let ghost done = flatten(mv.take(i as int));
        assert(keys.deep_view() == mv[i as int]);
        let mut j: usize = 0;
        while j < keys.len()
            invariant
                i < matched.len(),
                mv == matched.deep_view(),
                keys.deep_view() == mv[i as int],
                j <= keys.len(),
                out.deep_view() == fresh_keys(done + keys.deep_view().take(j as int), prior@),
            decreases keys.len() - j,
        {
            let key = &keys[j];
            let ghost ks = done + keys.deep_view().take(j + 1);
            assert(ks.drop_last() =~= done + keys.deep_view().take(j as int));
            assert(ks.last() == key@);
            if !contains_key(&out, key) && !contains_key(&prior.paths, key) {
                let ghost before = out.deep_view();
                out.push(key.clone());
                assert(out.deep_view() =~= before.push(key@));
            }
            j = j + 1;
        }
        assert(mv.take(i + 1).drop_last() =~= mv.take(i as int));
        assert(keys.deep_view().take(keys.len() as int) =~= keys.deep_view());
        i = i + 1;
    }
    assert(mv.take(matched.len() as int) =~= mv);
    out
}

fn find_rule_index(rules: &Vec<MentionRule>, key: &String) -> (r: Option<usize>)
    ensures
        match r {
            Some(i) => i < rules.len() && find_rule(rules_view(rules@), key@) == Some(
                rules@[i as int]@,
            ),
            None => find_rule(rules_view(rules@), key@) is None,
        },
{
    let ghost rv = rules_view(rules@);
    let mut i: usize = 0;
    assert(rv.skip(0) =~= rv);
    while i < rules.len()
        invariant
            i <= rules.len(),
            rv == rules_view(rules@),
            find_rule(rv, key@) == find_rule(rv.skip(i as int), key@),
        decreases rules.len() - i,
    {
        assert(rv.skip(i as int)[0] == rules@[i as int]@);
        if rules[i].path == *key {
            return Some(i);
        }
        assert(rv.skip(i as int).drop_first() =~= rv.skip(i + 1));
        i = i + 1;
    }
    None
}

fn join_into(out: &mut String, parts: &Vec<String>, sep: &str)
    ensures
        final(out)@ == old(out)@ + join(parts.deep_view(), sep@),
{
    let ghost start = out@;
    let mut i: usize = 0;
    while i < parts.len()
        invariant
            i <= parts.len(),
            out@ == start + join(parts.deep_view().take(i as int), sep@),
        decreases parts.len() - i,
    {
        let ghost pv = parts.deep_view().take(i + 1);
        assert(pv.drop_last() =~= parts.deep_view().take(i as int));
        if i > 0 {
            out.append(sep);
        }
        out.append(parts[i].as_str());
        i = i + 1;
    }
    assert(parts.deep_view().take(parts.len() as int) =~= parts.deep_view());
}

fn write_block(out: &mut String, key: &String, rules: &Vec<MentionRule>)
    ensures
        final(out)@ == old(out)@ + block(find_rule(rules_view(rules@), key@), key@),
{
    let found = find_rule_index(rules, key);
    match found {
        Some(i) => {
            let rule = &rules[i];
            match &rule.message {
                Some(m) => out.append(m.as_str()),
                None => {
                    out.append("Some changes occurred in ");
                    out.append(key.as_str());
                },
            }
            if rule.cc.len() > 0 {
                out.append("\n\ncc ");
                join_into(out, &rule.cc, ", ");
            }
        },
        None => {
            out.append("Some changes occurred in ");
            out.append(key.as_str());
        },
    }
}

/// The comment on `keys`, one block each in order, a blank line between blocks.
pub fn compose_comment(keys: &Vec<String>, rules: &Vec<MentionRule>) -> (r: String)
    ensures
        r@ == comment(keys.deep_view(), rules_view(rules@)),
{
    let ghost rv = rules_view(rules@);
    let mut out = String::new();
    let mut i: usize = 0;
    while i < keys.len()
        invariant
            i <= keys.len(),
            rv == rules_view(rules@),
            out@ == comment(keys.deep_view().take(i as int), rv),
        decreases keys.len() - i,
    {
        let ghost kv = keys.deep_view().take(i + 1);
        let ghost prev = keys.deep_view().take(i as int);
        assert(kv.drop_last() =~= prev);
        assert(kv.last() == keys[i as int]@);
        let ghost bs = blocks(kv, rv);
        assert(bs.drop_last() =~= blocks(prev, rv));
        assert(blocks(prev, rv).len() == i) by {
            lemma_blocks_len(prev, rv);
        };
        if i > 0 {
            out.append("\n\n");
        }
        write_block(&mut out, &keys[i], rules);
        i = i + 1;
    }
    assert(keys.deep_view().take(keys.len() as int) =~= keys.deep_view());
    out
}

/// The comment to post on the rollup, if any key is new, and the state to
/// keep once it is posted: the prior keys followed by the new ones.
pub fn aggregate(matched: &Vec<Vec<String>>, prior: &MentionState, rules: &Vec<MentionRule>) -> (r: (
    Option<String>,
    MentionState,
))
    ensures
        (match r.0 {
            Some(c) => Some(c@),
            None => None,
        }, r.1@) == aggregation(matched.deep_view(), prior@, rules_view(rules@)),
{
    let fresh = new_mentions(matched, prior);
    let mut paths = prior.copy().paths;
    if fresh.len() == 0 {
        return (None, MentionState { paths });
    }
    let text = compose_comment(&fresh, rules);
    let mut j: usize = 0;
    while j < fresh.len()
        invariant
            j <= fresh.len(),
            paths.deep_view() == prior@ + fresh.deep_view().take(j as int),
        decreases fresh.len() - j,
    {
        let ghost before = paths.deep_view();
        let key = fresh[j].clone();
        assert(key@ == fresh.deep_view()[j as int]);
        paths.push(key);
        assert(paths.deep_view() =~= before.push(fresh.deep_view()[j as int]));
        assert(paths.deep_view() =~= prior@ + fresh.deep_view().take(j + 1));
        j = j + 1;
    }
    assert(fresh.deep_view().take(fresh.len() as int) =~= fresh.deep_view());
    (Some(text), MentionState { paths })
}

/// Each key of `ks` is in `prior` or among the fresh keys.
proof fn lemma_fresh_covers(ks: Seq<Seq<char>>, prior: Seq<Seq<char>>)
    ensures
        forall|i: int|
            0 <= i < ks.len() ==> prior.contains(#[trigger] ks[i]) || fresh_keys(
                ks,
                prior,
            ).contains(ks[i]),
    decreases ks.len(),
{
    if ks.len() > 0 {
        let init = ks.drop_last();
        lemma_fresh_covers(init, prior);
        let before = fresh_keys(init, prior);
        let after = fresh_keys(ks, prior);
        assert forall|i: int| 0 <= i < ks.len() implies prior.contains(#[trigger] ks[i])
            || after.contains(ks[i]) by {
            if i < ks.len() - 1 {
                assert(init[i] == ks[i]);
                if before.contains(ks[i]) {
                    let w = choose|w: int| 0 <= w < before.len() && before[w] == ks[i];
                    if !(before.contains(ks.last()) || prior.contains(ks.last())) {
                        assert(after[w] == ks[i]);
                    }
                }
            } else if !(before.contains(ks.last()) || prior.contains(ks.last())) {
                assert(after[before.len() as int] == ks.last());
            }
        };
    }
}

/// Where every key of `ks` is in `prior`, none is fresh.
proof fn lemma_fresh_none(ks: Seq<Seq<char>>, prior: Seq<Seq<char>>)
    requires
        forall|i: int| 0 <= i < ks.len() ==> prior.contains(#[trigger] ks[i]),
    ensures
        fresh_keys(ks, prior).len() == 0,
    decreases ks.len(),
{
    if ks.len() > 0 {
        let init = ks.drop_last();
        assert forall|i: int| 0 <= i < init.len() implies prior.contains(#[trigger] init[i]) by {
            assert(init[i] == ks[i]);
        };
        lemma_fresh_none(init, prior);
        assert(prior.contains(ks[ks.len() - 1]));
    }
}

/// Aggregating again with the state that the first aggregation produced
/// yields no comment: a key is never mentioned twice on an issue.
pub proof fn aggregation_is_idempotent(
    matched: Seq<Seq<Seq<char>>>,
    prior: Seq<Seq<char>>,
    rules: Seq<RuleView>,
)
    ensures
        aggregation(matched, aggregation(matched, prior, rules).1, rules).0 is None,
        aggregation(matched, aggregation(matched, prior, rules).1, rules).1 == aggregation(
            matched,
            prior,
            rules,
        ).1,
{
    let ks = flatten(matched);
    let fresh = fresh_keys(ks, prior);
    let next = aggregation(matched, prior, rules).1;
    lemma_fresh_covers(ks, prior);
    assert forall|i: int| 0 <= i < ks.len() implies next.contains(#[trigger] ks[i]) by {
        if prior.contains(ks[i]) {
            let w = choose|w: int| 0 <= w < prior.len() && prior[w] == ks[i];
            if fresh.len() > 0 {
                assert(next[w] == ks[i]);
            }
        } else {
            let w = choose|w: int| 0 <= w < fresh.len() && fresh[w] == ks[i];
            assert(next[prior.len() + w] == ks[i]);
        }
    };
    lemma_fresh_none(ks, next);
}

/// `x` occurs in `ks` before any occurrence of `y`.
pub open spec fn occurs_before(ks: Seq<Seq<char>>, x: Seq<char>, y: Seq<char>) -> bool {
    exists|a: int| 0 <= a < ks.len() && ks[a] == x && forall|b: int| 0 <= b <= a ==> ks[b] != y
}

/// Every fresh key occurs in `ks`.
proof fn lemma_fresh_in(ks: Seq<Seq<char>>, prior: Seq<Seq<char>>)
    ensures
        forall|i: int|
            0 <= i < fresh_keys(ks, prior).len() ==> ks.contains(#[trigger] fresh_keys(ks, prior)[i]),
    decreases ks.len(),
{
    if ks.len() > 0 {
        let init = ks.drop_last();
        lemma_fresh_in(init, prior);
        let before = fresh_keys(init, prior);
        let after = fresh_keys(ks, prior);
        assert forall|i: int| 0 <= i < after.len() implies ks.contains(#[trigger] after[i]) by {
            if i < before.len() {
                assert(after[i] == before[i]);
                let w = choose|w: int| 0 <= w < init.len() && init[w] == before[i];
                assert(ks[w] == after[i]);
            } else {
                assert(ks[ks.len() - 1] == after[i]);
            }
        };
    }
}

/// The fresh keys come in the order of their first occurrence in `ks`,
/// whatever the order of the configuration that produced them.
pub proof fn fresh_keys_keep_first_occurrence_order(ks: Seq<Seq<char>>, prior: Seq<Seq<char>>)
    ensures
        forall|i: int, j: int|
            0 <= i < j < fresh_keys(ks, prior).len() ==> occurs_before(
                ks,
                #[trigger] fresh_keys(ks, prior)[i],
                #[trigger] fresh_keys(ks, prior)[j],
            ),
    decreases ks.len(),
{
    if ks.len() > 0 {
        let init = ks.drop_last();
        let k = ks.last();
        fresh_keys_keep_first_occurrence_order(init, prior);
        lemma_fresh_covers(init, prior);
        lemma_fresh_in(init, prior);
        let before = fresh_keys(init, prior);
        let after = fresh_keys(ks, prior);
        assert forall|i: int, j: int| 0 <= i < j < after.len() implies occurs_before(
            ks,
            #[trigger] after[i],
            #[trigger] after[j],
        ) by {
            if j < before.len() {
                assert(after[i] == before[i] && after[j] == before[j]);
                assert(occurs_before(init, before[i], before[j]));
                let a = choose|a: int|
                    0 <= a < init.len() && init[a] == before[i] && forall|b: int|
                        0 <= b <= a ==> init[b] != before[j];
                assert forall|b: int| 0 <= b <= a implies ks[b] != after[j] by {
                    assert(init[b] == ks[b]);
                };
                assert(ks[a] == after[i]);
            } else {
                assert(after[j] == k);
                assert(!before.contains(k) && !prior.contains(k));
                assert(after[i] == before[i]);
                assert(init.contains(before[i]));
                let a = choose|a: int| 0 <= a < init.len() && init[a] == before[i];
                assert forall|b: int| 0 <= b <= a implies ks[b] != k by {
                    assert(init[b] == ks[b]);
                    if ks[b] == k {
                        assert(prior.contains(init[b]) || before.contains(init[b]));
                    }
                };
                assert(ks[a] == after[i]);
            }
        };
    }
}

} // verus!

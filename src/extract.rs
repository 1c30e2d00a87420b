//! Extraction of the bundled pull request identifiers from a rollup body.
use vstd::prelude::*;

verus! {

/// Unicode `White_Space`, the set that `char::is_whitespace` and `str::trim` use.
pub open spec fn is_space(c: char) -> bool {
    ('\t' <= c && c <= '\r') || c == ' ' || c == '\u{85}' || c == '\u{a0}' || c == '\u{1680}'
        || ('\u{2000}' <= c && c <= '\u{200a}') || c == '\u{2028}' || c == '\u{2029}'
        || c == '\u{202f}' || c == '\u{205f}' || c == '\u{3000}'
}

pub open spec fn trim_start(s: Seq<char>) -> Seq<char>
    decreases s.len(),
{
    if s.len() > 0 && is_space(s[0]) {
        trim_start(s.drop_first())
    } else {
        s
    }
}

pub open spec fn trim_end(s: Seq<char>) -> Seq<char>
    decreases s.len(),
{
    if s.len() > 0 && is_space(s.last()) {
        trim_end(s.drop_last())
    } else {
        s
    }
}

/// A line without its leading and trailing white space.
pub open spec fn trim(s: Seq<char>) -> Seq<char> {
    trim_end(trim_start(s))
}

/// The lines read so far, and the line being read.
pub open spec fn split_lines_acc(s: Seq<char>) -> (Seq<Seq<char>>, Seq<char>)
    decreases s.len(),
{
    if s.len() == 0 {
        (seq![], seq![])
    } else {
        let (done, cur) = split_lines_acc(s.drop_last());
        if s.last() == '\n' {
            (done.push(cur), seq![])
        } else {
            (done, cur.push(s.last()))
        }
    }
}

/// The text split at each line feed. A carriage return before the feed stays
/// in the line; trimming removes it.
pub open spec fn lines(s: Seq<char>) -> Seq<Seq<char>> {
    split_lines_acc(s).0.push(split_lines_acc(s).1)
}

pub open spec fn header() -> Seq<char> {
    seq!['S', 'u', 'c', 'c', 'e', 's', 's', 'f', 'u', 'l', ' ', 'm', 'e', 'r', 'g', 'e', 's', ':']
}

pub open spec fn marker() -> Seq<char> {
    seq!['-', ' ', '#']
}

pub open spec fn has_marker(t: Seq<char>) -> bool {
    t.len() >= 3 && t.take(3) == marker()
}

/// `p` is the first space of the line after the marker.
pub open spec fn is_first_space(t: Seq<char>, p: int) -> bool {
    &&& 3 <= p < t.len()
    &&& t[p] == ' '
    &&& forall|k: int| 3 <= k < p ==> t[k] != ' '
}

/// The identifier of a marked line: what follows the marker up to the first
/// space; `None` where no space follows.
pub open spec fn pr_id(t: Seq<char>) -> Option<Seq<char>> {
    if exists|p: int| is_first_space(t, p) {
        Some(t.subrange(3, choose|p: int| is_first_space(t, p)))
    } else {
        None
    }
}

#[derive(PartialEq, Eq, Structural, Clone, Copy, Debug)]
pub enum Phase {
    /// The header has not been seen yet.
    Searching,
    /// Inside the run of marked lines that follows the header.
    Collecting,
    /// The run has ended; nothing more is read.
    Done,
}

/// One step of the scan over a (not yet trimmed) line.
pub open spec fn step(phase: Phase, ids: Seq<Seq<char>>, line: Seq<char>) -> (Phase, Seq<Seq<char>>) {
    let t = trim(line);
    if t.len() == 0 {
        (phase, ids)
    } else {
        match phase {
            Phase::Searching => if t == header() {
                (Phase::Collecting, ids)
            } else {
                (Phase::Searching, ids)
            },
            Phase::Collecting => if has_marker(t) {
                match pr_id(t) {
                    Some(id) => (Phase::Collecting, ids.push(id)),
                    None => (Phase::Collecting, ids),
                }
            } else {
                (Phase::Done, ids)
            },
            Phase::Done => (Phase::Done, ids),
        }
    }
}

/// The scan over a sequence of lines, from the start.
pub open spec fn scan(ls: Seq<Seq<char>>) -> (Phase, Seq<Seq<char>>)
    decreases ls.len(),
{
    if ls.len() == 0 {
        (Phase::Searching, seq![])
    } else {
        let (phase, ids) = scan(ls.drop_last());
        step(phase, ids, ls.last())
    }
}

/// The identifiers of the pull requests that a rollup body lists as merged.
pub open spec fn rolled_up_prs(body: Seq<char>) -> Seq<Seq<char>> {
    scan(lines(body)).1
}

fn is_space_char(c: char) -> (r: bool)
    ensures
        r == is_space(c),
{
    ('\t' <= c && c <= '\r') || c == ' ' || c == '\u{85}' || c == '\u{a0}' || c == '\u{1680}'
        || ('\u{2000}' <= c && c <= '\u{200a}') || c == '\u{2028}' || c == '\u{2029}'
        || c == '\u{202f}' || c == '\u{205f}' || c == '\u{3000}'
}

/// Bounds of the trimmed part of `s[lo..hi]`.
fn trim_bounds(s: &str, lo: usize, hi: usize) -> (r: (usize, usize))
    requires
        lo <= hi <= s@.len(),
    ensures
        lo <= r.0 <= r.1 <= hi,
        s@.subrange(r.0 as int, r.1 as int) == trim(s@.subrange(lo as int, hi as int)),
{
    let ghost whole = s@.subrange(lo as int, hi as int);
    let mut a: usize = lo;
    while a < hi && is_space_char(s.get_char(a))
        invariant
            lo <= a <= hi <= s@.len(),
            trim_start(whole) == trim_start(s@.subrange(a as int, hi as int)),
        decreases hi - a,
    {
        assert(s@.subrange(a as int, hi as int).drop_first() =~= s@.subrange(a + 1, hi as int));
        a = a + 1;
    }
    assert(trim_start(s@.subrange(a as int, hi as int)) == s@.subrange(a as int, hi as int));
    let mut b: usize = hi;
    while b > a && is_space_char(s.get_char(b - 1))
        invariant
            lo <= a <= b <= hi <= s@.len(),
            trim(whole) == trim_end(s@.subrange(a as int, b as int)),
        decreases b - a,
    {
        assert(s@.subrange(a as int, b as int).drop_last() =~= s@.subrange(a as int, b - 1));
        b = b - 1;
    }
    assert(trim_end(s@.subrange(a as int, b as int)) == s@.subrange(a as int, b as int));
    (a, b)
}

/// Whether `s[a..b]` equals `pat`.
fn equals_at(s: &str, a: usize, b: usize, pat: &Vec<char>) -> (r: bool)
    requires
        a <= b <= s@.len(),
    ensures
        r == (s@.subrange(a as int, b as int) == pat@),
{
    if b - a != pat.len() {
        return false;
    }
    let mut k: usize = 0;
    while k < pat.len()
        invariant
            a <= b <= s@.len(),
            b - a == pat@.len(),
            k <= pat@.len(),
            forall|j: int| 0 <= j < k ==> s@[a + j] == pat@[j],
        decreases pat.len() - k,
    {
        if s.get_char(a + k) != pat[k] {
            assert(s@.subrange(a as int, b as int)[k as int] != pat@[k as int]);
            return false;
        }
        k = k + 1;
    }
    assert(s@.subrange(a as int, b as int) =~= pat@);
    true
}

fn header_chars() -> (r: Vec<char>)
    ensures
        r@ == header(),
{
    let r = vec!['S', 'u', 'c', 'c', 'e', 's', 's', 'f', 'u', 'l', ' ', 'm', 'e', 'r', 'g', 'e', 's', ':'];
    assert(r@ =~= header());
    r
}

fn marker_chars() -> (r: Vec<char>)
    ensures
        r@ == marker(),
{
    let r = vec!['-', ' ', '#'];
    assert(r@ =~= marker());
    r
}

/// Feeds the line `s[lo..hi]` to the scan.
fn scan_line(s: &str, lo: usize, hi: usize, phase: &mut Phase, ids: &mut Vec<String>)
    requires
        lo <= hi <= s@.len(),
    ensures
        (*final(phase), final(ids).deep_view()) == step(
            *old(phase),
            old(ids).deep_view(),
            s@.subrange(lo as int, hi as int),
        ),
{
    let ghost line = s@.subrange(lo as int, hi as int);
    let (a, b) = trim_bounds(s, lo, hi);
    let ghost t = s@.subrange(a as int, b as int);
    if a == b {
        return;
    }
    match *phase {
        Phase::Searching => {
            let h = header_chars();
            if equals_at(s, a, b, &h) {
                *phase = Phase::Collecting;
            }
        },
        Phase::Collecting => {
            let m = marker_chars();
            if b - a >= 3 {
                assert(t.take(3) =~= s@.subrange(a as int, a + 3));
            }
            if !(b - a >= 3 && equals_at(s, a, a + 3, &m)) {
                *phase = Phase::Done;
                return;
            }
            let mut p: usize = a + 3;
            while p < b && s.get_char(p) != ' '
                invariant
                    a + 3 <= p <= b <= s@.len(),
                    t == s@.subrange(a as int, b as int),
                    forall|k: int| 3 <= k < p - a ==> t[k] != ' ',
                decreases b - p,
            {
                p = p + 1;
            }
            if p < b {
                let ghost q = p - a;
                assert(is_first_space(t, q));
                let ghost c = choose|c: int| is_first_space(t, c);
                assert(c == q) by {
                    if c < q {
                        assert(t[c] != ' ');
                    } else if c > q {
                        assert(t[q] != ' ');
                    }
                };
                let id = s.substring_char(a + 3, p).to_owned();
                assert(id@ =~= t.subrange(3, q));
                let ghost before = ids.deep_view();
                ids.push(id);
                assert(ids.deep_view() =~= before.push(t.subrange(3, q)));
            } else {
                assert forall|c: int| !is_first_space(t, c) by {
                    if is_first_space(t, c) {
                        assert(t[c] != ' ');
                    }
                };
            }
        },
        Phase::Done => {},
    }
}

/// The identifiers listed in the first contiguous run of `- #<id> ...` lines
/// after the `Successful merges:` line, in order; empty without that line.
pub fn get_rolled_up_prs(body: &str) -> (r: Vec<String>)
    ensures
        r.deep_view() == rolled_up_prs(body@),
{
    let n = body.unicode_len();
    let mut phase = Phase::Searching;
    let mut ids: Vec<String> = Vec::new();
    let mut start: usize = 0;
    let mut i: usize = 0;
    while i < n
        invariant
            n == body@.len(),
            start <= i <= n,
            split_lines_acc(body@.take(i as int)).1 == body@.subrange(start as int, i as int),
            (phase, ids.deep_view()) == scan(split_lines_acc(body@.take(i as int)).0),
        decreases n - i,
    {
        let ghost prev = body@.take(i as int);
        assert(body@.take(i + 1).drop_last() =~= prev);
        let c = body.get_char(i);
        if c == '\n' {
            let ghost acc = split_lines_acc(prev);
            scan_line(body, start, i, &mut phase, &mut ids);
            assert(acc.0.push(acc.1).drop_last() =~= acc.0);
            start = i + 1;
            assert(body@.subrange(start as int, i + 1) =~= seq![]);
        } else {
            assert(body@.subrange(start as int, i + 1) =~= body@.subrange(start as int, i as int).push(c));
        }
        i = i + 1;
    }
    let ghost acc = split_lines_acc(body@.take(n as int));
    scan_line(body, start, n, &mut phase, &mut ids);
    assert(body@.take(n as int) =~= body@);
    assert(acc.0.push(acc.1).drop_last() =~= acc.0);
    ids
}

proof fn lemma_no_header(ls: Seq<Seq<char>>)
    requires
        forall|i: int| 0 <= i < ls.len() ==> trim(#[trigger] ls[i]) != header(),
    ensures
        scan(ls) == (Phase::Searching, Seq::<Seq<char>>::empty()),
    decreases ls.len(),
{
    if ls.len() > 0 {
        let init = ls.drop_last();
        assert forall|i: int| 0 <= i < init.len() implies trim(#[trigger] init[i]) != header() by {
            assert(init[i] == ls[i]);
        };
        lemma_no_header(init);
        assert(trim(ls[ls.len() - 1]) != header());
    }
}

/// A body none of whose lines is the `Successful merges:` header lists no
/// pull request.
pub proof fn no_header_lists_nothing(body: Seq<char>)
    requires
        forall|i: int| 0 <= i < lines(body).len() ==> trim(#[trigger] lines(body)[i]) != header(),
    ensures
        rolled_up_prs(body).len() == 0,
{
    lemma_no_header(lines(body));
}

proof fn lemma_done_is_final(ls: Seq<Seq<char>>, rest: Seq<Seq<char>>)
    requires
        scan(ls).0 == Phase::Done,
    ensures
        scan(ls + rest) == scan(ls),
    decreases rest.len(),
{
    if rest.len() == 0 {
        assert(ls + rest =~= ls);
    } else {
        lemma_done_is_final(ls, rest.drop_last());
        assert((ls + rest).drop_last() =~= ls + rest.drop_last());
    }
}

/// Once the run of marked lines after the header is broken by a non-blank
/// line without the marker, no later line adds an identifier, marked or not.
pub proof fn interruption_ends_the_run(
    before: Seq<Seq<char>>,
    line: Seq<char>,
    after: Seq<Seq<char>>,
)
    requires
        scan(before).0 == Phase::Collecting,
        trim(line).len() > 0,
        !has_marker(trim(line)),
    ensures
        scan(before.push(line) + after).1 == scan(before).1,
{
    assert(before.push(line).drop_last() =~= before);
    lemma_done_is_final(before.push(line), after);
}

} // verus!

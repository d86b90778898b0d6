//! The integer side of ranking past fix cycles: how much an error line has
//! in common with a past one, which cycles are similar enough to keep, and
//! the counts that describe a script.
use vstd::prelude::*;
use crate::graph::{scan_lines, split_lines};
use crate::text::{chars_of, contains_chars, occurs_at, occurs_at_exec, split_tokens, tokens, views};

verus! {

/// One saved run of a script.
#[derive(Clone, Debug)]
pub struct RunRecord {
    /// What the run printed.
    pub run_contents: String,
}

/// How many of the tokens `cur` (repeats counted) occur among `hist`.
pub open spec fn overlap_count(cur: Seq<Seq<char>>, hist: Seq<Seq<char>>) -> nat
    decreases cur.len(),
{
    if cur.len() == 0 {
        0
    } else {
        overlap_count(cur.drop_last(), hist) + if hist.contains(cur.last()) {
            1nat
        } else {
            0nat
        }
    }
}

/// The two counts of an error line's similarity to a past one: how many of
/// the current line's whitespace-separated tokens also occur in the past
/// line, and how many tokens the current line has. The similarity score is
/// the first divided by the second, and 0 for a line without tokens.
pub fn token_overlap(current_line: &str, historical_line: &str) -> (r: (usize, usize))
    ensures
        r.0 == overlap_count(tokens(current_line@), tokens(historical_line@)),
        r.1 == tokens(current_line@).len(),
{
    let cur = split_tokens(current_line);
    let hist = split_tokens(historical_line);
    let ghost cv = views(cur@);
    let mut overlap: usize = 0;
    let n = cur.len();
    for i in 0..n
        invariant
            n == cur@.len(),
            cv == views(cur@),
            overlap == overlap_count(cv.take(i as int), views(hist@)),
            overlap <= i,
    {
        assert(cv.take(i + 1).drop_last() == cv.take(i as int));
        assert(cv.take(i + 1).last() == cur@[i as int]@);
        if contains_chars(&hist, &cur[i]) {
            overlap = overlap + 1;
        }
    }
    assert(cv.take(n as int) == cv);
    (overlap, n)
}

/// The shared tokens never outnumber the current line's tokens.
pub proof fn law_overlap_bounded(cur: Seq<Seq<char>>, hist: Seq<Seq<char>>)
    ensures
        overlap_count(cur, hist) <= cur.len(),
    decreases cur.len(),
{
    if cur.len() > 0 {
        law_overlap_bounded(cur.drop_last(), hist);
    }
}

/// The shared tokens are exactly the current tokens that are equal to some
/// token of the past line: the overlap counts them, repeats included.
pub proof fn law_overlap_counts_equal_tokens(cur: Seq<Seq<char>>, hist: Seq<Seq<char>>)
    ensures
        overlap_count(cur, hist) == cur.filter(|t: Seq<char>| hist.contains(t)).len(),
    decreases cur.len(),
{
    reveal(Seq::filter);
    if cur.len() > 0 {
        law_overlap_counts_equal_tokens(cur.drop_last(), hist);
    }
}

/// The overlap adds up over the parts of the current line's tokens.
pub proof fn law_overlap_additive(a: Seq<Seq<char>>, b: Seq<Seq<char>>, hist: Seq<Seq<char>>)
    ensures
        overlap_count(a + b, hist) == overlap_count(a, hist) + overlap_count(b, hist),
    decreases b.len(),
{
    if b.len() == 0 {
        assert(a + b =~= a);
    } else {
        law_overlap_additive(a, b.drop_last(), hist);
        assert((a + b).drop_last() =~= a + b.drop_last());
        assert((a + b).last() == b.last());
    }
}

/// When no current token is equal to a past token, nothing is shared; when
/// every current token is equal to some past token, all are.
pub proof fn law_overlap_extremes(cur: Seq<Seq<char>>, hist: Seq<Seq<char>>)
    ensures
        (forall|i: int, j: int| 0 <= i < cur.len() && 0 <= j < hist.len() ==> cur[i] != hist[j])
            ==> overlap_count(cur, hist) == 0,
        (forall|i: int| 0 <= i < cur.len() ==> hist.contains(#[trigger] cur[i])) ==> overlap_count(
            cur,
            hist,
        ) == cur.len(),
    decreases cur.len(),
{
    if cur.len() > 0 {
        let init = cur.drop_last();
        law_overlap_extremes(init, hist);
        if forall|i: int, j: int| 0 <= i < cur.len() && 0 <= j < hist.len() ==> cur[i] != hist[j] {
            assert forall|i: int, j: int| 0 <= i < init.len() && 0 <= j < hist.len() implies init[i]
                != hist[j] by {
                assert(init[i] == cur[i]);
            }
            if hist.contains(cur.last()) {
                let j = choose|j: int| 0 <= j < hist.len() && hist[j] == cur.last();
                assert(cur[cur.len() - 1] != hist[j]);
            }
        }
        if forall|i: int| 0 <= i < cur.len() ==> hist.contains(#[trigger] cur[i]) {
            assert forall|i: int| 0 <= i < init.len() implies hist.contains(#[trigger] init[i]) by {
                assert(init[i] == cur[i]);
            }
            assert(hist.contains(cur[cur.len() - 1]));
        }
    }
}

/// Every token of a line occurs in the line itself: compared with itself,
/// a line shares all of its tokens (its score is 1).
pub proof fn law_line_overlaps_itself(line: Seq<char>)
    ensures
        overlap_count(tokens(line), tokens(line)) == tokens(line).len(),
{
    lemma_overlap_of_prefix(tokens(line), tokens(line).len() as int);
    assert(tokens(line).take(tokens(line).len() as int) == tokens(line));
}

/// Every token of a prefix of `ts` occurs in `ts`.
proof fn lemma_overlap_of_prefix(ts: Seq<Seq<char>>, k: int)
    requires
        0 <= k <= ts.len(),
    ensures
        overlap_count(ts.take(k), ts) == k,
    decreases k,
{
    if k > 0 {
        lemma_overlap_of_prefix(ts, k - 1);
        assert(ts.take(k).drop_last() == ts.take(k - 1));
        assert(ts.take(k).last() == ts[k - 1]);
        assert(ts.contains(ts[k - 1]));
    } else {
        assert(ts.take(0).len() == 0);
    }
    if k == ts.len() {
        assert(ts.take(k) == ts);
    }
}

/// Whether a past fix cycle is similar enough to keep: it holds at least two
/// runs, and the error line of its run before the last scores above 0.2
/// against the current error line, that is, more than a fifth of the
/// current line's tokens occur in it.
pub open spec fn cycle_kept(current_line: Seq<char>, cycle: Seq<RunRecord>) -> bool {
    cycle.len() >= 2 && {
        let past = cycle[cycle.len() - 2].run_contents@;
        5 * overlap_count(tokens(current_line), tokens(past)) > tokens(current_line).len()
    }
}

/// Whether a cycle is kept depends only on what its run before the last
/// printed: two cycles of the same length that agree there are kept alike,
/// whatever their other runs hold. A cycle of fewer than two runs is never kept.
pub proof fn law_cycle_kept_reads_run_before_last(
    current_line: Seq<char>,
    c1: Seq<RunRecord>,
    c2: Seq<RunRecord>,
)
    ensures
        c1.len() < 2 ==> !cycle_kept(current_line, c1),
        c1.len() == c2.len() && c1.len() >= 2 && c1[c1.len() - 2].run_contents@ == c2[c2.len()
            - 2].run_contents@ ==> cycle_kept(current_line, c1) == cycle_kept(current_line, c2),
{
}

/// The cycles kept, in their order.
pub open spec fn kept_cycles(current_line: Seq<char>, cycles: Seq<Vec<RunRecord>>) -> Seq<
    Vec<RunRecord>,
>
    decreases cycles.len(),
{
    if cycles.len() == 0 {
        Seq::empty()
    } else {
        let rest = kept_cycles(current_line, cycles.drop_last());
        if cycle_kept(current_line, cycles.last()@) {
            rest.push(cycles.last())
        } else {
            rest
        }
    }
}

/// The cycles kept are exactly those, in their order, that are similar
/// enough: nothing else is kept, nothing similar is dropped.
pub proof fn law_kept_cycles_are_the_similar_ones(
    current_line: Seq<char>,
    cycles: Seq<Vec<RunRecord>>,
)
    ensures
        kept_cycles(current_line, cycles) == cycles.filter(
            |c: Vec<RunRecord>| cycle_kept(current_line, c@),
        ),
    decreases cycles.len(),
{
    reveal(Seq::filter);
    if cycles.len() > 0 {
        law_kept_cycles_are_the_similar_ones(current_line, cycles.drop_last());
    }
}

/// The newlines are the `\n` characters of the text.
pub proof fn law_newline_count(s: Seq<char>)
    ensures
        newline_count(s) == s.filter(|c: char| c == '\n').len(),
    decreases s.len(),
{
    reveal(Seq::filter);
    if s.len() > 0 {
        law_newline_count(s.drop_last());
    }
}

/// The line scan finishes one line per `\n`, and the line it is reading is
/// empty exactly after a `\n` or at the start.
proof fn lemma_scan_lines_count(s: Seq<char>)
    ensures
        scan_lines(s).0.len() == newline_count(s),
        scan_lines(s).1.len() == 0 <==> (s.len() == 0 || s.last() == '\n'),
    decreases s.len(),
{
    if s.len() > 0 {
        lemma_scan_lines_count(s.drop_last());
    }
}

/// The script's line count is the number of pieces between `\n`s, less an
/// empty last piece: a text ending with `\n` has no extra empty line.
pub proof fn law_line_count_is_lines(s: Seq<char>)
    ensures
        line_count(s) == split_lines(s).len() - if split_lines(s).last().len() == 0 {
            1int
        } else {
            0int
        },
{
    lemma_scan_lines_count(s);
}

/// A pattern is counted once in itself, never in a text where it does not
/// occur, and the occurrences counted do not overlap: each one counted from
/// position `i` starts a match, and the next is looked for after it.
pub proof fn law_matches_from(s: Seq<char>, p: Seq<char>, i: int)
    requires
        p.len() > 0,
        0 <= i,
    ensures
        (forall|k: int| i <= k ==> !occurs_at(s, p, k)) ==> matches_from(s, p, i) == 0,
        matches_from(p, p, 0) == 1,
        occurs_at(s, p, i) ==> matches_from(s, p, i) == 1 + matches_from(s, p, i + p.len()),
    decreases s.len() - i,
{
    if (forall|k: int| i <= k ==> !occurs_at(s, p, k)) && i + p.len() <= s.len() {
        assert(!occurs_at(s, p, i));
        law_matches_from(s, p, i + 1);
    }
    assert(p.subrange(0, p.len() as int) =~= p);
    assert(occurs_at(p, p, 0));
    assert(matches_from(p, p, p.len() as int) == 0);
}

/// The past fix cycles whose error line is similar to the current one: see
/// [`cycle_kept`].
pub fn error_line_filter(current_line: &str, cycles: Vec<Vec<RunRecord>>) -> (r: Vec<
    Vec<RunRecord>,
>)
    ensures
        r@ == kept_cycles(current_line@, cycles@),
{
    let ghost all = cycles@;
    let mut kept: Vec<Vec<RunRecord>> = Vec::new();
    for cycle in it: cycles
        invariant
            all == it.seq(),
            kept@ == kept_cycles(current_line@, all.take(it.index() as int)),
    {
        let ghost i = it.index();
        assert(all.take(i + 1).drop_last() == all.take(i));
        assert(all.take(i + 1).last() == all[i]);
        assert(cycle == all[i]);
        let n = cycle.len();
        let keep = if n >= 2 {
            let (overlap, total) = token_overlap(current_line, cycle[n - 2].run_contents.as_str());
            proof {
                law_overlap_bounded(
                    tokens(current_line@),
                    tokens(cycle@[n - 2].run_contents@),
                );
            }
            overlap > total / 5
        } else {
            false
        };
        if keep {
            kept.push(cycle);
        }
    }
    assert(all.take(all.len() as int) == all);
    kept
}

/// A cycle whose run before the last printed the current error line itself
/// is kept whenever that line has a token.
pub proof fn law_same_error_line_kept(current_line: Seq<char>, cycle: Seq<RunRecord>)
    requires
        cycle.len() >= 2,
        cycle[cycle.len() - 2].run_contents@ == current_line,
        tokens(current_line).len() > 0,
    ensures
        cycle_kept(current_line, cycle),
{
    law_line_overlaps_itself(current_line);
}

/// Counts that describe a script.
#[derive(Clone, Copy, Debug, PartialEq, Eq, Structural)]
pub struct ScriptFeatures {
    /// Its lines (`str::lines().count()`).
    pub lines: usize,
    /// Its occurrences of `def ` (function definitions).
    pub defs: usize,
    /// Its occurrences of `if ` (branches).
    pub ifs: usize,
    /// Its length in bytes.
    pub bytes: usize,
}

/// How many `\n` characters `s` holds.
pub open spec fn newline_count(s: Seq<char>) -> nat
    decreases s.len(),
{
    if s.len() == 0 {
        0
    } else {
        newline_count(s.drop_last()) + if s.last() == '\n' {
            1nat
        } else {
            0nat
        }
    }
}

/// How many lines `str::lines` gives: one per `\n`, and one more for text
/// after the last `\n`.
pub open spec fn line_count(s: Seq<char>) -> nat {
    newline_count(s) + if s.len() > 0 && s.last() != '\n' {
        1nat
    } else {
        0nat
    }
}

/// How many times `p` occurs in `s` from position `i` on, taking each
/// occurrence from the left and going on after it (`str::matches().count()`).
pub open spec fn matches_from(s: Seq<char>, p: Seq<char>, i: int) -> nat
    decreases s.len() - i,
{
    if p.len() == 0 || i < 0 || i + p.len() > s.len() {
        0
    } else if occurs_at(s, p, i) {
        1 + matches_from(s, p, i + p.len())
    } else {
        matches_from(s, p, i + 1)
    }
}

/// The counts of a script: see [`ScriptFeatures`].
pub open spec fn features_of(script: &str) -> ScriptFeatures {
    ScriptFeatures {
        lines: line_count(script@) as usize,
        defs: matches_from(script@, "def "@, 0) as usize,
        ifs: matches_from(script@, "if "@, 0) as usize,
        bytes: vstd::utf8::encode_utf8(script@).len() as usize,
    }
}

/// How many times `p` occurs in `s`, one after the other.
fn count_occurrences(s: &Vec<char>, p: &Vec<char>) -> (r: usize)
    requires
        p@.len() > 0,
    ensures
        r == matches_from(s@, p@, 0),
{
    let mut count: usize = 0;
    let mut i: usize = 0;
    while i < s.len() && p.len() <= s.len() - i
        invariant
            p@.len() > 0,
            i <= s@.len(),
            count + matches_from(s@, p@, i as int) == matches_from(s@, p@, 0),
            count <= i,
        decreases s@.len() - i,
    {
        if occurs_at_exec(s, p, i) {
            count = count + 1;
            i = i + p.len();
        } else {
            i = i + 1;
        }
    }
    count
}

/// The counts of a script: its lines, its function definitions, its
/// branches and its length in bytes.
pub fn script_features(script: &str) -> (r: ScriptFeatures)
    ensures
        r == features_of(script),
{
    let cs = chars_of(script);
    let n = cs.len();
    let mut newlines: usize = 0;
    for i in 0..n
        invariant
            n == cs@.len(),
            newlines == newline_count(cs@.take(i as int)),
            newlines + (if i > 0 && cs@[i - 1] != '\n' {
                1int
            } else {
                0int
            }) <= i,
    {
        assert(cs@.take(i + 1).drop_last() == cs@.take(i as int));
        if cs[i] == '\n' {
            newlines = newlines + 1;
        }
    }
    assert(cs@.take(n as int) == cs@);
    let lines = if n > 0 && cs[n - 1] != '\n' {
        newlines + 1
    } else {
        newlines
    };
    let def_pattern: Vec<char> = vec!['d', 'e', 'f', ' '];
    let if_pattern: Vec<char> = vec!['i', 'f', ' '];
    proof {
        reveal_strlit("def ");
        reveal_strlit("if ");
        assert(def_pattern@ == "def "@);
        assert(if_pattern@ == "if "@);
    }
    let defs = count_occurrences(&cs, &def_pattern);
    let ifs = count_occurrences(&cs, &if_pattern);
    ScriptFeatures { lines, defs, ifs, bytes: script.len() }
}

} // verus!

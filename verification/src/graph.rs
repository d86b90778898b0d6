//! The error graph of a failed run: the frames of a Python traceback as
//! nodes, each frame linked to the one it called, and the error's type and
//! message.
use vstd::prelude::*;
use crate::text::{chars_of, occurs_at, occurs_at_exec, string_of, trim_bounds, trim_ws};

verus! {

/// One frame of a traceback.
pub struct Node {
    /// The source file of the frame.
    pub file: String,
    /// The line of the frame; 0 where the traceback's line number does not
    /// fit a `usize`.
    pub line: usize,
    /// The function of the frame.
    pub function: String,
}

/// The error graph of a failed run.
pub struct Graph {
    /// The type of the error, such as `ValueError`.
    pub error_type: String,
    /// The error's message.
    pub message: String,
    /// The frames of the traceback, outermost first.
    pub nodes: Vec<Node>,
    /// Each frame linked to the next one: `(i, i + 1)`.
    pub edges: Vec<(usize, usize)>,
    /// When the graph was made, in RFC 3339 form.
    pub timestamp: String,
}

/// The file, line and function texts of the frames that the `regex` crate finds
/// in `text` with the pattern `File "(.+)", line (\d+), in (.+)`, in order.
pub uninterp spec fn traceback_frames(text: Seq<char>) -> Seq<(Seq<char>, Seq<char>, Seq<char>)>;

/// The texts of a list of captured frames.
pub open spec fn capture_views(v: Seq<(String, String, String)>) -> Seq<
    (Seq<char>, Seq<char>, Seq<char>),
> {
    v.map_values(|c: (String, String, String)| (c.0@, c.1@, c.2@))
}

/// The three capture groups of every match of the traceback pattern in
/// `text` (`regex::Regex::captures_iter`).
///
/// Trusted: the result is [`traceback_frames`] of the text; what the pattern
/// matches is left to the name. The pattern is valid, so compiling it does not fail.
#[verifier::external_body]
fn frame_captures(text: &str) -> (r: Vec<(String, String, String)>)
    ensures
        capture_views(r@) == traceback_frames(text@),
{
    let re = regex::Regex::new(r#"File "(.+)", line (\d+), in (.+)"#).unwrap();
    let mut frames = Vec::new();
    for cap in re.captures_iter(text) {
        frames.push((cap[1].to_string(), cap[2].to_string(), cap[3].to_string()));
    }
    frames
}

/// The local time now, in RFC 3339 form (`chrono::Local::now().to_rfc3339()`).
///
/// Trusted, from chrono's documentation: the result is a date and time string
/// such as `1996-12-19T16:39:57-08:00`, so it is not empty. Which time it
/// shows is not stated: it depends on the clock and the time zone.
#[verifier::external_body]
fn now_rfc3339() -> (r: String)
    ensures
        r@.len() > 0,
{
    chrono::Local::now().to_rfc3339()
}

/// The state of a scan that splits at `\n`: the lines finished so far and the
/// line being read.
pub open spec fn scan_lines(s: Seq<char>) -> (Seq<Seq<char>>, Seq<char>)
    decreases s.len(),
{
    if s.len() == 0 {
        (Seq::empty(), Seq::empty())
    } else {
        let (done, cur) = scan_lines(s.drop_last());
        if s.last() == '\n' {
            (done.push(cur), Seq::empty())
        } else {
            (done, cur.push(s.last()))
        }
    }
}

/// The pieces of `s` between `\n` characters (`str::split('\n')`).
pub open spec fn split_lines(s: Seq<char>) -> Seq<Seq<char>> {
    scan_lines(s).0.push(scan_lines(s).1)
}

/// The last of `lines` that holds more than whitespace, trimmed.
pub open spec fn last_nonblank(lines: Seq<Seq<char>>) -> Option<Seq<char>>
    decreases lines.len(),
{
    if lines.len() == 0 {
        None
    } else if trim_ws(lines.last()).len() > 0 {
        Some(trim_ws(lines.last()))
    } else {
        last_nonblank(lines.drop_last())
    }
}

/// The first position at or after `from` where `p` occurs in `s`.
pub open spec fn first_occurrence_from(s: Seq<char>, p: Seq<char>, from: int) -> Option<int>
    decreases s.len() + 1 - from,
{
    if from < 0 || from + p.len() > s.len() {
        None
    } else if occurs_at(s, p, from) {
        Some(from)
    } else {
        first_occurrence_from(s, p, from + 1)
    }
}

/// The separator between an error's type and its message.
pub open spec fn type_separator() -> Seq<char> {
    seq![':', ' ']
}

/// The type and the message of the error that a Python traceback ends with:
/// its last line that holds more than whitespace, trimmed, split at its first
/// `": "`. A line without `": "` is all type, with an empty message; a text
/// with no such line gives two empty strings.
pub open spec fn error_type_of(stderr: Seq<char>) -> (Seq<char>, Seq<char>) {
    match last_nonblank(split_lines(stderr)) {
        None => (Seq::empty(), Seq::empty()),
        Some(l) => match first_occurrence_from(l, type_separator(), 0) {
            Some(k) => (l.take(k), l.skip(k + 2)),
            None => (l, Seq::empty()),
        },
    }
}

/// Whether `c` is an ASCII digit.
pub open spec fn is_digit(c: char) -> bool {
    '0' <= c <= '9'
}

/// The value of a sequence of ASCII digits.
pub open spec fn digits_value(d: Seq<char>) -> nat
    decreases d.len(),
{
    if d.len() == 0 {
        0
    } else {
        digits_value(d.drop_last()) * 10 + (d.last() as int - '0' as int) as nat
    }
}

/// `s` without a leading `+`.
pub open spec fn unsigned_digits(s: Seq<char>) -> Seq<char> {
    if s.len() > 0 && s[0] == '+' {
        s.drop_first()
    } else {
        s
    }
}

/// All of `d` are ASCII digits.
pub open spec fn all_digits(d: Seq<char>) -> bool {
    forall|i: int| 0 <= i < d.len() ==> is_digit(#[trigger] d[i])
}

/// What `str::parse::<usize>` makes of `s`: an optional `+` followed by at
/// least one ASCII digit, with a value that fits a `usize`.
pub open spec fn parsed_usize(s: Seq<char>) -> Option<nat> {
    let d = unsigned_digits(s);
    if d.len() > 0 && all_digits(d) && digits_value(d) <= usize::MAX {
        Some(digits_value(d))
    } else {
        None
    }
}

/// The line number of a frame: the parsed text, or 0 where it does not parse.
pub open spec fn line_number_of(s: Seq<char>) -> nat {
    match parsed_usize(s) {
        Some(v) => v,
        None => 0,
    }
}

/// The lines joined back with `\n` between them.
pub open spec fn join_lines(lines: Seq<Seq<char>>) -> Seq<char>
    decreases lines.len(),
{
    if lines.len() == 0 {
        Seq::empty()
    } else if lines.len() == 1 {
        lines[0]
    } else {
        join_lines(lines.drop_last()) + seq!['\n'] + lines.last()
    }
}

/// Joining one more line adds a `\n` and the line.
proof fn lemma_join_push(lines: Seq<Seq<char>>, x: Seq<char>)
    ensures
        join_lines(lines.push(x)) == if lines.len() == 0 {
            x
        } else {
            join_lines(lines) + seq!['\n'] + x
        },
{
    assert(lines.push(x).drop_last() =~= lines);
    if lines.len() == 0 {
        assert(lines.push(x)[0] == x);
    }
}

/// What the line scan holds after any text.
proof fn lemma_scan_lines(s: Seq<char>)
    ensures
        join_lines(scan_lines(s).0.push(scan_lines(s).1)) == s,
        forall|i: int, j: int|
            0 <= i < scan_lines(s).0.len() && 0 <= j < scan_lines(s).0[i].len()
                ==> #[trigger] scan_lines(s).0[i][j] != '\n',
        forall|j: int| 0 <= j < scan_lines(s).1.len() ==> #[trigger] scan_lines(s).1[j] != '\n',
    decreases s.len(),
{
    if s.len() == 0 {
        lemma_join_push(Seq::empty(), Seq::empty());
    } else {
        let p = s.drop_last();
        lemma_scan_lines(p);
        let (d0, c0) = scan_lines(p);
        lemma_join_push(d0, c0);
        if s.last() == '\n' {
            let d = d0.push(c0);
            lemma_join_push(d, Seq::empty());
            assert(join_lines(d.push(Seq::empty())) =~= s);
            assert forall|i: int, j: int| 0 <= i < d.len() && 0 <= j < d[i].len() implies #[trigger] d[i][j]
                != '\n' by {
                if i < d0.len() {
                    assert(d[i] == d0[i]);
                }
            }
        } else {
            let cc = c0.push(s.last());
            lemma_join_push(d0, cc);
            assert(s =~= p.push(s.last()));
            if d0.len() == 0 {
                assert(c0 == p);
            } else {
                assert(join_lines(d0) + seq!['\n'] + cc =~= (join_lines(d0) + seq!['\n'] + c0).push(
                    s.last(),
                ));
            }
            assert(join_lines(d0.push(cc)) =~= s);
            assert forall|j: int| 0 <= j < cc.len() implies #[trigger] cc[j] != '\n' by {
                if j < c0.len() {
                    assert(cc[j] == c0[j]);
                }
            }
        }
    }
}

/// The lines are the text cut at every `\n`: none holds a `\n`, and joined
/// back with `\n` they give the text.
pub proof fn law_split_lines(s: Seq<char>)
    ensures
        join_lines(split_lines(s)) == s,
        forall|i: int, j: int|
            0 <= i < split_lines(s).len() && 0 <= j < split_lines(s)[i].len()
                ==> #[trigger] split_lines(s)[i][j] != '\n',
{
    lemma_scan_lines(s);
    let (d, c) = scan_lines(s);
    assert forall|i: int, j: int|
        0 <= i < split_lines(s).len() && 0 <= j < split_lines(s)[i].len() implies #[trigger] split_lines(
        s,
    )[i][j] != '\n' by {
        if i < d.len() {
            assert(split_lines(s)[i] == d[i]);
        } else {
            assert(split_lines(s)[i] == c);
        }
    }
}

/// The error line is the last line with more than whitespace, trimmed: it is
/// not empty, and every later line is blank. There is none only when every
/// line is blank.
pub proof fn law_last_nonblank(lines: Seq<Seq<char>>)
    ensures
        match last_nonblank(lines) {
            None => forall|i: int| 0 <= i < lines.len() ==> trim_ws(#[trigger] lines[i]).len() == 0,
            Some(l) => exists|i: int|
                0 <= i < lines.len() && l == trim_ws(lines[i]) && l.len() > 0 && forall|j: int|
                    i < j < lines.len() ==> trim_ws(#[trigger] lines[j]).len() == 0,
        },
    decreases lines.len(),
{
    if lines.len() > 0 {
        let init = lines.drop_last();
        let last = lines.len() - 1;
        assert(lines[last] == lines.last());
        if trim_ws(lines.last()).len() > 0 {
            assert(0 <= last < lines.len() && last_nonblank(lines)->0 == trim_ws(lines[last]));
        } else {
            law_last_nonblank(init);
            match last_nonblank(init) {
                None => {
                    assert forall|i: int| 0 <= i < lines.len() implies trim_ws(#[trigger] lines[i]).len()
                        == 0 by {
                        if i < last {
                            assert(lines[i] == init[i]);
                        }
                    }
                },
                Some(l) => {
                    let i = choose|i: int|
                        0 <= i < init.len() && l == trim_ws(init[i]) && l.len() > 0 && forall|j: int|
                            i < j < init.len() ==> trim_ws(#[trigger] init[j]).len() == 0;
                    assert(lines[i] == init[i]);
                    assert forall|j: int| i < j < lines.len() implies trim_ws(#[trigger] lines[j]).len()
                        == 0 by {
                        if j < last {
                            assert(lines[j] == init[j]);
                        }
                    }
                },
            }
        }
    }
}

/// The first occurrence from `from` on is an occurrence, and there is none
/// before it; there is none at all when it is missing.
pub proof fn law_first_occurrence(s: Seq<char>, p: Seq<char>, from: int)
    requires
        0 <= from,
    ensures
        match first_occurrence_from(s, p, from) {
            None => forall|j: int| from <= j ==> !occurs_at(s, p, j),
            Some(k) => from <= k && occurs_at(s, p, k) && forall|j: int|
                from <= j < k ==> !occurs_at(s, p, j),
        },
    decreases s.len() + 1 - from,
{
    if from + p.len() <= s.len() && !occurs_at(s, p, from) {
        law_first_occurrence(s, p, from + 1);
    }
}

/// The error's type and message split the error line at its first `": "`:
/// put back together with `": "` they give the line, and the type holds no
/// `": "`. A line without `": "` is all type.
pub proof fn law_error_type_split(stderr: Seq<char>)
    ensures
        match last_nonblank(split_lines(stderr)) {
            None => error_type_of(stderr).0.len() == 0 && error_type_of(stderr).1.len() == 0,
            Some(l) => if exists|k: int| occurs_at(l, type_separator(), k) {
                &&& error_type_of(stderr).0 + type_separator() + error_type_of(stderr).1 == l
                &&& forall|j: int| !occurs_at(error_type_of(stderr).0, type_separator(), j)
            } else {
                error_type_of(stderr).0 == l && error_type_of(stderr).1.len() == 0
            },
        },
{
    match last_nonblank(split_lines(stderr)) {
        None => {},
        Some(l) => {
            let sep = type_separator();
            law_first_occurrence(l, sep, 0);
            match first_occurrence_from(l, sep, 0) {
                Some(k) => {
                    let t = l.take(k);
                    assert(l.subrange(k, k + 2) == sep);
                    assert(t + sep + l.skip(k + 2) =~= l);
                    assert forall|j: int| !occurs_at(t, sep, j) by {
                        if occurs_at(t, sep, j) {
                            assert(t.subrange(j, j + 2) =~= l.subrange(j, j + 2));
                            assert(occurs_at(l, sep, j));
                        }
                    }
                },
                None => {
                    if exists|k: int| occurs_at(l, sep, k) {
                        let k = choose|k: int| occurs_at(l, sep, k);
                        assert(!occurs_at(l, sep, k));
                    }
                },
            }
        },
    }
}

/// A leading zero does not change the value of a run of digits.
pub proof fn law_leading_zero(d: Seq<char>)
    requires
        all_digits(d),
    ensures
        digits_value(seq!['0'] + d) == digits_value(d),
    decreases d.len(),
{
    let z = seq!['0'] + d;
    if d.len() == 0 {
        assert(z.drop_last() =~= Seq::<char>::empty());
        assert(z.last() == '0');
        assert(digits_value(Seq::<char>::empty()) == 0);
        assert(digits_value(z) == digits_value(z.drop_last()) * 10 + (z.last() as int - '0' as int) as nat);
    } else {
        assert(z.drop_last() =~= seq!['0'] + d.drop_last());
        assert(z.last() == d.last());
        assert(all_digits(d.drop_last())) by {
            assert forall|i: int| 0 <= i < d.drop_last().len() implies is_digit(
                #[trigger] d.drop_last()[i],
            ) by {
                assert(d.drop_last()[i] == d[i]);
            }
        }
        law_leading_zero(d.drop_last());
        assert(digits_value(z) == digits_value(z.drop_last()) * 10 + (z.last() as int - '0' as int) as nat);
        assert(digits_value(d) == digits_value(d.drop_last()) * 10 + (d.last() as int - '0' as int) as nat);
    }
}

/// A `+` in front of a number that has none changes nothing; a text with a
/// character other than an ASCII digit, besides one leading `+`, does not parse.
pub proof fn law_parse_sign_and_digits(d: Seq<char>)
    ensures
        d.len() == 0 || d[0] != '+' ==> parsed_usize(seq!['+'] + d) == parsed_usize(d),
        (exists|i: int| 0 <= i < d.len() && !is_digit(#[trigger] d[i]) && !(i == 0 && d[i] == '+'))
            ==> parsed_usize(d) is None,
{
    assert((seq!['+'] + d).drop_first() =~= d);
    if exists|i: int| 0 <= i < d.len() && !is_digit(#[trigger] d[i]) && !(i == 0 && d[i] == '+') {
        let i = choose|i: int|
            0 <= i < d.len() && !is_digit(#[trigger] d[i]) && !(i == 0 && d[i] == '+');
        let u = unsigned_digits(d);
        if d.len() > 0 && d[0] == '+' {
            if i > 0 {
                assert(u[i - 1] == d[i]);
            }
        } else {
            assert(u[i] == d[i]);
        }
    }
}

/// A longer run of digits is worth at least as much as its prefix.
proof fn lemma_digits_value_grows(d: Seq<char>, k: int)
    requires
        0 <= k <= d.len(),
        all_digits(d),
    ensures
        digits_value(d.take(k)) <= digits_value(d),
    decreases d.len() - k,
{
    if k < d.len() {
        lemma_digits_value_grows(d, k + 1);
        assert(d.take(k + 1).drop_last() == d.take(k));
        assert(d.take(k + 1).last() == d[k]);
        assert(is_digit(d[k]));
    } else {
        assert(d.take(k) == d);
    }
}

/// The line number in a frame's text (`parse::<usize>().unwrap_or(0)`).
pub fn parse_line_number(text: &str) -> (r: usize)
    ensures
        r == line_number_of(text@),
{
    let cs = chars_of(text);
    let mut i: usize = 0;
    if cs.len() > 0 && cs[0] == '+' {
        i = 1;
    }
    let ghost d = if cs@.len() > 0 && cs@[0] == '+' {
        cs@.drop_first()
    } else {
        cs@
    };
    assert(d == cs@.skip(i as int));
    if i == cs.len() {
        return 0;
    }
    let start = i;
    let mut value: usize = 0;
    while i < cs.len()
        invariant
            start <= i <= cs@.len(),
            cs@ == text@,
            d == unsigned_digits(text@),
            d == cs@.skip(start as int),
            forall|j: int| 0 <= j < i - start ==> is_digit(#[trigger] d[j]),
            value == digits_value(d.take(i - start)),
        decreases cs@.len() - i,
    {
        let c = cs[i];
        assert(d[i - start] == c);
        if !('0' <= c && c <= '9') {
            assert(!is_digit(d[i - start]));
            assert(!all_digits(d));
            return 0;
        }
        let digit: usize = ((c as u32) - ('0' as u32)) as usize;
        assert(d.take(i - start + 1).drop_last() == d.take(i - start));
        assert(d.take(i - start + 1).last() == c);
        match value.checked_mul(10) {
            None => {
                proof {
                    if all_digits(d) {
                        lemma_digits_value_grows(d, i - start + 1);
                    }
                }
                return 0;
            },
            Some(tens) => match tens.checked_add(digit) {
                None => {
                    proof {
                        if all_digits(d) {
                            lemma_digits_value_grows(d, i - start + 1);
                        }
                    }
                    return 0;
                },
                Some(next) => {
                    value = next;
                },
            },
        }
        i = i + 1;
    }
    assert(d.take(d.len() as int) == d);
    value
}

/// The graph that a traceback gives: the error type and message of
/// [`error_type_of`], one node per captured frame with its file, line number
/// and function, each node linked to the next, and the time stamp.
pub open spec fn graph_of(
    g: Graph,
    stderr: Seq<char>,
    frames: Seq<(Seq<char>, Seq<char>, Seq<char>)>,
    timestamp: Seq<char>,
) -> bool {
    &&& g.error_type@ == error_type_of(stderr).0
    &&& g.message@ == error_type_of(stderr).1
    &&& g.nodes@.len() == frames.len()
    &&& forall|i: int|
        0 <= i < frames.len() ==> {
            &&& (#[trigger] g.nodes@[i]).file@ == frames[i].0
            &&& g.nodes@[i].line == line_number_of(frames[i].1)
            &&& g.nodes@[i].function@ == frames[i].2
        }
    &&& g.links_consecutive_frames()
    &&& g.timestamp@ == timestamp
}

impl Graph {
    /// The edges link each frame to the next one and nothing else: one edge
    /// `(i, i + 1)` for every frame but the last.
    pub open spec fn links_consecutive_frames(&self) -> bool {
        &&& self.edges@.len() == if self.nodes@.len() == 0 {
            0
        } else {
            self.nodes@.len() - 1
        }
        &&& forall|i: int|
            0 <= i < self.edges@.len() ==> #[trigger] self.edges@[i] == (i as usize, (i + 1) as usize)
    }

    /// The error graph of the standard error of a failed run, stamped with
    /// the current local time.
    pub fn new(error_output: &str) -> (r: Graph)
        ensures
            graph_of(r, error_output@, traceback_frames(error_output@), r.timestamp@),
            r.timestamp@.len() > 0,
    {
        let frames = frame_captures(error_output);
        let timestamp = now_rfc3339();
        Graph::from_captures(error_output, frames, timestamp)
    }

    /// The error graph of the standard error of a failed run, from the frames
    /// captured in it and a time stamp.
    pub fn from_captures(
        error_output: &str,
        frames: Vec<(String, String, String)>,
        timestamp: String,
    ) -> (r: Graph)
        ensures
            graph_of(r, error_output@, capture_views(frames@), timestamp@),
    {
        let ghost fs = capture_views(frames@);
        let mut nodes: Vec<Node> = Vec::new();
        for frame in it: frames
            invariant
                fs == capture_views(it.seq()),
                nodes@.len() == it.index(),
                forall|i: int|
                    0 <= i < it.index() ==> {
                        &&& (#[trigger] nodes@[i]).file@ == fs[i].0
                        &&& nodes@[i].line == line_number_of(fs[i].1)
                        &&& nodes@[i].function@ == fs[i].2
                    },
        {
            let (file, line_text, function) = frame;
            let line = parse_line_number(line_text.as_str());
            nodes.push(Node { file, line, function });
        }
        let n = nodes.len();
        let mut edges: Vec<(usize, usize)> = Vec::new();
        if n > 0 {
            for i in 0..n - 1
                invariant
                    n > 0,
                    edges@.len() == i,
                    forall|j: int| 0 <= j < i ==> #[trigger] edges@[j] == (j as usize, (j + 1) as usize),
            {
                edges.push((i, i + 1));
            }
        }
        let (error_type, message) = Graph::extract_error_type(error_output);
        Graph { error_type, message, nodes, edges, timestamp }
    }

    /// The type and the message of the error that a Python traceback ends
    /// with: see [`error_type_of`].
    pub fn extract_error_type(stderr: &str) -> (r: (String, String))
        ensures
            r.0@ == error_type_of(stderr@).0,
            r.1@ == error_type_of(stderr@).1,
    {
        let cs = chars_of(stderr);
        let n = cs.len();
        let mut line_start: usize = 0;
        let mut found: Option<(usize, usize)> = None;
        for i in 0..n
            invariant
                n == cs@.len(),
                cs@ == stderr@,
                line_start <= i,
                scan_lines(cs@.take(i as int)).1 == cs@.subrange(line_start as int, i as int),
                match found {
                    None => last_nonblank(scan_lines(cs@.take(i as int)).0) is None,
                    Some((a, b)) => a <= b <= n && last_nonblank(scan_lines(cs@.take(i as int)).0)
                        == Some(cs@.subrange(a as int, b as int)),
                },
        {
            assert(cs@.take(i + 1).drop_last() == cs@.take(i as int));
            assert(cs@.take(i + 1).last() == cs@[i as int]);
            let ghost prev = scan_lines(cs@.take(i as int));
            if cs[i] == '\n' {
                assert(scan_lines(cs@.take(i + 1)) == (prev.0.push(prev.1), Seq::<char>::empty()));
                assert(prev.0.push(prev.1).drop_last() == prev.0);
                assert(prev.0.push(prev.1).last() == prev.1);
                let (a, b) = trim_bounds(&cs, line_start, i);
                if a < b {
                    found = Some((a, b));
                }
                line_start = i + 1;
            } else {
                assert(scan_lines(cs@.take(i + 1)) == (prev.0, prev.1.push(cs@[i as int])));
                assert(cs@.subrange(line_start as int, i + 1) == cs@.subrange(
                    line_start as int,
                    i as int,
                ).push(cs@[i as int]));
            }
        }
        assert(cs@.take(n as int) == cs@);
        let (a, b) = trim_bounds(&cs, line_start, n);
        if a < b {
            found = Some((a, b));
        }
        assert(split_lines(cs@) == scan_lines(cs@).0.push(scan_lines(cs@).1));
        assert(split_lines(cs@).drop_last() == scan_lines(cs@).0);
        match found {
            None => (String::new(), String::new()),
            Some((a, b)) => {
                let mut line: Vec<char> = Vec::new();
                for k in a..b
                    invariant
                        a <= b <= cs@.len(),
                        line@ == cs@.subrange(a as int, k as int),
                {
                    line.push(cs[k]);
                    assert(cs@.subrange(a as int, k + 1) == cs@.subrange(a as int, k as int).push(
                        cs@[k as int],
                    ));
                }
                let sep: Vec<char> = vec![':', ' '];
                assert(sep@ == type_separator());
                match first_occurrence(&line, &sep) {
                    None => (string_of(&line), String::new()),
                    Some(k) => {
                        let mut head: Vec<char> = Vec::new();
                        for j in 0..k
                            invariant
                                k + 2 <= line@.len(),
                                head@ == line@.take(j as int),
                        {
                            head.push(line[j]);
                            assert(line@.take(j + 1) == line@.take(j as int).push(line@[j as int]));
                        }
                        let mut tail: Vec<char> = Vec::new();
                        let len = line.len();
                        for j in k + 2..len
                            invariant
                                k + 2 <= len == line@.len(),
                                tail@ == line@.subrange(k + 2, j as int),
                        {
                            tail.push(line[j]);
                            assert(line@.subrange(k + 2, j + 1) == line@.subrange(
                                k + 2,
                                j as int,
                            ).push(line@[j as int]));
                        }
                        assert(line@.subrange(k + 2, len as int) == line@.skip(k + 2));
                        (string_of(&head), string_of(&tail))
                    },
                }
            },
        }
    }

    /// Saving the graph: it does nothing yet and always succeeds.
    pub fn save(&self) -> (r: std::io::Result<()>)
        ensures
            r is Ok,
    {
        Ok(())
    }
}

/// The first position where `p` occurs in `s`.
fn first_occurrence(s: &Vec<char>, p: &Vec<char>) -> (r: Option<usize>)
    ensures
        match r {
            None => first_occurrence_from(s@, p@, 0) is None,
            Some(k) => first_occurrence_from(s@, p@, 0) == Some(k as int) && k + p@.len() <= s@.len(),
        },
{
    if p.len() > s.len() {
        return None;
    }
    let last = s.len() - p.len();
    let mut i: usize = 0;
    while i <= last
        invariant
            last == s@.len() - p@.len(),
            i <= last,
            first_occurrence_from(s@, p@, i as int) == first_occurrence_from(s@, p@, 0),
        decreases last - i,
    {
        if occurs_at_exec(s, p, i) {
            return Some(i);
        }
        if i == last {
            assert(first_occurrence_from(s@, p@, i + 1) is None);
            return None;
        }
        i = i + 1;
    }
    None
}

} // verus!

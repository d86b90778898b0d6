//! Character-level text helpers shared by the other modules: whitespace,
//! tokens, prefixes and suffixes, and the byte order of file names.
use vstd::prelude::*;

verus! {

/// Whether `c` has the Unicode `White_Space` property, which is what
/// `char::is_whitespace` (and so `str::split_whitespace` and `str::trim`) test.
pub open spec fn is_white_space(c: char) -> bool {
    let n = c as u32;
    ||| 0x9 <= n <= 0xd
    ||| n == 0x20
    ||| n == 0x85
    ||| n == 0xa0
    ||| n == 0x1680
    ||| 0x2000 <= n <= 0x200a
    ||| n == 0x2028
    ||| n == 0x2029
    ||| n == 0x202f
    ||| n == 0x205f
    ||| n == 0x3000
}

/// Executable test of [`is_white_space`].
pub fn white_space(c: char) -> (r: bool)
    ensures
        r == is_white_space(c),
{
    let n: u32 = c as u32;
    (0x9 <= n && n <= 0xd) || n == 0x20 || n == 0x85 || n == 0xa0 || n == 0x1680 || (0x2000
        <= n && n <= 0x200a) || n == 0x2028 || n == 0x2029 || n == 0x202f || n == 0x205f || n
        == 0x3000
}

/// The characters of `s`, in order.
pub fn chars_of(s: &str) -> (r: Vec<char>)
    ensures
        r@ == s@,
{
    let mut r: Vec<char> = Vec::new();
    for c in it: s.chars()
        invariant
            r@ == it.seq().take(it.index() as int),
    {
        r.push(c);
    }
    r
}

/// Appends one character to a string (`String::push`).
#[verifier::external_body]
pub(crate) fn push_char(s: &mut String, c: char)
    ensures
        final(s)@ == old(s)@.push(c),
{
    s.push(c);
}

/// The string made of the characters `v`.
pub fn string_of(v: &Vec<char>) -> (r: String)
    ensures
        r@ == v@,
{
    let mut r = String::new();
    let n = v.len();
    for i in 0..n
        invariant
            n == v@.len(),
            r@ == v@.take(i as int),
    {
        push_char(&mut r, v[i]);
        assert(v@.take(i + 1) == v@.take(i as int).push(v@[i as int]));
    }
    assert(v@.take(n as int) == v@);
    r
}

/// Equality of two character sequences.
pub fn chars_equal(a: &Vec<char>, b: &Vec<char>) -> (r: bool)
    ensures
        r == (a@ == b@),
{
    if a.len() != b.len() {
        return false;
    }
    let n = a.len();
    for i in 0..n
        invariant
            n == a@.len(),
            n == b@.len(),
            forall|j: int| 0 <= j < i ==> a@[j] == b@[j],
    {
        if a[i] != b[i] {
            return false;
        }
    }
    assert(a@ =~= b@);
    true
}

/// Equality of two strings.
pub fn str_equal(a: &str, b: &str) -> (r: bool)
    ensures
        r == (a@ == b@),
{
    let va = chars_of(a);
    let vb = chars_of(b);
    chars_equal(&va, &vb)
}

/// `p` is a prefix of `s`.
pub open spec fn has_prefix(s: Seq<char>, p: Seq<char>) -> bool {
    p.len() <= s.len() && s.take(p.len() as int) == p
}

/// `p` is a suffix of `s`.
pub open spec fn has_suffix(s: Seq<char>, p: Seq<char>) -> bool {
    p.len() <= s.len() && s.skip(s.len() - p.len()) == p
}

/// Whether `p` occurs in `s` starting at position `at`.
pub open spec fn occurs_at(s: Seq<char>, p: Seq<char>, at: int) -> bool {
    0 <= at && at + p.len() <= s.len() && s.subrange(at, at + p.len()) == p
}

/// Executable test of [`occurs_at`].
pub fn occurs_at_exec(s: &Vec<char>, p: &Vec<char>, at: usize) -> (r: bool)
    ensures
        r == occurs_at(s@, p@, at as int),
{
    if at > s.len() || p.len() > s.len() - at {
        return false;
    }
    let n = p.len();
    let mut i: usize = 0;
    while i < n
        invariant
            n == p@.len(),
            i <= n,
            at + n <= s.len(),
            forall|j: int| 0 <= j < i ==> s@[at + j] == p@[j],
        decreases n - i,
    {
        if s[at + i] != p[i] {
            return false;
        }
        i = i + 1;
    }
    assert(s@.subrange(at as int, at + n) =~= p@);
    true
}

/// `s` starts with `p` (`str::starts_with`).
pub fn starts_with(s: &Vec<char>, p: &Vec<char>) -> (r: bool)
    ensures
        r == has_prefix(s@, p@),
{
    let r = occurs_at_exec(s, p, 0);
    assert(s@.take(p@.len() as int) == s@.subrange(0, p@.len() as int));
    r
}

/// `s` with every trailing occurrence of `p` removed, one after the other
/// (`str::trim_end_matches` with a string pattern). An empty pattern removes nothing.
pub open spec fn strip_suffix_all(s: Seq<char>, p: Seq<char>) -> Seq<char>
    decreases s.len(),
{
    if p.len() > 0 && has_suffix(s, p) {
        strip_suffix_all(s.take(s.len() - p.len()), p)
    } else {
        s
    }
}

/// Executable [`strip_suffix_all`].
pub fn trim_end_matches(s: &Vec<char>, p: &Vec<char>) -> (r: Vec<char>)
    ensures
        r@ == strip_suffix_all(s@, p@),
{
    let mut end = s.len();
    assert(s@.take(s@.len() as int) == s@);
    if p.len() > 0 {
        while end >= p.len() && occurs_at_exec(s, p, end - p.len())
            invariant
                end <= s@.len(),
                p@.len() > 0,
                strip_suffix_all(s@.take(end as int), p@) == strip_suffix_all(s@, p@),
            decreases end,
        {
            let ghost t = s@.take(end as int);
            assert(t.skip(t.len() - p@.len()) == s@.subrange(end - p@.len(), end as int));
            assert(t.take(t.len() - p@.len()) == s@.take(end - p@.len()));
            end = end - p.len();
        }
        proof {
            let t = s@.take(end as int);
            if end >= p@.len() {
                assert(t.skip(t.len() - p@.len()) == s@.subrange(end - p@.len(), end as int));
            }
        }
    }
    assert(s@.take(s@.len() as int) == s@);
    let mut r: Vec<char> = Vec::new();
    for i in 0..end
        invariant
            end <= s@.len(),
            r@ == s@.take(i as int),
    {
        r.push(s[i]);
        assert(s@.take(i + 1) == s@.take(i as int).push(s@[i as int]));
    }
    r
}

/// The state of a left-to-right scan that splits at whitespace: the tokens
/// finished so far and the token being read.
pub open spec fn scan_tokens(s: Seq<char>) -> (Seq<Seq<char>>, Seq<char>)
    decreases s.len(),
{
    if s.len() == 0 {
        (Seq::empty(), Seq::empty())
    } else {
        let (done, cur) = scan_tokens(s.drop_last());
        let c = s.last();
        if is_white_space(c) {
            if cur.len() > 0 {
                (done.push(cur), Seq::empty())
            } else {
                (done, cur)
            }
        } else {
            (done, cur.push(c))
        }
    }
}

/// The maximal runs of non-whitespace characters of `s`, in order
/// (`str::split_whitespace`).
pub open spec fn tokens(s: Seq<char>) -> Seq<Seq<char>> {
    let (done, cur) = scan_tokens(s);
    if cur.len() > 0 {
        done.push(cur)
    } else {
        done
    }
}

/// The sequences `ts` joined in order.
pub open spec fn flatten(ts: Seq<Seq<char>>) -> Seq<char>
    decreases ts.len(),
{
    if ts.len() == 0 {
        Seq::empty()
    } else {
        flatten(ts.drop_last()) + ts.last()
    }
}

/// How many positions of `s` start a token: a character that is not
/// whitespace, first in `s` or right after whitespace.
pub open spec fn token_starts(s: Seq<char>) -> nat
    decreases s.len(),
{
    if s.len() == 0 {
        0
    } else {
        token_starts(s.drop_last()) + if !is_white_space(s.last()) && (s.len() == 1
            || is_white_space(s[s.len() - 2])) {
            1nat
        } else {
            0nat
        }
    }
}

/// The state of the whitespace scan, as it stands after any text.
proof fn lemma_scan_tokens(s: Seq<char>)
    ensures
        ({
            let (done, cur) = scan_tokens(s);
            &&& forall|i: int| 0 <= i < done.len() ==> (#[trigger] done[i]).len() > 0
            &&& forall|i: int, j: int|
                0 <= i < done.len() && 0 <= j < done[i].len() ==> !is_white_space(
                    #[trigger] done[i][j],
                )
            &&& forall|j: int| 0 <= j < cur.len() ==> !is_white_space(#[trigger] cur[j])
            &&& flatten(done) + cur == s.filter(|c: char| !is_white_space(c))
            &&& done.len() + (if cur.len() > 0 {
                1int
            } else {
                0int
            }) == token_starts(s)
            &&& (cur.len() > 0 <==> (s.len() > 0 && !is_white_space(s.last())))
        }),
    decreases s.len(),
{
    reveal(Seq::filter);
    if s.len() == 0 {
        assert(flatten(Seq::<Seq<char>>::empty()) + Seq::<char>::empty() =~= Seq::<char>::empty());
    } else {
        let p = s.drop_last();
        let c = s.last();
        lemma_scan_tokens(p);
        let (d0, c0) = scan_tokens(p);
        let fp = p.filter(|x: char| !is_white_space(x));
        assert(s.filter(|x: char| !is_white_space(x)) == if !is_white_space(c) {
            fp.push(c)
        } else {
            fp
        });
        if p.len() > 0 {
            assert(s[s.len() - 2] == p.last());
        }
        if is_white_space(c) {
            if c0.len() > 0 {
                let d = d0.push(c0);
                assert(d.drop_last() =~= d0);
                assert(flatten(d) == flatten(d0) + c0);
                assert(flatten(d) + Seq::<char>::empty() =~= flatten(d0) + c0);
                assert forall|i: int| 0 <= i < d.len() implies (#[trigger] d[i]).len() > 0 by {
                    if i < d0.len() {
                        assert(d[i] == d0[i]);
                    }
                }
                assert forall|i: int, j: int|
                    0 <= i < d.len() && 0 <= j < d[i].len() implies !is_white_space(
                        #[trigger] d[i][j],
                    ) by {
                    if i < d0.len() {
                        assert(d[i] == d0[i]);
                    }
                }
            }
        } else {
            let cc = c0.push(c);
            assert(flatten(d0) + cc =~= (flatten(d0) + c0).push(c));
            assert forall|j: int| 0 <= j < cc.len() implies !is_white_space(#[trigger] cc[j]) by {
                if j < c0.len() {
                    assert(cc[j] == c0[j]);
                }
            }
        }
    }
}

/// Splitting at whitespace: every token is a non-empty run without
/// whitespace, the tokens joined give back every character that is not
/// whitespace, in order, and there is one token for each place where a run
/// of such characters starts.
pub proof fn law_tokens_are_whitespace_runs(s: Seq<char>)
    ensures
        forall|i: int| 0 <= i < tokens(s).len() ==> (#[trigger] tokens(s)[i]).len() > 0,
        forall|i: int, j: int|
            0 <= i < tokens(s).len() && 0 <= j < tokens(s)[i].len() ==> !is_white_space(
                #[trigger] tokens(s)[i][j],
            ),
        flatten(tokens(s)) == s.filter(|c: char| !is_white_space(c)),
        tokens(s).len() == token_starts(s),
{
    lemma_scan_tokens(s);
    let (done, cur) = scan_tokens(s);
    if cur.len() > 0 {
        let t = done.push(cur);
        assert(t.drop_last() =~= done);
        assert(flatten(t) == flatten(done) + cur);
        assert forall|i: int| 0 <= i < t.len() implies (#[trigger] t[i]).len() > 0 by {
            if i < done.len() {
                assert(t[i] == done[i]);
            }
        }
        assert forall|i: int, j: int|
            0 <= i < t.len() && 0 <= j < t[i].len() implies !is_white_space(#[trigger] t[i][j]) by {
            if i < done.len() {
                assert(t[i] == done[i]);
            }
        }
    } else {
        assert(flatten(done) + cur =~= flatten(done));
    }
}

/// The character sequences held by `v`.
pub open spec fn views(v: Seq<Vec<char>>) -> Seq<Seq<char>> {
    v.map_values(|t: Vec<char>| t@)
}

/// The texts of a list of strings.
pub open spec fn string_views(v: Seq<String>) -> Seq<Seq<char>> {
    v.map_values(|t: String| t@)
}

/// The whitespace-separated tokens of `s`.
pub fn split_tokens(s: &str) -> (r: Vec<Vec<char>>)
    ensures
        views(r@) == tokens(s@),
{
    let cs = chars_of(s);
    let mut done: Vec<Vec<char>> = Vec::new();
    let mut cur: Vec<char> = Vec::new();
    let n = cs.len();
    for i in 0..n
        invariant
            n == cs@.len(),
            cs@ == s@,
            (views(done@), cur@) == scan_tokens(cs@.take(i as int)),
    {
        let c = cs[i];
        assert(cs@.take(i + 1).drop_last() == cs@.take(i as int));
        if white_space(c) {
            if cur.len() > 0 {
                let ghost d0 = views(done@);
                let ghost c0 = cur@;
                done.push(cur);
                assert(views(done@) =~= d0.push(c0));
                cur = Vec::new();
            }
        } else {
            cur.push(c);
        }
    }
    assert(cs@.take(n as int) == cs@);
    if cur.len() > 0 {
        let ghost d0 = views(done@);
        let ghost c0 = cur@;
        done.push(cur);
        assert(views(done@) =~= d0.push(c0));
    }
    done
}

/// Whether `t` is among `ts`.
pub fn contains_chars(ts: &Vec<Vec<char>>, t: &Vec<char>) -> (r: bool)
    ensures
        r == views(ts@).contains(t@),
{
    let n = ts.len();
    for i in 0..n
        invariant
            n == ts@.len(),
            forall|j: int| 0 <= j < i ==> views(ts@)[j] != t@,
    {
        if chars_equal(&ts[i], t) {
            assert(views(ts@)[i as int] == t@);
            return true;
        }
    }
    false
}

/// Lexicographic order of character sequences by code point. Because UTF-8
/// keeps the order of code points, it is also the byte order of the encoded
/// strings, which is how file names are ordered.
pub open spec fn lex_le(a: Seq<char>, b: Seq<char>) -> bool
    decreases a.len(),
{
    if a.len() == 0 {
        true
    } else if b.len() == 0 {
        false
    } else if a[0] == b[0] {
        lex_le(a.drop_first(), b.drop_first())
    } else {
        a[0] < b[0]
    }
}

/// Any two sequences are ordered one way or the other.
pub proof fn lemma_lex_le_total(a: Seq<char>, b: Seq<char>)
    ensures
        lex_le(a, b) || lex_le(b, a),
    decreases a.len(),
{
    if a.len() > 0 && b.len() > 0 && a[0] == b[0] {
        lemma_lex_le_total(a.drop_first(), b.drop_first());
    }
}

/// The order is transitive.
pub proof fn lemma_lex_le_transitive(a: Seq<char>, b: Seq<char>, c: Seq<char>)
    requires
        lex_le(a, b),
        lex_le(b, c),
    ensures
        lex_le(a, c),
    decreases a.len(),
{
    if a.len() > 0 && b.len() > 0 && c.len() > 0 && a[0] == b[0] && b[0] == c[0] {
        lemma_lex_le_transitive(a.drop_first(), b.drop_first(), c.drop_first());
    }
}

/// Every sequence is below or equal to itself.
pub proof fn lemma_lex_le_reflexive(a: Seq<char>)
    ensures
        lex_le(a, a),
    decreases a.len(),
{
    if a.len() > 0 {
        lemma_lex_le_reflexive(a.drop_first());
    }
}

/// Names are ordered at their first differing position: where `a` and `b`
/// agree before position `k` and `a` has the smaller character at `k`, `a`
/// comes strictly before `b`, whatever follows.
pub proof fn law_lex_le_first_difference(a: Seq<char>, b: Seq<char>, k: int)
    requires
        0 <= k < a.len(),
        k < b.len(),
        a.take(k) == b.take(k),
        a[k] < b[k],
    ensures
        lex_le(a, b),
        !lex_le(b, a),
    decreases k,
{
    if k > 0 {
        assert(a[0] == a.take(k)[0]);
        assert(b[0] == b.take(k)[0]);
        assert(a.drop_first().take(k - 1) =~= a.take(k).drop_first());
        assert(b.drop_first().take(k - 1) =~= b.take(k).drop_first());
        assert(a.drop_first()[k - 1] == a[k]);
        assert(b.drop_first()[k - 1] == b[k]);
        law_lex_le_first_difference(a.drop_first(), b.drop_first(), k - 1);
    }
}

/// A name comes strictly before every longer name that it begins.
pub proof fn law_lex_le_proper_prefix(a: Seq<char>, b: Seq<char>)
    requires
        a.len() < b.len(),
        b.take(a.len() as int) == a,
    ensures
        lex_le(a, b),
        !lex_le(b, a),
    decreases a.len(),
{
    if a.len() > 0 {
        assert(a[0] == b.take(a.len() as int)[0]);
        assert(b.drop_first().take(a.len() - 1) =~= a.drop_first());
        law_lex_le_proper_prefix(a.drop_first(), b.drop_first());
    }
}

/// Executable [`lex_le`].
pub fn lex_le_exec(a: &Vec<char>, b: &Vec<char>) -> (r: bool)
    ensures
        r == lex_le(a@, b@),
{
    let mut i: usize = 0;
    assert(a@.skip(0) == a@);
    assert(b@.skip(0) == b@);
    while i < a.len() && i < b.len() && a[i] == b[i]
        invariant
            i <= a@.len(),
            i <= b@.len(),
            lex_le(a@, b@) == lex_le(a@.skip(i as int), b@.skip(i as int)),
        decreases a@.len() - i,
    {
        assert(a@.skip(i as int).drop_first() == a@.skip(i + 1));
        assert(b@.skip(i as int).drop_first() == b@.skip(i + 1));
        i = i + 1;
    }
    if i == a.len() {
        assert(a@.skip(i as int).len() == 0);
        true
    } else if i == b.len() {
        assert(b@.skip(i as int).len() == 0);
        false
    } else {
        assert(a@.skip(i as int)[0] == a@[i as int]);
        assert(b@.skip(i as int)[0] == b@[i as int]);
        a[i] < b[i]
    }
}

/// `s` without its leading whitespace.
pub open spec fn trim_start_ws(s: Seq<char>) -> Seq<char>
    decreases s.len(),
{
    if s.len() > 0 && is_white_space(s[0]) {
        trim_start_ws(s.drop_first())
    } else {
        s
    }
}

/// `s` without its trailing whitespace.
pub open spec fn trim_end_ws(s: Seq<char>) -> Seq<char>
    decreases s.len(),
{
    if s.len() > 0 && is_white_space(s.last()) {
        trim_end_ws(s.drop_last())
    } else {
        s
    }
}

/// `s` without leading and trailing whitespace (`str::trim`).
pub open spec fn trim_ws(s: Seq<char>) -> Seq<char> {
    trim_end_ws(trim_start_ws(s))
}

/// Trimming the front drops exactly the leading whitespace: what is left
/// starts at the first character that is not whitespace.
pub proof fn lemma_trim_start_ws(s: Seq<char>) -> (a: int)
    ensures
        0 <= a <= s.len(),
        trim_start_ws(s) == s.skip(a),
        forall|i: int| 0 <= i < a ==> is_white_space(#[trigger] s[i]),
        a < s.len() ==> !is_white_space(s[a]),
    decreases s.len(),
{
    if s.len() > 0 && is_white_space(s[0]) {
        let a1 = lemma_trim_start_ws(s.drop_first());
        assert(s.drop_first().skip(a1) =~= s.skip(a1 + 1));
        assert forall|i: int| 0 <= i < a1 + 1 implies is_white_space(#[trigger] s[i]) by {
            if i > 0 {
                assert(s[i] == s.drop_first()[i - 1]);
            }
        }
        if a1 + 1 < s.len() {
            assert(s[a1 + 1] == s.drop_first()[a1]);
        }
        a1 + 1
    } else {
        assert(s.skip(0) =~= s);
        0
    }
}

/// Trimming the end drops exactly the trailing whitespace: what is left ends
/// at the last character that is not whitespace.
pub proof fn lemma_trim_end_ws(s: Seq<char>) -> (b: int)
    ensures
        0 <= b <= s.len(),
        trim_end_ws(s) == s.take(b),
        forall|i: int| b <= i < s.len() ==> is_white_space(#[trigger] s[i]),
        b > 0 ==> !is_white_space(s[b - 1]),
    decreases s.len(),
{
    if s.len() > 0 && is_white_space(s.last()) {
        let b1 = lemma_trim_end_ws(s.drop_last());
        assert(s.drop_last().take(b1) =~= s.take(b1));
        assert forall|i: int| b1 <= i < s.len() implies is_white_space(#[trigger] s[i]) by {
            if i < s.len() - 1 {
                assert(s[i] == s.drop_last()[i]);
            }
        }
        if b1 > 0 {
            assert(s[b1 - 1] == s.drop_last()[b1 - 1]);
        }
        b1
    } else {
        assert(s.take(s.len() as int) =~= s);
        s.len() as int
    }
}

/// Trimming keeps the part of `s` between its leading and its trailing
/// whitespace: all that is cut is whitespace, and what is kept neither starts
/// nor ends with whitespace.
pub proof fn lemma_trim_ws(s: Seq<char>) -> (r: (int, int))
    ensures
        0 <= r.0 <= r.1 <= s.len(),
        trim_ws(s) == s.subrange(r.0, r.1),
        forall|i: int| 0 <= i < r.0 ==> is_white_space(#[trigger] s[i]),
        forall|i: int| r.1 <= i < s.len() ==> is_white_space(#[trigger] s[i]),
        r.0 < r.1 ==> !is_white_space(s[r.0]) && !is_white_space(s[r.1 - 1]),
        r.0 == r.1 ==> forall|i: int| 0 <= i < s.len() ==> is_white_space(#[trigger] s[i]),
{
    let a = lemma_trim_start_ws(s);
    let t = s.skip(a);
    let b = lemma_trim_end_ws(t);
    assert(t.take(b) =~= s.subrange(a, a + b));
    assert forall|i: int| a + b <= i < s.len() implies is_white_space(#[trigger] s[i]) by {
        assert(s[i] == t[i - a]);
    }
    if b > 0 {
        assert(s[a] == t[0]);
        assert(s[a + b - 1] == t[b - 1]);
    }
    if b == 0 && a < s.len() {
        assert(s[a] == t[0]);
        assert(is_white_space(t[0]));
    }
    (a, a + b)
}

/// The bounds of `cs[a..b]` without its leading and trailing whitespace.
pub fn trim_bounds(cs: &Vec<char>, a: usize, b: usize) -> (r: (usize, usize))
    requires
        a <= b <= cs@.len(),
    ensures
        a <= r.0 <= r.1 <= b,
        cs@.subrange(r.0 as int, r.1 as int) == trim_ws(cs@.subrange(a as int, b as int)),
{
    let mut start: usize = a;
    while start < b && white_space(cs[start])
        invariant
            a <= start <= b <= cs@.len(),
            trim_start_ws(cs@.subrange(start as int, b as int)) == trim_start_ws(
                cs@.subrange(a as int, b as int),
            ),
        decreases b - start,
    {
        assert(cs@.subrange(start as int, b as int).drop_first() == cs@.subrange(
            start + 1,
            b as int,
        ));
        start = start + 1;
    }
    proof {
        if start < b {
            assert(cs@.subrange(start as int, b as int)[0] == cs@[start as int]);
        }
    }
    let mut end: usize = b;
    while end > start && white_space(cs[end - 1])
        invariant
            a <= start <= end <= b <= cs@.len(),
            trim_end_ws(cs@.subrange(start as int, end as int)) == trim_ws(
                cs@.subrange(a as int, b as int),
            ),
        decreases end,
    {
        assert(cs@.subrange(start as int, end as int).drop_last() == cs@.subrange(
            start as int,
            end - 1,
        ));
        end = end - 1;
    }
    proof {
        if end > start {
            assert(cs@.subrange(start as int, end as int).last() == cs@[end - 1]);
        }
    }
    (start, end)
}

} // verus!

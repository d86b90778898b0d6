//! Line diffs of two versions of a script: the git-like listing of removed
//! and added lines, and the number of changed lines.
use vstd::prelude::*;
use crate::text::{flatten, push_char};

verus! {

/// `std::io::Error`, carried in the result type of [`compare_strs`].
#[verifier::external_type_specification]
#[verifier::external_body]
pub struct ExIoError(std::io::Error);

/// What one line of a line diff does.
#[derive(Clone, Copy, Debug, PartialEq, Eq, Structural)]
pub enum ChangeKind {
    /// The line is in both texts.
    Equal,
    /// The line is only in the old text.
    Delete,
    /// The line is only in the new text.
    Insert,
}

/// The changes, each as its kind and its text, that the `similar` crate's line
/// diff of `old` and `new` yields, in order.
pub uninterp spec fn line_diff(old: Seq<char>, new: Seq<char>) -> Seq<(ChangeKind, Seq<char>)>;

/// The kinds and texts of a list of changes.
pub open spec fn change_views(v: Seq<(ChangeKind, String)>) -> Seq<(ChangeKind, Seq<char>)> {
    v.map_values(|c: (ChangeKind, String)| (c.0, c.1@))
}

/// The texts of the changes whose kind is not `skip`, joined in order.
pub open spec fn side_text(changes: Seq<(ChangeKind, Seq<char>)>, skip: ChangeKind) -> Seq<char>
    decreases changes.len(),
{
    if changes.len() == 0 {
        Seq::empty()
    } else {
        let rest = side_text(changes.drop_last(), skip);
        if changes.last().0 == skip {
            rest
        } else {
            rest + changes.last().1
        }
    }
}

/// Where the line of `s` that starts at or before `i` ends: after a `\n`,
/// after a `\r\n`, after a `\r` not followed by `\n`, or at the end of `s`.
pub open spec fn line_end_from(s: Seq<char>, i: int) -> int
    decreases s.len() - i,
{
    if i < 0 || i >= s.len() {
        s.len() as int
    } else if s[i] == '\n' {
        i + 1
    } else if s[i] == '\r' {
        if i + 1 < s.len() && s[i + 1] == '\n' {
            i + 2
        } else {
            i + 1
        }
    } else {
        line_end_from(s, i + 1)
    }
}

/// The lines of `s`, each with its line ending, as the line diff splits
/// them; a last line without an ending is a line too.
pub open spec fn line_tokens(s: Seq<char>) -> Seq<Seq<char>>
    decreases s.len(),
{
    if s.len() == 0 {
        Seq::empty()
    } else {
        let k = line_end_from(s, 0);
        if 0 < k <= s.len() {
            seq![s.take(k)] + line_tokens(s.skip(k))
        } else {
            Seq::empty()
        }
    }
}

/// A line that starts inside the text ends after its start and inside the text.
proof fn lemma_line_end_from(s: Seq<char>, i: int)
    requires
        0 <= i < s.len(),
    ensures
        i < line_end_from(s, i) <= s.len(),
    decreases s.len() - i,
{
    if s[i] != '\n' && s[i] != '\r' {
        if i + 1 < s.len() {
            lemma_line_end_from(s, i + 1);
        } else {
            assert(line_end_from(s, i + 1) == s.len());
        }
        assert(line_end_from(s, i) == line_end_from(s, i + 1));
    }
}

/// Joining a first piece in front of other pieces.
proof fn lemma_flatten_prepend(x: Seq<char>, rest: Seq<Seq<char>>)
    ensures
        flatten(seq![x] + rest) == x + flatten(rest),
    decreases rest.len(),
{
    if rest.len() == 0 {
        assert(seq![x] + rest =~= seq![x]);
        assert(seq![x].drop_last() =~= Seq::<Seq<char>>::empty());
        assert(flatten(Seq::<Seq<char>>::empty()) == Seq::<char>::empty());
        assert(x + flatten(rest) =~= x);
        assert(flatten(seq![x]) =~= x);
    } else {
        lemma_flatten_prepend(x, rest.drop_last());
        assert((seq![x] + rest).drop_last() =~= seq![x] + rest.drop_last());
        assert((seq![x] + rest).last() == rest.last());
        assert(x + flatten(rest) =~= x + flatten(rest.drop_last()) + rest.last());
    }
}

/// The lines of a text are non-empty and, joined, give back the text.
pub proof fn law_line_tokens_cover_text(s: Seq<char>)
    ensures
        flatten(line_tokens(s)) == s,
        forall|i: int| 0 <= i < line_tokens(s).len() ==> (#[trigger] line_tokens(s)[i]).len() > 0,
    decreases s.len(),
{
    if s.len() == 0 {
        assert(flatten(Seq::<Seq<char>>::empty()) == Seq::<char>::empty());
    } else {
        lemma_line_end_from(s, 0);
        let k = line_end_from(s, 0);
        let rest = s.skip(k);
        law_line_tokens_cover_text(rest);
        lemma_flatten_prepend(s.take(k), line_tokens(rest));
        assert(s.take(k) + rest =~= s);
        let t = line_tokens(s);
        assert(t == seq![s.take(k)] + line_tokens(rest));
        assert forall|i: int| 0 <= i < t.len() implies (#[trigger] t[i]).len() > 0 by {
            if i > 0 {
                assert(t[i] == line_tokens(rest)[i - 1]);
            }
        }
    }
}

/// Every line of `lines`, as changes of kind `kind`.
pub open spec fn all_as(lines: Seq<Seq<char>>, kind: ChangeKind) -> Seq<(ChangeKind, Seq<char>)> {
    lines.map_values(|l: Seq<char>| (kind, l))
}

/// The line diff of `old` and `new`: `similar::TextDiff::from_lines(old, new)`
/// walked with `iter_all_changes`, each change taken as its tag and its value.
///
/// Trusted, from the source of `similar`: the result is [`line_diff`] of the two
/// texts; the lines split off `old` are all kept, so the equal and deleted lines
/// in order make up `old`, and the equal and inserted lines make up `new`; and a
/// text diffed against itself yields only equal lines (the diff starts by
/// taking the common prefix). Against an empty text, the other text's lines
/// (split after `\n`, `\r\n` or a lone `\r`) are all inserted, or all deleted,
/// in order: the diff then makes one insertion of the whole new range or one
/// deletion of the whole old range. Which lines of two different non-empty
/// texts are paired is left to the name.
#[verifier::external_body]
fn line_changes(old: &str, new: &str) -> (r: Vec<(ChangeKind, String)>)
    ensures
        change_views(r@) == line_diff(old@, new@),
        side_text(change_views(r@), ChangeKind::Insert) == old@,
        side_text(change_views(r@), ChangeKind::Delete) == new@,
        old@ == new@ ==> forall|i: int|
            0 <= i < r@.len() ==> #[trigger] r@[i].0 == ChangeKind::Equal,
        old@.len() == 0 ==> change_views(r@) == all_as(line_tokens(new@), ChangeKind::Insert),
        new@.len() == 0 ==> change_views(r@) == all_as(line_tokens(old@), ChangeKind::Delete),
{
    let diff = similar::TextDiff::from_lines(old, new);
    let mut changes = Vec::new();
    for change in diff.iter_all_changes() {
        let kind = match change.tag() {
            similar::ChangeTag::Equal => ChangeKind::Equal,
            similar::ChangeTag::Delete => ChangeKind::Delete,
            similar::ChangeTag::Insert => ChangeKind::Insert,
        };
        changes.push((kind, change.value().to_string()));
    }
    changes
}

/// A change's text lacks a final line break (`\n` or `\r`), so that printing
/// it adds one.
pub open spec fn missing_newline(v: Seq<char>) -> bool {
    !(v.len() > 0 && (v.last() == '\n' || v.last() == '\r'))
}

/// A change's text as it is printed: with a line break added where it lacks one.
pub open spec fn printed_value(v: Seq<char>) -> Seq<char> {
    if missing_newline(v) {
        v.push('\n')
    } else {
        v
    }
}

/// One change as listed: deleted lines behind `- `, inserted lines behind
/// `+ `, equal lines left out.
pub open spec fn render_change(c: (ChangeKind, Seq<char>)) -> Seq<char> {
    match c.0 {
        ChangeKind::Equal => Seq::empty(),
        ChangeKind::Delete => seq!['-', ' '] + printed_value(c.1),
        ChangeKind::Insert => seq!['+', ' '] + printed_value(c.1),
    }
}

/// The listing of a list of changes.
pub open spec fn render_changes(changes: Seq<(ChangeKind, Seq<char>)>) -> Seq<char>
    decreases changes.len(),
{
    if changes.len() == 0 {
        Seq::empty()
    } else {
        render_changes(changes.drop_last()) + render_change(changes.last())
    }
}

/// How many of the changes delete or insert a line.
pub open spec fn changed_count(changes: Seq<(ChangeKind, Seq<char>)>) -> nat
    decreases changes.len(),
{
    if changes.len() == 0 {
        0
    } else {
        changed_count(changes.drop_last()) + if changes.last().0 == ChangeKind::Equal {
            0nat
        } else {
            1nat
        }
    }
}

/// The listing of several changes is the listings of the parts one after
/// the other, and the listing of one change is: nothing for an equal line;
/// for a deleted (inserted) line `-` (`+`), a space, the line, and a line
/// break only where the line does not already end with `\n` or `\r`.
pub proof fn law_listing_is_per_change(
    a: Seq<(ChangeKind, Seq<char>)>,
    b: Seq<(ChangeKind, Seq<char>)>,
    kind: ChangeKind,
    line: Seq<char>,
)
    ensures
        render_changes(a + b) == render_changes(a) + render_changes(b),
        render_changes(seq![(kind, line)]) == match kind {
            ChangeKind::Equal => Seq::<char>::empty(),
            _ => seq![
                if kind == ChangeKind::Delete {
                    '-'
                } else {
                    '+'
                },
                ' ',
            ] + line + if line.len() > 0 && (line.last() == '\n' || line.last() == '\r') {
                Seq::<char>::empty()
            } else {
                seq!['\n']
            },
        },
    decreases b.len(),
{
    if b.len() == 0 {
        assert(a + b =~= a);
        assert(render_changes(a) + render_changes(b) =~= render_changes(a));
    } else {
        law_listing_is_per_change(a, b.drop_last(), kind, line);
        assert((a + b).drop_last() =~= a + b.drop_last());
        assert((a + b).last() == b.last());
        assert(render_changes(a + b) =~= render_changes(a) + render_changes(b));
    }
    let one = seq![(kind, line)];
    let e = Seq::<(ChangeKind, Seq<char>)>::empty();
    assert(one.drop_last() =~= e);
    assert(render_changes(e) == Seq::<char>::empty());
    assert(render_changes(one) =~= render_change((kind, line)));
    if !missing_newline(line) {
        assert(seq!['-', ' '] + line =~= seq!['-', ' '] + line + Seq::<char>::empty());
        assert(seq!['+', ' '] + line =~= seq!['+', ' '] + line + Seq::<char>::empty());
    } else {
        assert(seq!['-', ' '] + line.push('\n') =~= seq!['-', ' '] + line + seq!['\n']);
        assert(seq!['+', ' '] + line.push('\n') =~= seq!['+', ' '] + line + seq!['\n']);
    }
}

/// The count adds up over the parts of a list of changes: every deleted or
/// inserted line counts once, wherever it stands.
pub proof fn law_changed_count_additive(
    a: Seq<(ChangeKind, Seq<char>)>,
    b: Seq<(ChangeKind, Seq<char>)>,
)
    ensures
        changed_count(a + b) == changed_count(a) + changed_count(b),
    decreases b.len(),
{
    if b.len() == 0 {
        assert(a + b =~= a);
    } else {
        law_changed_count_additive(a, b.drop_last());
        assert((a + b).drop_last() =~= a + b.drop_last());
        assert((a + b).last() == b.last());
    }
}

/// The count is the number of changes that are not equal lines.
pub proof fn law_changed_count_is_changes(changes: Seq<(ChangeKind, Seq<char>)>)
    ensures
        changed_count(changes) == changes.filter(
            |c: (ChangeKind, Seq<char>)| c.0 != ChangeKind::Equal,
        ).len(),
    decreases changes.len(),
{
    reveal(Seq::filter);
    if changes.len() > 0 {
        law_changed_count_is_changes(changes.drop_last());
    }
}

/// A single change counts one exactly when it deletes or inserts a line.
pub proof fn law_changed_count_single(c: (ChangeKind, Seq<char>))
    ensures
        changed_count(seq![c]) == if c.0 == ChangeKind::Equal {
            0nat
        } else {
            1nat
        },
{
    let e = Seq::<(ChangeKind, Seq<char>)>::empty();
    assert(seq![c].drop_last() =~= e);
    assert(changed_count(e) == 0);
    assert(seq![c].last() == c);
}

/// Without deleted or inserted lines there is nothing to list and nothing to count,
/// and both texts are the same.
proof fn lemma_all_equal(changes: Seq<(ChangeKind, Seq<char>)>)
    ensures
        (forall|i: int| 0 <= i < changes.len() ==> #[trigger] changes[i].0 == ChangeKind::Equal)
            <==> changed_count(changes) == 0,
        changed_count(changes) == 0 <==> render_changes(changes).len() == 0,
        changed_count(changes) == 0 ==> side_text(changes, ChangeKind::Insert) == side_text(
            changes,
            ChangeKind::Delete,
        ),
    decreases changes.len(),
{
    if changes.len() > 0 {
        let init = changes.drop_last();
        lemma_all_equal(init);
        assert forall|i: int| 0 <= i < init.len() implies #[trigger] init[i] == changes[i] by {}
        if forall|i: int| 0 <= i < changes.len() ==> #[trigger] changes[i].0 == ChangeKind::Equal {
            assert forall|i: int| 0 <= i < init.len() implies #[trigger] init[i].0
                == ChangeKind::Equal by {
                assert(changes[i].0 == ChangeKind::Equal);
            }
            assert(changes[changes.len() - 1].0 == ChangeKind::Equal);
        }
        if changed_count(changes) == 0 {
            assert(changes[changes.len() - 1].0 == ChangeKind::Equal);
            assert forall|i: int| 0 <= i < changes.len() implies #[trigger] changes[i].0
                == ChangeKind::Equal by {
                if i < init.len() {
                    assert(init[i].0 == ChangeKind::Equal);
                }
            }
        }
    }
}

/// Lines that are all inserted, or all deleted, are all counted.
proof fn lemma_all_changed(lines: Seq<Seq<char>>, kind: ChangeKind)
    requires
        kind != ChangeKind::Equal,
    ensures
        changed_count(all_as(lines, kind)) == lines.len(),
    decreases lines.len(),
{
    if lines.len() > 0 {
        lemma_all_changed(lines.drop_last(), kind);
        assert(all_as(lines, kind).drop_last() =~= all_as(lines.drop_last(), kind));
    }
}

/// Whether a change's text ends with a line break.
fn ends_with_line_break(v: &String) -> (r: bool)
    ensures
        r == !missing_newline(v@),
{
    let cs = crate::text::chars_of(v.as_str());
    let n = cs.len();
    n > 0 && (cs[n - 1] == '\n' || cs[n - 1] == '\r')
}

/// The lines that differ between `old` and `new`, as a git-like listing: each
/// deleted line behind `- `, each inserted line behind `+ `, in the order of
/// the line diff, each ending with a line break. Never fails; the listing is
/// empty exactly when the two texts are the same.
pub fn compare_strs(old: &str, new: &str) -> (r: std::io::Result<String>)
    ensures
        match r {
            Ok(out) => {
                &&& out@ == render_changes(line_diff(old@, new@))
                &&& (out@.len() == 0 <==> old@ == new@)
                &&& old@.len() == 0 ==> out@ == render_changes(
                    all_as(line_tokens(new@), ChangeKind::Insert),
                )
                &&& new@.len() == 0 ==> out@ == render_changes(
                    all_as(line_tokens(old@), ChangeKind::Delete),
                )
            },
            Err(_) => false,
        },
{
    let changes = line_changes(old, new);
    let ghost cs = change_views(changes@);
    let mut output = String::new();
    let n = changes.len();
    for i in 0..n
        invariant
            n == changes@.len(),
            cs == change_views(changes@),
            output@ == render_changes(cs.take(i as int)),
    {
        let kind = changes[i].0;
        assert(cs.take(i + 1).drop_last() == cs.take(i as int));
        match kind {
            ChangeKind::Equal => {},
            ChangeKind::Delete | ChangeKind::Insert => {
                if kind == ChangeKind::Delete {
                    push_char(&mut output, '-');
                } else {
                    push_char(&mut output, '+');
                }
                push_char(&mut output, ' ');
                output.append(changes[i].1.as_str());
                if !ends_with_line_break(&changes[i].1) {
                    push_char(&mut output, '\n');
                }
            },
        }
        assert(output@ == render_changes(cs.take(i as int)) + render_change(cs[i as int]));
    }
    assert(cs.take(n as int) == cs);
    proof {
        lemma_all_equal(cs);
        if old@ == new@ {
            assert forall|i: int| 0 <= i < cs.len() implies #[trigger] cs[i].0
                == ChangeKind::Equal by {
                assert(changes@[i].0 == ChangeKind::Equal);
            }
        }
    }
    Ok(output)
}

/// The number of lines that the line diff of `old` and `new` deletes or
/// inserts; zero exactly when the two texts are the same.
pub fn count_changes(old: &str, new: &str) -> (r: usize)
    ensures
        r == changed_count(line_diff(old@, new@)),
        r == 0 <==> old@ == new@,
        old@.len() == 0 ==> r == line_tokens(new@).len(),
        new@.len() == 0 ==> r == line_tokens(old@).len(),
{
    let changes = line_changes(old, new);
    let ghost cs = change_views(changes@);
    let mut count: usize = 0;
    let n = changes.len();
    for i in 0..n
        invariant
            n == changes@.len(),
            cs == change_views(changes@),
            count == changed_count(cs.take(i as int)),
            count <= i,
    {
        assert(cs.take(i + 1).drop_last() == cs.take(i as int));
        if changes[i].0 != ChangeKind::Equal {
            count = count + 1;
        }
    }
    assert(cs.take(n as int) == cs);
    proof {
        lemma_all_equal(cs);
        if old@ == new@ {
            assert forall|i: int| 0 <= i < cs.len() implies #[trigger] cs[i].0
                == ChangeKind::Equal by {
                assert(changes@[i].0 == ChangeKind::Equal);
            }
        }
        lemma_all_changed(line_tokens(new@), ChangeKind::Insert);
        lemma_all_changed(line_tokens(old@), ChangeKind::Delete);
    }
    count
}

} // verus!

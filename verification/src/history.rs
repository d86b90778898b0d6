//! The decisions around the saved versions of a script: how a saved copy is
//! named, which saved copy the script is compared against, whether a run is
//! saved, and what is reported of the comparison.
use vstd::prelude::*;
use crate::text::{
    chars_of, has_prefix, has_suffix, lex_le, lex_le_exec, lemma_lex_le_reflexive,
    lemma_lex_le_total, lemma_lex_le_transitive, push_char, starts_with, str_equal,
    string_of, string_views, strip_suffix_all, trim_end_matches,
};

verus! {

/// The directory of the history that a saved version lies in.
#[derive(Clone, Copy, Debug, PartialEq, Eq, Structural)]
pub enum HistoryKind {
    /// `std_history`: versions saved after a successful run.
    StdHistory,
    /// `err_history`: versions saved after a failed run.
    ErrHistory,
}

/// The extension that is cut off a script's name.
pub open spec fn py_extension() -> Seq<char> {
    seq!['.', 'p', 'y']
}

/// A script's name without its trailing `.py` extensions
/// (`trim_end_matches(".py")`): the prefix of all its saved versions.
pub open spec fn stem_of(script_name: Seq<char>) -> Seq<char> {
    strip_suffix_all(script_name, py_extension())
}

/// The name under which a version of a script is saved: its stem, `_`, the
/// date stamp of the run, and `.json`.
pub open spec fn saved_name(script_name: Seq<char>, date_stamp: Seq<char>) -> Seq<char> {
    stem_of(script_name) + seq!['_'] + date_stamp + seq!['.', 'j', 's', 'o', 'n']
}

/// The stem of a script's name: the name without its trailing `.py` extensions.
pub fn script_stem(script_name: &str) -> (r: String)
    ensures
        r@ == stem_of(script_name@),
{
    let cs = chars_of(script_name);
    let ext: Vec<char> = vec!['.', 'p', 'y'];
    assert(ext@ == py_extension());
    let stem = trim_end_matches(&cs, &ext);
    string_of(&stem)
}

/// The file name under which a run of `script_name` at `date_stamp` is saved.
pub fn history_file_name(script_name: &str, date_stamp: &str) -> (r: String)
    ensures
        r@ == saved_name(script_name@, date_stamp@),
{
    let mut name = script_stem(script_name);
    push_char(&mut name, '_');
    name.append(date_stamp);
    push_char(&mut name, '.');
    push_char(&mut name, 'j');
    push_char(&mut name, 's');
    push_char(&mut name, 'o');
    push_char(&mut name, 'n');
    name
}

/// The greatest, in byte order, of the names that start with `prefix`, if any.
pub open spec fn latest_among(names: Seq<Seq<char>>, prefix: Seq<char>) -> Option<Seq<char>>
    decreases names.len(),
{
    if names.len() == 0 {
        None
    } else {
        let rest = latest_among(names.drop_last(), prefix);
        let x = names.last();
        if has_prefix(x, prefix) {
            match rest {
                None => Some(x),
                Some(m) => if lex_le(m, x) {
                    Some(x)
                } else {
                    Some(m)
                },
            }
        } else {
            rest
        }
    }
}

/// The saved version that a run is compared against. The versions of both
/// history directories are ordered by their full paths, in which
/// `err_history` comes before `std_history`; the last one is taken. So it is
/// the greatest matching name of `std_history` when there is one, else the
/// greatest matching name of `err_history`.
pub open spec fn latest_of_both(
    std_names: Seq<Seq<char>>,
    err_names: Seq<Seq<char>>,
    prefix: Seq<char>,
) -> Option<(HistoryKind, Seq<char>)> {
    match latest_among(std_names, prefix) {
        Some(m) => Some((HistoryKind::StdHistory, m)),
        None => match latest_among(err_names, prefix) {
            Some(m) => Some((HistoryKind::ErrHistory, m)),
            None => None,
        },
    }
}

/// Where the greatest matching name of `names` stands.
fn latest_index(names: &Vec<String>, prefix: &Vec<char>) -> (r: Option<usize>)
    ensures
        match r {
            None => latest_among(string_views(names@), prefix@) is None,
            Some(i) => i < names@.len() && latest_among(string_views(names@), prefix@) == Some(
                names@[i as int]@,
            ),
        },
{
    let ghost vs = string_views(names@);
    let mut best: Option<usize> = None;
    let mut best_chars: Vec<char> = Vec::new();
    let n = names.len();
    for i in 0..n
        invariant
            n == names@.len(),
            vs == string_views(names@),
            match best {
                None => latest_among(vs.take(i as int), prefix@) is None,
                Some(b) => b < i && latest_among(vs.take(i as int), prefix@) == Some(vs[b as int])
                    && best_chars@ == vs[b as int],
            },
    {
        assert(vs.take(i + 1).drop_last() == vs.take(i as int));
        assert(vs.take(i + 1).last() == vs[i as int]);
        let x = chars_of(names[i].as_str());
        if starts_with(&x, prefix) {
            match best {
                None => {
                    best = Some(i);
                    best_chars = x;
                },
                Some(_) => {
                    if lex_le_exec(&best_chars, &x) {
                        best = Some(i);
                        best_chars = x;
                    }
                },
            }
        }
    }
    assert(vs.take(n as int) == vs);
    best
}

/// The saved version that a run of the script whose stem is `prefix` is
/// compared against, given the file names of `std_history` and of
/// `err_history`: its directory and where its name stands in that
/// directory's list (see [`latest_of_both`]).
pub fn latest_version(std_names: &Vec<String>, err_names: &Vec<String>, prefix: &str) -> (r:
    Option<(HistoryKind, usize)>)
    ensures
        match r {
            None => latest_of_both(string_views(std_names@), string_views(err_names@), prefix@)
                is None,
            Some((HistoryKind::StdHistory, i)) => i < std_names@.len() && latest_of_both(
                string_views(std_names@),
                string_views(err_names@),
                prefix@,
            ) == Some((HistoryKind::StdHistory, std_names@[i as int]@)),
            Some((HistoryKind::ErrHistory, i)) => i < err_names@.len() && latest_of_both(
                string_views(std_names@),
                string_views(err_names@),
                prefix@,
            ) == Some((HistoryKind::ErrHistory, err_names@[i as int]@)),
        },
{
    let p = chars_of(prefix);
    match latest_index(std_names, &p) {
        Some(i) => Some((HistoryKind::StdHistory, i)),
        None => match latest_index(err_names, &p) {
            Some(i) => Some((HistoryKind::ErrHistory, i)),
            None => None,
        },
    }
}

/// The newest version is one of the names, starts with the prefix, and no
/// other name with the prefix comes after it; there is none exactly when no
/// name starts with the prefix.
pub proof fn lemma_latest_among(names: Seq<Seq<char>>, prefix: Seq<char>)
    ensures
        match latest_among(names, prefix) {
            None => forall|i: int| 0 <= i < names.len() ==> !has_prefix(#[trigger] names[i], prefix),
            Some(m) => {
                &&& has_prefix(m, prefix)
                &&& names.contains(m)
                &&& forall|i: int|
                    0 <= i < names.len() && has_prefix(#[trigger] names[i], prefix) ==> lex_le(
                        names[i],
                        m,
                    )
            },
        },
    decreases names.len(),
{
    if names.len() > 0 {
        let init = names.drop_last();
        let x = names.last();
        let last = names.len() - 1;
        lemma_latest_among(init, prefix);
        assert(names[last] == x);
        assert forall|i: int| 0 <= i < init.len() implies #[trigger] init[i] == names[i] by {}
        match latest_among(init, prefix) {
            None => {
                if has_prefix(x, prefix) {
                    lemma_lex_le_reflexive(x);
                    assert forall|i: int|
                        0 <= i < names.len() && has_prefix(#[trigger] names[i], prefix)
                            implies lex_le(names[i], x) by {
                        if i < last {
                            assert(init[i] == names[i]);
                        }
                    }
                } else {
                    assert forall|i: int| 0 <= i < names.len() implies !has_prefix(
                        #[trigger] names[i],
                        prefix,
                    ) by {
                        if i < last {
                            assert(init[i] == names[i]);
                        }
                    }
                }
            },
            Some(m) => {
                let k = choose|k: int| 0 <= k < init.len() && init[k] == m;
                assert(names[k] == m);
                if has_prefix(x, prefix) {
                    lemma_lex_le_total(m, x);
                    lemma_lex_le_reflexive(x);
                    if lex_le(m, x) {
                        assert forall|i: int|
                            0 <= i < names.len() && has_prefix(#[trigger] names[i], prefix)
                                implies lex_le(names[i], x) by {
                            if i < last {
                                assert(init[i] == names[i]);
                                lemma_lex_le_transitive(names[i], m, x);
                            }
                        }
                    } else {
                        assert forall|i: int|
                            0 <= i < names.len() && has_prefix(#[trigger] names[i], prefix)
                                implies lex_le(names[i], m) by {
                            if i < last {
                                assert(init[i] == names[i]);
                            }
                        }
                    }
                } else {
                    assert forall|i: int|
                        0 <= i < names.len() && has_prefix(#[trigger] names[i], prefix)
                            implies lex_le(names[i], m) by {
                        if i < last {
                            assert(init[i] == names[i]);
                        }
                    }
                }
            },
        }
    }
}

/// The version a run is compared against is a saved version of the script:
/// it starts with the script's stem, it lies in `std_history` whenever some
/// version there does, and no version of its directory comes after it. There
/// is none only when neither directory holds a version of the script.
pub proof fn law_compared_version_is_latest(
    std_names: Seq<Seq<char>>,
    err_names: Seq<Seq<char>>,
    prefix: Seq<char>,
)
    ensures
        match latest_of_both(std_names, err_names, prefix) {
            None => {
                &&& forall|i: int|
                    0 <= i < std_names.len() ==> !has_prefix(#[trigger] std_names[i], prefix)
                &&& forall|i: int|
                    0 <= i < err_names.len() ==> !has_prefix(#[trigger] err_names[i], prefix)
            },
            Some((HistoryKind::StdHistory, m)) => {
                &&& has_prefix(m, prefix)
                &&& std_names.contains(m)
                &&& forall|i: int|
                    0 <= i < std_names.len() && has_prefix(#[trigger] std_names[i], prefix)
                        ==> lex_le(std_names[i], m)
            },
            Some((HistoryKind::ErrHistory, m)) => {
                &&& has_prefix(m, prefix)
                &&& err_names.contains(m)
                &&& forall|i: int|
                    0 <= i < std_names.len() ==> !has_prefix(#[trigger] std_names[i], prefix)
                &&& forall|i: int|
                    0 <= i < err_names.len() && has_prefix(#[trigger] err_names[i], prefix)
                        ==> lex_le(err_names[i], m)
            },
        },
{
    lemma_latest_among(std_names, prefix);
    lemma_latest_among(err_names, prefix);
}

/// A saved name starts with the script's stem, ends in `.json`, and the stem
/// has no `.py` left at its end: cutting the extension again changes nothing.
pub proof fn law_saved_name_shape(script_name: Seq<char>, date_stamp: Seq<char>)
    ensures
        has_prefix(saved_name(script_name, date_stamp), stem_of(script_name)),
        has_suffix(saved_name(script_name, date_stamp), seq!['.', 'j', 's', 'o', 'n']),
        !has_suffix(stem_of(script_name), py_extension()),
        stem_of(stem_of(script_name)) == stem_of(script_name),
{
    let n = saved_name(script_name, date_stamp);
    let st = stem_of(script_name);
    assert(n.take(st.len() as int) =~= st);
    let json = seq!['.', 'j', 's', 'o', 'n'];
    assert(n.skip(n.len() - json.len()) =~= json);
    lemma_stem_has_no_extension(script_name);
}

/// `.py` written `n` times.
pub open spec fn py_repeated(n: nat) -> Seq<char>
    decreases n,
{
    if n == 0 {
        Seq::empty()
    } else {
        py_repeated((n - 1) as nat) + py_extension()
    }
}

/// Cutting the extension removes nothing but whole `.py`s from the end: the
/// name is its stem followed by `.py` some number of times.
pub proof fn law_stem_cuts_only_py(name: Seq<char>) -> (n: nat)
    ensures
        name == stem_of(name) + py_repeated(n),
    decreases name.len(),
{
    if has_suffix(name, py_extension()) {
        let shorter = name.take(name.len() - 3);
        let m = law_stem_cuts_only_py(shorter);
        assert(stem_of(name) == stem_of(shorter));
        assert(py_repeated(m + 1) == py_repeated(m) + py_extension());
        assert(name =~= shorter + name.skip(name.len() - 3));
        assert(name =~= stem_of(name) + py_repeated(m + 1));
        m + 1
    } else {
        assert(name =~= name + py_repeated(0));
        0
    }
}

/// What is left after cutting the extensions does not end in one.
proof fn lemma_stem_has_no_extension(s: Seq<char>)
    ensures
        !has_suffix(strip_suffix_all(s, py_extension()), py_extension()),
    decreases s.len(),
{
    if has_suffix(s, py_extension()) {
        lemma_stem_has_no_extension(s.take(s.len() - 3));
    }
}

/// Whether a run is saved: always when no version was saved before, else
/// exactly when the script differs from the version it is compared against.
pub fn should_save(previous: Option<&str>, current: &str) -> (r: bool)
    ensures
        r == match previous {
            None => true,
            Some(p) => p@ != current@,
        },
{
    match previous {
        None => true,
        Some(p) => !str_equal(p, current),
    }
}

/// The lines reported when a run is compared with its previous version:
/// a note when there is no previous version, another when the listing of
/// changed lines is empty, else the listing between two rulers.
pub open spec fn report_lines(diff_output: Option<Seq<char>>) -> Seq<Seq<char>> {
    match diff_output {
        None => seq!["No prior version found to diff against."@],
        Some(d) => if d.len() == 0 {
            seq!["No changes made."@]
        } else {
            seq!["------changes------"@, d, "-------------------"@]
        },
    }
}

/// The lines to print for a comparison; `diff_output` is the listing of
/// changed lines, or `None` when there is no previous version.
pub fn diff_report(diff_output: Option<&str>) -> (r: Vec<String>)
    ensures
        string_views(r@) == report_lines(
            match diff_output {
                None => None,
                Some(d) => Some(d@),
            },
        ),
{
    let mut lines: Vec<String> = Vec::new();
    match diff_output {
        None => {
            lines.push(String::from_str("No prior version found to diff against."));
        },
        Some(d) => {
            if d.is_empty() {
                lines.push(String::from_str("No changes made."));
            } else {
                lines.push(String::from_str("------changes------"));
                lines.push(String::from_str(d));
                lines.push(String::from_str("-------------------"));
            }
        },
    }
    assert(string_views(lines@) =~= report_lines(
        match diff_output {
            None => None,
            Some(d) => Some(d@),
        },
    ));
    lines
}

/// The request sent to the model to explain a failed run: the instruction,
/// a line break, and the run's standard error.
pub fn explain_prompt(error_output: &str) -> (r: String)
    ensures
        r@ == "Provide the error line number and explain the error in 3-4 bullet points. Just provide the bullet points and line number:\n"@
            + error_output@,
{
    let mut prompt = String::from_str(
        "Provide the error line number and explain the error in 3-4 bullet points. Just provide the bullet points and line number:\n",
    );
    prompt.append(error_output);
    prompt
}

} // verus!

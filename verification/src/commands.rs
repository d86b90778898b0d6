//! What a finished script run reports, and the decisions of clearing the history.
use vstd::prelude::*;
use crate::text::{chars_of, is_white_space, lemma_trim_ws, str_equal, trim_bounds, trim_ws};

verus! {

/// Which stream of a script run is reported.
#[derive(Clone, Copy, Debug, PartialEq, Eq, Structural)]
pub enum OutputType {
    /// The script succeeded: its standard output is reported.
    Stdout,
    /// The script failed: its standard error is reported.
    Stderr,
}

/// The text that `String::from_utf8_lossy` makes of `bytes`.
pub uninterp spec fn utf8_lossy(bytes: Seq<u8>) -> Seq<char>;

/// `String::from_utf8_lossy(bytes)`, owned.
///
/// Trusted, from std's documentation: the result is [`utf8_lossy`] of the
/// bytes, and valid UTF-8 is decoded as it is. How invalid sequences become
/// replacement characters is left to the name.
#[verifier::external_body]
fn decode_lossy(bytes: &[u8]) -> (r: String)
    ensures
        r@ == utf8_lossy(bytes@),
        vstd::utf8::valid_utf8(bytes@) ==> r@ == vstd::utf8::decode_utf8(bytes@),
{
    String::from_utf8_lossy(bytes).to_string()
}

/// What a finished run of a script reports: its standard output, decoded,
/// when it exited successfully, else its standard error.
pub fn classify_output(success: bool, stdout: &[u8], stderr: &[u8]) -> (r: (OutputType, String))
    ensures
        r.0 == (if success {
            OutputType::Stdout
        } else {
            OutputType::Stderr
        }),
        r.1@ == utf8_lossy(if success {
            stdout@
        } else {
            stderr@
        }),
        success && vstd::utf8::valid_utf8(stdout@) ==> r.1@ == vstd::utf8::decode_utf8(stdout@),
        !success && vstd::utf8::valid_utf8(stderr@) ==> r.1@ == vstd::utf8::decode_utf8(stderr@),
{
    if success {
        (OutputType::Stdout, decode_lossy(stdout))
    } else {
        (OutputType::Stderr, decode_lossy(stderr))
    }
}

/// The answer to the confirmation prompt accepts: trimmed and lowercased it is
/// `y`, that is, it is `y` or `Y` with any whitespace around it.
pub open spec fn accepts(input: Seq<char>) -> bool {
    trim_ws(input) == seq!['y'] || trim_ws(input) == seq!['Y']
}

/// An answer confirms exactly when it is one `y` or `Y` and nothing else but
/// whitespace: any other letter, a second letter, or no letter refuses.
pub proof fn law_confirmation_is_a_lone_y(input: Seq<char>)
    ensures
        accepts(input) <==> exists|k: int|
            0 <= k < input.len() && (input[k] == 'y' || input[k] == 'Y') && forall|i: int|
                0 <= i < input.len() && i != k ==> is_white_space(#[trigger] input[i]),
{
    let (a, b) = lemma_trim_ws(input);
    assert(!is_white_space('y') && !is_white_space('Y'));
    if accepts(input) {
        let t = trim_ws(input);
        assert(t.len() == 1);
        assert(input[a] == t[0]);
        assert(b == a + 1);
        assert forall|i: int| 0 <= i < input.len() && i != a implies is_white_space(
            #[trigger] input[i],
        ) by {}
        assert(input[a] == 'y' || input[a] == 'Y');
    }
    if exists|k: int|
        0 <= k < input.len() && (input[k] == 'y' || input[k] == 'Y') && forall|i: int|
            0 <= i < input.len() && i != k ==> is_white_space(#[trigger] input[i]) {
        let k = choose|k: int|
            0 <= k < input.len() && (input[k] == 'y' || input[k] == 'Y') && forall|i: int|
                0 <= i < input.len() && i != k ==> is_white_space(#[trigger] input[i]);
        assert(!is_white_space(input[k]));
        if a == b {
            assert(is_white_space(input[k]));
        }
        assert(a <= k) by {
            if a > k {
                assert(is_white_space(input[k]));
            }
        }
        assert(a == k) by {
            if a < k {
                assert(is_white_space(input[a]));
            }
        }
        assert(b == k + 1) by {
            if b - 1 > k {
                assert(is_white_space(input[b - 1]));
            }
            if b <= k {
                assert(is_white_space(input[k]));
            }
        }
        assert(trim_ws(input) =~= seq![input[k]]);
    }
}

/// A one-character answer confirms exactly when it is `y` or `Y`.
pub proof fn law_single_character_answer(c: char)
    ensures
        accepts(seq![c]) <==> (c == 'y' || c == 'Y'),
{
    law_confirmation_is_a_lone_y(seq![c]);
    if c == 'y' || c == 'Y' {
        assert(seq![c][0] == c);
    }
}

/// Whether an answer to "Confirm action (Y/n)" goes ahead with clearing the
/// history. Any other answer, an empty one included, aborts.
pub fn is_confirmation(input: &str) -> (r: bool)
    ensures
        r == accepts(input@),
{
    let cs = chars_of(input);
    let (start, end) = trim_bounds(&cs, 0, cs.len());
    assert(cs@.subrange(0, cs@.len() as int) == cs@);
    proof {
        let t = cs@.subrange(start as int, end as int);
        if end > start && end - start == 1 {
            assert(t[0] == cs@[start as int]);
            if cs@[start as int] == 'y' {
                assert(t =~= seq!['y']);
            }
            if cs@[start as int] == 'Y' {
                assert(t =~= seq!['Y']);
            }
        }
        if t == seq!['y'] || t == seq!['Y'] {
            assert(t.len() == 1);
            assert(t[0] == cs@[start as int]);
        }
    }
    end > start && end - start == 1 && (cs[start] == 'y' || cs[start] == 'Y')
}

/// Whether clearing the history removes a file of a history directory: every
/// file but `placeholder.json`, which keeps the directory in place.
pub fn removable_history_entry(file_name: &str) -> (r: bool)
    ensures
        r == (file_name@ != "placeholder.json"@),
{
    !str_equal(file_name, "placeholder.json")
}

} // verus!

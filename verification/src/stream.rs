//! The decisions of reading a streamed model answer: each piece is either
//! shown right away or kept, with one step of progress, for the full answer.
use vstd::prelude::*;

verus! {

/// What to do with one piece of a streamed answer.
#[derive(Debug, PartialEq, Eq)]
pub enum ResponseAction {
    /// Write the piece out right away.
    Print(String),
    /// Keep the piece and advance the progress bar by one.
    Progress,
}

/// The pieces joined in order (`join("")`).
pub open spec fn joined(parts: Seq<Seq<char>>) -> Seq<char>
    decreases parts.len(),
{
    if parts.len() == 0 {
        Seq::empty()
    } else {
        joined(parts.drop_last()) + parts.last()
    }
}

/// Joining the pieces of two parts one after the other gives the two joined
/// parts one after the other; a single piece joins to itself.
pub proof fn law_joined_additive(a: Seq<Seq<char>>, b: Seq<Seq<char>>, piece: Seq<char>)
    ensures
        joined(a + b) == joined(a) + joined(b),
        joined(seq![piece]) == piece,
    decreases b.len(),
{
    if b.len() == 0 {
        assert(a + b =~= a);
        assert(joined(a) + joined(b) =~= joined(a));
    } else {
        law_joined_additive(a, b.drop_last(), piece);
        assert((a + b).drop_last() =~= a + b.drop_last());
        assert((a + b).last() == b.last());
        assert(joined(a + b) =~= joined(a) + joined(b));
    }
    let e = Seq::<Seq<char>>::empty();
    assert(seq![piece].drop_last() =~= e);
    assert(joined(e) == Seq::<char>::empty());
    assert(joined(seq![piece]) =~= piece);
}

/// Collects a streamed answer.
pub struct StreamCollector {
    show_stream: bool,
    parts: Vec<String>,
}

impl StreamCollector {
    /// Whether pieces are shown as they come rather than kept.
    pub closed spec fn shows_stream(&self) -> bool {
        self.show_stream
    }

    /// The pieces kept so far, in order.
    pub closed spec fn collected(&self) -> Seq<Seq<char>> {
        self.parts@.map_values(|p: String| p@)
    }

    /// A collector that has kept nothing yet.
    pub fn new(show_stream: bool) -> (r: StreamCollector)
        ensures
            r.shows_stream() == show_stream,
            r.collected() == Seq::<Seq<char>>::empty(),
    {
        let r = StreamCollector { show_stream, parts: Vec::new() };
        assert(r.collected() =~= Seq::<Seq<char>>::empty());
        r
    }

    /// Takes the next piece of the answer: when the stream is shown, the
    /// piece is to be written out and nothing is kept; otherwise it is kept
    /// after the others and the progress bar advances.
    pub fn accept(&mut self, response: String) -> (r: ResponseAction)
        ensures
            final(self).shows_stream() == old(self).shows_stream(),
            old(self).shows_stream() ==> r == ResponseAction::Print(response),
            old(self).shows_stream() ==> final(self).collected() == old(self).collected(),
            !old(self).shows_stream() ==> r == ResponseAction::Progress,
            !old(self).shows_stream() ==> final(self).collected() == old(self).collected().push(
                response@,
            ),
    {
        if self.show_stream {
            ResponseAction::Print(response)
        } else {
            let ghost before = self.collected();
            let ghost text = response@;
            self.parts.push(response);
            assert(self.collected() =~= before.push(text));
            ResponseAction::Progress
        }
    }

    /// The full answer to write out at the end: `postfix` followed by every
    /// kept piece in order; nothing when the stream was shown.
    pub fn finish(&self, postfix: &str) -> (r: Option<String>)
        ensures
            self.shows_stream() ==> r is None,
            !self.shows_stream() ==> (r matches Some(out) && out@ == postfix@ + joined(
                self.collected(),
            )),
    {
        if self.show_stream {
            return None;
        }
        let mut out = String::from_str(postfix);
        let n = self.parts.len();
        for i in 0..n
            invariant
                n == self.parts@.len(),
                out@ == postfix@ + joined(self.collected().take(i as int)),
        {
            assert(self.collected().take(i + 1).drop_last() == self.collected().take(i as int));
            out.append(self.parts[i].as_str());
            assert(out@ == postfix@ + joined(self.collected().take(i + 1)));
        }
        assert(self.collected().take(n as int) == self.collected());
        Some(out)
    }
}

} // verus!

//! The broadcast hub: the ordered, append-only chat history, and the
//! shared view that is re-rendered to every live session after each
//! mutation. Only the most recent [`RENDER_LINES`] entries are ever shown;
//! the full history is retained.

use vstd::prelude::*;

use crate::state::ServerState;

verus! {

/// How many of the most recent history entries a rendered view shows.
pub const RENDER_LINES: usize = 20;

/// The character sequences of the history lines a rendered view shows:
/// the suffix of the history of length at most [`RENDER_LINES`].
pub open spec fn spec_visible(h: Seq<String>) -> Seq<Seq<char>> {
    let n: int = if h.len() <= RENDER_LINES { h.len() as int } else { RENDER_LINES as int };
    Seq::new(n as nat, |i: int| h[h.len() - n + i]@)
}

impl ServerState {
    /// Appends one line to the shared history. Amortized constant time;
    /// every other structure is untouched.
    pub fn append_line(&mut self, line: String)
        ensures
            final(self).history@ == old(self).history@.push(line),
            final(self).registry == old(self).registry,
            final(self).sessions == old(self).sessions,
            final(self).rev == old(self).rev,
            final(self).next_id == old(self).next_id,
            old(self).wf() ==> final(self).wf(),
    {
        self.history.push(line);
    }

    /// The lines of the shared view every live session is shown: the most
    /// recent entries, oldest first, never more than [`RENDER_LINES`] of
    /// them. The same view goes to every session; a redraw is a full,
    /// idempotent re-render of it.
    pub fn visible_history(&self) -> (r: Vec<String>)
        ensures
            r@.len() == spec_visible(self.history@).len(),
            forall|i: int|
                0 <= i < r@.len() ==> #[trigger] r@[i]@ == spec_visible(self.history@)[i],
            r@.len() <= RENDER_LINES,
            self.history@.len() >= r@.len(),
            self.history@.len() > 0 ==> r@.len() > 0,
    {
        let total = self.history.len();
        let count = if total <= RENDER_LINES { total } else { RENDER_LINES };
        let start = total - count;
        let mut r: Vec<String> = Vec::new();
        let mut i: usize = 0;
        while i < count
            invariant
                count <= total,
                total == self.history@.len(),
                start == total - count,
                i <= count,
                r@.len() == i,
                forall|j: int|
                    0 <= j < i ==> #[trigger] r@[j]@ == self.history@[start + j]@,
            decreases count - i,
        {
            r.push(self.history[start + i].clone());
            i += 1;
        }
        r
    }
}

/// Law: after any message is appended to the history, the rendered view
/// shows it (it is the view's last line), and the view never holds more
/// than the [`RENDER_LINES`] most recent entries.
pub proof fn lemma_appended_line_rendered(h: Seq<String>, line: String)
    ensures
        spec_visible(h.push(line)).len() <= RENDER_LINES,
        spec_visible(h.push(line)).len() > 0,
        spec_visible(h.push(line)).last() == line@,
{
    let h1 = h.push(line);
    assert(h1[h1.len() - 1] == line);
}

} // verus!

//! The bounded log ring that keeps the most recent lines of the server's
//! output: appending past capacity evicts the oldest line first.
use vstd::prelude::*;

verus! {

/// The lines of `h` that a ring of capacity `cap` retains: the most recent
/// `cap` of them, oldest first.
pub open spec fn recent(h: Seq<Seq<char>>, cap: int) -> Seq<Seq<char>> {
    if h.len() <= cap {
        h
    } else {
        h.skip(h.len() - cap)
    }
}

/// A bounded FIFO of text lines. The ghost history records every line ever
/// appended; the ring always holds exactly the most recent ones.
pub struct LogRing {
    lines: Vec<String>,
    capacity: usize,
    history: Ghost<Seq<Seq<char>>>,
}

impl LogRing {
    /// The retained lines, oldest first.
    pub closed spec fn lines_view(&self) -> Seq<Seq<char>> {
        Seq::new(self.lines@.len(), |i: int| self.lines@[i]@)
    }

    /// Every line ever appended, in order.
    pub closed spec fn history(&self) -> Seq<Seq<char>> {
        self.history@
    }

    pub closed spec fn spec_capacity(&self) -> int {
        self.capacity as int
    }

    /// The ring is bounded by its capacity and shows exactly the most recent
    /// lines of its history.
    pub closed spec fn wf(&self) -> bool {
        &&& self.capacity > 0
        &&& self.lines@.len() <= self.capacity
        &&& self.lines_view() == recent(self.history@, self.capacity as int)
    }

    pub fn new(capacity: usize) -> (r: LogRing)
        requires
            capacity > 0,
        ensures
            r.wf(),
            r.spec_capacity() == capacity,
            r.history() == Seq::<Seq<char>>::empty(),
    {
        let r = LogRing { lines: Vec::new(), capacity, history: Ghost(Seq::empty()) };
        proof {
            assert(r.lines_view() =~= Seq::<Seq<char>>::empty());
        }
        r
    }

    /// Appends one line, evicting the oldest line when the ring is full.
    pub fn append(&mut self, line: String)
        requires
            old(self).wf(),
        ensures
            final(self).wf(),
            final(self).spec_capacity() == old(self).spec_capacity(),
            final(self).history() == old(self).history() + seq![line@],
    {
        let ghost old_lines = self.lines@;
        if self.lines.len() == self.capacity {
            self.lines.remove(0);
            proof {
                assert(self.lines@ =~= old_lines.drop_first());
            }
        }
        self.lines.push(line);
        proof {
            self.history@ = self.history@ + seq![line@];
        }
        proof {
            let h = self.history@;
            let cap = self.capacity as int;
            if old_lines.len() < self.capacity {
                assert(self.lines_view() =~= Seq::new(
                    old_lines.len(),
                    |i: int| old_lines[i]@,
                ).push(line@));
                if h.len() <= cap {
                    assert(recent(h, cap) =~= recent(h.drop_last(), cap).push(line@));
                } else {
                    assert(false);
                }
                assert(h.drop_last() =~= old(self).history@);
                assert(self.lines_view() =~= recent(h, cap));
            } else {
                assert(old_lines.len() == self.capacity);
                assert(self.lines_view() =~= Seq::new(
                    old_lines.len(),
                    |i: int| old_lines[i]@,
                ).drop_first().push(line@));
                assert(h.len() > cap);
                assert(h.drop_last() =~= old(self).history@);
                assert(recent(h, cap) =~= recent(old(self).history@, cap).drop_first().push(
                    line@,
                ));
                assert(self.lines_view() =~= recent(h, cap));
            }
        }
    }

    /// How many lines the ring holds now.
    pub fn len(&self) -> (r: usize)
        ensures
            r == self.lines_view().len(),
    {
        self.lines.len()
    }

    /// The `i`-th retained line, oldest first.
    pub fn get(&self, i: usize) -> (r: &String)
        requires
            i < self.lines_view().len(),
        ensures
            r@ == self.lines_view()[i as int],
    {
        &self.lines[i]
    }
}

/// The ring never exceeds its capacity, and what it shows is exactly the
/// most recent suffix of everything appended, in append order.
pub proof fn lemma_ring_bounded_and_chronological(r: LogRing)
    requires
        r.wf(),
    ensures
        r.lines_view().len() <= r.spec_capacity(),
        r.lines_view() == recent(r.history(), r.spec_capacity()),
        forall|i: int|
            0 <= i < r.lines_view().len() ==> #[trigger] r.lines_view()[i] == r.history()[
                r.history().len() - r.lines_view().len() + i],
{
    let h = r.history();
    let cap = r.spec_capacity();
    if h.len() > cap {
        assert(forall|i: int|
            0 <= i < cap ==> #[trigger] recent(h, cap)[i] == h[h.len() - cap + i]);
    }
}

} // verus!

//! Bounded FIFO history of a process's console lines.
//!
//! A `LogBuffer` holds at most [`LOG_CAPACITY`] lines. Appending to a full
//! buffer first evicts the oldest line, so the buffer always keeps the most
//! recent lines in arrival order.

use std::collections::VecDeque;
use vstd::prelude::*;

verus! {

/// Upper bound on the number of lines a `LogBuffer` retains.
pub const LOG_CAPACITY: usize = 200;

/// One appended line: pushed at the end, evicting the oldest line when the
/// buffer already holds `LOG_CAPACITY` lines.
pub open spec fn push_evict(log: Seq<Seq<char>>, line: Seq<char>) -> Seq<Seq<char>> {
    if log.len() < LOG_CAPACITY {
        log.push(line)
    } else {
        log.push(line).subrange(1, log.len() as int + 1)
    }
}

/// The lines of `tail` appended one at a time, oldest first.
pub open spec fn push_evict_all(log: Seq<Seq<char>>, tail: Seq<Seq<char>>) -> Seq<Seq<char>>
    decreases tail.len(),
{
    if tail.len() == 0 {
        log
    } else {
        push_evict(push_evict_all(log, tail.drop_last()), tail.last())
    }
}

/// The suffix of `lines` that a buffer filled from empty retains: all of
/// them if they fit, otherwise the last `LOG_CAPACITY`.
pub open spec fn retained(lines: Seq<Seq<char>>) -> Seq<Seq<char>> {
    if lines.len() <= LOG_CAPACITY {
        lines
    } else {
        lines.subrange(lines.len() - LOG_CAPACITY, lines.len() as int)
    }
}

/// The lines joined with a newline between each adjacent pair.
pub open spec fn join_lines(log: Seq<Seq<char>>) -> Seq<char>
    decreases log.len(),
{
    if log.len() == 0 {
        Seq::empty()
    } else if log.len() == 1 {
        log[0]
    } else {
        join_lines(log.drop_last()) + seq!['\n'] + log.last()
    }
}

/// Bounded FIFO text history of one process's console output, plus echoed
/// operator commands. Oldest lines are evicted first; order is never changed.
pub struct LogBuffer {
    lines: VecDeque<String>,
}

impl View for LogBuffer {
    type V = Seq<Seq<char>>;

    closed spec fn view(&self) -> Seq<Seq<char>> {
        self.lines@.map_values(|l: String| l@)
    }
}

impl LogBuffer {
    /// The buffer never holds more than `LOG_CAPACITY` lines.
    pub open spec fn wf(&self) -> bool {
        self@.len() <= LOG_CAPACITY
    }

    /// A fresh, empty buffer.
    pub fn new() -> (buf: LogBuffer)
        ensures
            buf@ == Seq::<Seq<char>>::empty(),
            buf.wf(),
    {
        let buf = LogBuffer { lines: VecDeque::new() };
        proof {
            assert(buf@ =~= Seq::<Seq<char>>::empty());
        }
        buf
    }

    /// How many lines the buffer currently holds.
    pub fn len(&self) -> (n: usize)
        ensures
            n == self@.len(),
    {
        self.lines.len()
    }

    /// Append one line, evicting the oldest line if the buffer is full.
    pub fn append(&mut self, line: String)
        requires
            old(self).wf(),
        ensures
            final(self).wf(),
            final(self)@ == push_evict(old(self)@, line@),
    {
        let ghost pushed = old(self).lines@.push(line);
        self.lines.push_back(line);
        proof {
            assert(self@ =~= old(self)@.push(line@));
        }
        if self.lines.len() > LOG_CAPACITY {
            let _ = self.lines.pop_front();
            proof {
                assert(self@ =~= pushed.map_values(|l: String| l@).subrange(
                    1,
                    pushed.len() as int,
                ));
                assert(self@ =~= push_evict(old(self)@, line@));
            }
        }
    }

    /// Append each line of `batch` in order, applying the eviction rule to
    /// each in turn.
    pub fn append_many(&mut self, batch: Vec<String>)
        requires
            old(self).wf(),
        ensures
            final(self).wf(),
            final(self)@ == push_evict_all(old(self)@, batch@.map_values(|l: String| l@)),
    {
        let ghost all = batch@.map_values(|l: String| l@);
        let mut i: usize = 0;
        while i < batch.len()
            invariant
                i <= batch.len(),
                self.wf(),
                all == batch@.map_values(|l: String| l@),
                self@ == push_evict_all(old(self)@, all.take(i as int)),
            decreases batch.len() - i,
        {
            let line = batch[i].clone();
            self.append(line);
            proof {
                assert(all.take(i + 1).drop_last() =~= all.take(i as int));
                assert(all.take(i + 1).last() == batch@[i as int]@);
            }
            i = i + 1;
        }
        proof {
            assert(all.take(batch.len() as int) =~= all);
        }
    }

    /// The whole history as one string: the lines joined with newlines.
    pub fn render(&self) -> (text: String)
        ensures
            text@ == join_lines(self@),
    {
        let mut out = String::new();
        let mut i: usize = 0;
        while i < self.lines.len()
            invariant
                i <= self.lines.len(),
                out@ == join_lines(self@.take(i as int)),
            decreases self.lines.len() - i,
        {
            proof {
                reveal_strlit("\n");
                assert(self@.take(i + 1).drop_last() =~= self@.take(i as int));
            }
            if i > 0 {
                out.append("\n");
            }
            let line: &String = &self.lines[i];
            out.append(line.as_str());
            proof {
                assert(self@.take(i + 1).last() == self.lines@[i as int]@);
                if i == 0 {
                    assert(self@.take(1) =~= seq![self.lines@[0]@]);
                    assert(out@ =~= join_lines(self@.take(1)));
                } else {
                    assert(out@ =~= join_lines(self@.take(i as int)) + "\n"@
                        + self.lines@[i as int]@);
                }
            }
            i = i + 1;
        }
        proof {
            assert(self@.take(self.lines@.len() as int) =~= self@);
        }
        out
    }
}

/// Filling an empty buffer with any sequence of lines keeps exactly the
/// suffix that fits: the lines themselves when there are at most
/// `LOG_CAPACITY` of them, and otherwise the last `LOG_CAPACITY` of them,
/// in order. In particular the buffer never exceeds `LOG_CAPACITY` lines.
pub proof fn lemma_fill_retains_suffix(lines: Seq<Seq<char>>)
    ensures
        push_evict_all(Seq::empty(), lines) == retained(lines),
        push_evict_all(Seq::empty(), lines).len() <= LOG_CAPACITY,
    decreases lines.len(),
{
    if lines.len() == 0 {
        assert(push_evict_all(Seq::empty(), lines) =~= retained(lines));
    } else {
        let front = lines.drop_last();
        lemma_fill_retains_suffix(front);
        if front.len() < LOG_CAPACITY {
            assert(retained(front) =~= front);
            assert(retained(front).push(lines.last()) =~= retained(lines));
        } else {
            let grown = retained(front).push(lines.last());
            assert(grown.subrange(1, grown.len() as int) =~= retained(lines));
        }
    }
}

} // verus!

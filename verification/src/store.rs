//! The ring buffer store: a fixed-capacity FIFO of formatted log lines.
//! Appending to a full store unconditionally evicts the oldest line.

use vstd::prelude::*;

use crate::line::LogLine;

verus! {

/// Fixed capacity of the store, a compile-time constant.
pub const STORE_CAPACITY: usize = 2048;

/// The backing ring buffer: an arraydeque with wrapping behavior, opaque to
/// the verifier and described only through `deque_lines` and the trusted
/// operations below.
#[verifier::external_body]
pub struct LineDeque {
    q: arraydeque::ArrayDeque<LogLine, 2048, arraydeque::Wrapping>,
}

/// The lines the deque holds, front (oldest) to back (newest).
pub uninterp spec fn deque_lines(q: &LineDeque) -> Seq<LogLine>;

/// Relies on arraydeque's `ArrayDeque::new`: creates an empty deque.
#[verifier::external_body]
fn deque_new() -> (q: LineDeque)
    ensures
        deque_lines(&q) == Seq::<LogLine>::empty(),
{
    LineDeque { q: arraydeque::ArrayDeque::new() }
}

/// Relies on arraydeque's wrapping `ArrayDeque::push_back`: inserts at the
/// back; when the deque is full it first pops the front element and returns
/// it, otherwise it returns `None`.
#[verifier::external_body]
fn deque_push_back(q: &mut LineDeque, line: LogLine) -> (evicted: Option<LogLine>)
    ensures
        ({
            let before = deque_lines(old(q));
            let after = deque_lines(final(q));
            if before.len() < STORE_CAPACITY {
                after == before.push(line) && evicted is None
            } else {
                after == before.drop_first().push(line) && evicted == Some(before[0])
            }
        }),
{
    q.q.push_back(line)
}

/// Relies on arraydeque's `ArrayDeque::len`: the number of stored elements.
#[verifier::external_body]
fn deque_len(q: &LineDeque) -> (n: usize)
    ensures
        n == deque_lines(q).len(),
{
    q.q.len()
}

/// Relies on arraydeque's `ArrayDeque::get`: the element at an index counted
/// from the front, `None` past the end.
#[verifier::external_body]
fn deque_get(q: &LineDeque, i: usize) -> (r: Option<&LogLine>)
    ensures
        ({
            let lines = deque_lines(q);
            if i < lines.len() {
                r matches Some(line) && *line == lines[i as int]
            } else {
                r is None
            }
        }),
{
    q.q.get(i)
}

/// One append's effect on the stored sequence: the new line goes to the back;
/// when the store is at capacity the oldest line leaves first.
pub open spec fn appended(s: Seq<LogLine>, line: LogLine) -> Seq<LogLine> {
    if s.len() < STORE_CAPACITY {
        s.push(line)
    } else {
        s.drop_first().push(line)
    }
}

/// The bounded FIFO store of formatted log lines.
pub struct LogStore {
    buf: LineDeque,
}

impl LogStore {
    /// The stored lines, oldest to newest.
    pub closed spec fn lines(&self) -> Seq<LogLine> {
        deque_lines(&self.buf)
    }

    /// The store never exceeds its capacity and holds only well-formed lines.
    pub open spec fn wf(&self) -> bool {
        &&& self.lines().len() <= STORE_CAPACITY
        &&& forall|i: int| 0 <= i < self.lines().len() ==> (#[trigger] self.lines()[i]).wf()
    }

    /// Creates an empty store.
    pub fn new() -> (s: LogStore)
        ensures
            s.lines() == Seq::<LogLine>::empty(),
            s.wf(),
    {
        LogStore { buf: deque_new() }
    }

    /// Appends a line at the tail; when the store is full, the oldest line is
    /// evicted first. Appending cannot fail.
    pub fn append(&mut self, line: LogLine)
        requires
            old(self).wf(),
            line.wf(),
        ensures
            final(self).lines() == appended(old(self).lines(), line),
            final(self).wf(),
    {
        let _evicted = deque_push_back(&mut self.buf, line);
    }

    /// The number of stored lines.
    pub fn len(&self) -> (n: usize)
        ensures
            n == self.lines().len(),
    {
        deque_len(&self.buf)
    }

    /// The line at an index counted from the oldest, `None` past the end.
    pub fn line_at(&self, i: usize) -> (r: Option<&LogLine>)
        ensures
            ({
                if i < self.lines().len() {
                    r matches Some(line) && *line == self.lines()[i as int]
                } else {
                    r is None
                }
            }),
    {
        deque_get(&self.buf, i)
    }
}

/// The contents after a sequence of appends, in order.
pub open spec fn append_all(s: Seq<LogLine>, ls: Seq<LogLine>) -> Seq<LogLine>
    decreases ls.len(),
{
    if ls.len() == 0 {
        s
    } else {
        append_all(appended(s, ls[0]), ls.drop_first())
    }
}

/// After any sequence of appends, a store that started within capacity holds
/// the last `STORE_CAPACITY` of (its old contents followed by the appended
/// lines) — never more than the capacity, in append order.
pub proof fn lemma_append_all_shape(s: Seq<LogLine>, ls: Seq<LogLine>)
    requires
        s.len() <= STORE_CAPACITY,
    ensures
        append_all(s, ls) == if s.len() + ls.len() <= STORE_CAPACITY {
            s + ls
        } else {
            (s + ls).skip(s.len() + ls.len() - STORE_CAPACITY)
        },
    decreases ls.len(),
{
    if ls.len() == 0 {
        assert(s + ls =~= s);
    } else {
        let s1 = appended(s, ls[0]);
        lemma_append_all_shape(s1, ls.drop_first());
        if s.len() < STORE_CAPACITY {
            assert(s.push(ls[0]) + ls.drop_first() =~= s + ls);
        } else {
            assert(s.drop_first().push(ls[0]) + ls.drop_first() =~= (s + ls).skip(1));
            if s1.len() + ls.drop_first().len() > STORE_CAPACITY {
                assert((s + ls).skip(1).skip(s1.len() + ls.drop_first().len() - STORE_CAPACITY)
                    =~= (s + ls).skip(s.len() + ls.len() - STORE_CAPACITY));
            }
        }
    }
}

/// Bounded growth: appending at least `STORE_CAPACITY` lines to an empty
/// store leaves exactly `STORE_CAPACITY` lines, and they are the last
/// `STORE_CAPACITY` appended lines in append order.
pub proof fn lemma_bounded_growth(ls: Seq<LogLine>)
    requires
        ls.len() >= STORE_CAPACITY,
    ensures
        append_all(Seq::<LogLine>::empty(), ls).len() == STORE_CAPACITY,
        append_all(Seq::<LogLine>::empty(), ls) == ls.skip(ls.len() - STORE_CAPACITY),
{
    lemma_append_all_shape(Seq::<LogLine>::empty(), ls);
    assert(Seq::<LogLine>::empty() + ls =~= ls);
    if ls.len() > STORE_CAPACITY {
        assert(append_all(Seq::<LogLine>::empty(), ls) == ls.skip(ls.len() - STORE_CAPACITY));
    } else {
        assert(ls.skip(0) =~= ls);
    }
}

/// FIFO eviction: appending one line to a full store removes exactly the
/// oldest line and no other — every other line keeps its order, and the new
/// line stands at the tail.
pub proof fn lemma_fifo_eviction(s: Seq<LogLine>, line: LogLine)
    requires
        s.len() == STORE_CAPACITY,
    ensures
        appended(s, line).len() == STORE_CAPACITY,
        forall|i: int| 1 <= i < s.len() ==> appended(s, line)[i - 1] == s[i],
        appended(s, line)[STORE_CAPACITY - 1] == line,
{
}

} // verus!

//! The physical medium: one-way byte pipes with bounded buffers, and links,
//! the two ends of a duplex connection built from a pair of pipes.
use std::collections::VecDeque;
use vstd::prelude::*;

verus! {

/// Most bytes a pipe holds; a send to a full pipe is refused.
pub const LINK_CAPACITY: usize = 2000;

/// What a pipe holds and has carried.
pub ghost struct PipeState {
    /// Bytes sent and not yet received, oldest first.
    pub queue: Seq<u8>,
    /// Whether the sending end is still held.
    pub sender_open: bool,
    /// Whether the receiving end is still held.
    pub receiver_open: bool,
    /// Every byte that a send put in, in order.
    pub sent: Seq<u8>,
    /// Every byte that a receive took out, in order.
    pub delivered: Seq<u8>,
}

struct Pipe {
    buf: VecDeque<u8>,
    sender_open: bool,
    receiver_open: bool,
    sent: Ghost<Seq<u8>>,
    delivered: Ghost<Seq<u8>>,
}

impl Pipe {
    spec fn state(&self) -> PipeState {
        PipeState {
            queue: self.buf@,
            sender_open: self.sender_open,
            receiver_open: self.receiver_open,
            sent: self.sent@,
            delivered: self.delivered@,
        }
    }
}

/// Every pipe of a simulated network.
///
/// A pipe is held here, in one place, rather than as a channel whose two
/// handles each hold part of its state: the bytes a sender has queued are
/// then part of the value that `recv` reads, so the contracts can say what
/// each end sees, in what order, and when the other end is gone.
pub struct Medium {
    pipes: Vec<Pipe>,
}

/// Why a send was refused.
#[derive(Clone, Copy, Debug, PartialEq, Eq, Structural)]
pub enum SendError {
    /// The pipe holds `LINK_CAPACITY` bytes.
    Full,
    /// The receiving end was dropped.
    Closed,
}

/// Why a receive gave no byte.
#[derive(Clone, Copy, Debug, PartialEq, Eq, Structural)]
pub enum RecvError {
    /// No byte is queued.
    Empty,
    /// No byte is queued and the sending end was dropped.
    Disconnected,
}

impl View for Medium {
    type V = Seq<PipeState>;

    closed spec fn view(&self) -> Seq<PipeState> {
        Seq::new(self.pipes@.len(), |i: int| self.pipes@[i].state())
    }
}

/// A pipe after one more byte is sent.
pub open spec fn after_send(p: PipeState, b: u8) -> PipeState {
    PipeState { queue: p.queue.push(b), sent: p.sent.push(b), ..p }
}

/// A pipe after its oldest byte is received.
pub open spec fn after_recv(p: PipeState) -> PipeState {
    PipeState {
        queue: p.queue.subrange(1, p.queue.len() as int),
        delivered: p.delivered.push(p.queue[0]),
        ..p
    }
}

/// Whether a pipe is as a new connection leaves it: empty, with both ends held.
pub open spec fn fresh(p: PipeState) -> bool {
    p.queue.len() == 0 && p.sender_open && p.receiver_open
}

/// The pipes after the end `(tx, rx)` is dropped.
pub open spec fn after_close(ms: Seq<PipeState>, tx: usize, rx: usize) -> Seq<PipeState> {
    ms.update(tx as int, PipeState { sender_open: false, ..ms[tx as int] }).update(
        rx as int,
        PipeState { receiver_open: false, ..ms[rx as int] },
    )
}

impl Medium {
    /// Every pipe is within its capacity, and what it has carried is what was
    /// received followed by what is queued.
    pub open spec fn wf(&self) -> bool {
        forall|i: int|
            0 <= i < self@.len() ==> {
                &&& (#[trigger] self@[i]).queue.len() <= LINK_CAPACITY
                &&& self@[i].sent == self@[i].delivered + self@[i].queue
            }
    }

    /// Whether both pipes of `link` exist in this medium.
    pub open spec fn holds(&self, link: &Link) -> bool {
        &&& link.tx < self@.len()
        &&& link.rx < self@.len()
        &&& link.tx != link.rx
    }

    /// A medium without pipes.
    pub fn new() -> (r: Medium)
        ensures
            r.wf(),
            r@.len() == 0,
    {
        let r = Medium { pipes: Vec::new() };
        assert(r@ =~= Seq::<PipeState>::empty());
        r
    }

    fn add_pipe(&mut self) -> (r: usize)
        requires
            old(self).wf(),
            old(self)@.len() < usize::MAX,
        ensures
            final(self).wf(),
            r == old(self)@.len(),
            final(self)@ == old(self)@.push(
                PipeState {
                    queue: Seq::empty(),
                    sender_open: true,
                    receiver_open: true,
                    sent: Seq::empty(),
                    delivered: Seq::empty(),
                },
            ),
    {
        let r = self.pipes.len();
        let p = Pipe {
            buf: VecDeque::new(),
            sender_open: true,
            receiver_open: true,
            sent: Ghost(Seq::empty()),
            delivered: Ghost(Seq::empty()),
        };
        self.pipes.push(p);
        proof {
            assert(p.state().sent =~= p.state().delivered + p.state().queue);
            assert(self@ =~= old(self)@.push(p.state()));
        }
        r
    }
}

/// One end of a duplex connection: it sends into pipe `tx` and receives from pipe `rx`.
#[derive(Debug)]
pub struct Link {
    pub tx: usize,
    pub rx: usize,
}

impl Link {
    /// Creates a connection and returns its two ends; what one end sends the other receives.
    pub fn connection(medium: &mut Medium) -> (r: (Link, Link))
        requires
            old(medium).wf(),
            old(medium)@.len() + 2 <= usize::MAX,
        ensures
            final(medium).wf(),
            final(medium)@.len() == old(medium)@.len() + 2,
            final(medium)@.subrange(0, old(medium)@.len() as int) == old(medium)@,
            r.0.tx == old(medium)@.len() && r.0.rx == old(medium)@.len() + 1,
            r.1.tx == r.0.rx && r.1.rx == r.0.tx,
            final(medium)@[r.0.tx as int].queue.len() == 0,
            final(medium)@[r.0.rx as int].queue.len() == 0,
            final(medium)@[r.0.tx as int].sender_open && final(medium)@[r.0.tx as int].receiver_open,
            final(medium)@[r.0.rx as int].sender_open && final(medium)@[r.0.rx as int].receiver_open,
    {
        let a = medium.add_pipe();
        let b = medium.add_pipe();
        (Link { tx: a, rx: b }, Link { tx: b, rx: a })
    }

    /// Queues `data` on this end's outgoing pipe.
    pub fn send(&self, medium: &mut Medium, data: u8) -> (r: Result<(), SendError>)
        requires
            old(medium).wf(),
            old(medium).holds(self),
        ensures
            final(medium).wf(),
            ({
                let p = old(medium)@[self.tx as int];
                if !p.receiver_open {
                    r == Err::<(), SendError>(SendError::Closed) && final(medium)@ == old(medium)@
                } else if p.queue.len() >= LINK_CAPACITY {
                    r == Err::<(), SendError>(SendError::Full) && final(medium)@ == old(medium)@
                } else {
                    r is Ok && final(medium)@ == old(medium)@.update(
                        self.tx as int,
                        after_send(p, data),
                    )
                }
            }),
    {
        let i = self.tx;
        if !medium.pipes[i].receiver_open {
            return Err(SendError::Closed);
        }
        if medium.pipes[i].buf.len() >= LINK_CAPACITY {
            return Err(SendError::Full);
        }
        let ghost old_pipe = medium.pipes@[i as int];
        medium.pipes[i].buf.push_back(data);
        medium.pipes[i].sent = Ghost(old_pipe.sent@.push(data));
        proof {
            let p = medium.pipes@[i as int];
            assert(old(medium)@[i as int] == old_pipe.state());
            assert(old_pipe.sent@ == old_pipe.delivered@ + old_pipe.buf@);
            assert(p.sent@ =~= p.delivered@ + p.buf@);
            assert(medium@ =~= old(medium)@.update(i as int, after_send(old(medium)@[i as int], data)));
        }
        Ok(())
    }

    /// Takes the oldest byte from this end's incoming pipe.
    pub fn recv(&self, medium: &mut Medium) -> (r: Result<u8, RecvError>)
        requires
            old(medium).wf(),
            old(medium).holds(self),
        ensures
            final(medium).wf(),
            ({
                let p = old(medium)@[self.rx as int];
                if p.queue.len() > 0 {
                    r == Ok::<u8, RecvError>(p.queue[0]) && final(medium)@ == old(medium)@.update(
                        self.rx as int,
                        after_recv(p),
                    )
                } else if !p.sender_open {
                    r == Err::<u8, RecvError>(RecvError::Disconnected) && final(medium)@ == old(
                        medium,
                    )@
                } else {
                    r == Err::<u8, RecvError>(RecvError::Empty) && final(medium)@ == old(medium)@
                }
            }),
    {
        let i = self.rx;
        let ghost old_pipe = medium.pipes@[i as int];
        match medium.pipes[i].buf.pop_front() {
            Some(b) => {
                medium.pipes[i].delivered = Ghost(old_pipe.delivered@.push(b));
                proof {
                    let p = medium.pipes@[i as int];
                    assert(old(medium)@[i as int] == old_pipe.state());
                    assert(old_pipe.sent@ == old_pipe.delivered@ + old_pipe.buf@);
                    assert(p.sent@ =~= p.delivered@ + p.buf@);
                    assert(medium@ =~= old(medium)@.update(
                        i as int,
                        after_recv(old(medium)@[i as int]),
                    ));
                }
                Ok(b)
            },
            None => {
                proof {
                    assert(medium@ =~= old(medium)@);
                }
                if medium.pipes[i].sender_open {
                    Err(RecvError::Empty)
                } else {
                    Err(RecvError::Disconnected)
                }
            },
        }
    }

    /// Whether a byte waits on this end's incoming pipe.
    pub fn is_recieving(&self, medium: &Medium) -> (r: bool)
        requires
            medium.holds(self),
        ensures
            r == (medium@[self.rx as int].queue.len() > 0),
    {
        medium.pipes[self.rx].buf.len() > 0
    }

    /// Drops this end: its outgoing pipe loses its sender, its incoming pipe its receiver.
    pub fn close(self, medium: &mut Medium)
        requires
            old(medium).wf(),
            old(medium).holds(&self),
        ensures
            final(medium).wf(),
            final(medium)@ == after_close(old(medium)@, self.tx, self.rx),
    {
        medium.pipes[self.tx].sender_open = false;
        medium.pipes[self.rx].receiver_open = false;
        proof {
            assert(medium@ =~= old(medium)@.update(
                self.tx as int,
                PipeState { sender_open: false, ..old(medium)@[self.tx as int] },
            ).update(
                self.rx as int,
                PipeState { receiver_open: false, ..old(medium)@[self.rx as int] },
            ));
        }
    }
}

/// What any pipe has handed out is a prefix of what was sent into it, in the
/// same order.
pub proof fn lemma_pipe_fifo(medium: &Medium, i: int)
    requires
        medium.wf(),
        0 <= i < medium@.len(),
    ensures
        medium@[i].delivered.len() <= medium@[i].sent.len(),
        medium@[i].delivered == medium@[i].sent.subrange(0, medium@[i].delivered.len() as int),
{
    let p = medium@[i];
    assert(p.sent == p.delivered + p.queue);
    assert(p.sent.subrange(0, p.delivered.len() as int) =~= p.delivered);
}

} // verus!

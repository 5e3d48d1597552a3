use crate::framing::{encode_frame, frame_bytes};
use vstd::prelude::*;

verus! {

/// Hands out request ids: 1, 2, 3, ..., wrapping after `u64::MAX`.
#[derive(Debug)]
pub struct RequestIds {
    pub id: u64,
}

impl RequestIds {
    pub fn new() -> (r: Self)
        ensures
            r.id == 0,
    {
        RequestIds { id: 0 }
    }

    /// The next id: one more than the last, wrapping.
    pub fn get_next_id(&mut self) -> (r: u64)
        ensures
            r == (if old(self).id == u64::MAX { 0 } else { old(self).id + 1 }),
            final(self).id == r,
    {
        self.id = if self.id == u64::MAX { 0 } else { self.id + 1 };
        self.id
    }
}

/// A request waiting for its response: the caller's id and the framed bytes.
#[derive(Debug)]
pub struct Pending {
    pub id: u64,
    pub frame: Vec<u8>,
}

/// What the connection is doing for the request at the head of the queue.
#[derive(Debug, Clone, Copy, PartialEq, Eq, Structural)]
pub enum Phase {
    /// No request is waiting.
    Idle,
    /// The head request is to be written.
    Writing,
    /// The head request was written; its response header is to be read.
    AwaitingHeader,
    /// The header announced `length` bytes of body, which are to be read.
    AwaitingBody { length: usize },
    /// The connection failed; a new one is to be made.
    Reconnecting,
}

/// What happened on the connection, or a new submission.
#[derive(Debug)]
pub enum Event {
    /// A caller submits `payload` under `id`.
    Submitted { id: u64, payload: Vec<u8> },
    /// The head request's frame was written whole.
    Written,
    /// A response header announcing `length` bytes was read.
    HeaderRead { length: usize },
    /// The response body was read.
    BodyRead { body: Vec<u8> },
    /// A write or read failed, or the header was malformed.
    IoFailed,
    /// A new connection stands.
    Reconnected,
}

/// What the connection is to do next.
#[derive(Debug)]
pub enum Action {
    /// Wait for a submission.
    Wait,
    /// Write these bytes.
    Write { frame: Vec<u8> },
    /// Read a response header.
    ReadHeader,
    /// Read `length` bytes of response body.
    ReadBody { length: usize },
    /// Drop the connection and make a new one.
    Reconnect,
}

/// A response handed to the caller that submitted request `id`.
#[derive(Debug)]
pub struct Delivery {
    pub id: u64,
    pub body: Vec<u8>,
}

/// The decisions of the single worker that owns the connection: requests
/// are served one at a time, in order of submission, and a request leaves the
/// queue only when its response has been read whole.
#[derive(Debug)]
pub struct TransportWorker {
    pub queue: Vec<Pending>,
    pub phase: Phase,
}

/// The queue's abstract value: each request's id and frame.
pub open spec fn queue_view(q: Seq<Pending>) -> Seq<(u64, Seq<u8>)> {
    q.map_values(|p: Pending| (p.id, p.frame@))
}

impl TransportWorker {
    pub open spec fn wf(&self) -> bool {
        (self.phase is Idle) <==> self.queue.len() == 0
    }

    pub open spec fn pending(&self) -> Seq<(u64, Seq<u8>)> {
        queue_view(self.queue@)
    }

    pub fn new() -> (r: Self)
        ensures
            r.wf(),
            r.pending().len() == 0,
            r.phase == Phase::Idle,
    {
        TransportWorker { queue: Vec::new(), phase: Phase::Idle }
    }

    /// The I/O that the current phase calls for; a write is of the head
    /// request's frame.
    pub fn next_action(&self) -> (r: Action)
        requires
            self.wf(),
        ensures
            self.phase is Idle ==> r is Wait,
            self.phase is Writing ==> (r matches Action::Write { frame } && frame@
                == self.pending()[0].1),
            self.phase is AwaitingHeader ==> r is ReadHeader,
            self.phase matches Phase::AwaitingBody { length } ==> (r matches Action::ReadBody {
                length: l,
            } && l == length),
            self.phase is Reconnecting ==> r is Reconnect,
    {
        match self.phase {
            Phase::Idle => Action::Wait,
            Phase::Writing => {
                let f = copy_bytes(&self.queue[0].frame);
                Action::Write { frame: f }
            },
            Phase::AwaitingHeader => Action::ReadHeader,
            Phase::AwaitingBody { length } => Action::ReadBody { length },
            Phase::Reconnecting => Action::Reconnect,
        }
    }

    /// Takes in `event`. A submission joins the back of the queue, framed; a
    /// failure leaves the queue as it was and calls for a new connection,
    /// after which the head request is written again; a body of the
    /// announced length completes the head request, which leaves the queue
    /// and is returned. An event that does not fit the phase changes nothing.
    pub fn on_event(&mut self, event: Event) -> (r: Option<Delivery>)
        requires
            old(self).wf(),
        ensures
            final(self).wf(),
            match event {
                Event::Submitted { id, payload } => {
                    &&& r is None
                    &&& final(self).pending() == old(self).pending().push((id, frame_bytes(payload@)))
                    &&& final(self).phase == (if old(self).phase is Idle {
                        Phase::Writing
                    } else {
                        old(self).phase
                    })
                },
                Event::Written => {
                    &&& r is None
                    &&& final(self).pending() == old(self).pending()
                    &&& final(self).phase == (if old(self).phase is Writing {
                        Phase::AwaitingHeader
                    } else {
                        old(self).phase
                    })
                },
                Event::HeaderRead { length } => {
                    &&& r is None
                    &&& final(self).pending() == old(self).pending()
                    &&& final(self).phase == (if old(self).phase is AwaitingHeader {
                        Phase::AwaitingBody { length }
                    } else {
                        old(self).phase
                    })
                },
                Event::BodyRead { body } => if old(self).phase == (Phase::AwaitingBody {
                    length: body@.len() as usize,
                }) {
                    &&& r matches Some(d) && d.id == old(self).pending()[0].0 && d.body@ == body@
                    &&& final(self).pending() == old(self).pending().drop_first()
                    &&& final(self).phase == (if final(self).pending().len() == 0 {
                        Phase::Idle
                    } else {
                        Phase::Writing
                    })
                } else {
                    &&& r is None
                    &&& final(self).pending() == old(self).pending()
                    &&& final(self).phase == old(self).phase
                },
                Event::IoFailed => {
                    &&& r is None
                    &&& final(self).pending() == old(self).pending()
                    &&& final(self).phase == (if old(self).phase is Idle {
                        Phase::Idle
                    } else {
                        Phase::Reconnecting
                    })
                },
                Event::Reconnected => {
                    &&& r is None
                    &&& final(self).pending() == old(self).pending()
                    &&& final(self).phase == (if old(self).phase is Reconnecting {
                        Phase::Writing
                    } else {
                        old(self).phase
                    })
                },
            },
    {
        let ghost before = self.pending();
        match event {
            Event::Submitted { id, payload } => {
                let frame = encode_frame(payload.as_slice());
                self.queue.push(Pending { id, frame });
                assert(self.pending() =~= before.push((id, frame_bytes(payload@))));
                if self.phase == Phase::Idle {
                    self.phase = Phase::Writing;
                }
                None
            },
            Event::Written => {
                if self.phase == Phase::Writing {
                    self.phase = Phase::AwaitingHeader;
                }
                None
            },
            Event::HeaderRead { length } => {
                if self.phase == Phase::AwaitingHeader {
                    self.phase = Phase::AwaitingBody { length };
                }
                None
            },
            Event::BodyRead { body } => {
                match self.phase {
                    Phase::AwaitingBody { length } => {
                        if length == body.len() {
                            let head = self.queue.remove(0);
                            assert(self.pending() =~= before.drop_first());
                            self.phase = if self.queue.len() == 0 {
                                Phase::Idle
                            } else {
                                Phase::Writing
                            };
                            Some(Delivery { id: head.id, body })
                        } else {
                            None
                        }
                    },
                    _ => None,
                }
            },
            Event::IoFailed => {
                if self.phase != Phase::Idle {
                    self.phase = Phase::Reconnecting;
                }
                None
            },
            Event::Reconnected => {
                if self.phase == Phase::Reconnecting {
                    self.phase = Phase::Writing;
                }
                None
            },
        }
    }
}

fn copy_bytes(v: &Vec<u8>) -> (r: Vec<u8>)
    ensures
        r@ == v@,
{
    let mut r: Vec<u8> = Vec::new();
    for i in 0..v.len()
        invariant
            r@ == v@.take(i as int),
    {
        assert(v@.take(i + 1) =~= v@.take(i as int).push(v@[i as int]));
        r.push(v[i]);
    }
    assert(v@.take(v@.len() as int) =~= v@);
    r
}

} // verus!

//! The stream driver: pulls fragments from a transport, runs them through the
//! pipeline and hands out decoded outcomes one at a time.
use vstd::prelude::*;
use std::collections::VecDeque;
use crate::frame::{FrameSplitter, views};
use crate::event::{EventAssembler, on_lines};
use crate::chunk::{DecodeOutcome, decode_payload, decodes_to};
use crate::pipeline::{PipelineState, initial_pipeline, feed, feed_all};

verus! {

/// What a transport hands over on a read.
#[derive(Debug)]
pub enum SourceEvent {
    Fragment(Vec<u8>),
    End,
    Fault(String),
}

/// A byte-producing transport, read one fragment at a time and released by
/// `close`.
pub trait ByteSource {
    fn next_fragment(&mut self) -> SourceEvent;

    fn close(&mut self);
}

/// An element of the decoded stream.
#[derive(Debug, PartialEq)]
pub enum StreamItem {
    Outcome(DecodeOutcome),
    /// The transport failed; this is the last element.
    TransportFault(String),
}

/// The result of one poll.
#[derive(Debug, PartialEq)]
pub enum Poll {
    Ready(StreamItem),
    /// A fragment was read that completed no event; poll again.
    Pending,
    /// The stream is over and the transport released.
    Finished,
}

/// `outcomes` are the decodings of `payloads`, one for one and in order.
pub open spec fn all_decode(payloads: Seq<Seq<u8>>, outcomes: Seq<DecodeOutcome>) -> bool {
    &&& outcomes.len() == payloads.len()
    &&& forall|i: int| 0 <= i < outcomes.len() ==> decodes_to(payloads[i], #[trigger] outcomes[i])
}

/// A lazy, pull-based sequence of decoded outcomes over one transport.
pub struct SseStream<S: ByteSource> {
    source: S,
    splitter: FrameSplitter,
    assembler: EventAssembler,
    pending: VecDeque<DecodeOutcome>,
    closed: bool,
    cancelled: bool,
    received: Ghost<Seq<Seq<u8>>>,
    emitted: Ghost<Seq<DecodeOutcome>>,
    reads: Ghost<nat>,
    closes: Ghost<nat>,
}

impl<S: ByteSource> SseStream<S> {
    /// The fragments read from the transport so far.
    pub closed spec fn received(&self) -> Seq<Seq<u8>> {
        self.received@
    }

    /// The outcomes handed out so far.
    pub closed spec fn emitted(&self) -> Seq<DecodeOutcome> {
        self.emitted@
    }

    /// How many reads of the transport were made.
    pub closed spec fn reads(&self) -> nat {
        self.reads@
    }

    /// How many times the transport was closed.
    pub closed spec fn closes(&self) -> nat {
        self.closes@
    }

    /// Whether the caller stopped consuming.
    pub closed spec fn is_cancelled(&self) -> bool {
        self.cancelled
    }

    /// Whether the transport has been closed.
    pub closed spec fn is_released(&self) -> bool {
        self.closed
    }

    /// The pipeline over everything read so far.
    pub open spec fn model(&self) -> PipelineState {
        feed_all(initial_pipeline(), self.received())
    }

    /// The splitter and assembler hold the pipeline's state over what was
    /// read (the splitter until release), what was handed out and what waits
    /// are the decodings of its payloads, and the transport is closed once it
    /// is released and once the sentinel is seen.
    pub closed spec fn wf(&self) -> bool {
        &&& self.splitter.wf()
        &&& !self.closed ==> self.splitter.carry() == self.model().carry
        &&& !self.cancelled ==> self.assembler.state() == self.model().events
        &&& !self.cancelled ==> all_decode(self.model().payloads, self.emitted@ + self.pending@)
        &&& self.cancelled ==> self.closed && self.pending@.len() == 0
        &&& self.emitted_ok()
        &&& self.closes@ == (if self.closed {
            1nat
        } else {
            0nat
        })
        &&& self.model().events.done ==> self.closed
    }

    /// The outcomes handed out so far are the decodings, in order, of the
    /// first payloads of the stream.
    pub open spec fn emitted_ok(&self) -> bool {
        &&& self.emitted().len() <= self.model().payloads.len()
        &&& forall|i: int|
            0 <= i < self.emitted().len() ==> decodes_to(
                #[trigger] self.model().payloads[i],
                self.emitted()[i],
            )
    }

    pub fn new(source: S) -> (r: SseStream<S>)
        ensures
            r.wf(),
            r.received() == Seq::<Seq<u8>>::empty(),
            r.emitted() == Seq::<DecodeOutcome>::empty(),
            r.reads() == 0,
            r.closes() == 0,
            !r.is_released(),
            !r.is_cancelled(),
    {
        SseStream {
            source,
            splitter: FrameSplitter::new(),
            assembler: EventAssembler::new(),
            pending: VecDeque::new(),
            closed: false,
            cancelled: false,
            received: Ghost(Seq::empty()),
            emitted: Ghost(Seq::empty()),
            reads: Ghost(0),
            closes: Ghost(0),
        }
    }

    /// Whether the terminal sentinel has been seen.
    pub fn terminal_seen(&self) -> (r: bool)
        requires
            self.wf(),
        ensures
            !self.is_cancelled() ==> r == self.model().events.done,
    {
        self.assembler.is_done()
    }

    fn release(&mut self)
        requires
            !old(self).closed,
            old(self).closes@ == 0,
        ensures
            final(self).closed,
            final(self).closes@ == 1,
            final(self).reads@ == old(self).reads@,
            final(self).received@ == old(self).received@,
            final(self).emitted@ == old(self).emitted@,
            final(self).pending@ == old(self).pending@,
            final(self).assembler == old(self).assembler,
            final(self).cancelled == old(self).cancelled,
            final(self).splitter.wf(),
    {
        self.splitter.discard();
        self.source.close();
        self.closed = true;
        self.closes = Ghost(1);
    }

    /// Runs one fragment through the pipeline, queueing what it decodes to.
    fn take_fragment(&mut self, fragment: Vec<u8>)
        requires
            old(self).wf(),
            !old(self).closed,
            !old(self).cancelled,
        ensures
            final(self).wf(),
            !final(self).cancelled,
            final(self).received@ == old(self).received@.push(fragment@),
            final(self).emitted@ == old(self).emitted@,
            final(self).reads@ == old(self).reads@,
            old(self).pending@.is_prefix_of(final(self).pending@),
    {
        let ghost m0 = self.model();
        let lines = self.splitter.push(fragment.as_slice());
        let ghost all = views(lines@);
        let ghost old_pending = self.pending@;
        let ghost sp = self.splitter;
        let mut k: usize = 0;
        while k < lines.len()
            invariant
                k <= lines@.len(),
                all == views(lines@),
                !m0.events.done,
                self.assembler.state() == on_lines(m0.events, all.take(k as int)).0,
                self.pending@ == old_pending + self.pending@.subrange(
                    old_pending.len() as int,
                    self.pending@.len() as int,
                ),
                all_decode(
                    m0.payloads + on_lines(m0.events, all.take(k as int)).1,
                    self.emitted@ + self.pending@,
                ),
                old_pending.len() <= self.pending@.len(),
                self.splitter == sp,
                self.received == old(self).received,
                self.emitted == old(self).emitted,
                self.reads == old(self).reads,
                self.closes == old(self).closes,
                self.closed == old(self).closed,
                self.cancelled == old(self).cancelled,
                self.emitted_ok(),
            decreases lines@.len() - k,
        {
            proof {
                assert(all.take(k as int + 1).drop_last() =~= all.take(k as int));
                assert(all.take(k as int + 1).last() == lines@[k as int]@);
            }
            let ghost before = on_lines(m0.events, all.take(k as int));
            if !self.assembler.is_done() {
                let ev = self.assembler.accept_line(lines[k].as_slice());
                match ev {
                    Some(p) => {
                        let ghost pv = p@;
                        let ghost prev = self.emitted@ + self.pending@;
                        let o = decode_payload(p);
                        self.pending.push_back(o);
                        proof {
                            assert(self.emitted@ + self.pending@ =~= prev.push(o));
                            assert(m0.payloads + before.1.push(pv) =~= (m0.payloads
                                + before.1).push(pv));
                        }
                    },
                    None => {},
                }
            }
            k = k + 1;
        }
        proof {
            assert(all.take(lines@.len() as int) =~= all);
            assert(m0.payloads + on_lines(m0.events, all).1 == feed(m0, fragment@).payloads);
            let r = self.received@.push(fragment@);
            assert(r.drop_last() =~= self.received@);
            self.received = Ghost(r);
        }
        if self.assembler.is_done() {
            self.release();
        }
    }

    /// Hands out the next outcome. With none buffered it reads one fragment
    /// from the transport (never after the transport was released) and
    /// decodes the events that it completes.
    pub fn poll(&mut self) -> (r: Poll)
        requires
            old(self).wf(),
        ensures
            final(self).wf(),
            final(self).emitted_ok(),
            final(self).closes() == (if final(self).is_released() {
                1nat
            } else {
                0nat
            }),
            old(self).received().is_prefix_of(final(self).received()),
            final(self).received().len() <= old(self).received().len() + 1,
            final(self).reads() <= old(self).reads() + 1,
            old(self).is_released() ==> final(self).reads() == old(self).reads()
                && final(self).received() == old(self).received(),
            old(self).is_released() ==> final(self).is_released(),
            final(self).is_cancelled() == old(self).is_cancelled(),
            old(self).is_cancelled() ==> r is Finished,
            !old(self).is_cancelled() && old(self).emitted().len() < old(self).model().payloads.len()
                ==> r is Ready && final(self).reads() == old(self).reads(),
            !old(self).is_cancelled() && !old(self).is_released() && old(self).emitted().len()
                == old(self).model().payloads.len() ==> final(self).reads() == old(self).reads()
                + 1,
            match r {
                Poll::Ready(StreamItem::Outcome(o)) => final(self).emitted() == old(
                    self,
                ).emitted().push(o),
                Poll::Ready(StreamItem::TransportFault(_)) => {
                    &&& final(self).emitted() == old(self).emitted()
                    &&& final(self).is_released() && !old(self).is_released()
                    &&& final(self).emitted().len() == final(self).model().payloads.len()
                },
                Poll::Pending => {
                    &&& final(self).emitted() == old(self).emitted()
                    &&& !final(self).is_released()
                    &&& final(self).received().len() == old(self).received().len() + 1
                    &&& final(self).model().payloads.len() == old(self).emitted().len()
                },
                Poll::Finished => {
                    &&& final(self).emitted() == old(self).emitted()
                    &&& final(self).is_released()
                    &&& !final(self).is_cancelled() ==> final(self).emitted().len()
                        == final(self).model().payloads.len()
                },
            },
    {
        if self.cancelled {
            return Poll::Finished;
        }
        let r: Poll;
        if self.pending.len() == 0 && !self.closed {
            self.reads = Ghost(self.reads@ + 1);
            match self.source.next_fragment() {
                SourceEvent::Fragment(f) => {
                    self.take_fragment(f);
                    r = self.next_buffered();
                },
                SourceEvent::End => {
                    assert(self.emitted@ + self.pending@ =~= self.emitted@);
                    self.release();
                    r = Poll::Finished;
                },
                SourceEvent::Fault(msg) => {
                    assert(self.emitted@ + self.pending@ =~= self.emitted@);
                    self.release();
                    r = Poll::Ready(StreamItem::TransportFault(msg));
                },
            }
        } else {
            r = self.next_buffered();
        }
        proof {
            self.lemma_emitted_ok();
        }
        r
    }

    proof fn lemma_emitted_ok(&self)
        requires
            all_decode(self.model().payloads, self.emitted@ + self.pending@),
        ensures
            self.emitted_ok(),
    {
        let all = self.emitted@ + self.pending@;
        assert forall|i: int| 0 <= i < self.emitted().len() implies decodes_to(
            #[trigger] self.model().payloads[i],
            self.emitted()[i],
        ) by {
            assert(all[i] == self.emitted@[i]);
        }
    }

    /// Hands out the first buffered outcome; with none, says whether the
    /// stream is over.
    fn next_buffered(&mut self) -> (r: Poll)
        requires
            old(self).wf(),
            !old(self).cancelled,
        ensures
            final(self).wf(),
            !final(self).cancelled,
            old(self).pending@.len() > 0 ==> r is Ready,
            final(self).received@ == old(self).received@,
            final(self).reads@ == old(self).reads@,
            final(self).closed == old(self).closed,
            final(self).closes@ == old(self).closes@,
            match r {
                Poll::Ready(StreamItem::Outcome(o)) => final(self).emitted@ == old(
                    self,
                ).emitted@.push(o),
                Poll::Ready(StreamItem::TransportFault(_)) => false,
                Poll::Pending => {
                    &&& final(self).emitted@ == old(self).emitted@
                    &&& !final(self).closed
                    &&& old(self).pending@.len() == 0
                    &&& final(self).emitted@.len() == final(self).model().payloads.len()
                },
                Poll::Finished => {
                    &&& final(self).emitted@ == old(self).emitted@
                    &&& final(self).closed
                    &&& final(self).emitted@.len() == final(self).model().payloads.len()
                },
            },
    {
        let ghost q = self.pending@;
        match self.pending.pop_front() {
            Some(o) => {
                let ghost prev = self.emitted@;
                self.emitted = Ghost(prev.push(o));
                proof {
                    assert(self.emitted@ + self.pending@ =~= prev + q);
                    self.lemma_emitted_ok();
                }
                Poll::Ready(StreamItem::Outcome(o))
            },
            None => {
                assert(self.emitted@ + self.pending@ =~= self.emitted@);
                if self.closed {
                    Poll::Finished
                } else {
                    Poll::Pending
                }
            },
        }
    }

    /// Stops consuming: releases the transport unless that was already done,
    /// and drops the buffered outcomes and the event being assembled; later
    /// polls finish at once. The result says whether this call released the
    /// transport, which over the life of the stream happens exactly once.
    pub fn cancel(&mut self) -> (r: bool)
        requires
            old(self).wf(),
        ensures
            final(self).wf(),
            r == !old(self).is_released(),
            final(self).is_released(),
            final(self).is_cancelled(),
            final(self).closes() == 1,
            final(self).reads() == old(self).reads(),
            final(self).received() == old(self).received(),
            final(self).emitted() == old(self).emitted(),
    {
        let released_now = !self.closed;
        if released_now {
            self.release();
        }
        self.pending.clear();
        self.assembler = EventAssembler::new();
        self.cancelled = true;
        released_now
    }

    /// Gives the transport back.
    pub fn into_source(self) -> S {
        self.source
    }
}

} // verus!

//! The wake bookkeeping of one stream. Each operation hands back the
//! waiters that it displaced or released; the caller resolves them (wakes
//! the waker, sends on the finisher) at once. A waiter thus leaves the state
//! only through the result of an operation, never silently.
use vstd::prelude::*;
use vstd::multiset::Multiset;
use vstd::seq_lib::lemma_multiset_commutative;

verus! {

broadcast use {vstd::seq_lib::group_to_multiset_ensures, vstd::multiset::group_multiset_axioms};

/// What the writing half of a stream is waiting on.
#[derive(Debug)]
pub enum WriterStatus<W, F> {
    /// Nobody waits to write to or finish the stream.
    Unblocked,
    /// A writer waits until the stream can take more data.
    Blocked { waker: W },
    /// A task waits for the stream to be finished.
    Finishing { finisher: F },
}

/// A waiter that the caller must resolve now.
#[derive(Debug, PartialEq, Eq)]
pub enum Resolution<W, F> {
    /// Wake this waker.
    Wake(W),
    /// Send the one-shot notification on this finisher.
    Notify(F),
}

/// The mathematical state of a stream: the reader axis and the writer axis.
pub struct StreamView<W, F> {
    pub reader: Option<W>,
    pub writer: WriterStatus<W, F>,
}

/// An operation on one stream.
pub enum StreamEvent<W, F> {
    SetReader(W),
    SetWriter(W),
    SetFinisher(F),
    WakeReader,
    WakeWriter,
    WakeAll,
}

/// The state with nobody waiting.
pub open spec fn idle<W, F>() -> StreamView<W, F> {
    StreamView { reader: None, writer: WriterStatus::Unblocked }
}

/// The waiter held on the reader axis, if any.
pub open spec fn reader_waiters<W, F>(reader: Option<W>) -> Seq<Resolution<W, F>> {
    match reader {
        Some(w) => seq![Resolution::Wake(w)],
        None => seq![],
    }
}

/// The waiter held on the writer axis, if any.
pub open spec fn writer_waiters<W, F>(writer: WriterStatus<W, F>) -> Seq<Resolution<W, F>> {
    match writer {
        WriterStatus::Unblocked => seq![],
        WriterStatus::Blocked { waker } => seq![Resolution::Wake(waker)],
        WriterStatus::Finishing { finisher } => seq![Resolution::Notify(finisher)],
    }
}

/// Every waiter that the state holds.
pub open spec fn pending<W, F>(v: StreamView<W, F>) -> Seq<Resolution<W, F>> {
    reader_waiters(v.reader) + writer_waiters(v.writer)
}

/// The waiter that an event brings in, if any.
pub open spec fn registered<W, F>(e: StreamEvent<W, F>) -> Seq<Resolution<W, F>> {
    match e {
        StreamEvent::SetReader(w) => seq![Resolution::Wake(w)],
        StreamEvent::SetWriter(w) => seq![Resolution::Wake(w)],
        StreamEvent::SetFinisher(f) => seq![Resolution::Notify(f)],
        _ => seq![],
    }
}

/// One transition: the next state, and the waiters to resolve, in order.
pub open spec fn step<W, F>(v: StreamView<W, F>, e: StreamEvent<W, F>) -> (StreamView<W, F>, Seq<Resolution<W, F>>) {
    match e {
        StreamEvent::SetReader(w) => (
            StreamView { reader: Some(w), writer: v.writer },
            reader_waiters(v.reader),
        ),
        StreamEvent::SetWriter(w) => (
            StreamView { reader: v.reader, writer: WriterStatus::Blocked { waker: w } },
            writer_waiters(v.writer),
        ),
        StreamEvent::SetFinisher(f) => (
            StreamView { reader: v.reader, writer: WriterStatus::Finishing { finisher: f } },
            writer_waiters(v.writer),
        ),
        StreamEvent::WakeReader => (
            StreamView { reader: None, writer: v.writer },
            reader_waiters(v.reader),
        ),
        StreamEvent::WakeWriter => (
            StreamView { reader: v.reader, writer: WriterStatus::Unblocked },
            writer_waiters(v.writer),
        ),
        StreamEvent::WakeAll => (idle(), writer_waiters(v.writer) + reader_waiters(v.reader)),
    }
}

/// A run of events from `v`: the final state and every waiter resolved on
/// the way, in order.
pub open spec fn run<W, F>(v: StreamView<W, F>, events: Seq<StreamEvent<W, F>>) -> (StreamView<W, F>, Seq<Resolution<W, F>>)
    decreases events.len(),
{
    if events.len() == 0 {
        (v, seq![])
    } else {
        let (v1, out1) = run(v, events.drop_last());
        let (v2, out2) = step(v1, events.last());
        (v2, out1 + out2)
    }
}

/// Every waiter that a run of events brings in, in order.
pub open spec fn registered_all<W, F>(events: Seq<StreamEvent<W, F>>) -> Seq<Resolution<W, F>>
    decreases events.len(),
{
    if events.len() == 0 {
        seq![]
    } else {
        registered_all(events.drop_last()) + registered(events.last())
    }
}

/// One transition neither loses nor invents a waiter: what was held plus
/// what came in equals what is held plus what was handed out.
pub proof fn lemma_step_conserves<W, F>(v: StreamView<W, F>, e: StreamEvent<W, F>)
    ensures
        pending(v).to_multiset().add(registered(e).to_multiset()) =~= pending(
            step(v, e).0,
        ).to_multiset().add(step(v, e).1.to_multiset()),
{
    let r = reader_waiters::<W, F>(v.reader);
    let w = writer_waiters(v.writer);
    let (v2, out) = step(v, e);
    lemma_multiset_commutative(r, w);
    lemma_multiset_commutative(reader_waiters::<W, F>(v2.reader), writer_waiters(v2.writer));
    lemma_multiset_commutative(w, r);
    assert(Seq::<Resolution<W, F>>::empty().to_multiset() =~= Multiset::empty());
}

/// Over any run of events, every waiter that was held or came in is either
/// still held or was handed out exactly once.
pub proof fn lemma_run_conserves<W, F>(v: StreamView<W, F>, events: Seq<StreamEvent<W, F>>)
    ensures
        pending(v).to_multiset().add(registered_all(events).to_multiset()) =~= pending(
            run(v, events).0,
        ).to_multiset().add(run(v, events).1.to_multiset()),
    decreases events.len(),
{
    if events.len() == 0 {
        assert(Seq::<Resolution<W, F>>::empty().to_multiset() =~= Multiset::empty());
    } else {
        let prefix = events.drop_last();
        let e = events.last();
        lemma_run_conserves(v, prefix);
        let (v1, out1) = run(v, prefix);
        lemma_step_conserves(v1, e);
        let (v2, out2) = step(v1, e);
        lemma_multiset_commutative(registered_all(prefix), registered(e));
        lemma_multiset_commutative(out1, out2);
        assert(registered_all(events) == registered_all(prefix) + registered(e));
        assert(run(v, events) == (v2, out1 + out2));
        let held0 = pending(v).to_multiset();
        let came0 = registered_all(prefix).to_multiset();
        let came1 = registered(e).to_multiset();
        let held1 = pending(v1).to_multiset();
        let gave0 = out1.to_multiset();
        let held2 = pending(v2).to_multiset();
        let gave1 = out2.to_multiset();
        assert(held0.add(came0) =~= held1.add(gave0));
        assert(held1.add(came1) =~= held2.add(gave1));
        assert forall|x| #[trigger] held0.add(came0.add(came1)).count(x) == held2.add(gave0.add(gave1)).count(x) by {
            assert(held0.add(came0).count(x) == held1.add(gave0).count(x));
            assert(held1.add(came1).count(x) == held2.add(gave1).count(x));
        }
        assert(held0.add(came0.add(came1)) =~= held2.add(gave0.add(gave1)));
    }
}

/// No waiter is dropped silently: for any run of events on a fresh stream
/// followed by its teardown (which wakes everything), the waiters handed out
/// are exactly the waiters that were registered, each once, and nothing is
/// left held.
pub proof fn lemma_no_silent_drop<W, F>(events: Seq<StreamEvent<W, F>>)
    ensures
        ({
            let (v, out) = run(idle(), events);
            let (v2, last) = step(v, StreamEvent::WakeAll);
            &&& v2 == idle::<W, F>()
            &&& pending(v2).len() == 0
            &&& (out + last).to_multiset() =~= registered_all(events).to_multiset()
        }),
{
    lemma_run_conserves(idle(), events);
    let (v, out) = run(idle::<W, F>(), events);
    lemma_step_conserves(v, StreamEvent::WakeAll);
    let last = step(v, StreamEvent::WakeAll).1;
    lemma_multiset_commutative(out, last);
    lemma_multiset_commutative(writer_waiters(v.writer), reader_waiters::<W, F>(v.reader));
    let rm = registered_all(events).to_multiset();
    let pm = pending(v).to_multiset();
    let om = out.to_multiset();
    let lm = last.to_multiset();
    let em = Seq::<Resolution<W, F>>::empty().to_multiset();
    assert(pending(step(v, StreamEvent::WakeAll).0) =~= Seq::empty());
    assert(registered::<W, F>(StreamEvent::WakeAll) =~= Seq::empty());
    assert forall|x| #[trigger] om.add(lm).count(x) == rm.count(x) by {
        assert(em.add(rm).count(x) == pm.add(om).count(x));
        assert(pm.add(em).count(x) == em.add(lm).count(x));
    }
    assert(om.add(lm) =~= rm);
    assert(pending(idle::<W, F>()) =~= Seq::empty());
    assert(Seq::<Resolution<W, F>>::empty().to_multiset() =~= Multiset::empty());
}

/// A new reader supersedes the old one: registering `w2` over `w1` hands
/// `w1` out at once, and the next wake of the reader releases `w2` alone.
pub proof fn lemma_reader_supersession<W, F>(v: StreamView<W, F>, w1: W, w2: W)
    ensures
        ({
            let (v1, _) = step(v, StreamEvent::SetReader(w1));
            let (v2, out2) = step(v1, StreamEvent::SetReader(w2));
            let (v3, out3) = step(v2, StreamEvent::WakeReader);
            &&& out2 == seq![Resolution::<W, F>::Wake(w1)]
            &&& out3 == seq![Resolution::<W, F>::Wake(w2)]
            &&& v3.reader is None
        }),
{
}

/// A finisher is notified once: waking the writer after `set_finisher`
/// notifies it, and a second wake with nothing registered does nothing.
pub proof fn lemma_finisher_one_shot<W, F>(v: StreamView<W, F>, f: F)
    ensures
        ({
            let (v1, _) = step(v, StreamEvent::SetFinisher(f));
            let (v2, out2) = step(v1, StreamEvent::WakeWriter);
            let (v3, out3) = step(v2, StreamEvent::WakeWriter);
            &&& out2 == seq![Resolution::<W, F>::Notify(f)]
            &&& out3.len() == 0
            &&& v3 == v2
        }),
{
}

impl<W, F> WriterStatus<W, F> {
    /// Gives up this status, handing out the waiter it held, if any.
    pub fn take(self) -> (r: Vec<Resolution<W, F>>)
        ensures
            r@ == writer_waiters(self),
    {
        let mut out: Vec<Resolution<W, F>> = Vec::new();
        match self {
            WriterStatus::Unblocked => {},
            WriterStatus::Blocked { waker } => out.push(Resolution::Wake(waker)),
            WriterStatus::Finishing { finisher } => out.push(Resolution::Notify(finisher)),
        }
        assert(out@ =~= writer_waiters(self));
        out
    }
}

/// The wake state of one stream: at most one waiter on the reader axis and
/// at most one on the writer axis.
///
/// The state cannot wake anything itself: its holder tears it down with
/// [`StreamState::close`], which hands out every waiter it still holds,
/// rather than dropping it.
pub struct StreamState<W, F> {
    reader: Option<W>,
    writer: WriterStatus<W, F>,
}

impl<W, F> View for StreamState<W, F> {
    type V = StreamView<W, F>;

    closed spec fn view(&self) -> StreamView<W, F> {
        StreamView { reader: self.reader, writer: self.writer }
    }
}

impl<W, F> StreamState<W, F> {
    /// A stream with nobody waiting.
    pub fn new() -> (r: Self)
        ensures
            r@ == idle::<W, F>(),
    {
        StreamState { reader: None, writer: WriterStatus::Unblocked }
    }

    fn take_reader(&mut self) -> (r: Vec<Resolution<W, F>>)
        ensures
            final(self)@ == (StreamView { reader: None, writer: old(self)@.writer }),
            r@ == reader_waiters::<W, F>(old(self)@.reader),
    {
        let mut out: Vec<Resolution<W, F>> = Vec::new();
        if let Some(w) = self.reader.take() {
            out.push(Resolution::Wake(w));
        }
        assert(out@ =~= reader_waiters::<W, F>(old(self)@.reader));
        out
    }

    fn replace_writer(&mut self, next: WriterStatus<W, F>) -> (r: Vec<Resolution<W, F>>)
        ensures
            final(self)@ == (StreamView { reader: old(self)@.reader, writer: next }),
            r@ == writer_waiters(old(self)@.writer),
    {
        let mut prev = next;
        std::mem::swap(&mut prev, &mut self.writer);
        prev.take()
    }

    /// The stream became readable: releases the waiting reader, if any.
    pub fn wake_reader(&mut self) -> (r: Vec<Resolution<W, F>>)
        ensures
            (final(self)@, r@) == step(old(self)@, StreamEvent::WakeReader),
    {
        self.take_reader()
    }

    /// The stream became writable or finished: releases the writer axis.
    pub fn wake_writer(&mut self) -> (r: Vec<Resolution<W, F>>)
        ensures
            (final(self)@, r@) == step(old(self)@, StreamEvent::WakeWriter),
    {
        self.replace_writer(WriterStatus::Unblocked)
    }

    /// Registers `waker` as the reader, handing out the reader it replaces.
    pub fn set_reader(&mut self, waker: W) -> (r: Vec<Resolution<W, F>>)
        ensures
            (final(self)@, r@) == step(old(self)@, StreamEvent::SetReader(waker)),
    {
        let out = self.take_reader();
        self.reader = Some(waker);
        out
    }

    /// Registers `waker` as the writer, handing out whatever the writer axis
    /// held.
    pub fn set_writer(&mut self, waker: W) -> (r: Vec<Resolution<W, F>>)
        ensures
            (final(self)@, r@) == step(old(self)@, StreamEvent::SetWriter(waker)),
    {
        self.replace_writer(WriterStatus::Blocked { waker })
    }

    /// Registers `finisher` to be notified when the stream is finished,
    /// handing out whatever the writer axis held.
    pub fn set_finisher(&mut self, finisher: F) -> (r: Vec<Resolution<W, F>>)
        ensures
            (final(self)@, r@) == step(old(self)@, StreamEvent::SetFinisher(finisher)),
    {
        self.replace_writer(WriterStatus::Finishing { finisher })
    }

    /// Releases both axes: the writer's waiter first, then the reader's.
    pub fn wake_all(&mut self) -> (r: Vec<Resolution<W, F>>)
        ensures
            (final(self)@, r@) == step(old(self)@, StreamEvent::WakeAll),
    {
        let mut out = self.wake_writer();
        let mut rest = self.wake_reader();
        out.append(&mut rest);
        out
    }

    /// Applies one event.
    pub fn apply(&mut self, event: StreamEvent<W, F>) -> (r: Vec<Resolution<W, F>>)
        ensures
            (final(self)@, r@) == step(old(self)@, event),
    {
        match event {
            StreamEvent::SetReader(w) => self.set_reader(w),
            StreamEvent::SetWriter(w) => self.set_writer(w),
            StreamEvent::SetFinisher(f) => self.set_finisher(f),
            StreamEvent::WakeReader => self.wake_reader(),
            StreamEvent::WakeWriter => self.wake_writer(),
            StreamEvent::WakeAll => self.wake_all(),
        }
    }

    /// Tears the stream down, handing out every waiter it still held.
    pub fn close(self) -> (r: Vec<Resolution<W, F>>)
        ensures
            r@ == step(self@, StreamEvent::WakeAll).1,
    {
        let mut s = self;
        s.wake_all()
    }
}

impl<W, F> Default for StreamState<W, F> {
    fn default() -> (r: Self)
        ensures
            r@ == idle::<W, F>(),
    {
        StreamState::new()
    }
}

} // verus!

//! The registry of every live stream of a connection, keyed by the stream
//! identifier that the protocol engine assigned. Entries keep the order in
//! which streams were added.
use vstd::prelude::*;
use crate::stream::{
    idle, lemma_no_silent_drop, registered_all, run, step, Resolution, StreamEvent, StreamState,
    StreamView,
};

verus! {

/// A handle on a stream that was added to a [`Streams`] table.
#[derive(Clone, Copy, Debug, PartialEq, Eq, Structural, Hash, PartialOrd, Ord)]
pub struct StreamId {
    id: u64,
}

impl View for StreamId {
    type V = u64;

    closed spec fn view(&self) -> u64 {
        self.id
    }
}

impl StreamId {
    /// The engine's identifier of the stream.
    pub fn raw(&self) -> (r: u64)
        ensures
            r == self@,
    {
        self.id
    }
}

/// Whether a live stream has identifier `id`.
pub open spec fn has_id<W, F>(s: Seq<(u64, StreamView<W, F>)>, id: u64) -> bool {
    exists|i: int| 0 <= i < s.len() && #[trigger] s[i].0 == id
}

/// No identifier occurs twice.
pub open spec fn unique_keys<W, F>(s: Seq<(u64, StreamView<W, F>)>) -> bool {
    forall|i: int, j: int|
        0 <= i < s.len() && 0 <= j < s.len() && #[trigger] s[i].0 == #[trigger] s[j].0 ==> i == j
}

/// The waiters that tearing down every stream hands out, stream by stream.
pub open spec fn all_released<W, F>(s: Seq<(u64, StreamView<W, F>)>) -> Seq<Resolution<W, F>>
    decreases s.len(),
{
    if s.len() == 0 {
        seq![]
    } else {
        all_released(s.drop_last()) + step(s.last().1, StreamEvent::WakeAll).1
    }
}

/// The state of the stream at position `i` after `event`, the other
/// entries unchanged.
pub open spec fn updated<W, F>(s: Seq<(u64, StreamView<W, F>)>, i: int, event: StreamEvent<W, F>) -> Seq<(u64, StreamView<W, F>)> {
    s.update(i, (s[i].0, step(s[i].1, event).0))
}

/// Removing a stream whose writer waits releases that writer once, and
/// nothing after it: the teardown hands out the writer's waker and then
/// the reader's waiter, if any, and the identifier is no longer live, so
/// later wake events for it reach nobody.
pub proof fn lemma_wake_on_removal<W, F>(s: Seq<(u64, StreamView<W, F>)>, i: int, w: W)
    requires
        unique_keys(s),
        0 <= i < s.len(),
    ensures
        ({
            let t = updated(s, i, StreamEvent::SetWriter(w));
            &&& step(t[i].1, StreamEvent::WakeAll).1 == seq![Resolution::<W, F>::Wake(w)]
                + crate::stream::reader_waiters::<W, F>(s[i].1.reader)
            &&& unique_keys(t.remove(i))
            &&& !has_id(t.remove(i), s[i].0)
        }),
{
    let t = updated(s, i, StreamEvent::SetWriter(w));
    let r = t.remove(i);
    assert forall|a: int| 0 <= a < r.len() implies #[trigger] r[a].0 != s[i].0 by {
        if a < i {
            assert(r[a].0 == s[a].0);
        } else {
            assert(r[a].0 == s[a + 1].0);
        }
    }
    assert forall|a: int, b: int|
        0 <= a < r.len() && 0 <= b < r.len() && #[trigger] r[a].0 == #[trigger] r[b].0 implies a
        == b by {
        let sa = if a < i { a } else { a + 1 };
        let sb = if b < i { b } else { b + 1 };
        assert(r[a].0 == s[sa].0);
        assert(r[b].0 == s[sb].0);
    }
}

/// A run of events on the stream at position `i` of a table, each applied
/// as the table's operations apply it: the table after the run and the
/// waiters handed out, in order.
pub open spec fn table_run<W, F>(s: Seq<(u64, StreamView<W, F>)>, i: int, events: Seq<StreamEvent<W, F>>) -> (Seq<(u64, StreamView<W, F>)>, Seq<Resolution<W, F>>)
    decreases events.len(),
{
    if events.len() == 0 {
        (s, seq![])
    } else {
        let (t, out) = table_run(s, i, events.drop_last());
        (updated(t, i, events.last()), out + step(t[i].1, events.last()).1)
    }
}

proof fn lemma_table_run<W, F>(s: Seq<(u64, StreamView<W, F>)>, i: int, events: Seq<StreamEvent<W, F>>)
    requires
        0 <= i < s.len(),
    ensures
        table_run(s, i, events).0.len() == s.len(),
        table_run(s, i, events).0[i] == (s[i].0, run(s[i].1, events).0),
        table_run(s, i, events).1 == run(s[i].1, events).1,
        forall|j: int| 0 <= j < s.len() ==> #[trigger] table_run(s, i, events).0[j].0 == s[j].0,
    decreases events.len(),
{
    if events.len() > 0 {
        lemma_table_run(s, i, events.drop_last());
    }
}

/// No waiter is dropped silently by the table: on a stream added with
/// nobody waiting, any run of registrations and wakes (each table
/// operation on that stream, `wake_all` included, applies one event to it)
/// followed by its removal hands out exactly the waiters that were
/// registered, each once.
pub proof fn lemma_table_no_silent_drop<W, F>(s: Seq<(u64, StreamView<W, F>)>, i: int, events: Seq<StreamEvent<W, F>>)
    requires
        0 <= i < s.len(),
        s[i].1 == idle::<W, F>(),
    ensures
        ({
            let (t, out) = table_run(s, i, events);
            let removed = step(t[i].1, StreamEvent::WakeAll).1;
            (out + removed).to_multiset() =~= registered_all(events).to_multiset()
        }),
{
    lemma_table_run(s, i, events);
    lemma_no_silent_drop::<W, F>(events);
}

/// The live streams of a connection and their wake state.
///
/// The table wakes nobody itself: before dropping it, its holder calls
/// [`Streams::wake_all`] and resolves what comes back, as streams are torn
/// down with [`Streams::remove`].
pub struct Streams<W, F> {
    entries: Vec<(u64, StreamState<W, F>)>,
}

/// The mathematical view of a list of entries.
pub open spec fn entries_view<W, F>(entries: Seq<(u64, StreamState<W, F>)>) -> Seq<(u64, StreamView<W, F>)> {
    entries.map_values(|e: (u64, StreamState<W, F>)| (e.0, e.1@))
}

impl<W, F> View for Streams<W, F> {
    type V = Seq<(u64, StreamView<W, F>)>;

    closed spec fn view(&self) -> Seq<(u64, StreamView<W, F>)> {
        entries_view(self.entries@)
    }
}

impl<W, F> Streams<W, F> {
    #[verifier::type_invariant]
    spec fn keys_unique(&self) -> bool {
        unique_keys(self@)
    }

    /// An empty table.
    pub fn new() -> (r: Self)
        ensures
            r@ == Seq::<(u64, StreamView<W, F>)>::empty(),
    {
        let r = Streams { entries: Vec::new() };
        assert(r@ =~= Seq::<(u64, StreamView<W, F>)>::empty());
        r
    }

    fn find(&self, id: u64) -> (r: Option<usize>)
        ensures
            match r {
                Some(i) => i < self@.len() && self@[i as int].0 == id,
                None => !has_id(self@, id),
            },
    {
        let mut i: usize = 0;
        while i < self.entries.len()
            invariant
                i <= self.entries@.len(),
                self@.len() == self.entries@.len(),
                forall|j: int| 0 <= j < i ==> #[trigger] self@[j].0 != id,
            decreases self.entries@.len() - i,
        {
            if self.entries[i].0 == id {
                return Some(i);
            }
            i = i + 1;
        }
        None
    }

    /// Whether a live stream has identifier `id`.
    pub fn contains(&self, id: u64) -> (r: bool)
        ensures
            r == has_id(self@, id),
            unique_keys(self@),
    {
        proof {
            use_type_invariant(self);
        }
        self.find(id).is_some()
    }

    /// Adds a stream with nobody waiting on it. Adding an identifier that
    /// is live means the caller's bookkeeping is corrupt.
    pub fn add_stream(&mut self, id: u64) -> (r: StreamId)
        requires
            !has_id(old(self)@, id),
        ensures
            r@ == id,
            final(self)@ == old(self)@.push((id, idle())),
    {
        proof {
            use_type_invariant(&*self);
        }
        let mut entries: Vec<(u64, StreamState<W, F>)> = Vec::new();
        std::mem::swap(&mut entries, &mut self.entries);
        entries.push((id, StreamState::new()));
        assert(entries_view(entries@) =~= old(self)@.push((id, idle())));
        proof {
            assert forall|a: int, b: int|
                0 <= a < entries@.len() && 0 <= b < entries@.len() && #[trigger] entries_view(
                    entries@,
                )[a].0 == #[trigger] entries_view(entries@)[b].0 implies a == b by {
                if a < old(self)@.len() && b == old(self)@.len() {
                    assert(old(self)@[a].0 == id);
                }
                if b < old(self)@.len() && a == old(self)@.len() {
                    assert(old(self)@[b].0 == id);
                }
            }
        }
        self.entries = entries;
        StreamId { id }
    }

    fn update(&mut self, id: u64, event: StreamEvent<W, F>) -> (r: Option<Vec<Resolution<W, F>>>)
        ensures
            !has_id(old(self)@, id) ==> r is None && final(self)@ == old(self)@,
            forall|i: int|
                0 <= i < old(self)@.len() && #[trigger] old(self)@[i].0 == id ==> (r matches Some(out) && out@ == step(old(self)@[i].1, event).1
                    && final(self)@ == updated(old(self)@, i, event)),
    {
        proof {
            use_type_invariant(&*self);
        }
        let i = match self.find(id) {
            Some(i) => i,
            None => return None,
        };
        let mut entries: Vec<(u64, StreamState<W, F>)> = Vec::new();
        std::mem::swap(&mut entries, &mut self.entries);
        let (k, mut state) = entries.remove(i);
        let out = state.apply(event);
        entries.insert(i, (k, state));
        assert(entries_view(entries@) =~= updated(old(self)@, i as int, event));
        self.entries = entries;
        Some(out)
    }

    /// The stream `id` became readable; does nothing when no live stream has
    /// `id`, as the engine may report on a stream already torn down.
    pub fn wake_reader(&mut self, id: u64) -> (r: Vec<Resolution<W, F>>)
        ensures
            !has_id(old(self)@, id) ==> r@.len() == 0 && final(self)@ == old(self)@,
            forall|i: int|
                0 <= i < old(self)@.len() && #[trigger] old(self)@[i].0 == id ==> r@ == step(
                    old(self)@[i].1,
                    StreamEvent::WakeReader,
                ).1 && final(self)@ == updated(old(self)@, i, StreamEvent::WakeReader),
    {
        match self.update(id, StreamEvent::WakeReader) {
            Some(out) => out,
            None => Vec::new(),
        }
    }

    /// The stream `id` became writable or finished; does nothing when no
    /// live stream has `id`.
    pub fn wake_writer(&mut self, id: u64) -> (r: Vec<Resolution<W, F>>)
        ensures
            !has_id(old(self)@, id) ==> r@.len() == 0 && final(self)@ == old(self)@,
            forall|i: int|
                0 <= i < old(self)@.len() && #[trigger] old(self)@[i].0 == id ==> r@ == step(
                    old(self)@[i].1,
                    StreamEvent::WakeWriter,
                ).1 && final(self)@ == updated(old(self)@, i, StreamEvent::WakeWriter),
    {
        match self.update(id, StreamEvent::WakeWriter) {
            Some(out) => out,
            None => Vec::new(),
        }
    }

    /// Registers the reader of stream `id`, handing out the reader it
    /// replaces. `id` must be live.
    pub fn set_reader(&mut self, id: &StreamId, waker: W) -> (r: Vec<Resolution<W, F>>)
        requires
            has_id(old(self)@, id@),
        ensures
            forall|i: int|
                0 <= i < old(self)@.len() && #[trigger] old(self)@[i].0 == id@ ==> (r@ == step(old(self)@[i].1, StreamEvent::SetReader(waker)).1
                    && final(self)@ == updated(old(self)@, i, StreamEvent::SetReader(waker))),
    {
        match self.update(id.raw(), StreamEvent::SetReader(waker)) {
            Some(out) => out,
            None => Vec::new(),
        }
    }

    /// Registers the writer of stream `id`, handing out whatever its writer
    /// axis held. `id` must be live.
    pub fn set_writer(&mut self, id: &StreamId, waker: W) -> (r: Vec<Resolution<W, F>>)
        requires
            has_id(old(self)@, id@),
        ensures
            forall|i: int|
                0 <= i < old(self)@.len() && #[trigger] old(self)@[i].0 == id@ ==> (r@ == step(old(self)@[i].1, StreamEvent::SetWriter(waker)).1
                    && final(self)@ == updated(old(self)@, i, StreamEvent::SetWriter(waker))),
    {
        match self.update(id.raw(), StreamEvent::SetWriter(waker)) {
            Some(out) => out,
            None => Vec::new(),
        }
    }

    /// Registers the finisher of stream `id`, handing out whatever its
    /// writer axis held. `id` must be live.
    pub fn set_finisher(&mut self, id: &StreamId, finisher: F) -> (r: Vec<Resolution<W, F>>)
        requires
            has_id(old(self)@, id@),
        ensures
            forall|i: int|
                0 <= i < old(self)@.len() && #[trigger] old(self)@[i].0 == id@ ==> (r@ == step(old(self)@[i].1, StreamEvent::SetFinisher(finisher)).1
                    && final(self)@ == updated(old(self)@, i, StreamEvent::SetFinisher(finisher))),
    {
        match self.update(id.raw(), StreamEvent::SetFinisher(finisher)) {
            Some(out) => out,
            None => Vec::new(),
        }
    }
    /// Removes stream `id`, handing out every waiter it still held (they
    /// see the stream gone). `id` must be live.
    pub fn remove(&mut self, id: StreamId) -> (r: Vec<Resolution<W, F>>)
        requires
            has_id(old(self)@, id@),
        ensures
            forall|i: int|
                0 <= i < old(self)@.len() && #[trigger] old(self)@[i].0 == id@ ==> (r@ == step(old(self)@[i].1, StreamEvent::WakeAll).1
                    && final(self)@ == old(self)@.remove(i)),
    {
        proof {
            use_type_invariant(&*self);
        }
        let i = match self.find(id.raw()) {
            Some(i) => i,
            None => return Vec::new(),
        };
        let mut entries: Vec<(u64, StreamState<W, F>)> = Vec::new();
        std::mem::swap(&mut entries, &mut self.entries);
        let (_, state) = entries.remove(i);
        assert(entries_view(entries@) =~= old(self)@.remove(i as int));
        self.entries = entries;
        state.close()
    }

    /// Releases every waiter of every stream, stream by stream in table
    /// order; the streams stay, with nobody waiting.
    pub fn wake_all(&mut self) -> (r: Vec<Resolution<W, F>>)
        ensures
            r@ == all_released(old(self)@),
            final(self)@.len() == old(self)@.len(),
            forall|i: int|
                0 <= i < old(self)@.len() ==> #[trigger] final(self)@[i] == (
                    old(self)@[i].0,
                    idle::<W, F>(),
                ),
    {
        proof {
            use_type_invariant(&*self);
        }
        let mut entries: Vec<(u64, StreamState<W, F>)> = Vec::new();
        std::mem::swap(&mut entries, &mut self.entries);
        let mut out: Vec<Resolution<W, F>> = Vec::new();
        let mut i: usize = 0;
        while i < entries.len()
            invariant
                i <= entries@.len(),
                entries@.len() == old(self)@.len(),
                out@ == all_released(old(self)@.subrange(0, i as int)),
                forall|j: int|
                    0 <= j < i ==> #[trigger] entries_view(entries@)[j] == (
                        old(self)@[j].0,
                        idle::<W, F>(),
                    ),
                forall|j: int|
                    i <= j < entries@.len() ==> #[trigger] entries_view(entries@)[j] == old(self)@[j],
            decreases entries@.len() - i,
        {
            let ghost before = entries_view(entries@);
            let ghost ents = entries@;
            assert(before[i as int] == (ents[i as int].0, ents[i as int].1@));
            let (k, mut state) = entries.remove(i);
            assert(k == old(self)@[i as int].0 && state@ == old(self)@[i as int].1);
            let mut released = state.wake_all();
            entries.insert(i, (k, state));
            assert(entries_view(entries@) =~= before.update(i as int, (k, idle::<W, F>())));
            out.append(&mut released);
            let ghost done = old(self)@.subrange(0, i + 1);
            assert(done.drop_last() =~= old(self)@.subrange(0, i as int));
            assert(done.last() == old(self)@[i as int]);
            i = i + 1;
        }
        assert(old(self)@.subrange(0, i as int) =~= old(self)@);
        proof {
            assert forall|a: int, b: int|
                0 <= a < entries@.len() && 0 <= b < entries@.len() && #[trigger] entries_view(
                    entries@,
                )[a].0 == #[trigger] entries_view(entries@)[b].0 implies a == b by {
                assert(entries_view(entries@)[a].0 == old(self)@[a].0);
                assert(entries_view(entries@)[b].0 == old(self)@[b].0);
            }
        }
        self.entries = entries;
        out
    }

    /// The identifiers of the live streams, in table order; each occurs
    /// once.
    pub fn keys(&self) -> (r: Vec<u64>)
        ensures
            r@ == self@.map_values(|e: (u64, StreamView<W, F>)| e.0),
            unique_keys(self@),
            forall|i: int, j: int| 0 <= i < r@.len() && 0 <= j < r@.len() && #[trigger] r@[i] == #[trigger] r@[j] ==> i == j,
    {
        proof {
            use_type_invariant(self);
        }
        let mut r: Vec<u64> = Vec::new();
        let mut i: usize = 0;
        while i < self.entries.len()
            invariant
                i <= self@.len(),
                self@.len() == self.entries@.len(),
                r@ == self@.subrange(0, i as int).map_values(|e: (u64, StreamView<W, F>)| e.0),
            decreases self@.len() - i,
        {
            r.push(self.entries[i].0);
            i = i + 1;
            assert(r@ =~= self@.subrange(0, i as int).map_values(|e: (u64, StreamView<W, F>)| e.0));
        }
        assert(self@.subrange(0, i as int) =~= self@);
        r
    }
}

} // verus!

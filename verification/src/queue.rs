//! The event queue: a bounded ring buffer of fixed-width event slots.
//!
//! A 24-byte header carries `head`, `tail` and `capacity`; the data region
//! holds `capacity` slots of [`EVENT_SLOT_BYTES`] bytes each.  `tail` is the
//! next write position and `head` the oldest retained position, both as
//! wrapping 64-bit counters.  A push into a full queue silently drops the
//! oldest event: bounded memory, most-recent-N semantics, by design.

use crate::codec::{
    get_u64, lemma_concat_sub_left, lemma_concat_sub_right, lemma_sub_sub, put_u64, write_at,
};
use crate::state::{spec_encode_event, Event, EVENT_SLOT_BYTES};
use vstd::bytes::{lemma_auto_spec_u64_to_from_le_bytes, spec_u64_from_le_bytes,
    spec_u64_to_le_bytes};
use vstd::prelude::*;

verus! {

/// Encoded size of an [`EventQueueHeader`].
pub const QUEUE_HEADER_BYTES: usize = 24;

/// Header of the ring buffer: head 0..8, tail 8..16, capacity 16..24.
#[derive(Clone, Copy, Debug)]
pub struct EventQueueHeader {
    pub head: u64,
    pub tail: u64,
    pub capacity: u64,
}

/// Canonical bytes of a queue header.
pub open spec fn spec_encode_header(h: EventQueueHeader) -> Seq<u8> {
    spec_u64_to_le_bytes(h.head) + spec_u64_to_le_bytes(h.tail) + spec_u64_to_le_bytes(h.capacity)
}

/// The header held by 24 bytes; every 24-byte string is valid.
pub open spec fn spec_decode_header(s: Seq<u8>) -> EventQueueHeader {
    EventQueueHeader {
        head: spec_u64_from_le_bytes(s.subrange(0, 8)),
        tail: spec_u64_from_le_bytes(s.subrange(8, 16)),
        capacity: spec_u64_from_le_bytes(s.subrange(16, 24)),
    }
}

impl EventQueueHeader {
    /// Reset to an empty queue of the given capacity.
    pub fn init(&mut self, capacity: u64)
        ensures
            final(self).head == 0,
            final(self).tail == 0,
            final(self).capacity == capacity,
    {
        self.head = 0;
        self.tail = 0;
        self.capacity = capacity;
    }

    /// Append this header's canonical bytes.
    pub fn encode_into(&self, out: &mut Vec<u8>)
        ensures
            final(out)@ == old(out)@ + spec_encode_header(*self),
    {
        put_u64(out, self.head);
        put_u64(out, self.tail);
        put_u64(out, self.capacity);
        assert(out@ =~= old(out)@ + spec_encode_header(*self));
    }

    /// Decode the header stored at `off`.
    pub fn decode_at(data: &[u8], off: usize) -> (h: EventQueueHeader)
        requires
            off + QUEUE_HEADER_BYTES <= data@.len(),
        ensures
            h == spec_decode_header(data@.subrange(off as int, off + QUEUE_HEADER_BYTES)),
    {
        let n: usize = data.len();
        let ghost s = data@.subrange(off as int, off + QUEUE_HEADER_BYTES);
        let h = EventQueueHeader {
            head: get_u64(data, off),
            tail: get_u64(data, off + 8),
            capacity: get_u64(data, off + 16),
        };
        proof {
            assert(s.subrange(0, 8) =~= data@.subrange(off as int, off + 8));
            assert(s.subrange(8, 16) =~= data@.subrange(off + 8, off + 16));
            assert(s.subrange(16, 24) =~= data@.subrange(off + 16, off + 24));
        }
        h
    }
}

/// A queue header's canonical bytes decode back to the same header.
pub proof fn lemma_header_roundtrip(h: EventQueueHeader)
    ensures
        spec_encode_header(h).len() == QUEUE_HEADER_BYTES,
        spec_decode_header(spec_encode_header(h)) == h,
{
    lemma_auto_spec_u64_to_from_le_bytes();
    let s = spec_encode_header(h);
    assert(s.subrange(0, 8) =~= spec_u64_to_le_bytes(h.head));
    assert(s.subrange(8, 16) =~= spec_u64_to_le_bytes(h.tail));
    assert(s.subrange(16, 24) =~= spec_u64_to_le_bytes(h.capacity));
}

/// Head and tail after one push: tail advances by one, wrapping, and if the
/// queue had been full the head advances too, dropping the oldest event.
pub open spec fn spec_push_header(head: u64, tail: u64, capacity: u64) -> (u64, u64) {
    let t2 = vstd::wrapping::u64_specs::wrapping_add(tail, 1);
    let h2 = if vstd::wrapping::u64_specs::wrapping_sub(t2, head) > capacity {
        vstd::wrapping::u64_specs::wrapping_add(head, 1)
    } else {
        head
    };
    (h2, t2)
}

/// The ring window invariant is kept: if the live window `tail - head`
/// (wrapping) was within capacity before a push, it still is after one,
/// since a push into a full queue advances the head too.
pub proof fn lemma_push_keeps_window(head: u64, tail: u64, capacity: u64)
    requires
        vstd::wrapping::u64_specs::wrapping_sub(tail, head) <= capacity,
    ensures
        ({
            let (h2, t2) = spec_push_header(head, tail, capacity);
            vstd::wrapping::u64_specs::wrapping_sub(t2, h2) <= capacity
        }),
{
}

/// The data region after one push: the slot at `tail % capacity` now holds
/// the event's canonical bytes and every other byte stays.
pub open spec fn spec_push_region(region: Seq<u8>, tail: u64, capacity: u64, e: Event) -> Seq<
    u8,
> {
    let off = ((tail % capacity) as int) * (EVENT_SLOT_BYTES as int);
    region.subrange(0, off) + spec_encode_event(e) + region.subrange(
        off + EVENT_SLOT_BYTES,
        region.len() as int,
    )
}

/// Write `event` into the slot at the tail position and advance the
/// counters; a full queue drops its oldest event and no error is possible.
pub fn push_event(header: &mut EventQueueHeader, buf: &mut Vec<u8>, event: &Event)
    requires
        old(header).capacity > 0,
        old(header).capacity * (EVENT_SLOT_BYTES as int) <= old(buf)@.len(),
    ensures
        final(header).capacity == old(header).capacity,
        (final(header).head, final(header).tail) == spec_push_header(
            old(header).head,
            old(header).tail,
            old(header).capacity,
        ),
        final(buf)@ == spec_push_region(
            old(buf)@,
            old(header).tail,
            old(header).capacity,
            *event,
        ),
        final(buf)@.len() == old(buf)@.len(),
{
    let buf_len: usize = buf.len();
    let idx: u64 = header.tail % header.capacity;
    assert(idx < header.capacity);
    assert((idx as int) * (EVENT_SLOT_BYTES as int) + (EVENT_SLOT_BYTES as int) <= old(
        buf,
    )@.len());
    let off: usize = (idx as usize) * EVENT_SLOT_BYTES;
    let mut slot: Vec<u8> = Vec::new();
    event.encode_into(&mut slot);
    write_at(buf, off, slot.as_slice());
    header.tail = header.tail.wrapping_add(1);
    if header.tail.wrapping_sub(header.head) > header.capacity {
        header.head = header.head.wrapping_add(1);
    }
    proof {
        assert(slot@ =~= Seq::<u8>::empty() + spec_encode_event(*event));
        assert(slot@ == spec_encode_event(*event));
        assert(buf@ =~= spec_push_region(
            old(buf)@,
            old(header).tail,
            old(header).capacity,
            *event,
        ));
    }
}

/// The queue state after pushing a whole sequence of events, oldest first.
pub open spec fn spec_push_all(
    head: u64,
    tail: u64,
    capacity: u64,
    region: Seq<u8>,
    evs: Seq<Event>,
) -> (u64, u64, Seq<u8>)
    decreases evs.len(),
{
    if evs.len() == 0 {
        (head, tail, region)
    } else {
        let (h2, t2) = spec_push_header(head, tail, capacity);
        let r2 = spec_push_region(region, tail, capacity, evs[0]);
        spec_push_all(h2, t2, capacity, r2, evs.skip(1))
    }
}

/// Pushing one more event after a sequence is one more push at the end.
pub proof fn lemma_push_all_snoc(
    head: u64,
    tail: u64,
    capacity: u64,
    region: Seq<u8>,
    evs: Seq<Event>,
    e: Event,
)
    ensures
        spec_push_all(head, tail, capacity, region, evs.push(e)) == ({
            let (h2, t2, r2) = spec_push_all(head, tail, capacity, region, evs);
            let (h3, t3) = spec_push_header(h2, t2, capacity);
            (h3, t3, spec_push_region(r2, t2, capacity, e))
        }),
    decreases evs.len(),
{
    let p = evs.push(e);
    assert(p.len() == evs.len() + 1);
    if evs.len() == 0 {
        assert(p[0] == e);
        assert(p.skip(1) =~= Seq::<Event>::empty());
        let (h2, t2) = spec_push_header(head, tail, capacity);
        let r2 = spec_push_region(region, tail, capacity, e);
        assert(spec_push_all(head, tail, capacity, region, p) == spec_push_all(
            h2,
            t2,
            capacity,
            r2,
            p.skip(1),
        ));
        assert(spec_push_all(h2, t2, capacity, r2, p.skip(1)) == (h2, t2, r2));
        assert(spec_push_all(head, tail, capacity, region, evs) == (head, tail, region));
    } else {
        assert(p[0] == evs[0]);
        assert(p.skip(1) =~= evs.skip(1).push(e));
        let (h2, t2) = spec_push_header(head, tail, capacity);
        let r2 = spec_push_region(region, tail, capacity, evs[0]);
        assert(spec_push_all(head, tail, capacity, region, p) == spec_push_all(
            h2,
            t2,
            capacity,
            r2,
            evs.skip(1).push(e),
        ));
        lemma_push_all_snoc(h2, t2, capacity, r2, evs.skip(1), e);
        assert(spec_push_all(head, tail, capacity, region, evs) == spec_push_all(
            h2,
            t2,
            capacity,
            r2,
            evs.skip(1),
        ));
    }
}

/// The queue reached by pushing the `n` events of `all` into an initially
/// empty ring of the given capacity: the counters count every push, and each
/// retained slot holds the event written into it last.
pub open spec fn spec_queue_state(
    n: int,
    capacity: u64,
    head: u64,
    tail: u64,
    region: Seq<u8>,
    all: Seq<Event>,
) -> bool {
    &&& tail == n
    &&& head == if n <= capacity {
        0int
    } else {
        n - capacity
    }
    &&& region.len() == capacity * (EVENT_SLOT_BYTES as int)
    &&& forall|j: int|
        head <= j < n ==> #[trigger] region.subrange(
            ((j % (capacity as int)) * (EVENT_SLOT_BYTES as int)),
            ((j % (capacity as int)) * (EVENT_SLOT_BYTES as int)) + EVENT_SLOT_BYTES,
        ) == spec_encode_event(all[j])
}

/// One push preserves the reached-queue description.
proof fn lemma_push_preserves_state(
    n: int,
    capacity: u64,
    head: u64,
    tail: u64,
    region: Seq<u8>,
    all: Seq<Event>,
    e: Event,
)
    requires
        capacity > 0,
        0 <= n,
        n + 1 <= u64::MAX,
        all.len() == n,
        spec_queue_state(n, capacity, head, tail, region, all),
    ensures
        ({
            let (h2, t2) = spec_push_header(head, tail, capacity);
            let r2 = spec_push_region(region, tail, capacity, e);
            spec_queue_state(n + 1, capacity, h2, t2, r2, all.push(e))
        }),
{
    let cap = capacity as int;
    let w = EVENT_SLOT_BYTES as int;
    let (h2, t2) = spec_push_header(head, tail, capacity);
    let r2 = spec_push_region(region, tail, capacity, e);
    let all2 = all.push(e);
    vstd::arithmetic::div_mod::lemma_mod_bound(n, cap);
    let nm = n % cap;
    let off = nm * w;
    assert(off >= 0 && off + w <= region.len()) by (nonlinear_arith)
        requires
            0 <= nm < cap,
            w == 81,
            off == nm * w,
            region.len() == cap * w,
    ;
    crate::state::lemma_event_slot_uniform(e);
    assert(t2 == n + 1);
    assert(tail as int % cap == nm);
    // The new slot holds the new event.
    lemma_concat_sub_right(region.subrange(0, off), spec_encode_event(e), off, off + w);
    lemma_concat_sub_left(
        region.subrange(0, off) + spec_encode_event(e),
        region.subrange(off + w, region.len() as int),
        off,
        off + w,
    );
    assert(spec_encode_event(e).subrange(0, w) =~= spec_encode_event(e));
    assert(r2.subrange(off, off + w) == spec_encode_event(e));
    // Every other retained slot is untouched.
    assert forall|j: int| h2 as int <= j < n implies #[trigger] r2.subrange(
        (j % cap) * w,
        (j % cap) * w + w,
    ) == spec_encode_event(all2[j]) by {
        vstd::arithmetic::div_mod::lemma_mod_bound(j, cap);
        let jm = j % cap;
        assert(jm != nm) by (nonlinear_arith)
            requires
                0 < cap,
                0 <= j < n,
                n - j < cap,
                jm == j % cap,
                nm == n % cap,
        ;
        let joff = jm * w;
        assert(joff >= 0 && joff + w <= region.len() && (joff + w <= off || joff >= off + w))
            by (nonlinear_arith)
            requires
                0 <= jm < cap,
                0 <= nm < cap,
                jm != nm,
                w == 81,
                off == nm * w,
                joff == jm * w,
                region.len() == cap * w,
        ;
        if joff + w <= off {
            lemma_concat_sub_left(
                region.subrange(0, off) + spec_encode_event(e),
                region.subrange(off + w, region.len() as int),
                joff,
                joff + w,
            );
            lemma_concat_sub_left(region.subrange(0, off), spec_encode_event(e), joff, joff + w);
            lemma_sub_sub(region, 0, off, joff, joff + w);
        } else {
            lemma_concat_sub_right(
                region.subrange(0, off) + spec_encode_event(e),
                region.subrange(off + w, region.len() as int),
                joff,
                joff + w,
            );
            lemma_sub_sub(region, off + w, region.len() as int, joff - off - w, joff - off);
        }
        assert(r2.subrange(joff, joff + w) == region.subrange(joff, joff + w));
        assert(all2[j] == all[j]);
    }
}

/// Pushing a sequence of events preserves the reached-queue description.
proof fn lemma_push_all_state(
    n: int,
    capacity: u64,
    head: u64,
    tail: u64,
    region: Seq<u8>,
    all: Seq<Event>,
    evs: Seq<Event>,
)
    requires
        capacity > 0,
        0 <= n,
        n + evs.len() <= u64::MAX,
        all.len() == n,
        spec_queue_state(n, capacity, head, tail, region, all),
    ensures
        ({
            let (h2, t2, r2) = spec_push_all(head, tail, capacity, region, evs);
            spec_queue_state(n + evs.len(), capacity, h2, t2, r2, all + evs)
        }),
    decreases evs.len(),
{
    if evs.len() == 0 {
        assert(all + evs =~= all);
    } else {
        lemma_push_preserves_state(n, capacity, head, tail, region, all, evs[0]);
        let (h2, t2) = spec_push_header(head, tail, capacity);
        let r2 = spec_push_region(region, tail, capacity, evs[0]);
        lemma_push_all_state(n + 1, capacity, h2, t2, r2, all.push(evs[0]), evs.skip(1));
        assert(all.push(evs[0]) + evs.skip(1) =~= all + evs);
    }
}

/// The overwrite policy of a full queue: pushing more events than the
/// capacity of an initially empty queue retains exactly the most recent
/// `capacity` events, drops the oldest ones, and leaves the counters
/// `capacity` apart.
pub proof fn lemma_queue_overwrite(capacity: u64, region: Seq<u8>, evs: Seq<Event>)
    requires
        capacity > 0,
        region.len() == capacity * (EVENT_SLOT_BYTES as int),
        evs.len() > capacity,
        evs.len() <= u64::MAX,
    ensures
        ({
            let (h, t, r) = spec_push_all(0, 0, capacity, region, evs);
            &&& t == evs.len()
            &&& h == evs.len() - capacity
            &&& t - h == capacity
            &&& forall|j: int|
                0 <= j < capacity ==> #[trigger] r.subrange(
                    (((h + j) % (capacity as int)) * (EVENT_SLOT_BYTES as int)),
                    (((h + j) % (capacity as int)) * (EVENT_SLOT_BYTES as int))
                        + EVENT_SLOT_BYTES,
                ) == spec_encode_event(evs[h + j])
        }),
{
    assert(spec_queue_state(0, capacity, 0, 0, region, Seq::<Event>::empty()));
    lemma_push_all_state(0, capacity, 0, 0, region, Seq::<Event>::empty(), evs);
    assert(Seq::<Event>::empty() + evs =~= evs);
    let (h, t, r) = spec_push_all(0, 0, capacity, region, evs);
    assert forall|j: int| 0 <= j < capacity implies #[trigger] r.subrange(
        (((h + j) % (capacity as int)) * (EVENT_SLOT_BYTES as int)),
        (((h + j) % (capacity as int)) * (EVENT_SLOT_BYTES as int)) + EVENT_SLOT_BYTES,
    ) == spec_encode_event(evs[h + j]) by {
        assert(h as int <= h + j < evs.len());
    }
}

} // verus!

//! The ring buffer between the realtime audio producer and the encoder.
//!
//! The producer never waits for room: on overrun it laps the read index, and the
//! consumer notices by the backlog exceeding the capacity. The two ends share the ring under a
//! lock that each holds only while it copies; where the consumer stands is its own.

use std::sync::Arc;

use vstd::arithmetic::div_mod::*;
use vstd::arithmetic::mul::*;
use vstd::arithmetic::power::*;
use vstd::arithmetic::power2::*;
use vstd::bits::*;
use vstd::prelude::*;
use vstd::rwlock::RwLock;
use vstd::rwlock::RwLockPredicate;

use crate::ring_protocol::ReadAttempt;
use crate::ring_protocol::RingMemory;

verus! {

/// The number of values of a frame index, which counts modulo this.
pub open spec fn index_modulus() -> int {
    usize::MAX as int + 1
}

/// The signed 16-bit sample whose little-endian bytes are `lo` and `hi`.
pub open spec fn s16le(lo: u8, hi: u8) -> i16 {
    let unsigned = lo as int + 256 * (hi as int);
    if unsigned < 0x8000 {
        unsigned as i16
    } else {
        (unsigned - 0x10000) as i16
    }
}

/// The samples that a little-endian PCM byte string holds.
pub open spec fn pcm_samples(bytes: Seq<u8>) -> Seq<i16> {
    Seq::new(bytes.len() / 2, |i: int| s16le(bytes[2 * i], bytes[2 * i + 1]))
}

/// What a ring buffer holds.
pub struct RingView {
    /// Frames that the buffer has room for.
    pub capacity: nat,
    /// Samples in a frame.
    pub channels: nat,
    /// The newest `capacity` frames, oldest first; zeros where nothing was written yet.
    pub recent: Seq<i16>,
    /// Frames written and neither read nor skipped, modulo `index_modulus()`; more
    /// than `capacity` when the producer has lapped the consumer.
    pub lag: nat,
    /// Whether the producer side has given up.
    pub closed: bool,
}

impl RingView {
    /// The shape of every ring buffer.
    pub open spec fn valid(self) -> bool {
        &&& is_pow2(self.capacity as int)
        &&& is_pow2(self.channels as int)
        &&& self.recent.len() == self.capacity * self.channels
        &&& 2 * self.recent.len() <= isize::MAX
        &&& self.lag < index_modulus()
    }

    /// How many whole frames of a chunk of `len` bytes are stored: at most the capacity.
    pub open spec fn frames_kept(self, len: nat) -> nat {
        let offered = len / (2 * self.channels);
        if offered > self.capacity {
            self.capacity
        } else {
            offered
        }
    }

    /// The samples of a chunk that are stored: its newest whole frames.
    pub open spec fn samples_kept(self, bytes: Seq<u8>) -> Seq<i16> {
        let frame_bytes = 2 * self.channels;
        let end = (bytes.len() / frame_bytes) * frame_bytes;
        let start = end - self.frames_kept(bytes.len()) * frame_bytes;
        pcm_samples(bytes.subrange(start as int, end as int))
    }

    /// The ring after a chunk of PCM bytes was written.
    pub open spec fn write(self, bytes: Seq<u8>) -> RingView {
        let samples = self.samples_kept(bytes);
        RingView {
            recent: (self.recent + samples).skip(samples.len() as int),
            lag: ((self.lag + self.frames_kept(bytes.len())) as int % index_modulus()) as nat,
            ..self
        }
    }

    /// Whether a request for `len` samples is served: it asks for at least one frame,
    /// no more than there are, and the producer has not lapped the consumer.
    pub open spec fn serves(self, len: nat) -> bool {
        0 < len / self.channels <= self.lag <= self.capacity
    }

    /// Whether a request for `len` samples finds enough frames written.
    pub open spec fn has_frames(self, len: nat) -> bool {
        0 < len / self.channels <= self.lag
    }

    /// The `len` samples from the read position on, as the slots hold them.
    pub open spec fn peek(self, len: nat) -> Seq<i16> {
        Seq::new(
            len,
            |i: int| self.recent[(i - self.lag * self.channels) % self.recent.len() as int],
        )
    }

    /// The frames that are still unread, oldest first, when the consumer was not lapped.
    pub open spec fn unread(self) -> Seq<i16> {
        self.recent.skip(self.recent.len() - self.lag * self.channels)
    }

    /// The ring after `frames` unread frames, or all of them, were passed over.
    pub open spec fn skip(self, frames: nat) -> RingView {
        RingView {
            lag: if frames < self.lag {
                (self.lag - frames) as nat
            } else {
                0
            },
            ..self
        }
    }
}

/// Sample storage with the indices of one producer and one consumer.
pub struct AudioRing {
    buf: Vec<i16>,
    capacity: usize,
    channels: usize,
    sample_mask: usize,
    /// Published before the producer touches any slot; `write` alone would hide a
    /// batch in flight over the region that the consumer is copying.
    reserved: usize,
    write: usize,
    read: usize,
    closed: bool,
    /// The producer's steps so far, in indices that never wrap.
    memory: Ghost<RingMemory>,
    /// Frames read or skipped so far, which is `read` as an index that never wraps.
    position: Ghost<nat>,
}

/// The slots in stream order, from the slot of stream position `from` on.
spec fn in_order(slots: Seq<i16>, from: int) -> Seq<i16> {
    Seq::new(slots.len(), |i: int| slots[(from + i) % slots.len() as int])
}

/// Storing at a stream position changes that position alone.
proof fn lemma_in_order_update(slots: Seq<i16>, from: int, i: int, sample: i16)
    requires
        0 <= i < slots.len(),
    ensures
        in_order(slots.update((from + i) % slots.len() as int, sample), from) == in_order(
            slots,
            from,
        ).update(i, sample),
{
    let size = slots.len() as int;
    let next = slots.update((from + i) % size, sample);
    assert forall|k: int| 0 <= k < size implies in_order(next, from)[k] == in_order(
        slots,
        from,
    ).update(i, sample)[k] by {
        lemma_mod_bound(from + k, size);
        lemma_mod_bound(from + i, size);
        if (from + k) % size == (from + i) % size {
            lemma_slots_differ(from, k, i, size);
        }
    }
    assert(in_order(next, from) =~= in_order(slots, from).update(i, sample));
}

/// Starting `n` positions later moves the first `n` samples to the end.
proof fn lemma_in_order_rotate(slots: Seq<i16>, from: int, n: int)
    requires
        0 <= n <= slots.len(),
        slots.len() > 0,
    ensures
        in_order(slots, from + n) == in_order(slots, from).skip(n) + in_order(slots, from).take(n),
{
    let size = slots.len() as int;
    let right = in_order(slots, from).skip(n) + in_order(slots, from).take(n);
    assert forall|i: int| 0 <= i < size implies in_order(slots, from + n)[i] == right[i] by {
        if i + n >= size {
            lemma_mod_add_multiples_vanish(from + (i + n - size), size);
        }
    }
    assert(in_order(slots, from + n) =~= right);
}

impl View for AudioRing {
    type V = RingView;

    closed spec fn view(&self) -> RingView {
        RingView {
            capacity: self.capacity as nat,
            channels: self.channels as nat,
            recent: in_order(self.buf@, self.write * self.channels),
            lag: ((self.write - self.read) % index_modulus()) as nat,
            closed: self.closed,
        }
    }
}

/// Indexing by the low bits of a wrapped position is indexing modulo the buffer's size.
proof fn lemma_slot(index: usize, channels: usize, i: usize, size: usize)
    requires
        is_pow2(size as int),
    ensures
        index.wrapping_mul(channels).wrapping_add(i) & ((size - 1) as usize) == (index * channels + i)
            % size as int,
{
    let n = lemma_exponent(size as int);
    lemma_size_divides_modulus(size as int);
    lemma_exponent_bound(n, size);
    let m = index_modulus();
    let base = index.wrapping_mul(channels);
    let pos = base.wrapping_add(i);
    let k = m / size as int;
    assert(m == size * k) by {
        lemma_fundamental_div_mod(m, size as int);
    }
    assert(base as int == (index * channels) % m);
    assert(pos as int == (base + i) % m) by {
        if base + i < m {
            lemma_small_mod((base + i) as nat, m as nat);
        } else {
            lemma_fundamental_div_mod_converse(base + i, m, 1, base + i - m);
        }
    }
    assert(pos as int == (index * channels + i) % m) by {
        lemma_add_mod_noop((index * channels) as int, i as int, m);
        lemma_small_mod(i as nat, m as nat);
    }
    assert(k > 0) by (nonlinear_arith)
        requires
            m == size * k,
            m > 0,
            size > 0,
    ;
    lemma_mod_mod(index * channels + i, size as int, k);
    assert(pos & (low_bits_mask(n) as usize) == pos % (pow2(n) as usize)) by {
        lemma_usize_low_bits_mask_is_mod(pos, n);
    }
    assert(low_bits_mask(n) == size - 1);
}

/// The exponent of a power of two.
proof fn lemma_exponent(size: int) -> (n: nat)
    requires
        is_pow2(size),
    ensures
        pow2(n) == size,
{
    is_pow2_equiv(size);
    let n = choose|n: nat| pow(2, n) == size;
    lemma_pow2(n);
    n
}

proof fn lemma_exponent_bound(n: nat, size: usize)
    requires
        pow2(n) == size,
    ensures
        n < usize::BITS,
{
    lemma2_to64();
    lemma2_to64_rest();
    let bits = usize::BITS as nat;
    assert(index_modulus() == pow2(bits));
    if n > bits {
        lemma_pow2_strictly_increases(bits, n);
    }
}

proof fn lemma_size_divides_modulus(size: int)
    requires
        is_pow2(size),
        size <= usize::MAX,
    ensures
        index_modulus() % size == 0,
        size > 0,
{
    let n = lemma_exponent(size);
    lemma_pow2_pos(n);
    lemma_exponent_bound(n, size as usize);
    lemma2_to64();
    lemma2_to64_rest();
    let bits = usize::BITS as nat;
    assert(index_modulus() == pow2(bits));
    lemma_pow2_adds(n, (bits - n) as nat);
    lemma_mod_multiples_basic(pow2((bits - n) as nat) as int, size);
    assert(index_modulus() == pow2((bits - n) as nat) * size) by (nonlinear_arith)
        requires
            index_modulus() == pow2(bits),
            pow2(n) * pow2((bits - n) as nat) == pow2(bits),
            pow2(n) == size,
    ;
}

proof fn lemma_pow2_product(a: int, b: int)
    requires
        is_pow2(a),
        is_pow2(b),
    ensures
        is_pow2(a * b),
        a > 0,
        b > 0,
        a * b > 0,
{
    let m = lemma_exponent(a);
    let n = lemma_exponent(b);
    lemma_pow2_adds(m, n);
    lemma_pow2_pos(m);
    lemma_pow2_pos(n);
    lemma_pow2_pos(m + n);
    lemma_pow2(m + n);
    is_pow2_equiv(a * b);
    assert(pow(2, m + n) == a * b);
}

/// Frame indices that agree modulo the index range name the same slots.
proof fn lemma_congruent(a: int, b: int, channels: int, i: int, size: int)
    requires
        size > 0,
        index_modulus() % size == 0,
        a % index_modulus() == b % index_modulus(),
    ensures
        (a * channels + i) % size == (b * channels + i) % size,
{
    let m = index_modulus();
    let q = a / m - b / m;
    let k = m / size;
    lemma_fundamental_div_mod(a, m);
    lemma_fundamental_div_mod(b, m);
    lemma_fundamental_div_mod(m, size);
    lemma_mul_is_distributive_sub(m, a / m, b / m);
    assert(a - b == m * q);
    lemma_mul_is_associative(size, k, q);
    lemma_mul_is_associative(size, k * q, channels);
    lemma_mul_is_distributive_sub_other_way(channels, a, b);
    assert(a * channels + i == size * (k * q * channels) + (b * channels + i));
    lemma_mod_multiples_vanish(k * q * channels, b * channels + i, size);
}

/// Positions that differ by less than the buffer's size lie in different slots.
proof fn lemma_slots_differ(x: int, a: int, b: int, size: int)
    requires
        0 <= a < size,
        0 <= b < size,
        (x + a) % size == (x + b) % size,
    ensures
        a == b,
{
    lemma_fundamental_div_mod(x + a, size);
    lemma_fundamental_div_mod(x + b, size);
    let d = (x + a) / size - (x + b) / size;
    assert(a - b == size * d) by (nonlinear_arith)
        requires
            x + a == size * ((x + a) / size) + (x + a) % size,
            x + b == size * ((x + b) / size) + (x + b) % size,
            (x + a) % size == (x + b) % size,
            d == (x + a) / size - (x + b) / size,
    ;
    assert(d == 0) by (nonlinear_arith)
        requires
            a - b == size * d,
            -size < a - b < size,
    ;
}

impl AudioRing {
    /// The producer's steps so far.
    pub closed spec fn memory(&self) -> RingMemory {
        self.memory@
    }

    /// Frames read or skipped so far.
    pub closed spec fn position(&self) -> nat {
        self.position@
    }

    /// Whether the consumer is not ahead of the producer.
    pub open spec fn is_behind(&self) -> bool {
        self.position() <= self.memory().write
    }

    /// Whether the producer is ahead of the consumer by less than the range of an index, so
    /// that the difference of the indices is the backlog.
    pub open spec fn in_range(&self) -> bool {
        self.is_behind() && self.memory().reserved - self.position() < index_modulus()
    }

    /// Whether the next `need` frames are complete.
    pub open spec fn shows_complete(&self, need: nat) -> bool {
        self.position() + need <= self.memory().write
    }

    /// What stands in the slot `i` samples after the position of the consumer.
    pub open spec fn sample_at(&self, i: int) -> i16 {
        self.memory().slots[(self.position() * self.memory().channels + i)
            % self.memory().slots.len() as int]
    }

    /// Whether the producer has announced nothing that reaches the next frame.
    pub open spec fn shows_untouched(&self) -> bool {
        self.memory().reserved - self.position() <= self.memory().capacity
    }

    /// The attempt to read `need` frames now, during a history that stands still.
    pub open spec fn attempt(&self, need: nat) -> ReadAttempt {
        ReadAttempt::at_once(self.position(), need, self.memory().channels)
    }

    /// The history that stands still.
    pub open spec fn moment(&self) -> Seq<RingMemory> {
        seq![self.memory()]
    }

    /// The invariant of the storage and its indices between two steps of the producer.
    spec fn steady(&self) -> bool {
        &&& is_pow2(self.capacity as int)
        &&& is_pow2(self.channels as int)
        &&& self.buf@.len() == self.capacity * self.channels
        &&& 2 * self.buf@.len() <= isize::MAX
        &&& self.sample_mask == self.buf@.len() - 1
        &&& self.memory@.valid()
        &&& self.memory@.capacity == self.capacity
        &&& self.memory@.channels == self.channels
        &&& self.memory@.slots == self.buf@
        &&& self.reserved as int == self.memory@.reserved as int % index_modulus()
        &&& self.write as int == self.memory@.write as int % index_modulus()
        &&& self.read as int == self.position@ as int % index_modulus()
    }

    /// The invariant of the storage and its indices, while no batch is in flight.
    pub closed spec fn wf(&self) -> bool {
        self.steady() && self.memory@.idle()
    }

    proof fn lemma_steady(&self)
        requires
            self.steady(),
        ensures
            self@.valid(),
            is_pow2(self.buf@.len() as int),
            self.buf@.len() > 0,
            self.capacity > 0,
            self.channels > 0,
            2 * self.channels <= usize::MAX,
            index_modulus() % self.buf@.len() as int == 0,
            self@.lag as int == (self.memory@.write - self.position@) % index_modulus(),
            self.is_behind() ==> self@.lag <= self.memory@.write - self.position@,
    {
        lemma_sub_mod_noop(self.memory@.write as int, self.position@ as int, index_modulus());
        if self.is_behind() {
            lemma_mod_decreases(
                (self.memory@.write - self.position@) as nat,
                index_modulus() as nat,
            );
        }
        lemma_pow2_product(self.capacity as int, self.channels as int);
        lemma_size_divides_modulus(self.buf@.len() as int);
        lemma_mod_bound(self.write - self.read, index_modulus());
        assert(self.channels <= self.capacity * self.channels) by (nonlinear_arith)
            requires
                self.capacity > 0,
                self.channels > 0,
        ;
    }

    /// An empty ring of `capacity_frames` frames of `channels` samples.
    pub fn new(capacity_frames: usize, channels: usize) -> (ring: AudioRing)
        requires
            is_pow2(capacity_frames as int),
            is_pow2(channels as int),
            2 * (capacity_frames * channels) <= isize::MAX,
        ensures
            ring.wf(),
            ring@.valid(),
            ring.memory().stream == Seq::<i16>::empty(),
            ring.position() == 0,
            ring.is_behind(),
            ring@ == (RingView {
                capacity: capacity_frames as nat,
                channels: channels as nat,
                recent: Seq::new((capacity_frames * channels) as nat, |i: int| 0i16),
                lag: 0,
                closed: false,
            }),
    {
        proof {
            lemma_pow2_product(capacity_frames as int, channels as int);
        }
        let samples: usize = capacity_frames * channels;
        let ring = AudioRing {
            buf: vec![0i16; samples],
            capacity: capacity_frames,
            channels,
            sample_mask: samples - 1,
            reserved: 0,
            write: 0,
            read: 0,
            closed: false,
            memory: Ghost(
                RingMemory {
                    capacity: capacity_frames as nat,
                    channels: channels as nat,
                    slots: Seq::new(samples as nat, |i: int| 0i16),
                    stream: Seq::empty(),
                    stored: 0,
                    reserved: 0,
                    write: 0,
                },
            ),
            position: Ghost(0),
        };
        proof {
            lemma_small_mod(0, index_modulus() as nat);
            assert(ring.buf@ =~= ring.memory@.slots);
            ring.lemma_steady();
            assert forall|i: int| 0 <= i < ring.buf@.len() implies ring@.recent[i] == 0 by {
                lemma_mod_bound(ring.write * ring.channels + i, ring.buf@.len() as int);
            }
            assert(ring@.recent =~= Seq::new((capacity_frames * channels) as nat, |i: int| 0i16));
        }
        ring
    }

    /// Frames that the buffer has room for.
    pub fn capacity_frames(&self) -> (frames: usize)
        requires
            self.wf(),
        ensures
            frames == self@.capacity,
    {
        self.capacity
    }

    /// Samples in a frame.
    pub fn channels(&self) -> (channels: usize)
        requires
            self.wf(),
        ensures
            channels == self@.channels,
    {
        self.channels
    }

    /// Marks that no more frames will come.
    pub fn close(&mut self)
        requires
            old(self).wf(),
        ensures
            final(self).wf(),
            final(self)@ == (RingView { closed: true, ..old(self)@ }),
            final(self).memory() == old(self).memory(),
            final(self).position() == old(self).position(),
    {
        self.closed = true;
    }

    /// Whether the producer side has given up.
    pub fn is_closed(&self) -> (closed: bool)
        requires
            self.wf(),
        ensures
            closed == self@.closed,
    {
        self.closed
    }

    /// Frames written and neither read nor skipped.
    pub fn available_frames(&self) -> (frames: usize)
        requires
            self.wf(),
        ensures
            frames == self@.lag,
    {
        proof {
            lemma_wrapping_sub(self.write, self.read);
        }
        self.write.wrapping_sub(self.read)
    }

    /// Passes over the oldest unread frames, never past the writer.
    pub fn skip_frames(&mut self, frames: usize)
        requires
            old(self).wf(),
        ensures
            final(self).wf(),
            final(self)@ == old(self)@.skip(frames as nat),
            final(self).memory() == old(self).memory(),
            final(self).position() == old(self).position() + (if frames < old(self)@.lag {
                frames as nat
            } else {
                old(self)@.lag
            }),
            old(self).is_behind() ==> final(self).is_behind(),
    {
        proof {
            self.lemma_steady();
        }
        let r: usize = self.read;
        let max: usize = self.write.wrapping_sub(r);
        let step: usize = if frames < max {
            frames
        } else {
            max
        };
        proof {
            lemma_wrapping_sub(self.write, r);
            lemma_wrapping_sub(self.write, r.wrapping_add(step));
            lemma_wrapping_add(r, step, self.position@ as int);
        }
        self.read = r.wrapping_add(step);
        proof {
            self.position@ = self.position@ + step as nat;
        }
    }

    /// Publishes how far the next batch reaches, before any slot is touched.
    fn reserve(&mut self, frames: usize, Ghost(batch): Ghost<Seq<i16>>)
        requires
            old(self).wf(),
            frames <= old(self).capacity,
            batch.len() == frames * old(self).channels,
        ensures
            final(self).steady(),
            old(self).memory().may_reserve(batch),
            final(self).memory() == old(self).memory().reserve(batch),
            *final(self) == (AudioRing {
                reserved: final(self).reserved,
                memory: final(self).memory,
                ..*old(self)
            }),
    {
        proof {
            self.lemma_steady();
            let m = index_modulus();
            assert(batch.len() % self.channels as nat == 0) by {
                lemma_mod_multiples_basic(frames as int, self.channels as int);
            }
            assert(batch.len() / self.channels as nat == frames) by {
                lemma_div_by_multiple(frames as int, self.channels as int);
            }
            assert(batch.len() <= self.buf@.len()) by (nonlinear_arith)
                requires
                    batch.len() == frames * self.channels,
                    frames <= self.capacity,
                    self.buf@.len() == self.capacity * self.channels,
            ;
            self.memory@.lemma_reserve(batch);
            lemma_wrapping_add(self.write, frames, self.memory@.write as int);
        }
        self.reserved = self.write.wrapping_add(frames);
        proof {
            self.memory@ = self.memory@.reserve(batch);
        }
    }

    /// Puts the `i`-th sample of the batch in flight into its slot.
    fn store(&mut self, i: usize, sample: i16)
        requires
            old(self).steady(),
            old(self).memory().may_store(),
            old(self).memory().stored == old(self).memory().write * old(self).channels + i,
            old(self).memory().stream[old(self).memory().stored as int] == sample,
        ensures
            final(self).steady(),
            final(self).memory() == old(self).memory().store(),
            final(self).buf@ == old(self).buf@.update(
                (old(self).write * old(self).channels + i) % old(self).buf@.len() as int,
                sample,
            ),
            *final(self) == (AudioRing {
                buf: final(self).buf,
                memory: final(self).memory,
                ..*old(self)
            }),
    {
        proof {
            self.lemma_steady();
            let size = self.buf@.len() as int;
            lemma_slot(self.write, self.channels, i, size as usize);
            lemma_mod_bound(self.write * self.channels + i, size);
            lemma_mod_twice(self.memory@.write as int, index_modulus());
            lemma_congruent(
                self.write as int,
                self.memory@.write as int,
                self.channels as int,
                i as int,
                size,
            );
            self.memory@.lemma_store();
        }
        let base: usize = self.write.wrapping_mul(self.channels);
        let slot: usize = base.wrapping_add(i) & self.sample_mask;
        self.buf[slot] = sample;
        proof {
            self.memory@ = self.memory@.store();
        }
    }

    /// Publishes the batch in flight.
    fn publish(&mut self)
        requires
            old(self).steady(),
            old(self).memory().may_publish(),
        ensures
            final(self).wf(),
            final(self).memory() == old(self).memory().publish(),
            *final(self) == (AudioRing {
                write: old(self).reserved,
                memory: final(self).memory,
                ..*old(self)
            }),
    {
        proof {
            self.memory@.lemma_publish();
        }
        self.write = self.reserved;
        proof {
            self.memory@ = self.memory@.publish();
        }
    }
}

/// Reads a little-endian sample.
fn sample_from_le(lo: u8, hi: u8) -> (sample: i16)
    ensures
        sample == s16le(lo, hi),
{
    if hi < 0x80 {
        hi as i16 * 256 + lo as i16
    } else {
        (hi as i16 - 256) * 256 + lo as i16
    }
}

impl AudioRing {
    /// Appends the whole frames of a chunk of little-endian PCM bytes. Of a chunk larger
    /// than the ring only the newest frames are kept; unread frames are overwritten.
    pub fn write_s16le(&mut self, bytes: &[u8])
        requires
            old(self).wf(),
        ensures
            final(self).wf(),
            final(self)@ == old(self)@.write(bytes@),
            final(self).memory().stream == old(self).memory().stream + old(self)@.samples_kept(
                bytes@,
            ),
            final(self).position() == old(self).position(),
            old(self).is_behind() ==> final(self).is_behind(),
    {
        proof {
            self.lemma_steady();
        }
        let ghost before = *self;
        let ghost view = self@;
        let ghost batch = view.samples_kept(bytes@);
        let frame_bytes: usize = self.channels * 2;
        let len: usize = bytes.len();
        let offered: usize = len / frame_bytes;
        let frames: usize = if offered > self.capacity {
            self.capacity
        } else {
            offered
        };
        proof {
            lemma_kept(view, bytes@);
        }
        if frames == 0 {
            proof {
                assert(batch.len() == 0) by (nonlinear_arith)
                    requires
                        batch.len() == frames * view.channels,
                        frames == 0,
                ;
                assert((view.recent + batch).skip(0) =~= view.recent);
                assert(before.memory().stream + batch =~= before.memory().stream);
                lemma_small_mod(view.lag, index_modulus() as nat);
            }
            return ;
        }
        let start: usize = (offered - frames) * frame_bytes;
        let total: usize = frames * self.channels;
        self.reserve(frames, Ghost(batch));
        proof {
            lemma_div_by_multiple(frames as int, self.channels as int);
            assert(batch.take(0) + before@.recent.skip(0) =~= before@.recent);
        }
        let mut i: usize = 0;
        while i < total
            invariant
                i <= total,
                self.steady(),
                total == batch.len(),
                total <= before.buf@.len(),
                self.buf@.len() == before.buf@.len(),
                self.memory().write == before.memory().write,
                self.memory().stream == before.memory().stream + batch,
                self.memory().stored == before.memory().stored + i,
                before.memory().stored == before.memory().stream.len(),
                before.memory().stored == before.memory().write * self.channels,
                start + 2 * total <= bytes@.len(),
                forall|k: int|
                    0 <= k < total ==> batch[k] == #[trigger] s16le(
                        bytes@[start + 2 * k],
                        bytes@[start + 2 * k + 1],
                    ),
                *self == (AudioRing {
                    buf: self.buf,
                    reserved: self.reserved,
                    memory: self.memory,
                    ..before
                }),
                self.memory().reserved == before.memory().reserved + frames,
                len == bytes@.len(),
                in_order(self.buf@, before.write * before.channels) == batch.take(i as int)
                    + before@.recent.skip(i as int),
            decreases total - i,
        {
            let sample: i16 = sample_from_le(bytes[start + 2 * i], bytes[start + 2 * i + 1]);
            let ghost prev = self.buf@;
            self.store(i, sample);
            proof {
                lemma_in_order_update(
                    prev,
                    before.write * before.channels,
                    i as int,
                    sample,
                );
                assert((batch.take(i as int) + before@.recent.skip(i as int)).update(i as int, sample)
                    =~= batch.take(i + 1) + before@.recent.skip(i + 1));
            }
            i = i + 1;
        }
        self.publish();
        proof {
            assert(batch.take(total as int) =~= batch);
            lemma_written(before, *self, batch, frames);
            let m = index_modulus();
            lemma_mod_twice(before.write - before.read, m);
            lemma_add_mod_noop(before.write - before.read, frames as int, m);
            lemma_small_mod(frames as nat, m as nat);
        }
    }
}

impl AudioRing {
    /// Looks whether the next frames are complete.
    fn is_complete(&self, need: usize) -> (complete: bool)
        requires
            self.steady(),
        ensures
            complete == (need <= self@.lag),
            self.in_range() ==> complete == self.shows_complete(need as nat),
    {
        proof {
            self.lemma_steady();
            lemma_wrapping_sub(self.write, self.read);
            if self.in_range() {
                lemma_small_mod(
                    (self.memory@.write - self.position@) as nat,
                    index_modulus() as nat,
                );
            }
        }
        need <= self.write.wrapping_sub(self.read)
    }

    /// Loads the sample `i` samples after the read position.
    fn load(&self, i: usize) -> (sample: i16)
        requires
            self.steady(),
        ensures
            sample == self.sample_at(i as int),
            sample == self.buf@[(self.read * self.channels + i) % self.buf@.len() as int],
    {
        proof {
            self.lemma_steady();
            let size = self.buf@.len() as int;
            lemma_slot(self.read, self.channels, i, size as usize);
            lemma_mod_bound(self.read * self.channels + i, size);
            lemma_mod_twice(self.position@ as int, index_modulus());
            lemma_congruent(
                self.read as int,
                self.position@ as int,
                self.channels as int,
                i as int,
                size,
            );
        }
        let base: usize = self.read.wrapping_mul(self.channels);
        self.buf[base.wrapping_add(i) & self.sample_mask]
    }

    /// Looks whether the producer has announced nothing that reaches the next frame.
    fn is_untouched(&self) -> (untouched: bool)
        requires
            self.steady(),
        ensures
            untouched == ((self.reserved - self.read) % index_modulus() <= self.capacity),
            self.in_range() ==> untouched == self.shows_untouched(),
    {
        proof {
            lemma_wrapping_sub(self.reserved, self.read);
            lemma_sub_mod_noop(
                self.memory@.reserved as int,
                self.position@ as int,
                index_modulus(),
            );
            if self.in_range() {
                lemma_small_mod(
                    (self.memory@.reserved - self.position@) as nat,
                    index_modulus() as nat,
                );
            }
        }
        self.reserved.wrapping_sub(self.read) <= self.capacity
    }

    /// Reads between any two steps of the producer: looks, loads, looks again, and passes over
    /// the frames if the attempt succeeded.
    fn read_between_steps(&mut self, out: &mut [i16]) -> (served: bool)
        requires
            old(self).steady(),
            old(out)@.len() % old(self)@.channels == 0,
        ensures
            final(self).steady(),
            ({
                let need = old(out)@.len() / old(self)@.channels;
                &&& served == (0 < need <= old(self)@.lag && (old(self).reserved - old(self).read)
                    % index_modulus() <= old(self).capacity)
                &&& old(self).in_range() ==> served == (0 < need && old(self).attempt(need).accepted(
                    old(self).moment(),
                ))
                &&& served ==> final(out)@ == old(self).attempt(need).taken(old(self).moment())
                &&& final(out)@ == (if 0 < need <= old(self)@.lag {
                    old(self)@.peek(old(out)@.len())
                } else {
                    old(out)@
                })
                &&& final(self).position() == old(self).position() + (if served {
                    need
                } else {
                    0
                })
                &&& final(self)@ == (if served {
                    old(self)@.skip(need)
                } else {
                    old(self)@
                })
            }),
            *final(self) == (AudioRing {
                read: final(self).read,
                position: final(self).position,
                ..*old(self)
            }),
    {
        proof {
            self.lemma_steady();
        }
        let len: usize = out.len();
        let need: usize = len / self.channels;
        let ghost attempt = self.attempt(need as nat);
        let ghost moment = self.moment();
        proof {
            lemma_whole_frames(len as nat, self.channels as nat);
        }
        if need == 0 {
            return false;
        }
        if !self.is_complete(need) {
            return false;
        }
        let ghost wanted = self@.peek(len as nat);
        let ghost given = out@;
        let mut i: usize = 0;
        while i < len
            invariant
                i <= len,
                len == out@.len(),
                len == wanted.len(),
                len == given.len(),
                len == attempt.loads.len(),
                self.steady(),
                *self == *old(self),
                wanted == self@.peek(len as nat),
                attempt == self.attempt(need as nat),
                moment == self.moment(),
                out@ == wanted.take(i as int) + given.skip(i as int),
                forall|k: int| 0 <= k < i ==> wanted[k] == attempt.taken(moment)[k],
            decreases len - i,
        {
            proof {
                self.lemma_peek(len as nat, i as int);
            }
            out[i] = self.load(i);
            i = i + 1;
            proof {
                assert(out@ =~= wanted.take(i as int) + given.skip(i as int));
            }
        }
        proof {
            assert(out@ =~= wanted);
            assert(wanted =~= attempt.taken(moment));
        }
        if !self.is_untouched() {
            return false;
        }
        let r: usize = self.read;
        proof {
            lemma_wrapping_sub(self.write, r);
            lemma_wrapping_sub(self.write, r.wrapping_add(need));
            lemma_wrapping_add(r, need, self.position@ as int);
        }
        self.read = r.wrapping_add(need);
        proof {
            self.position@ = self.position@ + need as nat;
        }
        true
    }

    /// Fills `out` with the oldest unread frames and passes over them; `false`, with no
    /// frame consumed, if `out` is empty, if fewer frames are unread, or if the producer
    /// has lapped the consumer. In the last case `out` has been overwritten. What is given is
    /// the stream of all samples that were written, from the position of the consumer on.
    pub fn read_frames(&mut self, out: &mut [i16]) -> (served: bool)
        requires
            old(self).wf(),
            old(out)@.len() % old(self)@.channels == 0,
        ensures
            final(self).wf(),
            served == old(self)@.serves(old(out)@.len()),
            final(self)@ == (if served {
                old(self)@.skip(old(out)@.len() / old(self)@.channels)
            } else {
                old(self)@
            }),
            final(out)@ == (if old(self)@.has_frames(old(out)@.len()) {
                old(self)@.peek(old(out)@.len())
            } else {
                old(out)@
            }),
            final(self).memory() == old(self).memory(),
            final(self).position() == old(self).position() + (if served {
                old(out)@.len() / old(self)@.channels
            } else {
                0
            }),
            old(self).is_behind() ==> final(self).is_behind(),
            served && old(self).in_range() ==> old(self).memory().covers(
                old(self).position(),
                old(out)@.len(),
            ) && final(out)@ == old(self).memory().stretch(
                old(self).position(),
                old(out)@.len(),
            ),
    {
        proof {
            self.lemma_steady();
            lemma_whole_frames(out@.len(), self@.channels);
        }
        let served = self.read_between_steps(out);
        proof {
            let need = old(out)@.len() / old(self)@.channels;
            let attempt = old(self).attempt(need);
            let moment = old(self).moment();
            if served && old(self).in_range() {
                crate::ring_protocol::successful_read_is_not_torn(moment, attempt);
            }
        }
        served
    }

    /// The slot `i` samples after the read position is the one that `peek` names.
    proof fn lemma_peek(&self, len: nat, i: int)
        requires
            self.steady(),
            0 <= i < len,
        ensures
            self@.peek(len)[i] == self.buf@[(self.read * self.channels + i) % self.buf@.len() as int],
    {
        self.lemma_steady();
        let size = self.buf@.len() as int;
        let c = self.channels as int;
        let lag = self@.lag as int;
        let x = self.write * c;
        let d = i - lag * c;
        lemma_mod_bound(d, size);
        lemma_add_mod_noop_right(x, d, size);
        let m = index_modulus();
        assert((self.write - lag) % m == self.read as int % m) by {
            lemma_sub_mod_noop_right(self.write as int, self.write - self.read, m);
        }
        lemma_congruent(self.write - lag, self.read as int, c, i, size);
        assert((self.write - lag) * c + i == x + d) by (nonlinear_arith)
            requires
                x == self.write * c,
                d == i - lag * c,
        ;
    }
}

/// A number of samples that makes whole frames is the samples of those frames.
proof fn lemma_whole_frames(samples: nat, channels: nat)
    requires
        channels > 0,
        samples % channels == 0,
    ensures
        (samples / channels) * channels == samples,
{
    lemma_fundamental_div_mod(samples as int, channels as int);
    lemma_mul_is_commutative(samples as int / channels as int, channels as int);
}

/// What is kept of a chunk: whole frames, as many as fit, up to its last whole frame.
proof fn lemma_kept(view: RingView, bytes: Seq<u8>)
    requires
        view.valid(),
        view.channels > 0,
    ensures
        ({
            let offered = bytes.len() as int / (2 * view.channels as int);
            let kept = view.frames_kept(bytes.len()) as int;
            let start = (offered - kept) * (2 * view.channels);
            let samples = view.samples_kept(bytes);
            &&& 0 <= start
            &&& samples.len() == kept * view.channels
            &&& samples.len() <= view.recent.len()
            &&& start + 2 * samples.len() <= bytes.len()
            &&& forall|k: int|
                0 <= k < samples.len() ==> samples[k] == #[trigger] s16le(
                    bytes[start + 2 * k],
                    bytes[start + 2 * k + 1],
                )
        }),
{
    let f = 2 * view.channels as int;
    let offered = bytes.len() as int / f;
    let kept = view.frames_kept(bytes.len()) as int;
    let end = offered * f;
    let start = end - kept * f;
    lemma_fundamental_div_mod(bytes.len() as int, f);
    lemma_div_pos_is_pos(bytes.len() as int, f);
    assert(0 <= start && start == (offered - kept) * f && end <= bytes.len() && end - start == 2 * (kept
        * view.channels) && kept * view.channels <= view.capacity * view.channels) by (nonlinear_arith)
        requires
            f == 2 * view.channels,
            view.channels > 0,
            0 <= kept <= offered,
            kept <= view.capacity,
            bytes.len() == f * offered + bytes.len() as int % f,
            bytes.len() as int % f >= 0,
            end == offered * f,
            start == end - kept * f,
    ;
}

/// What a complete batch leaves in the ring.
proof fn lemma_written(before: AudioRing, after: AudioRing, batch: Seq<i16>, frames: usize)
    requires
        before.steady(),
        after == (AudioRing {
            buf: after.buf,
            write: after.reserved,
            reserved: after.reserved,
            memory: after.memory,
            ..before
        }),
        after.reserved as int == (before.memory@.reserved + frames) % index_modulus(),
        before.memory@.reserved == before.memory@.write,
        after.buf@.len() == before.buf@.len(),
        batch.len() == frames * before.channels,
        batch.len() <= before.buf@.len(),
        in_order(after.buf@, before.write * before.channels) == batch + before@.recent.skip(
            batch.len() as int,
        ),
    ensures
        after@.recent == (before@.recent + batch).skip(batch.len() as int),
        after@.lag as int == (before.write - before.read + frames) % index_modulus(),
{
    before.lemma_steady();
    let size = before.buf@.len() as int;
    let c = before.channels as int;
    let n = batch.len() as int;
    let m = index_modulus();
    let total = before.memory@.write as int;
    assert(after.write as int % m == (before.write + frames) % m) by {
        lemma_mod_twice(total + frames, m);
        lemma_add_mod_noop(total, frames as int, m);
        lemma_add_mod_noop(before.write as int, frames as int, m);
        lemma_mod_twice(total, m);
    }
    assert(after@.lag as int == (before.write - before.read + frames) % m) by {
        lemma_sub_mod_noop(after.write as int, before.read as int, m);
        lemma_sub_mod_noop(before.write + frames, before.read as int, m);
    }
    let from = before.write * c;
    lemma_in_order_rotate(after.buf@, from, n);
    assert forall|i: int| 0 <= i < size implies after@.recent[i] == in_order(after.buf@, from + n)[i] by {
        lemma_congruent(after.write as int, before.write + frames, c, i, size);
        assert((before.write + frames) * c + i == from + n + i) by (nonlinear_arith)
            requires
                n == frames * c,
                from == before.write * c,
        ;
    }
    assert(after@.recent =~= in_order(after.buf@, from + n));
    let ordered = batch + before@.recent.skip(n);
    assert(ordered.skip(n) =~= before@.recent.skip(n));
    assert(ordered.take(n) =~= batch);
    assert(after@.recent =~= (before@.recent + batch).skip(n));
}

proof fn lemma_wrapping_add(a: usize, b: usize, total: int)
    requires
        a as int == total % index_modulus(),
    ensures
        a.wrapping_add(b) as int == (total + b) % index_modulus(),
{
    let m = index_modulus();
    lemma_add_mod_noop(total, b as int, m);
    lemma_small_mod(b as nat, m as nat);
    if a + b < m {
        lemma_small_mod((a + b) as nat, m as nat);
    } else {
        lemma_fundamental_div_mod_converse(a + b, m, 1, a + b - m);
    }
}

proof fn lemma_wrapping_sub(a: usize, b: usize)
    ensures
        a.wrapping_sub(b) as int == (a - b) % index_modulus(),
{
    let m = index_modulus();
    if a >= b {
        lemma_small_mod((a - b) as nat, m as nat);
    } else {
        lemma_fundamental_div_mod_converse(a - b, m, -1, a - b + m);
    }
}

/// A read whose steps the producer's steps come between is not torn. `rings` are the states of
/// one ring, in order. The consumer sees at `start` that its frames are complete, loads the
/// sample `i` at `loads[i]`, and sees at `end` that nothing was announced that reaches them.
/// Then what it loaded is the stream of all samples that were written, from its position on.
pub proof fn interleaved_read_is_not_torn(
    rings: Seq<AudioRing>,
    start: int,
    loads: Seq<int>,
    end: int,
    need: nat,
    out: Seq<i16>,
)
    requires
        crate::ring_protocol::is_history(rings.map_values(|ring: AudioRing| ring.memory())),
        forall|t: int| 0 <= t < rings.len() ==> (#[trigger] rings[t]).position()
            == rings[0].position(),
        0 <= start <= end < rings.len(),
        loads.len() == need * rings[0].memory().channels,
        forall|i: int| 0 <= i < loads.len() ==> start <= #[trigger] loads[i] <= end,
        rings[start].shows_complete(need),
        out.len() == loads.len(),
        forall|i: int| 0 <= i < loads.len() ==> #[trigger] out[i] == rings[loads[i]].sample_at(i),
        rings[end].shows_untouched(),
    ensures
        rings[end].memory().covers(rings[0].position(), out.len()),
        out == rings[end].memory().stretch(rings[0].position(), out.len()),
{
    let trace = rings.map_values(|ring: AudioRing| ring.memory());
    let attempt = ReadAttempt { start, loads, end, read: rings[0].position(), need };
    crate::ring_protocol::lemma_history(trace, 0, end);
    assert(attempt.runs_in(trace));
    assert(attempt.accepted(trace));
    crate::ring_protocol::successful_read_is_not_torn(trace, attempt);
    assert forall|i: int| 0 <= i < loads.len() implies out[i] == attempt.taken(trace)[i] by {
        let t = loads[i];
        crate::ring_protocol::lemma_history(trace, 0, t);
        assert(rings[t].position() == rings[0].position());
        assert(trace[t] == rings[t].memory());
        assert(out[i] == rings[loads[i]].sample_at(i));
    }
    assert(out =~= attempt.taken(trace));
}

impl RingView {
    proof fn lemma_sizes(self)
        requires
            self.valid(),
        ensures
            self.capacity > 0,
            self.channels > 0,
            self.recent.len() > 0,
            self.lag <= self.capacity ==> 0 <= self.lag * self.channels <= self.recent.len(),
    {
        lemma_pow2_product(self.capacity as int, self.channels as int);
        if self.lag <= self.capacity {
            lemma_mul_inequality(self.lag as int, self.capacity as int, self.channels as int);
            lemma_mul_nonnegative(self.lag as int, self.channels as int);
        }
    }

    /// Writing and skipping keep the shape of a ring.
    pub proof fn operations_keep_validity(self, bytes: Seq<u8>, frames: nat)
        requires
            self.valid(),
        ensures
            self.write(bytes).valid(),
            self.skip(frames).valid(),
    {
        self.lemma_sizes();
        lemma_kept(self, bytes);
        lemma_mod_bound(
            (self.lag + self.frames_kept(bytes.len())) as int,
            index_modulus(),
        );
    }

    /// A chunk that fits is appended to the unread frames, after those already there.
    pub proof fn write_appends(self, bytes: Seq<u8>)
        requires
            self.valid(),
            self.lag + self.frames_kept(bytes.len()) <= self.capacity,
        ensures
            self.write(bytes).lag == self.lag + self.frames_kept(bytes.len()),
            self.write(bytes).unread() == self.unread() + self.samples_kept(bytes),
    {
        self.lemma_sizes();
        lemma_kept(self, bytes);
        let kept = self.frames_kept(bytes.len());
        let samples = self.samples_kept(bytes);
        assert(self.capacity <= self.recent.len()) by (nonlinear_arith)
            requires
                self.recent.len() == self.capacity * self.channels,
                self.channels > 0,
        ;
        lemma_small_mod((self.lag + kept) as nat, index_modulus() as nat);
        assert((self.lag + kept) * self.channels == self.lag * self.channels + samples.len()
            && (self.lag + kept) * self.channels <= self.recent.len()) by (nonlinear_arith)
            requires
                samples.len() == kept * self.channels,
                self.lag + kept <= self.capacity,
                self.recent.len() == self.capacity * self.channels,
        ;
        assert(self.write(bytes).unread() =~= self.unread() + samples);
    }

    /// A read that is served gives the oldest unread frames, and leaves the others.
    pub proof fn read_takes_the_oldest(self, len: nat)
        requires
            self.valid(),
            self.serves(len),
            len % self.channels == 0,
        ensures
            self.peek(len) == self.unread().take(len as int),
            self.skip(len / self.channels).lag == self.lag - len / self.channels,
            self.skip(len / self.channels).unread() == self.unread().skip(len as int),
    {
        self.lemma_sizes();
        let size = self.recent.len() as int;
        let c = self.channels as int;
        let need = len as int / c;
        lemma_fundamental_div_mod(len as int, c);
        let behind = self.lag * c;
        assert(0 <= behind <= size && len <= behind && (self.lag - need) * c == behind - len)
            by (nonlinear_arith)
            requires
                behind == self.lag * c,
                self.lag <= self.capacity,
                size == self.capacity * c,
                len == c * need,
                need <= self.lag,
                c > 0,
        ;
        assert forall|i: int| 0 <= i < len implies self.peek(len)[i] == self.unread().take(
            len as int,
        )[i] by {
            lemma_mod_add_multiples_vanish(i - behind, size);
            lemma_small_mod((i - behind + size) as nat, size as nat);
        }
        assert(self.peek(len) =~= self.unread().take(len as int));
        assert(self.skip(len / self.channels).unread() =~= self.unread().skip(len as int));
    }

    /// What was written to a ring with nothing unread is what the next read of the same
    /// size gives.
    pub proof fn read_gives_back_what_was_written(self, bytes: Seq<u8>)
        requires
            self.valid(),
            self.lag == 0,
            self.frames_kept(bytes.len()) > 0,
        ensures
            self.write(bytes).serves(self.samples_kept(bytes).len()),
            self.write(bytes).peek(self.samples_kept(bytes).len()) == self.samples_kept(bytes),
    {
        self.lemma_sizes();
        lemma_kept(self, bytes);
        let kept = self.frames_kept(bytes.len());
        let samples = self.samples_kept(bytes);
        self.write_appends(bytes);
        self.operations_keep_validity(bytes, 0);
        lemma_div_by_multiple(kept as int, self.channels as int);
        lemma_mod_multiples_basic(kept as int, self.channels as int);
        self.write(bytes).read_takes_the_oldest(samples.len());
        assert(self.unread() =~= Seq::<i16>::empty());
        assert(self.write(bytes).unread().take(samples.len() as int) =~= samples);
    }

    /// A read that is served finds all its samples among the unread ones.
    pub proof fn unread_is_enough(self, len: nat)
        requires
            self.valid(),
            self.serves(len),
            len % self.channels == 0,
        ensures
            len <= self.unread().len(),
    {
        self.lemma_sizes();
        let c = self.channels as int;
        lemma_fundamental_div_mod(len as int, c);
        let need = len as int / c;
        let behind = self.lag * c;
        assert(len <= behind <= self.capacity * c) by (nonlinear_arith)
            requires
                behind == self.lag * c,
                len == c * need,
                need <= self.lag <= self.capacity,
                c > 0,
        ;
    }

    /// A ring that the producer has lapped serves no read, and the consumer can see it.
    pub proof fn overrun_is_visible(self, len: nat)
        requires
            self.valid(),
            self.lag > self.capacity,
        ensures
            !self.serves(len),
    {
    }

    /// A lapped consumer that skips to within the capacity finds the newest frames, in
    /// order, up to the last one written.
    pub proof fn skipping_recovers_the_newest(self, keep: nat)
        requires
            self.valid(),
            keep <= self.capacity,
            keep <= self.lag,
        ensures
            self.skip((self.lag - keep) as nat).lag == keep,
            self.skip((self.lag - keep) as nat).unread() == self.recent.skip(
                self.recent.len() - keep * self.channels,
            ),
    {
    }

    /// Skipping never takes the reader past the writer.
    pub proof fn skip_cannot_overtake(self, frames: nat)
        requires
            self.valid(),
        ensures
            self.skip(frames).lag <= self.lag,
            frames >= self.lag ==> self.skip(frames).lag == 0,
    {
    }

    /// A chunk with more frames than the ring holds leaves exactly its newest frames.
    pub proof fn oversized_chunk_keeps_the_newest(self, bytes: Seq<u8>)
        requires
            self.valid(),
            bytes.len() / (2 * self.channels) >= self.capacity,
        ensures
            self.write(bytes).recent == self.samples_kept(bytes),
            self.samples_kept(bytes).len() == self.recent.len(),
    {
        self.lemma_sizes();
        lemma_kept(self, bytes);
        let samples = self.samples_kept(bytes);
        assert((self.recent + samples).skip(samples.len() as int) =~= samples);
    }
}

/// The little-endian bytes of samples, in two's complement.
pub open spec fn pcm_bytes(samples: Seq<i16>) -> Seq<u8> {
    Seq::new(
        2 * samples.len(),
        |i: int|
            {
                let unsigned = samples[i / 2] as int % 0x10000;
                if i % 2 == 0 {
                    (unsigned % 256) as u8
                } else {
                    (unsigned / 256) as u8
                }
            },
    )
}

/// A sample is the two's complement of its bytes: modulo 2^16 it is the low byte and 256 times
/// the high byte.
pub proof fn samples_are_twos_complement(lo: u8, hi: u8)
    ensures
        s16le(lo, hi) as int % 0x10000 == lo + 256 * hi,
{
}

/// The bytes of samples hold exactly these samples.
pub proof fn pcm_bytes_hold_their_samples(samples: Seq<i16>)
    ensures
        pcm_bytes(samples).len() == 2 * samples.len(),
        pcm_samples(pcm_bytes(samples)) == samples,
{
    let bytes = pcm_bytes(samples);
    assert forall|i: int| 0 <= i < samples.len() implies pcm_samples(bytes)[i] == samples[i] by {
        let unsigned = samples[i] as int % 0x10000;
        assert((2 * i) / 2 == i && (2 * i) % 2 == 0);
        assert((2 * i + 1) / 2 == i && (2 * i + 1) % 2 == 1);
        assert(bytes[2 * i] == (unsigned % 256) as u8);
        assert(bytes[2 * i + 1] == (unsigned / 256) as u8);
    }
    assert(pcm_samples(bytes) =~= samples);
}

impl RingView {
    /// Of any chunk the newest whole frames are kept, as many as the ring holds, each sample in
    /// its place; a part of a frame at the end of the chunk counts for nothing.
    pub proof fn chunks_keep_their_newest_whole_frames(self, bytes: Seq<u8>)
        requires
            self.valid(),
        ensures
            ({
                let whole = bytes.len() - bytes.len() % (2 * self.channels);
                let kept = self.samples_kept(bytes);
                let n = kept.len();
                &&& n == (if whole / 2 < self.recent.len() {
                    whole / 2
                } else {
                    self.recent.len() as int
                })
                &&& n == self.frames_kept(bytes.len()) * self.channels
                &&& forall|j: int|
                    0 <= j < n ==> (#[trigger] kept[j]) as int % 0x10000 == bytes[whole - 2 * n + 2
                        * j] + 256 * bytes[whole - 2 * n + 2 * j + 1]
            }),
    {
        self.lemma_sizes();
        lemma_kept(self, bytes);
        let c = self.channels as int;
        let f = 2 * c;
        let offered = bytes.len() as int / f;
        let kept = self.frames_kept(bytes.len()) as int;
        let whole = bytes.len() - bytes.len() as int % f;
        let samples = self.samples_kept(bytes);
        lemma_fundamental_div_mod(bytes.len() as int, f);
        lemma_div_pos_is_pos(bytes.len() as int, f);
        assert(whole == offered * f) by (nonlinear_arith)
            requires
                whole == bytes.len() - bytes.len() as int % f,
                bytes.len() as int == f * offered + bytes.len() as int % f,
        ;
        assert(whole / 2 == offered * c) by (nonlinear_arith)
            requires
                whole == offered * f,
                f == 2 * c,
        ;
        assert((offered - kept) * f == whole - 2 * samples.len()) by (nonlinear_arith)
            requires
                whole == offered * f,
                f == 2 * c,
                samples.len() == kept * c,
        ;
        assert(offered <= self.capacity ==> offered * c <= self.capacity * c) by (nonlinear_arith)
            requires
                c > 0,
        ;
        assert(offered > self.capacity ==> offered * c >= self.capacity * c) by (nonlinear_arith)
            requires
                c > 0,
        ;
        assert forall|j: int| 0 <= j < samples.len() implies (#[trigger] samples[j]) as int
            % 0x10000 == bytes[whole - 2 * samples.len() + 2 * j] + 256 * bytes[whole - 2
            * samples.len() + 2 * j + 1] by {
            let at = (offered - kept) * f + 2 * j;
            samples_are_twos_complement(bytes[at], bytes[at + 1]);
            assert(samples[j] == s16le(bytes[at], bytes[at + 1]));
        }
    }

    /// Frames for which there is room join the unread ones, sample by sample, after those that
    /// are there, and nothing else changes.
    pub proof fn written_samples_join_the_queue(self, samples: Seq<i16>)
        requires
            self.valid(),
            samples.len() % self.channels == 0,
            self.lag * self.channels + samples.len() <= self.recent.len(),
        ensures
            ({
                let after = self.write(pcm_bytes(samples));
                &&& after.unread() == self.unread() + samples
                &&& after.lag == self.lag + samples.len() / self.channels
                &&& after.capacity == self.capacity
                &&& after.channels == self.channels
                &&& after.closed == self.closed
                &&& after.valid()
            }),
    {
        self.lemma_sizes();
        let bytes = pcm_bytes(samples);
        let c = self.channels as int;
        let frames = samples.len() as int / c;
        pcm_bytes_hold_their_samples(samples);
        self.operations_keep_validity(bytes, 0);
        lemma_fundamental_div_mod(samples.len() as int, c);
        lemma_div_pos_is_pos(samples.len() as int, c);
        lemma_kept(self, bytes);
        assert(bytes.len() as int / (2 * c) == frames) by {
            assert(bytes.len() as int == (2 * c) * frames) by (nonlinear_arith)
                requires
                    bytes.len() as int == 2 * samples.len(),
                    samples.len() == c * frames,
            ;
            lemma_div_multiples_vanish(frames, 2 * c);
        }
        assert(self.lag + frames <= self.capacity) by (nonlinear_arith)
            requires
                self.lag * c + samples.len() <= self.recent.len(),
                samples.len() == c * frames,
                self.recent.len() == self.capacity * c,
                c > 0,
        ;
        assert(self.frames_kept(bytes.len()) == frames);
        let kept = self.samples_kept(bytes);
        assert((frames - frames) * (2 * c) == 0) by (nonlinear_arith);
        assert(kept.len() == samples.len()) by (nonlinear_arith)
            requires
                kept.len() == frames * c,
                samples.len() == c * frames,
        ;
        assert forall|k: int| 0 <= k < samples.len() implies kept[k] == samples[k] by {
            assert(kept[k] == s16le(bytes[0 + 2 * k], bytes[0 + 2 * k + 1]));
            assert(pcm_samples(bytes)[k] == samples[k]);
        }
        assert(kept =~= samples);
        self.write_appends(bytes);
    }

    /// A read is served exactly if it asks for frames and all of them are unread; it gives them
    /// in the order in which they were written, and takes no others away.
    pub proof fn reads_follow_the_queue(self, len: nat)
        requires
            self.valid(),
            self.lag <= self.capacity,
            len % self.channels == 0,
        ensures
            self.unread().len() == self.lag * self.channels,
            self.serves(len) <==> 0 < len <= self.unread().len(),
            self.serves(len) ==> self.peek(len) == self.unread().take(len as int),
            self.serves(len) ==> self.skip(len / self.channels).unread() == self.unread().skip(
                len as int,
            ),
    {
        self.lemma_sizes();
        let c = self.channels as int;
        let need = len as int / c;
        lemma_fundamental_div_mod(len as int, c);
        lemma_div_pos_is_pos(len as int, c);
        assert((0 < need <= self.lag) == (0 < len <= self.lag * c)) by (nonlinear_arith)
            requires
                len == c * need,
                c > 0,
                need >= 0,
        ;
        if self.serves(len) {
            self.read_takes_the_oldest(len);
        }
    }

    /// Skipping takes exactly so many of the oldest unread frames away, or all there are.
    pub proof fn skipping_takes_the_oldest(self, frames: nat)
        requires
            self.valid(),
        ensures
            ({
                let after = self.skip(frames);
                &&& after.lag == (if frames < self.lag {
                    self.lag - frames
                } else {
                    0
                })
                &&& after.capacity == self.capacity
                &&& after.channels == self.channels
                &&& after.closed == self.closed
                &&& self.lag <= self.capacity && frames <= self.lag ==> after.unread()
                    == self.unread().skip((frames * self.channels) as int)
                &&& self.lag <= self.capacity && frames >= self.lag ==> after.unread()
                    == Seq::<i16>::empty()
            }),
    {
        self.lemma_sizes();
        let c = self.channels as int;
        if self.lag <= self.capacity {
            if frames <= self.lag {
                assert((self.lag - frames) * c == self.lag * c - frames * c && 0 <= frames * c
                    <= self.lag * c) by (nonlinear_arith)
                    requires
                        frames <= self.lag,
                        c > 0,
                ;
                assert(self.skip(frames).unread() =~= self.unread().skip(frames * c));
            }
            if frames >= self.lag {
                assert(self.skip(frames).unread() =~= Seq::<i16>::empty());
            }
        }
    }

    /// Writing more than there is room for is noticed: no read is served until frames are
    /// skipped.
    pub proof fn overruns_are_noticed(self, samples: Seq<i16>, len: nat)
        requires
            self.valid(),
            samples.len() % self.channels == 0,
            samples.len() <= self.recent.len(),
            self.lag <= self.capacity,
            self.lag * self.channels + samples.len() > self.recent.len(),
        ensures
            self.write(pcm_bytes(samples)).lag == self.lag + samples.len() / self.channels,
            self.write(pcm_bytes(samples)).lag > self.capacity,
            !self.write(pcm_bytes(samples)).serves(len),
    {
        self.lemma_sizes();
        let bytes = pcm_bytes(samples);
        let c = self.channels as int;
        let frames = samples.len() as int / c;
        lemma_fundamental_div_mod(samples.len() as int, c);
        lemma_div_pos_is_pos(samples.len() as int, c);
        assert(bytes.len() as int / (2 * c) == frames) by {
            assert(bytes.len() as int == (2 * c) * frames) by (nonlinear_arith)
                requires
                    bytes.len() as int == 2 * samples.len(),
                    samples.len() == c * frames,
            ;
            lemma_div_multiples_vanish(frames, 2 * c);
        }
        assert(self.lag + frames > self.capacity && frames <= self.capacity && self.capacity
            <= self.recent.len()) by (nonlinear_arith)
            requires
                self.lag * c + samples.len() > self.recent.len(),
                samples.len() <= self.recent.len(),
                samples.len() == c * frames,
                self.recent.len() == self.capacity * c,
                c > 0,
        ;
        lemma_small_mod((self.lag + frames) as nat, index_modulus() as nat);
    }
}

/// Samples that are written to a ring with nothing unread are what the next read of as many
/// gives.
pub proof fn ring_gives_back_what_was_written(
    writing: &mut AudioRing,
    bytes: &[u8],
    reading: &mut AudioRing,
    out: &mut [i16],
    served: bool,
    samples: Seq<i16>,
)
    requires
        call_ensures(AudioRing::write_s16le, (writing, bytes), ()),
        call_ensures(AudioRing::read_frames, (reading, out), served),
        old(writing).wf(),
        old(writing)@.lag == 0,
        *old(reading) == *final(writing),
        bytes@ == pcm_bytes(samples),
        0 < samples.len() <= old(writing)@.recent.len(),
        samples.len() % old(writing)@.channels == 0,
        old(out)@.len() == samples.len(),
    ensures
        served,
        final(out)@ == samples,
        final(reading)@.lag == 0,
{
    let before = old(writing)@;
    old(writing).lemma_steady();
    before.lemma_sizes();
    before.written_samples_join_the_queue(samples);
    before.reads_follow_the_queue(0);
    assert(before.unread() + samples =~= samples);
    let between = before.write(bytes@);
    assert((samples.len() / before.channels) * before.channels <= before.capacity
        * before.channels) by {
        lemma_fundamental_div_mod(samples.len() as int, before.channels as int);
        lemma_mul_is_commutative(
            samples.len() as int / before.channels as int,
            before.channels as int,
        );
    }
    lemma_mul_inequality_converse(
        (samples.len() / before.channels) as int,
        before.capacity as int,
        before.channels as int,
    );
    between.reads_follow_the_queue(samples.len());
    assert(samples.take(samples.len() as int) =~= samples);
}

/// What every state of one shared ring has in common.
pub struct RingShape {
    pub capacity: nat,
    pub channels: nat,
}

impl RingShape {
    /// Whether a ring of this shape can be in the state `ring`.
    pub open spec fn admits(self, ring: RingView) -> bool {
        &&& ring.valid()
        &&& ring.capacity == self.capacity
        &&& ring.channels == self.channels
    }
}

impl RwLockPredicate<AudioRing> for RingShape {
    closed spec fn inv(self, ring: AudioRing) -> bool {
        ring.wf() && self.admits(ring@)
    }
}

/// A ring at one moment: what it holds, what was ever written to it, and how many frames were
/// read or skipped.
pub struct RingState {
    pub view: RingView,
    pub memory: RingMemory,
    pub position: nat,
}

impl RingState {
    /// The state of a ring.
    pub open spec fn of(ring: AudioRing) -> RingState {
        RingState { view: ring@, memory: ring.memory(), position: ring.position() }
    }

    /// What holds of a ring of a shape whenever one of its ends comes to it.
    pub open spec fn is_of(self, shape: RingShape) -> bool {
        &&& shape.admits(self.view)
        &&& self.memory.valid()
        &&& self.memory.idle()
        &&& self.memory.capacity == shape.capacity
        &&& self.memory.channels == shape.channels
        &&& self.view.lag as int == (self.memory.write - self.position) % index_modulus()
    }

    /// Whether the consumer is not ahead of the producer.
    pub open spec fn is_behind(self) -> bool {
        self.position <= self.memory.write
    }

    /// Whether the producer is ahead of the consumer by less than the range of an index.
    pub open spec fn in_range(self) -> bool {
        self.is_behind() && self.memory.reserved - self.position < index_modulus()
    }
}

/// Where a consumer stands: how many frames it has read or skipped, and its read index.
struct Cursor {
    read: usize,
    position: Ghost<nat>,
}

impl Cursor {
    #[verifier::type_invariant]
    spec fn counts(self) -> bool {
        self.read as int == self.position@ as int % index_modulus()
    }
}

/// What an end of a ring came to and what it left.
struct Visit {
    found: RingState,
    left: RingState,
}

impl AudioRing {
    /// The ring as a consumer sees it whose read index is `read`.
    spec fn view_from(&self, read: usize) -> RingView {
        RingView { lag: ((self.write - read) % index_modulus()) as nat, ..self@ }
    }

    proof fn lemma_view_from(&self, read: usize, shape: RingShape)
        requires
            shape.inv(*self),
        ensures
            shape.admits(self.view_from(read)),
    {
        lemma_mod_bound(self.write - read, index_modulus());
    }

    /// The state of the ring as a consumer sees it.
    spec fn state_from(&self, cursor: Cursor) -> RingState {
        RingState {
            view: self.view_from(cursor.read),
            memory: self.memory(),
            position: cursor.position@,
        }
    }

    proof fn lemma_state_from(&self, cursor: Cursor, shape: RingShape)
        requires
            shape.inv(*self),
            cursor.counts(),
        ensures
            self.state_from(cursor).is_of(shape),
    {
        self.lemma_steady();
        self.lemma_view_from(cursor.read, shape);
        lemma_sub_mod_noop(
            self.memory@.write as int,
            cursor.position@ as int,
            index_modulus(),
        );
    }

    /// Goes on from where a consumer stands.
    fn resume(&mut self, cursor: &Cursor)
        requires
            old(self).wf(),
        ensures
            final(self).wf(),
            final(self)@ == old(self).view_from(cursor.read),
            final(self).memory() == old(self).memory(),
            final(self).position() == cursor.position@,
    {
        proof {
            use_type_invariant(cursor);
        }
        self.read = cursor.read;
        self.position = Ghost(cursor.position@);
    }

    /// Where the consumer stands.
    fn cursor(&self) -> (cursor: Cursor)
        requires
            self.wf(),
        ensures
            cursor.position@ == self.position(),
    {
        Cursor { read: self.read, position: Ghost(self.position@) }
    }

    /// Frames that a consumer whose read index is `read` has not read.
    fn backlog(&self, read: usize) -> (frames: usize)
        requires
            self.wf(),
        ensures
            frames == self.view_from(read).lag,
    {
        proof {
            lemma_wrapping_sub(self.write, read);
        }
        self.write.wrapping_sub(read)
    }

    proof fn lemma_state(&self, shape: RingShape)
        requires
            shape.inv(*self),
        ensures
            RingState::of(*self).is_of(shape),
    {
        self.lemma_steady();
    }
}

/// A ring that a producer and a consumer share, each operation at a time.
type SharedRing = Arc<RwLock<AudioRing, RingShape>>;

/// The two ends of a fresh ring of `capacity_frames` frames of `channels` samples.
pub fn channel(capacity_frames: usize, channels: usize) -> (ends: (RingProducer, RingConsumer))
    requires
        is_pow2(capacity_frames as int),
        is_pow2(channels as int),
        2 * (capacity_frames * channels) <= isize::MAX,
    ensures
        ends.0.ring() == ends.1.ring(),
        ends.1.shape() == (RingShape {
            capacity: capacity_frames as nat,
            channels: channels as nat,
        }),
        ends.0.left() == ends.1.left(),
        ends.1.left() == (RingView {
            capacity: capacity_frames as nat,
            channels: channels as nat,
            recent: Seq::new((capacity_frames * channels) as nat, |i: int| 0i16),
            lag: 0,
            closed: false,
        }),
        ends.0.left_state() == ends.1.left_state(),
        ends.1.left_state().memory.stream == Seq::<i16>::empty(),
        ends.1.left_state().position == 0,
        ends.1.left_state().is_behind(),
{
    let ghost shape = RingShape { capacity: capacity_frames as nat, channels: channels as nat };
    let ring = AudioRing::new(capacity_frames, channels);
    let ghost fresh = RingState::of(ring);
    let cursor: Cursor = ring.cursor();
    let shared: SharedRing = Arc::new(RwLock::new(ring, Ghost(shape)));
    (
        RingProducer {
            ring: Arc::clone(&shared),
            last: Ghost(Visit { found: fresh, left: fresh }),
        },
        RingConsumer {
            ring: shared,
            cursor,
            last: Ghost(Visit { found: fresh, left: fresh }),
            seen: Ghost(fresh),
        },
    )
}

/// The end that writes. There is one, and it writes through `&mut self`.
pub struct RingProducer {
    ring: SharedRing,
    /// The last operation of this end.
    last: Ghost<Visit>,
}

impl RingProducer {
    /// The ring that this end belongs to.
    pub closed spec fn ring(&self) -> RwLock<AudioRing, RingShape> {
        *self.ring
    }

    /// The shape of that ring.
    pub open spec fn shape(&self) -> RingShape {
        self.ring().pred()
    }

    /// The state in which this end last found the ring.
    pub closed spec fn found_state(&self) -> RingState {
        self.last@.found
    }

    /// The state in which this end last left the ring.
    pub closed spec fn left_state(&self) -> RingState {
        self.last@.left
    }

    /// What the ring held when this end last found it.
    pub open spec fn found(&self) -> RingView {
        self.found_state().view
    }

    /// What the ring held when this end last left it.
    pub open spec fn left(&self) -> RingView {
        self.left_state().view
    }

    /// Appends the whole frames of a chunk to the ring: it is left with the chunk written to
    /// what was found. The ring is shared, so how it was found is not this end's to tell, and
    /// once left it may change at any time.
    pub fn write_s16le(&mut self, bytes: &[u8])
        ensures
            final(self).ring() == old(self).ring(),
            final(self).found_state().is_of(final(self).shape()),
            final(self).left_state().is_of(final(self).shape()),
            final(self).left() == final(self).found().write(bytes@),
            final(self).left_state().memory.stream == final(self).found_state().memory.stream
                + final(self).found().samples_kept(bytes@),
            final(self).left_state().position == final(self).found_state().position,
    {
        let (mut ring, handle) = self.ring.acquire_write();
        let ghost found = RingState::of(ring);
        proof {
            ring.lemma_state(self.shape());
        }
        ring.write_s16le(bytes);
        let ghost left = RingState::of(ring);
        proof {
            found.view.operations_keep_validity(bytes@, 0);
            ring.lemma_state(self.shape());
        }
        handle.release_write(ring);
        self.last = Ghost(Visit { found, left });
    }

    /// Marks that no more frames will come, as `AudioRing::close` does. The ring is shared,
    /// so its state is not this handle's to tell.
    pub fn close(&self) {
        let (mut ring, handle) = self.ring.acquire_write();
        ring.close();
        handle.release_write(ring);
    }

    /// A handle that can close this ring and nothing else.
    pub fn closer(&self) -> (closer: RingCloser)
        ensures
            closer.ring() == self.ring(),
    {
        RingCloser { ring: Arc::clone(&self.ring) }
    }
}

/// Closes a ring. Data-free, so that whoever gives up on the sink can hold one while the
/// producer itself lives in the process callback.
pub struct RingCloser {
    ring: SharedRing,
}

impl RingCloser {
    /// The ring that this handle belongs to.
    pub closed spec fn ring(&self) -> RwLock<AudioRing, RingShape> {
        *self.ring
    }

    /// Marks that no more frames will come, as `AudioRing::close` does. The ring is shared,
    /// so its state is not this handle's to tell.
    pub fn close(&self) {
        let (mut ring, handle) = self.ring.acquire_write();
        ring.close();
        handle.release_write(ring);
    }
}

impl Clone for RingCloser {
    fn clone(&self) -> (closer: Self)
        ensures
            closer.ring() == self.ring(),
    {
        RingCloser { ring: Arc::clone(&self.ring) }
    }
}

/// The end that reads. There is one, and it advances through `&mut self`. Where it stands
/// belongs to it alone.
pub struct RingConsumer {
    ring: SharedRing,
    cursor: Cursor,
    /// The last operation of this end.
    last: Ghost<Visit>,
    /// What this end last saw by looking.
    seen: Ghost<RingState>,
}

impl RingConsumer {
    /// The ring that this end belongs to.
    pub closed spec fn ring(&self) -> RwLock<AudioRing, RingShape> {
        *self.ring
    }

    /// The shape of that ring.
    pub open spec fn shape(&self) -> RingShape {
        self.ring().pred()
    }

    /// The state in which this end last found the ring, to read or skip frames.
    pub closed spec fn found_state(&self) -> RingState {
        self.last@.found
    }

    /// The state in which this end last left the ring, having read or skipped frames.
    pub closed spec fn left_state(&self) -> RingState {
        RingState { position: self.cursor.position@, ..self.last@.left }
    }

    /// What the ring held when this end last found it.
    pub open spec fn found(&self) -> RingView {
        self.found_state().view
    }

    /// What the ring held when this end last left it.
    pub open spec fn left(&self) -> RingView {
        self.left_state().view
    }

    /// What the ring held when this end last looked.
    pub open spec fn seen(&self) -> RingView {
        self.seen_state().view
    }

    /// The state in which the ring was when this end last looked.
    pub closed spec fn seen_state(&self) -> RingState {
        self.seen@
    }

    /// Whether nothing was read or skipped between two states of this end.
    pub open spec fn same_place(&self, other: &RingConsumer) -> bool {
        &&& self.ring() == other.ring()
        &&& self.found_state() == other.found_state()
        &&& self.left_state() == other.left_state()
    }

    /// Looks whether the producer side has given up, and how many frames are unread.
    pub fn look(&mut self) -> (look: (bool, usize))
        ensures
            final(self).same_place(old(self)),
            final(self).seen_state().is_of(final(self).shape()),
            final(self).seen_state().position == old(self).left_state().position,
            look.0 == final(self).seen().closed,
            look.1 == final(self).seen().lag,
    {
        let handle = self.ring.acquire_read();
        let ghost state = handle@.state_from(self.cursor);
        proof {
            use_type_invariant(&self.cursor);
            handle@.lemma_state_from(self.cursor, self.shape());
        }
        let closed: bool = handle.borrow().is_closed();
        let frames: usize = handle.borrow().backlog(self.cursor.read);
        handle.release_read();
        self.seen = Ghost(state);
        (closed, frames)
    }

    /// Fills `out` with the oldest unread frames, in the state that the ring was found in; see
    /// `AudioRing::read_frames`. What is given is the stream of all samples that were written,
    /// from the position of this end on, and none if the producer has reached past them.
    pub fn read_frames(&mut self, out: &mut [i16]) -> (served: bool)
        requires
            old(out)@.len() % old(self).shape().channels == 0,
        ensures
            final(self).ring() == old(self).ring(),
            final(self).seen_state() == old(self).seen_state(),
            final(self).found_state().position == old(self).left_state().position,
            final(self).found_state().is_of(final(self).shape()),
            final(self).left_state().is_of(final(self).shape()),
            served == final(self).found().serves(old(out)@.len()),
            final(out)@ == (if final(self).found().has_frames(old(out)@.len()) {
                final(self).found().peek(old(out)@.len())
            } else {
                old(out)@
            }),
            final(self).left() == (if served {
                final(self).found().skip(old(out)@.len() / old(self).shape().channels)
            } else {
                final(self).found()
            }),
            final(self).left_state().memory == final(self).found_state().memory,
            final(self).left_state().position == final(self).found_state().position + (if served {
                old(out)@.len() / old(self).shape().channels
            } else {
                0
            }),
            served && final(self).found_state().in_range() ==> {
                let state = final(self).found_state();
                &&& state.memory.covers(state.position, old(out)@.len())
                &&& final(out)@ == state.memory.stretch(state.position, old(out)@.len())
            },
            final(self).found_state().in_range() && final(self).found_state().memory.reserved
                > final(self).found_state().position + old(self).shape().capacity ==> !served,
            final(self).found_state().is_behind() ==> final(self).left_state().is_behind(),
    {
        let (mut ring, handle) = self.ring.acquire_write();
        proof {
            ring.lemma_view_from(self.cursor.read, self.shape());
        }
        ring.resume(&self.cursor);
        let ghost found = RingState::of(ring);
        proof {
            ring.lemma_state(self.shape());
        }
        let served = ring.read_frames(out);
        let ghost left = RingState::of(ring);
        proof {
            found.view.operations_keep_validity(
                Seq::empty(),
                old(out)@.len() / old(self).shape().channels,
            );
            ring.lemma_state(self.shape());
            if found.in_range() {
                lemma_small_mod(
                    (found.memory.write - found.position) as nat,
                    index_modulus() as nat,
                );
            }
        }
        self.cursor = ring.cursor();
        handle.release_write(ring);
        self.last = Ghost(Visit { found, left });
        served
    }

    /// Passes over the oldest unread frames, never past the writer: the ring is left with
    /// them skipped from what was found. The ring is shared, so how it was found is not this
    /// end's to tell, and once left it may change at any time.
    pub fn skip_frames(&mut self, frames: usize)
        ensures
            final(self).ring() == old(self).ring(),
            final(self).seen_state() == old(self).seen_state(),
            final(self).found_state().position == old(self).left_state().position,
            final(self).found_state().is_of(final(self).shape()),
            final(self).left_state().is_of(final(self).shape()),
            final(self).left() == final(self).found().skip(frames as nat),
            final(self).left_state().memory == final(self).found_state().memory,
            final(self).left_state().position == final(self).found_state().position + (if frames
                < final(self).found().lag {
                frames as nat
            } else {
                final(self).found().lag
            }),
            final(self).found_state().is_behind() ==> final(self).left_state().is_behind(),
    {
        let (mut ring, handle) = self.ring.acquire_write();
        proof {
            ring.lemma_view_from(self.cursor.read, self.shape());
        }
        ring.resume(&self.cursor);
        let ghost found = RingState::of(ring);
        proof {
            ring.lemma_state(self.shape());
        }
        ring.skip_frames(frames);
        let ghost left = RingState::of(ring);
        proof {
            found.view.operations_keep_validity(Seq::empty(), frames as nat);
            ring.lemma_state(self.shape());
        }
        self.cursor = ring.cursor();
        handle.release_write(ring);
        self.last = Ghost(Visit { found, left });
    }

    /// Frames written and neither read nor skipped, in the state that the ring was in.
    pub fn available_frames(&self) -> (frames: usize)
        ensures
            exists|state: RingState| #[trigger]
                state.is_of(self.shape()) && state.position == self.left_state().position && frames
                    == state.view.lag,
    {
        let handle = self.ring.acquire_read();
        proof {
            use_type_invariant(&self.cursor);
            handle@.lemma_state_from(self.cursor, self.shape());
        }
        let frames: usize = handle.borrow().backlog(self.cursor.read);
        handle.release_read();
        frames
    }

    /// Frames that the ring has room for.
    pub fn capacity_frames(&self) -> (frames: usize)
        ensures
            frames == self.shape().capacity,
    {
        let handle = self.ring.acquire_read();
        let frames: usize = handle.borrow().capacity_frames();
        handle.release_read();
        frames
    }

    /// Samples in a frame.
    pub fn channels(&self) -> (channels: usize)
        ensures
            channels == self.shape().channels,
    {
        let handle = self.ring.acquire_read();
        let channels: usize = handle.borrow().channels();
        handle.release_read();
        channels
    }

    /// Whether the producer side has given up, in the state that the ring was in.
    pub fn is_closed(&self) -> (closed: bool)
        ensures
            exists|state: RingState| #[trigger]
                state.is_of(self.shape()) && state.position == self.left_state().position && closed
                    == state.view.closed,
    {
        let handle = self.ring.acquire_read();
        proof {
            use_type_invariant(&self.cursor);
            handle@.lemma_state_from(self.cursor, self.shape());
        }
        let closed = handle.borrow().is_closed();
        handle.release_read();
        closed
    }
}

/// A fresh ring has the size that was asked for, nothing unread, and is open; both ends belong to
/// it.
pub proof fn fresh_rings_hold_nothing(
    capacity_frames: usize,
    channels: usize,
    ring: AudioRing,
    ends: (RingProducer, RingConsumer),
    len: nat,
)
    requires
        is_pow2(capacity_frames as int),
        is_pow2(channels as int),
        2 * (capacity_frames * channels) <= isize::MAX,
        call_ensures(AudioRing::new, (capacity_frames, channels), ring),
        call_ensures(channel, (capacity_frames, channels), ends),
    ensures
        ring.wf() && ring@ == ends.1.left(),
        ring@.capacity == capacity_frames && ring@.channels == channels,
        ring@.lag == 0 && !ring@.closed,
        !ring@.serves(len),
        ends.0.ring() == ends.1.ring() && ends.0.left() == ends.1.left(),
        ends.1.shape().capacity == capacity_frames && ends.1.shape().channels == channels,
{
}

/// Closing is seen, and takes nothing away; so are the size of the ring and the backlog.
pub proof fn closing_is_seen(
    ring: &mut AudioRing,
    before: &AudioRing,
    closed: bool,
    frames: usize,
    capacity: usize,
    channels: usize,
)
    requires
        call_ensures(AudioRing::close, (ring,), ()),
        old(ring).wf(),
        before.wf(),
        call_ensures(AudioRing::is_closed, (before,), closed),
        call_ensures(AudioRing::available_frames, (before,), frames),
        call_ensures(AudioRing::capacity_frames, (before,), capacity),
        call_ensures(AudioRing::channels, (before,), channels),
    ensures
        final(ring)@.closed,
        final(ring)@.lag == old(ring)@.lag,
        final(ring)@.recent == old(ring)@.recent,
        final(ring)@.capacity == old(ring)@.capacity,
        final(ring)@.channels == old(ring)@.channels,
        closed == before@.closed,
        frames == before@.lag,
        capacity == before@.capacity,
        channels == before@.channels,
{
}

/// The producer leaves the samples that it writes behind those that it found unread, if there is
/// room for them.
pub proof fn producers_append_their_samples(
    producer: &mut RingProducer,
    bytes: &[u8],
    samples: Seq<i16>,
)
    requires
        call_ensures(RingProducer::write_s16le, (producer, bytes), ()),
        bytes@ == pcm_bytes(samples),
        samples.len() % final(producer).shape().channels == 0,
        final(producer).found().lag * final(producer).shape().channels + samples.len()
            <= final(producer).found().recent.len(),
    ensures
        final(producer).ring() == old(producer).ring(),
        final(producer).left().unread() == final(producer).found().unread() + samples,
        final(producer).left().closed == final(producer).found().closed,
{
    final(producer).found().written_samples_join_the_queue(samples);
}

/// The consumer is given the oldest of the samples that it finds unread, exactly if so many are
/// there and the producer has not lapped it, and leaves the others; else it leaves all.
pub proof fn consumers_take_the_oldest_samples(
    consumer: &mut RingConsumer,
    out: &mut [i16],
    served: bool,
)
    requires
        call_ensures(RingConsumer::read_frames, (consumer, out), served),
        old(out)@.len() % old(consumer).shape().channels == 0,
    ensures
        ({
            let found = final(consumer).found();
            let left = final(consumer).left();
            let len = old(out)@.len() as int;
            &&& served <==> found.lag <= found.capacity && 0 < len <= found.unread().len()
            &&& served ==> final(out)@ == found.unread().take(len) && left.unread()
                == found.unread().skip(len)
            &&& !served ==> left == found
        }),
        final(consumer).found_state().position == old(consumer).left_state().position,
{
    let found = final(consumer).found();
    if found.lag <= found.capacity {
        found.reads_follow_the_queue(old(out)@.len());
    }
}

/// The consumer skips as many of the frames that it finds unread as it is told, or all of them.
pub proof fn consumers_skip_the_oldest_frames(consumer: &mut RingConsumer, frames: usize)
    requires
        call_ensures(RingConsumer::skip_frames, (consumer, frames), ()),
    ensures
        ({
            let found = final(consumer).found();
            let left = final(consumer).left();
            &&& left.lag == (if frames < found.lag {
                found.lag - frames
            } else {
                0
            })
            &&& left.recent == found.recent
            &&& left.closed == found.closed
        }),
        final(consumer).found_state().position == old(consumer).left_state().position,
{
}

impl RingView {
    /// Whether one state of a ring follows another by the write of a chunk: the samples of its
    /// newest whole frames come after the newest of those that were there, and count as unread.
    pub open spec fn takes_in(self, bytes: Seq<u8>, after: RingView) -> bool {
        let whole = bytes.len() - bytes.len() % (2 * self.channels);
        let n = if whole / 2 < self.recent.len() {
            whole / 2
        } else {
            self.recent.len() as int
        };
        &&& after.recent.len() == self.recent.len()
        &&& forall|i: int|
            0 <= i < self.recent.len() - n ==> (#[trigger] after.recent[i]) == self.recent[i + n]
        &&& forall|j: int|
            self.recent.len() - n <= j < self.recent.len() ==> (#[trigger] after.recent[j]) as int
                % 0x10000 == bytes[whole - 2 * (self.recent.len() - j)] + 256 * bytes[whole - 2 * (
            self.recent.len() - j) + 1]
        &&& after.lag == (self.lag + n / self.channels as int) % (usize::MAX + 1)
        &&& after.capacity == self.capacity
        &&& after.channels == self.channels
        &&& after.closed == self.closed
    }

    /// Any chunk is taken in, whatever its length and whatever is unread.
    pub proof fn chunks_are_taken_in(self, bytes: Seq<u8>)
        requires
            self.valid(),
        ensures
            self.takes_in(bytes, self.write(bytes)),
    {
        self.lemma_sizes();
        self.chunks_keep_their_newest_whole_frames(bytes);
        let whole = bytes.len() - bytes.len() % (2 * self.channels);
        let kept = self.samples_kept(bytes);
        let n = kept.len() as int;
        let after = self.write(bytes);
        lemma_div_by_multiple(self.frames_kept(bytes.len()) as int, self.channels as int);
        assert forall|j: int| self.recent.len() - n <= j < self.recent.len() implies (
        #[trigger] after.recent[j]) as int % 0x10000 == bytes[whole - 2 * (self.recent.len() - j)]
            + 256 * bytes[whole - 2 * (self.recent.len() - j) + 1] by {
            let k = j - (self.recent.len() - n);
            assert(after.recent[j] == kept[k]);
            assert(whole - 2 * n + 2 * k == whole - 2 * (self.recent.len() - j));
        }
    }
}

/// A chunk that is written is taken in, by a ring of one's own and by a shared one.
pub proof fn written_chunks_are_taken_in(
    ring: &mut AudioRing,
    producer: &mut RingProducer,
    bytes: &[u8],
)
    requires
        call_ensures(AudioRing::write_s16le, (ring, bytes), ()),
        old(ring).wf(),
        call_ensures(RingProducer::write_s16le, (producer, bytes), ()),
    ensures
        old(ring)@.takes_in(bytes@, final(ring)@),
        final(producer).found().takes_in(bytes@, final(producer).left()),
{
    old(ring).lemma_steady();
    old(ring)@.chunks_are_taken_in(bytes@);
    final(producer).found().chunks_are_taken_in(bytes@);
}

/// A read of a ring gives the oldest of the unread samples, exactly if so many are there and the
/// producer has not lapped the consumer, and leaves the others; else it leaves all. A skip passes
/// over so many of the oldest unread frames, or all of them.
pub proof fn rings_give_the_oldest_samples(
    reading: &mut AudioRing,
    out: &mut [i16],
    served: bool,
    skipping: &mut AudioRing,
    frames: usize,
)
    requires
        call_ensures(AudioRing::read_frames, (reading, out), served),
        old(reading).wf(),
        old(out)@.len() % old(reading)@.channels == 0,
        call_ensures(AudioRing::skip_frames, (skipping, frames), ()),
        old(skipping).wf(),
    ensures
        ({
            let before = old(reading)@;
            let after = final(reading)@;
            let len = old(out)@.len() as int;
            &&& served <==> before.lag <= before.capacity && 0 < len <= before.unread().len()
            &&& served ==> final(out)@ == before.unread().take(len) && after.unread()
                == before.unread().skip(len)
            &&& !served ==> after == before
            &&& after.closed == before.closed
        }),
        ({
            let before = old(skipping)@;
            let after = final(skipping)@;
            &&& after.lag == (if frames < before.lag {
                before.lag - frames
            } else {
                0
            })
            &&& after.recent == before.recent
            &&& after.closed == before.closed
        }),
{
    let before = old(reading)@;
    old(reading).lemma_steady();
    if before.lag <= before.capacity {
        before.reads_follow_the_queue(old(out)@.len());
    }
}

/// A look sees the ring at one moment: whether it is closed, and how many frames are unread from
/// where the consumer stands. It takes nothing away.
pub proof fn looks_take_nothing(consumer: &mut RingConsumer, look: (bool, usize))
    requires
        call_ensures(RingConsumer::look, (consumer,), look),
    ensures
        look.0 == final(consumer).seen().closed,
        look.1 == (final(consumer).seen_state().memory.write - old(consumer).left_state().position) % (usize::MAX + 1),
        final(consumer).left_state() == old(consumer).left_state(),
        final(consumer).found_state() == old(consumer).found_state(),
{
}

} // verus!

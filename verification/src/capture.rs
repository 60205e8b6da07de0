//! The capture loop: when to read the ring, when to drop frames to restore the latency, how
//! long to sleep, and when a network outage is final. Times are nanoseconds of one clock.

use vstd::prelude::*;

use crate::audio_ring::RingConsumer;
use crate::audio_ring::RingShape;
use crate::audio_ring::RingView;
use crate::cast_rtp::OPUS_SAMPLES_PER_FRAME;

verus! {

pub const SAMPLE_RATE: u32 = 48_000;
pub const CHANNELS: u8 = 2;

/// With more than this unread the capture has fallen behind.
pub const DRAIN_THRESHOLD_MS: usize = 30;

/// What is kept when frames are dropped.
pub const DRAIN_TARGET_MS: usize = 10;

/// Headroom past the drain point, so that a producer batch cannot land on the region that is
/// being copied.
pub const MAX_EXPECTED_QUANTUM: usize = 2048;

/// The shortest sleep, in microseconds.
pub const MIN_SLEEP_US: u64 = 200;

/// Send failures heal by themselves, as when the network is gone for a moment. After this
/// long the receiver has dropped the app anyway.
pub const OUTAGE_FATAL_NS: u64 = 5_000_000_000;

/// How often statistics are due.
pub const STATS_INTERVAL_NS: u64 = 5_000_000_000;

/// What is wrong when the sink has stopped delivering audio.
pub const SINK_LOST: &'static str = "pipewire sink stopped delivering audio";

/// Frames that are played in a number of milliseconds.
pub open spec fn frames_in(ms: int) -> int {
    ms * SAMPLE_RATE / 1000
}

/// Frames that are played in a number of milliseconds.
pub fn frames_for_ms(ms: usize) -> (frames: usize)
    requires
        ms * SAMPLE_RATE <= usize::MAX,
    ensures
        frames == frames_in(ms as int),
{
    ms * SAMPLE_RATE as usize / 1000
}

/// What to do next about the ring.
#[derive(Debug, Clone, Copy, PartialEq, Eq, Structural)]
pub enum Plan {
    Stop,
    /// The sink has stopped delivering audio.
    SinkLost,
    /// Drop this many frames to restore the latency.
    Drop(usize),
    /// Sleep this many microseconds: less than a frame is there.
    Sleep(u64),
    Read,
}

/// How long to sleep, in microseconds, until the frames that are missing have been played.
pub open spec fn sleep_for(missing: int) -> int {
    let us = missing * 1_000_000 / SAMPLE_RATE as int;
    if us < MIN_SLEEP_US {
        MIN_SLEEP_US as int
    } else {
        us
    }
}

/// What to do next, given the wish to stop and the state of the ring.
pub open spec fn planned(stop: bool, closed: bool, available: usize) -> Plan {
    if stop {
        Plan::Stop
    } else if closed {
        Plan::SinkLost
    } else if available > frames_in(DRAIN_THRESHOLD_MS as int) {
        Plan::Drop((available - frames_in(DRAIN_TARGET_MS as int)) as usize)
    } else if available < OPUS_SAMPLES_PER_FRAME {
        Plan::Sleep(sleep_for(OPUS_SAMPLES_PER_FRAME - available) as u64)
    } else {
        Plan::Read
    }
}

/// Decides what to do next.
pub fn plan(stop: bool, closed: bool, available: usize) -> (next: Plan)
    ensures
        next == planned(stop, closed, available),
{
    if stop {
        Plan::Stop
    } else if closed {
        Plan::SinkLost
    } else if available > frames_for_ms(DRAIN_THRESHOLD_MS) {
        Plan::Drop(available - frames_for_ms(DRAIN_TARGET_MS))
    } else if available < OPUS_SAMPLES_PER_FRAME as usize {
        let missing: u64 = (OPUS_SAMPLES_PER_FRAME as usize - available) as u64;
        let us: u64 = missing * 1_000_000 / SAMPLE_RATE as u64;
        if us < MIN_SLEEP_US {
            Plan::Sleep(MIN_SLEEP_US)
        } else {
            Plan::Sleep(us)
        }
    } else {
        Plan::Read
    }
}

/// Whether a ring has room for what the loop leaves unread, the frame that it reads, and a
/// producer batch.
pub open spec fn fits(shape: RingShape) -> bool {
    frames_in(DRAIN_THRESHOLD_MS as int) + OPUS_SAMPLES_PER_FRAME + MAX_EXPECTED_QUANTUM
        <= shape.capacity
}

/// Tells whether a ring is big enough for the capture.
pub fn has_room(ring: &RingConsumer) -> (room: bool)
    ensures
        room == fits(ring.shape()),
{
    frames_for_ms(DRAIN_THRESHOLD_MS) + OPUS_SAMPLES_PER_FRAME as usize + MAX_EXPECTED_QUANTUM
        <= ring.capacity_frames()
}

/// Samples in an Opus frame.
pub open spec fn frame_samples() -> nat {
    (OPUS_SAMPLES_PER_FRAME * CHANNELS) as nat
}

/// A time in which nothing could be sent.
#[derive(Debug, Clone, Copy, PartialEq, Eq, Structural)]
pub struct Outage {
    pub since: u64,
    pub frames: u64,
}

/// The progress of a capture. The counters count modulo their size.
#[derive(Debug, Clone, Copy, PartialEq, Eq, Structural)]
pub struct Capture {
    pub frames: u64,
    pub dropped_total: u64,
    pub send_failures: u64,
    pub outage: Option<Outage>,
    pub first_frame: Option<u64>,
    pub last_stats: u64,
}

/// What a round of the loop did.
#[derive(Debug, Clone, Copy, PartialEq, Eq, Structural)]
pub enum Round {
    Stopped,
    SinkLost,
    Dropped(usize),
    /// Nothing to read; sleep this many microseconds.
    Sleep(u64),
    /// The producer came in between; nothing was read.
    Torn,
    /// A frame was read and has to be encoded and sent.
    Frame,
}

/// What a round does that goes by a plan; `served` tells whether the ring serves a read.
pub open spec fn round_of(plan: Plan, served: bool) -> Round {
    match plan {
        Plan::Stop => Round::Stopped,
        Plan::SinkLost => Round::SinkLost,
        Plan::Drop(frames) => Round::Dropped(frames),
        Plan::Sleep(us) => Round::Sleep(us),
        Plan::Read => if served {
            Round::Frame
        } else {
            Round::Torn
        },
    }
}

/// What came of an attempt to send a frame.
#[derive(Debug, Clone, Copy, PartialEq, Eq, Structural)]
pub enum SendReport {
    Delivered,
    /// The first frame that was sent after an outage.
    Recovered { discarded: u64, down: u64 },
    /// The first frame that was not sent.
    OutageBegan,
    OutageGoesOn,
    /// Nothing was sent for so long that the session is over.
    OutageFatal { down: u64 },
}

/// The time from one moment to a later one; none if it is not later.
pub open spec fn time_since(now: u64, then: u64) -> u64 {
    if now > then {
        (now - then) as u64
    } else {
        0
    }
}

fn elapsed_since(now: u64, then: u64) -> (ns: u64)
    ensures
        ns == time_since(now, then),
{
    if now > then {
        now - then
    } else {
        0
    }
}

impl Capture {
    /// The capture after a frame was sent or could not be sent, and what to report.
    pub open spec fn after_send(self, ok: bool, now: u64) -> (Capture, SendReport) {
        if ok {
            (
                Capture { frames: self.frames.wrapping_add(1), outage: None, ..self },
                match self.outage {
                    Some(outage) => SendReport::Recovered {
                        discarded: outage.frames,
                        down: time_since(now, outage.since),
                    },
                    None => SendReport::Delivered,
                },
            )
        } else {
            let outage = match self.outage {
                Some(outage) => Outage { frames: outage.frames.wrapping_add(1), ..outage },
                None => Outage { since: now, frames: 1 },
            };
            let down = time_since(now, outage.since);
            (
                Capture {
                    send_failures: self.send_failures.wrapping_add(1),
                    outage: Some(outage),
                    ..self
                },
                if down >= OUTAGE_FATAL_NS {
                    SendReport::OutageFatal { down }
                } else if self.outage is None {
                    SendReport::OutageBegan
                } else {
                    SendReport::OutageGoesOn
                },
            )
        }
    }

    /// Starts a capture. What the sink wrote to the ring before is passed over: it is no
    /// sign of falling behind.
    pub fn start(ring: &mut RingConsumer, now: u64) -> (capture: Capture)
        requires
            fits(old(ring).shape()),
        ensures
            final(ring).found_state().position == old(ring).left_state().position,
            capture == (Capture {
                frames: 0,
                dropped_total: 0,
                send_failures: 0,
                outage: None,
                first_frame: None,
                last_stats: now,
            }),
            final(ring).ring() == old(ring).ring(),
            final(ring).seen_state().is_of(final(ring).shape()),
            final(ring).seen_state().position == old(ring).left_state().position,
            final(ring).found_state().is_of(final(ring).shape()),
            final(ring).left() == final(ring).found().skip(final(ring).seen().lag),
    {
        let (_, backlog): (bool, usize) = ring.look();
        ring.skip_frames(backlog);
        Capture {
            frames: 0,
            dropped_total: 0,
            send_failures: 0,
            outage: None,
            first_frame: None,
            last_stats: now,
        }
    }

    /// One round of the loop: looks at the ring, and drops or reads frames as planned. The
    /// producer may write between the look and what follows it.
    pub fn round(&mut self, ring: &mut RingConsumer, pcm: &mut [i16], stop: bool) -> (done: Round)
        requires
            fits(old(ring).shape()),
            old(pcm)@.len() == frame_samples(),
            frame_samples() % old(ring).shape().channels == 0,
        ensures
            final(ring).ring() == old(ring).ring(),
            stop ==> done == Round::Stopped && *final(ring) == *old(ring),
            !stop ==> final(ring).seen_state().is_of(final(ring).shape()) && final(ring).seen_state().position == old(ring).left_state().position && done == round_of(
                planned(false, final(ring).seen().closed, final(ring).seen().lag as usize),
                final(ring).found().serves(frame_samples()),
            ),
            done is Stopped || done is SinkLost || done is Sleep ==> final(ring).same_place(
                old(ring),
            ),
            done is Dropped || done is Torn || done is Frame ==> final(ring).found_state().is_of(
                final(ring).shape(),
            ),
            done matches Round::Dropped(frames) ==> final(ring).left() == final(ring).found().skip(
                frames as nat,
            ),
            done == Round::Torn ==> final(ring).left() == final(ring).found() && final(pcm)@ == (
            if final(ring).found().has_frames(frame_samples()) {
                final(ring).found().peek(frame_samples())
            } else {
                old(pcm)@
            }),
            done == Round::Frame ==> final(pcm)@ == final(ring).found().peek(frame_samples())
                && final(ring).left() == final(ring).found().skip(
                frame_samples() / final(ring).shape().channels,
            ),
            done == Round::Frame && final(ring).found_state().in_range() ==> final(pcm)@
                == final(ring).found_state().memory.stretch(
                final(ring).found_state().position,
                frame_samples(),
            ),
            done is Dropped || done is Torn || done is Frame
                ==> final(ring).found_state().position == old(ring).left_state().position,
            done is Stopped || done is SinkLost || done is Sleep || done is Dropped ==> final(pcm)@
                == old(pcm)@,
            *final(self) == (Capture {
                dropped_total: match done {
                    Round::Dropped(frames) => old(self).dropped_total.wrapping_add(frames as u64),
                    _ => old(self).dropped_total,
                },
                ..*old(self)
            }),
    {
        if stop {
            return Round::Stopped;
        }
        let (closed, available): (bool, usize) = ring.look();
        match plan(false, closed, available) {
            Plan::Stop => Round::Stopped,
            Plan::SinkLost => Round::SinkLost,
            Plan::Drop(frames) => {
                ring.skip_frames(frames);
                self.dropped_total = self.dropped_total.wrapping_add(frames as u64);
                Round::Dropped(frames)
            },
            Plan::Sleep(us) => Round::Sleep(us),
            Plan::Read => {
                if ring.read_frames(pcm) {
                    Round::Frame
                } else {
                    Round::Torn
                }
            },
        }
    }

    /// Notes that a frame was read at `now`. Tells whether it is the first one.
    pub fn frame_read(&mut self, now: u64) -> (first: bool)
        ensures
            first == old(self).first_frame is None,
            *final(self) == (Capture {
                first_frame: if first {
                    Some(now)
                } else {
                    old(self).first_frame
                },
                ..*old(self)
            }),
    {
        if self.first_frame.is_none() {
            self.first_frame = Some(now);
            true
        } else {
            false
        }
    }

    /// Notes whether the frame that was read at `now` was sent.
    pub fn frame_sent(&mut self, ok: bool, now: u64) -> (report: SendReport)
        ensures
            (*final(self), report) == old(self).after_send(ok, now),
    {
        if ok {
            let report: SendReport = match self.outage {
                Some(outage) => SendReport::Recovered {
                    discarded: outage.frames,
                    down: elapsed_since(now, outage.since),
                },
                None => SendReport::Delivered,
            };
            self.outage = None;
            self.frames = self.frames.wrapping_add(1);
            report
        } else {
            self.send_failures = self.send_failures.wrapping_add(1);
            let (began, outage): (bool, Outage) = match self.outage {
                Some(outage) => (
                    false,
                    Outage { since: outage.since, frames: outage.frames.wrapping_add(1) },
                ),
                None => (true, Outage { since: now, frames: 1 }),
            };
            self.outage = Some(outage);
            let down: u64 = elapsed_since(now, outage.since);
            if down >= OUTAGE_FATAL_NS {
                SendReport::OutageFatal { down }
            } else if began {
                SendReport::OutageBegan
            } else {
                SendReport::OutageGoesOn
            }
        }
    }

    /// Tells whether statistics are due at `now`, and then counts the time anew.
    pub fn stats_due(&mut self, now: u64) -> (due: bool)
        ensures
            due == (time_since(now, old(self).last_stats) >= STATS_INTERVAL_NS),
            *final(self) == (Capture {
                last_stats: if due {
                    now
                } else {
                    old(self).last_stats
                },
                ..*old(self)
            }),
    {
        if elapsed_since(now, self.last_stats) >= STATS_INTERVAL_NS {
            self.last_stats = now;
            true
        } else {
            false
        }
    }
}

/// An attempt to send a frame: whether it succeeded, and when.
pub struct Attempt {
    pub ok: bool,
    pub now: u64,
}

/// A capture after a series of attempts to send.
pub open spec fn replayed(capture: Capture, attempts: Seq<Attempt>) -> Capture
    decreases attempts.len(),
{
    if attempts.len() == 0 {
        capture
    } else {
        replayed(capture, attempts.drop_last()).after_send(
            attempts.last().ok,
            attempts.last().now,
        ).0
    }
}

/// How many attempts in a row failed at the end of a series.
pub open spec fn failures_at_end(attempts: Seq<Attempt>) -> nat
    decreases attempts.len(),
{
    if attempts.len() == 0 || attempts.last().ok {
        0
    } else {
        1 + failures_at_end(attempts.drop_last())
    }
}

/// An outage lasts exactly from the first of the failures at the end of a series of attempts:
/// one success ends it.
pub proof fn outage_is_the_failures_at_the_end(capture: Capture, attempts: Seq<Attempt>)
    requires
        capture.outage is None,
    ensures
        failures_at_end(attempts) <= attempts.len(),
        replayed(capture, attempts).outage is Some == (failures_at_end(attempts) > 0),
        failures_at_end(attempts) > 0 ==> replayed(capture, attempts).outage->0.since
            == attempts[attempts.len() - failures_at_end(attempts)].now,
    decreases attempts.len(),
{
    if attempts.len() > 0 {
        outage_is_the_failures_at_the_end(capture, attempts.drop_last());
    }
}

/// An outage ends the session only when every attempt for five seconds has failed.
pub proof fn only_a_long_outage_is_fatal(capture: Capture, attempts: Seq<Attempt>)
    requires
        capture.outage is None,
        attempts.len() > 0,
        replayed(capture, attempts.drop_last()).after_send(
            attempts.last().ok,
            attempts.last().now,
        ).1 is OutageFatal,
    ensures
        0 < failures_at_end(attempts) <= attempts.len(),
        attempts.last().now - attempts[attempts.len() - failures_at_end(attempts)].now
            >= OUTAGE_FATAL_NS,
{
    outage_is_the_failures_at_the_end(capture, attempts);
    outage_is_the_failures_at_the_end(capture, attempts.drop_last());
}

/// Dropping frames brings the backlog back to the target, which is at least a frame.
pub proof fn dropping_restores_the_latency(ring: RingView)
    requires
        ring.valid(),
        planned(false, false, ring.lag as usize) is Drop,
    ensures
        ring.skip(planned(false, false, ring.lag as usize)->Drop_0 as nat).lag == frames_in(
            DRAIN_TARGET_MS as int,
        ),
        planned(
            false,
            false,
            ring.skip(planned(false, false, ring.lag as usize)->Drop_0 as nat).lag as usize,
        ) == Plan::Read,
{
}

/// Between the look at the backlog and the read the producer can write a whole batch, and
/// a read that the ring served before still gives the same frame.
pub proof fn a_batch_does_not_tear_the_read(ring: RingView, bytes: Seq<u8>)
    requires
        ring.valid(),
        fits(RingShape { capacity: ring.capacity, channels: ring.channels }),
        frame_samples() % ring.channels == 0,
        planned(false, false, ring.lag as usize) == Plan::Read,
        ring.serves(frame_samples()),
        ring.frames_kept(bytes.len()) <= MAX_EXPECTED_QUANTUM,
    ensures
        ring.write(bytes).serves(frame_samples()),
        ring.write(bytes).peek(frame_samples()) == ring.peek(frame_samples()),
{
    let len = frame_samples();
    ring.write_appends(bytes);
    ring.operations_keep_validity(bytes, 0);
    ring.read_takes_the_oldest(len);
    ring.write(bytes).read_takes_the_oldest(len);
    ring.unread_is_enough(len);
    assert((ring.unread() + ring.samples_kept(bytes)).take(len as int) =~= ring.unread().take(
        len as int,
    ));
}

/// With two channels a round that plans to read finds a frame, unless the producer has lapped
/// the consumer.
pub proof fn stereo_rounds_find_their_frame(ring: RingView)
    requires
        ring.valid(),
        fits(RingShape { capacity: ring.capacity, channels: ring.channels }),
        ring.channels == CHANNELS,
        planned(false, false, ring.lag as usize) == Plan::Read,
    ensures
        ring.serves(frame_samples()),
{
}

/// A millisecond is 48 frames.
pub proof fn milliseconds_are_48_frames(ms: usize, frames: usize)
    requires
        call_ensures(frames_for_ms, (ms,), frames),
        ms * 48_000 <= usize::MAX,
    ensures
        frames == 48 * ms,
{
    assert(ms * 48_000 / 1000 == 48 * ms);
}

/// What is planned: to stop if that is asked for; to give up if the sink did; with more than 30 ms
/// unread, to drop all but the newest 10 ms; with less than a frame of 10 ms, to sleep until it is
/// there, in whole microseconds, but at least 200; and else to read.
pub proof fn plans_follow_the_backlog(stop: bool, closed: bool, available: usize, next: Plan)
    requires
        call_ensures(plan, (stop, closed, available), next),
    ensures
        next is Stop <==> stop,
        next is SinkLost <==> !stop && closed,
        next is Drop <==> !stop && !closed && available > 1440,
        next is Sleep <==> !stop && !closed && available < 480,
        next is Read <==> !stop && !closed && 480 <= available <= 1440,
        next matches Plan::Drop(frames) ==> frames + 480 == available,
        next matches Plan::Sleep(us) ==> us >= 200 && (us == 200 || us * 48_000 <= (480 - available)
            * 1_000_000) && (480 - available) * 1_000_000 < (us + 1) * 48_000,
{
}

/// A ring is big enough exactly if it holds 30 ms, a frame and the largest batch.
pub proof fn rooms_hold_backlog_frame_and_batch(ring: &RingConsumer, room: bool)
    requires
        call_ensures(has_room, (ring,), room),
    ensures
        room <==> ring.shape().capacity >= 1440 + 480 + 2048,
{
}

/// How many attempts of a series succeeded.
pub open spec fn successes(attempts: Seq<Attempt>) -> nat
    decreases attempts.len(),
{
    if attempts.len() == 0 {
        0
    } else {
        successes(attempts.drop_last()) + (if attempts.last().ok {
            1nat
        } else {
            0nat
        })
    }
}

/// The counts of a capture, each modulo 2^64, are how many attempts succeeded, how many failed,
/// and, during an outage, how many failed since it began.
pub proof fn attempts_are_counted(capture: Capture, attempts: Seq<Attempt>)
    requires
        capture.frames == 0,
        capture.send_failures == 0,
        capture.outage is None,
    ensures
        ({
            let after = replayed(capture, attempts);
            &&& after.frames == successes(attempts) as int % 0x1_0000_0000_0000_0000
            &&& after.send_failures == (attempts.len() - successes(attempts))
                % 0x1_0000_0000_0000_0000
            &&& after.outage matches Some(outage) ==> outage.frames == failures_at_end(
                attempts,
            ) as int % 0x1_0000_0000_0000_0000
            &&& after.dropped_total == capture.dropped_total
            &&& after.first_frame == capture.first_frame
            &&& after.last_stats == capture.last_stats
        }),
    decreases attempts.len(),
{
    if attempts.len() > 0 {
        attempts_are_counted(capture, attempts.drop_last());
        outage_is_the_failures_at_the_end(capture, attempts.drop_last());
    }
}

/// What is reported of an attempt: that the frame was delivered; if there was an outage, that it
/// is over, how many frames were lost and how long it took; of a failure, that an outage began or
/// goes on, and that it is final exactly if five seconds have gone by since its first failure.
pub proof fn attempts_are_reported(
    capture: &mut Capture,
    ok: bool,
    now: u64,
    report: SendReport,
)
    requires
        call_ensures(Capture::frame_sent, (capture, ok, now), report),
    ensures
        ({
            let before = old(capture).outage;
            let since = if before is Some {
                before->0.since
            } else {
                now
            };
            let down = if now > since {
                now - since
            } else {
                0
            };
            &&& ok && before is None ==> report is Delivered
            &&& ok && before is Some ==> {
                &&& report matches SendReport::Recovered { discarded, down: time }
                &&& discarded == before->0.frames
                &&& time == down
            }
            &&& ok ==> final(capture).outage is None
            &&& !ok && down >= 5_000_000_000 ==> {
                &&& report matches SendReport::OutageFatal { down: time }
                &&& time == down
            }
            &&& !ok && down < 5_000_000_000 && before is None ==> report is OutageBegan
            &&& !ok && down < 5_000_000_000 && before is Some ==> report is OutageGoesOn
            &&& !ok ==> {
                &&& final(capture).outage matches Some(outage)
                &&& outage.since == since
            }
            &&& (*final(capture), report) == old(capture).after_send(ok, now)
        }),
{
}

/// The first frame is noted once, with its time, and nothing else of the capture changes.
pub proof fn first_frames_are_noted_once(capture: &mut Capture, now: u64, first: bool)
    requires
        call_ensures(Capture::frame_read, (capture, now), first),
    ensures
        first <==> old(capture).first_frame is None,
        first ==> final(capture).first_frame == Some(now),
        !first ==> *final(capture) == *old(capture),
        final(capture).frames == old(capture).frames,
        final(capture).send_failures == old(capture).send_failures,
        final(capture).outage == old(capture).outage,
        final(capture).dropped_total == old(capture).dropped_total,
        final(capture).last_stats == old(capture).last_stats,
{
}

/// Statistics are due five seconds after they last were, and not before.
pub proof fn statistics_are_due_every_five_seconds(
    capture: &mut Capture,
    now: u64,
    due: bool,
)
    requires
        call_ensures(Capture::stats_due, (capture, now), due),
    ensures
        due <==> now >= old(capture).last_stats + 5_000_000_000,
        due ==> final(capture).last_stats == now,
        !due ==> *final(capture) == *old(capture),
        final(capture).frames == old(capture).frames,
        final(capture).first_frame == old(capture).first_frame,
        final(capture).outage == old(capture).outage,
{
}

/// A round does what is planned for what it sees of the ring, a look that comes before anything is
/// taken: to a read that the ring serves belongs the oldest unread frame, and any other leaves the
/// ring as it was.
pub proof fn rounds_follow_their_plan(
    capture: &mut Capture,
    ring: &mut RingConsumer,
    pcm: &mut [i16],
    stop: bool,
    done: Round,
)
    requires
        call_ensures(Capture::round, (capture, ring, pcm, stop), done),
        old(ring).shape().capacity >= 1440 + 480 + 2048,
        old(pcm)@.len() == 960,
        960nat % old(ring).shape().channels == 0,
    ensures
        done is Stopped <==> stop,
        !stop ==> {
            let closed = final(ring).seen().closed;
            let backlog = final(ring).seen().lag;
            &&& done is SinkLost <==> closed
            &&& done is Dropped <==> !closed && backlog > 1440
            &&& done matches Round::Dropped(frames) ==> frames + 480 == backlog
            &&& done is Sleep <==> !closed && backlog < 480
            &&& (done is Frame || done is Torn) <==> !closed && 480 <= backlog <= 1440
        },
        done is Frame ==> final(ring).found().serves(960) && final(pcm)@ == final(ring).found().peek(960),
        done is Torn ==> !final(ring).found().serves(960) && final(ring).left() == final(ring).found(),
        done matches Round::Dropped(frames) ==> final(capture).dropped_total == (old(capture).dropped_total + frames) % 0x1_0000_0000_0000_0000,
        !(done is Dropped) ==> final(capture).dropped_total == old(capture).dropped_total,
{
}

/// A capture starts with all counts at zero, and what was seen unread is passed over.
pub proof fn captures_start_afresh(ring: &mut RingConsumer, now: u64, capture: Capture)
    requires
        call_ensures(Capture::start, (ring, now), capture),
        old(ring).shape().capacity >= 1440 + 480 + 2048,
    ensures
        capture.frames == 0 && capture.dropped_total == 0 && capture.send_failures == 0,
        capture.outage is None && capture.first_frame is None && capture.last_stats == now,
        final(ring).seen().lag >= final(ring).found().lag ==> final(ring).left().lag == 0,
        final(ring).seen().lag < final(ring).found().lag ==> final(ring).left().lag
            == final(ring).found().lag - final(ring).seen().lag,
{
}

} // verus!

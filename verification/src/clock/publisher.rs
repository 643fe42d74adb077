//! Publishing the time in one group for each minute: as a subgroup with an object for each
//! second, or as one datagram for each second.

use std::time::Duration;
use vstd::prelude::*;
use vstd::string::*;
use vstd::utf8::*;

use crate::clock::system::duration_of_nanos;
use crate::clock::utc::{
    law_minute_turns_at_the_boundary, law_next_minute_is_the_first,
    law_prefix_holds_for_the_minute, law_seconds_and_minutes_are_whole, UtcClock, NANOS_PER_SEC,
};

verus! {

/// Publishes the current time every second in the format `YYYY-MM-DD HH:MM:SS`.
///
/// `S` writes the subgroups of a track and `D` its datagrams.
pub struct Publisher<S, D> {
    pub track_subgroups_writer: Option<S>,
    pub track_datagrams_writer: Option<D>,
}

/// What a publisher writes to.
#[derive(Clone, Copy)]
pub enum PublishMode {
    /// A subgroup for each minute.
    Subgroups,
    /// A datagram for each second.
    Datagrams,
    /// Nothing.
    Nowhere,
}

/// A subgroup of a track.
pub struct Subgroup {
    pub group_id: u64,
    pub subgroup_id: u64,
    pub priority: u8,
}

/// A datagram of a track.
pub struct Datagram {
    pub group_id: u64,
    pub object_id: u64,
    pub priority: u8,
    pub payload: Vec<u8>,
}

/// What is published next.
pub enum Publication {
    /// Create the subgroup, and send into it the seconds of the minute of `now`.
    Minute { subgroup: Subgroup, now: UtcClock },
    /// Write the datagram, and then print the line.
    Second { datagram: Datagram, line: String },
}

/// Why a publisher stops.
#[derive(Clone, Copy)]
pub enum PublishError {
    /// The subgroup of a minute could not be created.
    CreateSegment,
    /// The datagram of a second could not be written.
    WriteDatagram,
    /// There is nothing to write to.
    NoTrackWriter,
    /// The first object of a minute could not be written.
    WriteBase,
    /// A later object of a minute could not be written.
    WriteDelta,
}

impl PublishError {
    /// The message of the error.
    pub open spec fn text(self) -> Seq<char> {
        match self {
            PublishError::CreateSegment => "failed to create minute segment"@,
            PublishError::WriteDatagram => "failed to write datagram"@,
            PublishError::NoTrackWriter => "no track writer available"@,
            PublishError::WriteBase => "failed to write base"@,
            PublishError::WriteDelta => "failed to write delta"@,
        }
    }

    /// The message of the error.
    pub fn message(&self) -> (text: &'static str)
        ensures
            text@ == self.text(),
    {
        match self {
            PublishError::CreateSegment => "failed to create minute segment",
            PublishError::WriteDatagram => "failed to write datagram",
            PublishError::NoTrackWriter => "no track writer available",
            PublishError::WriteBase => "failed to write base",
            PublishError::WriteDelta => "failed to write delta",
        }
    }
}

impl<S, D> Publisher<S, D> {
    /// What this publisher writes to: its subgroups if it has any, else its datagrams.
    pub open spec fn spec_mode(self) -> PublishMode {
        if self.track_subgroups_writer is Some {
            PublishMode::Subgroups
        } else if self.track_datagrams_writer is Some {
            PublishMode::Datagrams
        } else {
            PublishMode::Nowhere
        }
    }

    /// A publisher that writes a subgroup for each minute.
    pub fn new(track_subgroups_writer: S) -> (publisher: Self)
        ensures
            publisher.track_subgroups_writer == Some(track_subgroups_writer),
            publisher.track_datagrams_writer is None,
            publisher.spec_mode() is Subgroups,
    {
        Self {
            track_subgroups_writer: Some(track_subgroups_writer),
            track_datagrams_writer: None,
        }
    }

    /// A publisher that writes a datagram for each second.
    pub fn new_datagram(track_datagrams_writer: D) -> (publisher: Self)
        ensures
            publisher.track_subgroups_writer is None,
            publisher.track_datagrams_writer == Some(track_datagrams_writer),
            publisher.spec_mode() is Datagrams,
    {
        Self {
            track_subgroups_writer: None,
            track_datagrams_writer: Some(track_datagrams_writer),
        }
    }

    /// What this publisher writes to.
    pub fn mode(&self) -> (mode: PublishMode)
        ensures
            mode == self.spec_mode(),
            mode is Subgroups <==> self.track_subgroups_writer is Some,
            mode is Datagrams <==> self.track_subgroups_writer is None
                && self.track_datagrams_writer is Some,
    {
        if self.track_subgroups_writer.is_some() {
            PublishMode::Subgroups
        } else if self.track_datagrams_writer.is_some() {
            PublishMode::Datagrams
        } else {
            PublishMode::Nowhere
        }
    }

    /// Starts to publish at `start`, with a group that is numbered by the minute.
    pub fn run(&self, start: UtcClock) -> (run: PublisherRun)
        ensures
            run.mode == self.spec_mode(),
            run.now == start,
            run.next_group_id == start.epoch_minute() % 60,
            start.nanos < 0x8000_0000_0000_0000 * 1_000_000_000 ==> run.next_group_id
                == start.nanos as int / 60_000_000_000 % 60,
    {
        proof {
            law_seconds_and_minutes_are_whole(start);
        }
        PublisherRun { mode: self.mode(), now: start, next_group_id: start.minute() }
    }
}

/// A publisher at work: where it writes, the instant that it publishes next and the group
/// that it publishes it in.
#[derive(Clone, Copy)]
pub struct PublisherRun {
    pub mode: PublishMode,
    pub now: UtcClock,
    pub next_group_id: u32,
}

impl PublisherRun {
    /// The instant to go on to: the start of the next minute, or of the next second where
    /// datagrams are published.
    pub open spec fn next_nanos(self) -> int {
        if self.mode is Subgroups {
            self.now.next_minute_nanos()
        } else {
            self.now.next_second_nanos()
        }
    }

    /// Whether the next group is due then. That of a minute lasts for all datagrams of the
    /// minute.
    pub open spec fn opens_group(self) -> bool {
        let later = UtcClock { nanos: self.next_nanos() as u128 };
        !(self.mode is Datagrams && later.epoch_minute() == self.now.epoch_minute())
    }

    /// Whether there is an instant to go on to, and a group for it.
    pub open spec fn has_next(self) -> bool {
        &&& match self.mode {
            PublishMode::Subgroups => self.now.secs() >= 0,
            PublishMode::Datagrams => self.now.next_second_nanos() <= u128::MAX,
            PublishMode::Nowhere => false,
        }
        &&& self.opens_group() ==> self.next_group_id < u32::MAX
    }

    /// The publisher one minute or one second later.
    pub open spec fn next(self) -> PublisherRun {
        PublisherRun {
            mode: self.mode,
            now: UtcClock { nanos: self.next_nanos() as u128 },
            next_group_id: if self.opens_group() {
                (self.next_group_id + 1) as u32
            } else {
                self.next_group_id
            },
        }
    }

    /// The publisher `n` minutes or seconds later.
    pub open spec fn after(self, n: nat) -> PublisherRun
        decreases n,
    {
        if n == 0 {
            self
        } else {
            self.after((n - 1) as nat).next()
        }
    }

    /// What to publish now: the subgroup of a minute, the datagram of a second, or an error
    /// where there is nothing to write to.
    pub fn publish(&self) -> (publication: Result<Publication, PublishError>)
        ensures
            match self.mode {
                PublishMode::Subgroups => {
                    &&& publication matches Ok(Publication::Minute { subgroup, now })
                    &&& subgroup.group_id == self.next_group_id
                    &&& subgroup.subgroup_id == 0
                    &&& subgroup.priority == 0
                    &&& now == self.now
                },
                PublishMode::Datagrams => {
                    &&& publication matches Ok(Publication::Second { datagram, line })
                    &&& datagram.group_id == self.next_group_id
                    &&& datagram.object_id == 0
                    &&& datagram.priority == 127
                    &&& datagram.payload@ == encode_utf8(self.now.full_text())
                    &&& line@ == self.now.full_text()
                },
                PublishMode::Nowhere => publication == Err::<Publication, PublishError>(
                    PublishError::NoTrackWriter,
                ),
            },
    {
        match self.mode {
            PublishMode::Subgroups => Ok(
                Publication::Minute {
                    subgroup: Subgroup {
                        group_id: self.next_group_id as u64,
                        subgroup_id: 0,
                        priority: 0,
                    },
                    now: self.now,
                },
            ),
            PublishMode::Datagrams => {
                let line: String = self.now.format_full();
                Ok(
                    Publication::Second {
                        datagram: Datagram {
                            group_id: self.next_group_id as u64,
                            object_id: 0,
                            priority: 127,
                            payload: line.as_str().as_bytes_vec(),
                        },
                        line,
                    },
                )
            },
            PublishMode::Nowhere => Err(PublishError::NoTrackWriter),
        }
    }

    /// The error to stop with where the writer refused what was published.
    pub fn refused(&self) -> (error: PublishError)
        ensures
            error == match self.mode {
                PublishMode::Subgroups => PublishError::CreateSegment,
                PublishMode::Datagrams => PublishError::WriteDatagram,
                PublishMode::Nowhere => PublishError::NoTrackWriter,
            },
    {
        match self.mode {
            PublishMode::Subgroups => PublishError::CreateSegment,
            PublishMode::Datagrams => PublishError::WriteDatagram,
            PublishMode::Nowhere => PublishError::NoTrackWriter,
        }
    }

    /// Whether there is an instant to go on to, and a group for it.
    pub fn can_advance(&self) -> (can: bool)
        ensures
            can == self.has_next(),
    {
        match self.mode {
            PublishMode::Subgroups => self.now.unix_secs() >= 0 && self.next_group_id < u32::MAX,
            PublishMode::Datagrams => {
                if self.now.nanos / NANOS_PER_SEC >= u128::MAX / NANOS_PER_SEC {
                    return false;
                }
                let next: UtcClock = self.now.next_second_boundary();
                next.minute_number() == self.now.minute_number() || self.next_group_id < u32::MAX
            },
            PublishMode::Nowhere => false,
        }
    }

    /// Goes on to the start of the next minute, or of the next second where datagrams are
    /// published, and to the next group where a minute starts. The result is how long to sleep
    /// until then.
    pub fn advance(&mut self) -> (delay: Duration)
        requires
            old(self).has_next(),
        ensures
            *final(self) == old(self).next(),
            delay == duration_of_nanos(old(self).next().now.nanos_since(old(self).now)),
            final(self).mode == old(self).mode,
            old(self).mode is Subgroups ==> final(self).next_group_id == old(self).next_group_id + 1,
            old(self).mode is Subgroups && old(self).now.nanos < 0x8000_0000_0000_0000
                * 1_000_000_000 ==> {
                &&& final(self).now.nanos == (old(self).now.nanos as int / 60_000_000_000 + 1)
                    * 60_000_000_000
                &&& delay == duration_of_nanos(
                    (60_000_000_000 - old(self).now.nanos as int % 60_000_000_000) as u64,
                )
            },
            old(self).mode is Datagrams ==> {
                &&& final(self).now.nanos == (old(self).now.nanos as int / 1_000_000_000 + 1)
                    * 1_000_000_000
                &&& delay == duration_of_nanos(
                    (1_000_000_000 - old(self).now.nanos as int % 1_000_000_000) as u64,
                )
            },
            old(self).mode is Datagrams && final(self).now.nanos < 0x8000_0000_0000_0000
                * 1_000_000_000 ==> final(self).next_group_id - old(self).next_group_id
                == final(self).now.nanos as int / 60_000_000_000 - old(self).now.nanos as int
                / 60_000_000_000,
    {
        proof {
            law_next_is_a_minute_or_a_second_later(*old(self));
        }
        let (next, opens_group): (UtcClock, bool) = match self.mode {
            PublishMode::Subgroups => (self.now.next_minute_boundary(), true),
            _ => {
                let next: UtcClock = self.now.next_second_boundary();
                let turns: bool = next.minute_number() != self.now.minute_number();
                (next, turns)
            },
        };
        let delay = next.saturating_duration_since(self.now);
        if opens_group {
            self.next_group_id = self.next_group_id + 1;
        }
        self.now = next;
        delay
    }
}

/// The seconds of one minute being sent into its subgroup: first everything but the second,
/// then each second on its own.
pub struct MinuteSender {
    /// The text of the first object.
    pub base: String,
    /// The instant that is sent next.
    pub now: UtcClock,
}

impl MinuteSender {
    /// Starts to send at `now`.
    pub fn new(now: UtcClock) -> (sender: Self)
        ensures
            sender.now == now,
            sender.base@ == now.minute_text(),
    {
        Self { base: now.format_minute_prefix(), now }
    }

    /// The first object: everything but the second.
    pub fn base_object(&self) -> (object: Vec<u8>)
        ensures
            object@ == encode_utf8(self.base@),
    {
        self.base.as_str().as_bytes_vec()
    }

    /// The object of the present second.
    pub fn delta_object(&self) -> (object: Vec<u8>)
        ensures
            object@ == encode_utf8(self.now.second_text()),
    {
        self.now.format_second().as_str().as_bytes_vec()
    }

    /// The line that is printed once the present second is sent.
    pub fn line(&self) -> (line: String)
        ensures
            line@ == self.base@ + self.now.second_text(),
    {
        self.base.clone().concat(self.now.format_second().as_str())
    }

    /// Whether there is a second to wait for.
    pub fn can_wait(&self) -> (can: bool)
        ensures
            can == (self.now.next_second_nanos() <= u128::MAX),
    {
        self.now.nanos / NANOS_PER_SEC < u128::MAX / NANOS_PER_SEC
    }

    /// How long to sleep until the next second.
    pub fn delay(&self) -> (delay: Duration)
        requires
            self.now.next_second_nanos() <= u128::MAX,
        ensures
            delay == duration_of_nanos(
                (UtcClock { nanos: self.now.next_second_nanos() as u128 }).nanos_since(self.now),
            ),
            delay == duration_of_nanos(
                (1_000_000_000 - self.now.nanos as int % 1_000_000_000) as u64,
            ),
    {
        self.now.next_second_boundary().saturating_duration_since(self.now)
    }

    /// Goes on at `next`, what the clock shows after the sleep. Where the minute has turned
    /// there is nothing more to send, and the result is `false`.
    pub fn wake(&mut self, next: UtcClock) -> (goes_on: bool)
        ensures
            goes_on == (next.epoch_minute() % 60 == old(self).now.epoch_minute() % 60),
            next.nanos < 0x8000_0000_0000_0000 * 1_000_000_000 && old(self).now.nanos
                < 0x8000_0000_0000_0000 * 1_000_000_000 ==> goes_on == (next.nanos as int
                / 60_000_000_000 % 60 == old(self).now.nanos as int / 60_000_000_000 % 60),
            final(self).base@ == old(self).base@,
            final(self).now == if goes_on {
                next
            } else {
                old(self).now
            },
    {
        proof {
            law_seconds_and_minutes_are_whole(next);
            law_seconds_and_minutes_are_whole(self.now);
        }
        if next.minute() != self.now.minute() {
            return false;
        }
        self.now = next;
        true
    }
}

/// The groups of a publisher of subgroups are numbered one after another, from the minute at
/// which it started.
pub proof fn law_groups_are_consecutive(run: PublisherRun, n: nat)
    requires
        run.mode is Subgroups,
        run.next_group_id + n <= u32::MAX,
    ensures
        run.after(n).mode == run.mode,
        run.after(n).next_group_id == run.next_group_id + n,
    decreases n,
{
    if n > 0 {
        law_groups_are_consecutive(run, (n - 1) as nat);
    }
}

/// A publisher of subgroups opens one group for each minute: the `n`th after the start is
/// that of the `n`th minute after the start, and from the first on it starts with the minute.
pub proof fn law_a_group_for_each_minute(run: PublisherRun, n: nat)
    requires
        run.mode is Subgroups,
        run.now.in_range(),
        run.next_group_id + n <= u32::MAX,
        (run.now.epoch_minute() + n) * 60 <= i64::MAX,
    ensures
        run.after(n).now.in_range(),
        run.after(n).now.epoch_minute() == run.now.epoch_minute() + n,
        n > 0 ==> run.after(n).now.nanos == run.after(n).now.epoch_minute() * 60_000_000_000,
        n > 0 ==> run.after((n - 1) as nat).has_next(),
    decreases n,
{
    if n > 0 {
        let before = run.after((n - 1) as nat);
        law_a_group_for_each_minute(run, (n - 1) as nat);
        law_groups_are_consecutive(run, (n - 1) as nat);
        let nanos = before.now.next_minute_nanos();
        assert(0 <= nanos < 0x8000_0000_0000_0000 * 1_000_000_000);
        law_next_minute_is_the_first(before.now, nanos + 60_000_000_000);
        law_minute_turns_at_the_boundary(before.now, before.next().now);
    }
}

/// A publisher of datagrams writes one for each second: the `n`th after the start is that of
/// the `n`th second after the start, and from the first on it is due when the second starts.
pub proof fn law_a_datagram_for_each_second(run: PublisherRun, n: nat)
    requires
        run.mode is Datagrams,
        (run.now.nanos as int / 1_000_000_000 + n) * 1_000_000_000 <= u128::MAX,
    ensures
        run.after(n).mode == run.mode,
        run.after(n).now.nanos as int / 1_000_000_000 == run.now.nanos as int / 1_000_000_000 + n,
        n > 0 ==> run.after(n).now.nanos % 1_000_000_000 == 0,
    decreases n,
{
    if n > 0 {
        law_a_datagram_for_each_second(run, (n - 1) as nat);
    }
}

/// The groups of a publisher of datagrams are numbered by the minute: the group of the `n`th
/// datagram is as far from the first as the minutes of the two are apart, and there is always
/// a datagram to go on to.
pub proof fn law_datagram_groups_count_the_minutes(run: PublisherRun, n: nat)
    requires
        run.mode is Datagrams,
        run.now.nanos as int / 1_000_000_000 + n <= i64::MAX,
        run.next_group_id + (run.now.nanos as int / 1_000_000_000 + n) / 60 - run.now.nanos as int
            / 1_000_000_000 / 60 <= u32::MAX,
    ensures
        run.after(n).next_group_id - run.next_group_id == run.after(n).now.epoch_minute()
            - run.now.epoch_minute(),
        n > 0 ==> run.after((n - 1) as nat).has_next(),
    decreases n,
{
    let start = run.now.nanos as int / 1_000_000_000;
    law_a_datagram_for_each_second(run, n);
    assert(run.after(n).now.secs() == start + n);
    assert(run.now.secs() == start);
    if n > 0 {
        let before = run.after((n - 1) as nat);
        law_a_datagram_for_each_second(run, (n - 1) as nat);
        assert((start + n - 1) / 60 <= (start + n) / 60 <= (start + n - 1) / 60 + 1);
        law_datagram_groups_count_the_minutes(run, (n - 1) as nat);
        assert(before.now.secs() == start + n - 1);
        assert(before.next().now == run.after(n).now);
    }
}

/// There is a new group for each minute: two datagrams are in the same group if and only if
/// they are of the same minute.
pub proof fn law_datagrams_of_a_minute_share_a_group(run: PublisherRun, i: nat, j: nat)
    requires
        run.mode is Datagrams,
        i < j,
        run.now.nanos as int / 1_000_000_000 + j <= i64::MAX,
        run.next_group_id + (run.now.nanos as int / 1_000_000_000 + j) / 60 - run.now.nanos as int
            / 1_000_000_000 / 60 <= u32::MAX,
    ensures
        run.after(i).next_group_id == run.after(j).next_group_id <==> run.after(
            i,
        ).now.epoch_minute() == run.after(j).now.epoch_minute(),
{
    let start = run.now.nanos as int / 1_000_000_000;
    assert((start + i) / 60 <= (start + j) / 60);
    law_datagram_groups_count_the_minutes(run, i);
    law_datagram_groups_count_the_minutes(run, j);
}

/// A line that is printed while a minute is sent is the full text of its second, as long as
/// the clock is still in the minute that the sender started in.
pub proof fn law_lines_show_the_full_text(start: UtcClock, sender: MinuteSender)
    requires
        sender.base@ == start.minute_text(),
        sender.now.epoch_minute() == start.epoch_minute(),
    ensures
        sender.base@ + sender.now.second_text() == sender.now.full_text(),
{
    law_prefix_holds_for_the_minute(start, sender.now);
}

/// A sender that wakes within an hour goes on exactly while the minute lasts.
pub proof fn law_sender_stops_with_the_minute(now: UtcClock, next: UtcClock)
    requires
        -60 < next.epoch_minute() - now.epoch_minute() < 60,
    ensures
        next.epoch_minute() % 60 == now.epoch_minute() % 60 <==> next.epoch_minute()
            == now.epoch_minute(),
{
}

/// A publisher of subgroups goes on at the next whole minute, with the next group. A publisher of
/// datagrams goes on at the next whole second, and its groups move on as the minutes do.
pub proof fn law_next_is_a_minute_or_a_second_later(run: PublisherRun)
    requires
        run.has_next(),
    ensures
        run.next().mode == run.mode,
        run.mode is Subgroups ==> run.next().next_group_id == run.next_group_id + 1,
        run.mode is Subgroups && run.now.nanos < 0x8000_0000_0000_0000 * 1_000_000_000 ==> {
            &&& run.next().now.nanos == (run.now.nanos as int / 60_000_000_000 + 1)
                * 60_000_000_000
            &&& run.next().now.nanos_since(run.now) == 60_000_000_000 - run.now.nanos as int
                % 60_000_000_000
        },
        run.mode is Datagrams ==> {
            &&& run.next().now.nanos == (run.now.nanos as int / 1_000_000_000 + 1) * 1_000_000_000
            &&& run.next().now.nanos_since(run.now) == 1_000_000_000 - run.now.nanos as int
                % 1_000_000_000
        },
        run.mode is Datagrams && run.next().now.nanos < 0x8000_0000_0000_0000 * 1_000_000_000
            ==> run.next().next_group_id - run.next_group_id == run.next().now.nanos as int
            / 60_000_000_000 - run.now.nanos as int / 60_000_000_000,
{
    law_seconds_and_minutes_are_whole(run.now);
    law_seconds_and_minutes_are_whole(run.next().now);
    if run.mode is Subgroups {
        assert(0 <= run.now.next_minute_nanos() <= u128::MAX);
    } else {
        lemma_minutes_of_seconds(run.now.nanos as int);
    }
}

/// From one second to the next the minute stays or moves on by one.
proof fn lemma_minutes_of_seconds(nanos: int)
    requires
        0 <= nanos,
    ensures
        nanos / 60_000_000_000 <= (nanos / 1_000_000_000 + 1) * 1_000_000_000 / 60_000_000_000
            <= nanos / 60_000_000_000 + 1,
{
}

/// A publisher goes on as long as there is an instant to go on to, and a group where it needs
/// the next one.
pub proof fn law_a_publisher_goes_on(run: PublisherRun)
    requires
        run.now.nanos < 0x7fff_ffff_ffff_ffff * 1_000_000_000,
    ensures
        run.mode is Subgroups ==> (run.has_next() <==> run.next_group_id < u32::MAX),
        run.mode is Datagrams ==> (run.has_next() <==> run.next_group_id < u32::MAX || (
        run.now.nanos as int / 1_000_000_000 + 1) % 60 != 0),
        run.mode is Nowhere ==> !run.has_next(),
{
    let later = UtcClock { nanos: run.next_nanos() as u128 };
    law_seconds_and_minutes_are_whole(run.now);
    law_seconds_and_minutes_are_whole(later);
    let secs = run.now.nanos as int / 1_000_000_000;
    assert((secs + 1) / 60 == secs / 60 <==> (secs + 1) % 60 != 0);
}

} // verus!

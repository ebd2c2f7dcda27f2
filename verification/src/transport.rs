//! Bounded ingress of records and deadline-controlled writes. A reader never
//! waits for room: too much backlog invalidates the connection explicitly.
use crate::error::{error_of, protocol, transport, ChatError, ErrorSource, ErrorView};
use crate::json::{decode, parsed, Json, Tree};
use crate::number::{decimal, decimal_text, parse_text};
use crate::text::{cat3, cat4};
use std::collections::VecDeque;
use vstd::prelude::*;
use vstd::slice::slice_subrange;

verus! {

pub const SEND_FAILURE: &'static str = "Pi RPC stream closed or receive limit/failure interrupted command delivery; outcome is uncertain";

pub const BACKLOG_FAILURE: &'static str = "Pi RPC backlog limit exceeded; connection outcome is uncertain. Adjust HIBISCUS_RPC_BUFFER_MIB / HIBISCUS_RPC_MAX_RECORDS only for trusted workloads";

pub const RECORD_FAILURE: &'static str = "Pi RPC record limit exceeded; connection outcome is uncertain. Adjust HIBISCUS_RPC_BUFFER_MIB only for trusted large sessions";

pub const INVALID_RECORD: &'static str = "Invalid Pi RPC JSON record";

/// How long a command may take to be written, in milliseconds.
pub const WRITE_TIMEOUT: u64 = 30_000;

/// How often a waiting writer looks after the terminal, in milliseconds.
pub const SERVICE_INTERVAL: u64 = 16;

/// How much is written at once.
pub const WRITE_CHUNK: usize = 16_384;

// ---------------------------------------------------------------------------
// Limits
// ---------------------------------------------------------------------------

/// How much may wait: allocated bytes and records.
#[derive(Clone, Copy, Debug, PartialEq, Eq, Structural)]
pub struct Limits {
    pub bytes: usize,
    pub records: usize,
}

/// What the environment says of a setting.
pub enum Setting<'a> {
    Absent,
    Value(&'a str),
    NotText,
}

/// The value of a setting, from 1 to `max`, or what is wrong with it.
pub open spec fn setting_of(
    name: Seq<char>,
    value: Setting<'_>,
    default: nat,
    max: nat,
) -> Result<nat, Seq<char>> {
    match value {
        Setting::Absent => Ok(default),
        Setting::Value(text) => match crate::number::parse_spec(text@, usize::MAX as nat) {
            Some(n) => if 1 <= n <= max {
                Ok(n)
            } else {
                Err(name + " must be an integer from 1 to "@ + decimal(max))
            },
            None => Err(name + " must be an integer from 1 to "@ + decimal(max)),
        },
        Setting::NotText => Err(name + " must be valid UTF-8"@),
    }
}

fn setting(name: &str, value: &Setting<'_>, default: usize, max: usize) -> (r: Result<
    usize,
    String,
>)
    ensures
        match r {
            Ok(n) => setting_of(name@, *value, default as nat, max as nat) == Ok::<nat, Seq<char>>(
                n as nat,
            ),
            Err(text) => setting_of(name@, *value, default as nat, max as nat) == Err::<
                nat,
                Seq<char>,
            >(text@),
        },
{
    match value {
        Setting::Absent => Ok(default),
        Setting::Value(text) => {
            if let Some(n) = parse_text(text, usize::MAX as u64) {
                if 1 <= n && n <= max as u64 {
                    return Ok(n as usize);
                }
            }
            Err(cat3(name, " must be an integer from 1 to ", decimal_text(max as u64).as_str()))
        },
        Setting::NotText => Err(crate::text::cat2(name, " must be valid UTF-8")),
    }
}

impl Limits {
    /// The limits that the two settings ask for; the first that is wrong is
    /// reported.
    pub fn from_settings(mib: Setting<'_>, records: Setting<'_>) -> (r: Result<Self, String>)
        ensures
            match setting_of("HIBISCUS_RPC_BUFFER_MIB"@, mib, 64, 512) {
                Err(text) => r matches Err(e) && e@ == text,
                Ok(m) => match setting_of("HIBISCUS_RPC_MAX_RECORDS"@, records, 4096, 65536) {
                    Err(text) => r matches Err(e) && e@ == text,
                    Ok(n) => r matches Ok(limits) && limits.bytes == m * 1024 * 1024
                        && limits.records == n,
                },
            },
    {
        let mib: usize = setting("HIBISCUS_RPC_BUFFER_MIB", &mib, 64, 512)?;
        let records: usize = setting("HIBISCUS_RPC_MAX_RECORDS", &records, 4096, 65536)?;
        Ok(Limits { bytes: mib * 1024 * 1024, records })
    }
}

// ---------------------------------------------------------------------------
// The mailbox
// ---------------------------------------------------------------------------

/// A record that waits, and how many bytes were allocated for it.
pub struct Frame {
    pub bytes: Vec<u8>,
    pub capacity: usize,
}

pub struct State {
    pub frames: VecDeque<Frame>,
    /// Bytes allocated for the frames.
    pub bytes: usize,
    pub peak_bytes: usize,
    pub peak_records: usize,
    pub closed: bool,
    pub failure: Option<&'static str>,
    /// Whether the failure was handed out.
    pub reported: bool,
}

/// What a [`State`] holds.
#[verifier::ext_equal]
pub struct Mailbox {
    pub frames: Seq<(Seq<u8>, nat)>,
    pub bytes: nat,
    pub peak_bytes: nat,
    pub peak_records: nat,
    pub closed: bool,
    pub failure: Option<Seq<char>>,
    pub reported: bool,
}

pub open spec fn frames_view(frames: Seq<Frame>) -> Seq<(Seq<u8>, nat)> {
    Seq::new(frames.len(), |i: int| (frames[i].bytes@, frames[i].capacity as nat))
}

impl View for State {
    type V = Mailbox;

    open spec fn view(&self) -> Mailbox {
        Mailbox {
            frames: frames_view(self.frames@),
            bytes: self.bytes as nat,
            peak_bytes: self.peak_bytes as nat,
            peak_records: self.peak_records as nat,
            closed: self.closed,
            failure: match self.failure {
                Some(message) => Some(message@),
                None => None,
            },
            reported: self.reported,
        }
    }
}

/// The bytes allocated for some frames.
pub open spec fn allocated(frames: Seq<(Seq<u8>, nat)>) -> nat
    decreases frames.len(),
{
    if frames.len() == 0 {
        0
    } else {
        frames[0].1 + allocated(frames.skip(1))
    }
}

proof fn lemma_allocated_push(frames: Seq<(Seq<u8>, nat)>, frame: (Seq<u8>, nat))
    ensures
        allocated(frames.push(frame)) == allocated(frames) + frame.1,
    decreases frames.len(),
{
    if frames.len() == 0 {
        assert(frames.push(frame).skip(1) =~= Seq::empty());
        assert(allocated(frames.push(frame).skip(1)) == 0);
    } else {
        assert(frames.push(frame).skip(1) =~= frames.skip(1).push(frame));
        lemma_allocated_push(frames.skip(1), frame);
    }
}

pub open spec fn larger(a: nat, b: nat) -> nat {
    if a >= b {
        a
    } else {
        b
    }
}

impl Mailbox {
    /// The bytes are those of the frames, no peak is below the present, and
    /// nothing waits behind a failure.
    pub open spec fn wf(self) -> bool {
        &&& self.bytes == allocated(self.frames)
        &&& self.peak_bytes >= self.bytes
        &&& self.peak_records >= self.frames.len()
        &&& self.failure is Some ==> self.closed && self.frames.len() == 0
    }

    /// Never more than the limits waited.
    pub open spec fn within(self, limits: Limits) -> bool {
        self.peak_bytes <= limits.bytes && self.peak_records <= limits.records
    }

    /// The first failure stands; everything that waited is dropped with it.
    pub open spec fn fail(self, message: Seq<char>) -> Mailbox {
        Mailbox {
            failure: if self.failure is None {
                Some(message)
            } else {
                self.failure
            },
            closed: true,
            frames: Seq::empty(),
            bytes: 0,
            ..self
        }
    }

    /// There is room for a frame.
    pub open spec fn room(self, capacity: nat, limits: Limits) -> bool {
        &&& capacity <= if self.bytes <= limits.bytes {
            limits.bytes - self.bytes
        } else {
            0
        }
        &&& self.frames.len() < limits.records
    }

    /// A frame arrived. One for which there is no room invalidates the
    /// connection.
    pub open spec fn push(self, frame: Seq<u8>, capacity: nat, limits: Limits) -> Mailbox {
        if self.closed {
            self
        } else if !self.room(capacity, limits) {
            self.fail(BACKLOG_FAILURE@)
        } else {
            let frames = self.frames.push((frame, capacity));
            Mailbox {
                frames,
                bytes: self.bytes + capacity,
                peak_bytes: larger(self.peak_bytes, self.bytes + capacity),
                peak_records: larger(self.peak_records, frames.len()),
                ..self
            }
        }
    }

    /// What is handed out next: a failure, once; else the oldest record; and
    /// at the end that nothing more will come.
    pub open spec fn receive(self) -> (Mailbox, ReceivedView) {
        if self.failure is Some && !self.reported {
            (
                Mailbox { reported: true, ..self },
                ReceivedView::Failed(
                    error_of(
                        ErrorSource::Transport,
                        "Pi connection failed: "@ + self.failure->0,
                    ),
                ),
            )
        } else if self.frames.len() > 0 {
            let rest = Mailbox {
                frames: self.frames.skip(1),
                bytes: (self.bytes - self.frames[0].1) as nat,
                ..self
            };
            match parsed(self.frames[0].0) {
                Some(record) => (rest, ReceivedView::Record(record)),
                None => (
                    rest.fail(INVALID_RECORD@),
                    ReceivedView::Failed(error_of(ErrorSource::Protocol, INVALID_RECORD@)),
                ),
            }
        } else if self.closed {
            (self, ReceivedView::Closed)
        } else {
            (self, ReceivedView::Empty)
        }
    }
}

/// What the mailbox hands out.
pub enum Received {
    Record(Json),
    Failed(ChatError),
    /// Nothing more will come.
    Closed,
    /// Nothing has come yet.
    Empty,
}

/// What a [`Received`] says.
pub enum ReceivedView {
    Record(Tree),
    Failed(ErrorView),
    Closed,
    Empty,
}

impl View for Received {
    type V = ReceivedView;

    open spec fn view(&self) -> ReceivedView {
        match *self {
            Received::Record(record) => ReceivedView::Record(record@),
            Received::Failed(error) => ReceivedView::Failed(error@),
            Received::Closed => ReceivedView::Closed,
            Received::Empty => ReceivedView::Empty,
        }
    }
}

/// `Vec::capacity` is at least the length; how much more an allocator gave
/// is left open.
#[verifier::external_body]
fn capacity_of(bytes: &Vec<u8>) -> (n: usize)
    ensures
        n >= bytes@.len(),
{
    bytes.capacity()
}

/// `Vec::reserve_exact` makes room and keeps the contents.
#[verifier::external_body]
fn reserve_exact(bytes: &mut Vec<u8>, additional: usize)
    requires
        old(bytes)@.len() + additional <= isize::MAX,
    ensures
        final(bytes)@ == old(bytes)@,
{
    bytes.reserve_exact(additional)
}

/// The mailbox, as its readers and its writer share it.
pub struct Shared {
    pub state: State,
}

impl Default for Shared {
    fn default() -> (r: Self)
        ensures
            r.state@.wf(),
            r.state@ == (Mailbox {
                frames: Seq::empty(),
                bytes: 0,
                peak_bytes: 0,
                peak_records: 0,
                closed: false,
                failure: None,
                reported: false,
            }),
    {
        let state = State {
            frames: VecDeque::new(),
            bytes: 0,
            peak_bytes: 0,
            peak_records: 0,
            closed: false,
            failure: None,
            reported: false,
        };
        assert(state@.frames =~= Seq::empty());
        Shared { state }
    }
}

impl Shared {
    /// The connection failed.
    pub fn fail(&mut self, message: &'static str)
        ensures
            final(self).state@ == old(self).state@.fail(message@),
            old(self).state@.wf() ==> final(self).state@.wf(),
    {
        if self.state.failure.is_none() {
            self.state.failure = Some(message);
        }
        self.state.closed = true;
        self.state.frames.clear();
        self.state.bytes = 0;
        assert(self.state@ =~= old(self).state@.fail(message@));
    }

    /// The stream ended.
    pub fn close(&mut self)
        ensures
            final(self).state@ == (Mailbox { closed: true, ..old(self).state@ }),
            old(self).state@.wf() ==> final(self).state@.wf(),
    {
        self.state.closed = true;
        assert(self.state@ =~= (Mailbox { closed: true, ..old(self).state@ }));
    }

    /// The consumer is gone: nothing waits for it any longer.
    pub fn abandon(&mut self)
        ensures
            final(self).state@ == (Mailbox {
                closed: true,
                frames: Seq::empty(),
                bytes: 0,
                ..old(self).state@
            }),
            old(self).state@.wf() ==> final(self).state@.wf(),
    {
        self.state.closed = true;
        self.state.frames.clear();
        self.state.bytes = 0;
        assert(self.state@ =~= (Mailbox {
            closed: true,
            frames: Seq::empty(),
            bytes: 0,
            ..old(self).state@
        }));
    }

    /// A frame for which `capacity` bytes were allocated arrived. Whether it
    /// was taken.
    pub fn push_sized(&mut self, frame: Vec<u8>, capacity: usize, limits: Limits) -> (taken: bool)
        requires
            old(self).state@.wf(),
        ensures
            final(self).state@.wf(),
            final(self).state@ == old(self).state@.push(frame@, capacity as nat, limits),
            taken == (!old(self).state@.closed && old(self).state@.room(capacity as nat, limits)),
            old(self).state@.within(limits) ==> final(self).state@.within(limits),
    {
        if self.state.closed {
            return false;
        }
        let free: usize = if limits.bytes >= self.state.bytes {
            limits.bytes - self.state.bytes
        } else {
            0
        };
        if capacity > free || self.state.frames.len() >= limits.records {
            self.fail(BACKLOG_FAILURE);
            return false;
        }
        let ghost start = self.state@;
        self.state.bytes = self.state.bytes + capacity;
        self.state.frames.push_back(Frame { bytes: frame, capacity });
        if self.state.peak_bytes < self.state.bytes {
            self.state.peak_bytes = self.state.bytes;
        }
        if self.state.peak_records < self.state.frames.len() {
            self.state.peak_records = self.state.frames.len();
        }
        proof {
            lemma_allocated_push(start.frames, (frame@, capacity as nat));
            assert(self.state@.frames =~= start.frames.push((frame@, capacity as nat)));
            assert(self.state@ =~= start.push(frame@, capacity as nat, limits));
        }
        true
    }

    /// A frame arrived. Its allocation is accounted, not only its length.
    pub fn push(&mut self, frame: Vec<u8>, limits: Limits) -> (taken: bool)
        requires
            old(self).state@.wf(),
        ensures
            final(self).state@.wf(),
            exists|capacity: nat|
                capacity >= frame@.len() && #[trigger] old(self).state@.push(
                    frame@,
                    capacity,
                    limits,
                ) == final(self).state@ && taken == (!old(self).state@.closed
                    && old(self).state@.room(capacity, limits)),
            old(self).state@.within(limits) ==> final(self).state@.within(limits),
    {
        let capacity: usize = capacity_of(&frame);
        let ghost size = capacity as nat;
        let taken = self.push_sized(frame, capacity, limits);
        assert(old(self).state@.push(frame@, size, limits) == self.state@);
        taken
    }
}

/// The receiving end.
pub struct Inbox {
    pub shared: Shared,
}

impl Inbox {
    pub fn failed(&self) -> (r: bool)
        ensures
            r == (self.shared.state@.failure is Some),
    {
        self.shared.state.failure.is_some()
    }

    pub fn closed_cleanly(&self) -> (r: bool)
        ensures
            r == (self.shared.state@.closed && self.shared.state@.failure is None),
    {
        self.shared.state.closed && self.shared.state.failure.is_none()
    }

    /// What has come, without waiting. A record is read only here; until then
    /// it waits as its bytes, and no error shows them.
    pub fn receive(&mut self) -> (r: Received)
        requires
            old(self).shared.state@.wf(),
        ensures
            final(self).shared.state@.wf(),
            (final(self).shared.state@, r@) == old(self).shared.state@.receive(),
    {
        if let Some(message) = self.shared.state.failure {
            if !self.shared.state.reported {
                self.shared.state.reported = true;
                assert(self.shared.state@ =~= (Mailbox {
                    reported: true,
                    ..old(self).shared.state@
                }));
                return Received::Failed(transport(message));
            }
        }
        let ghost start = self.shared.state@;
        match self.shared.state.frames.pop_front() {
            Some(frame) => {
                assert(start.frames[0] == (frame.bytes@, frame.capacity as nat));
                self.shared.state.bytes = self.shared.state.bytes - frame.capacity;
                assert(self.shared.state@ =~= (Mailbox {
                    frames: start.frames.skip(1),
                    bytes: (start.bytes - start.frames[0].1) as nat,
                    ..start
                }));
                match decode(frame.bytes.as_slice()) {
                    Some(record) => Received::Record(record),
                    None => {
                        self.shared.fail(INVALID_RECORD);
                        Received::Failed(protocol(INVALID_RECORD))
                    },
                }
            },
            None => {
                assert(self.shared.state@ =~= start);
                if self.shared.state.closed {
                    Received::Closed
                } else {
                    Received::Empty
                }
            },
        }
    }

    /// What the mailbox held at most, for the diagnostic stream.
    pub fn metrics(&self) -> (out: String)
        ensures
            out@ == "hibiscus RPC metrics: peak_queued_bytes="@ + decimal(
                self.shared.state@.peak_bytes,
            ) + " peak_records="@ + decimal(self.shared.state@.peak_records) + (if self.shared.state@.failure is Some {
                " failed=true"@
            } else {
                " failed=false"@
            }),
    {
        let mut out = cat4(
            "hibiscus RPC metrics: peak_queued_bytes=",
            decimal_text(self.shared.state.peak_bytes as u64).as_str(),
            " peak_records=",
            decimal_text(self.shared.state.peak_records as u64).as_str(),
        );
        out.append(
            if self.failed() {
                " failed=true"
            } else {
                " failed=false"
            },
        );
        out
    }
}

// ---------------------------------------------------------------------------
// Framing
// ---------------------------------------------------------------------------

/// How many bytes belong to the first record of `bytes`: up to and with its
/// line feed, or all.
pub open spec fn record_len(bytes: Seq<u8>) -> nat
    decreases bytes.len(),
{
    if bytes.len() == 0 {
        0
    } else if bytes[0] == 10 {
        1
    } else {
        1 + record_len(bytes.skip(1))
    }
}

proof fn lemma_record_len(bytes: Seq<u8>, k: nat)
    requires
        k < bytes.len(),
        forall|j: int| 0 <= j < k ==> bytes[j] != 10,
    ensures
        bytes[k as int] == 10 ==> record_len(bytes) == k + 1,
        k + 1 == bytes.len() ==> record_len(bytes) == k + 1,
    decreases k,
{
    if k > 0 {
        lemma_record_len(bytes.skip(1), (k - 1) as nat);
    } else if bytes[0] != 10 && bytes.len() == 1 {
        assert(record_len(bytes.skip(1)) == 0);
    }
}

/// A record that is being read.
pub struct FrameReader {
    pub frame: Vec<u8>,
}

/// What some more bytes make of a record.
pub enum Fed {
    /// The stream is over; what was read of a last record, if anything.
    End(Option<Vec<u8>>),
    /// The record, and how many of the bytes belong to it.
    Frame(Vec<u8>, usize),
    /// All bytes were used and the record goes on.
    More,
    /// The record is larger than allowed.
    TooLarge,
}

/// What a [`Fed`] says.
pub enum FedView {
    End(Option<Seq<u8>>),
    Frame(Seq<u8>, nat),
    More,
    TooLarge,
}

impl View for Fed {
    type V = FedView;

    open spec fn view(&self) -> FedView {
        match *self {
            Fed::End(Some(frame)) => FedView::End(Some(frame@)),
            Fed::End(None) => FedView::End(None),
            Fed::Frame(frame, used) => FedView::Frame(frame@, used as nat),
            Fed::More => FedView::More,
            Fed::TooLarge => FedView::TooLarge,
        }
    }
}

/// What `bytes`, which the stream has next, make of a record of which `frame`
/// was read: what is kept of it, and what is known. No bytes mean that the
/// stream is over.
pub open spec fn fed(frame: Seq<u8>, bytes: Seq<u8>, limit: nat) -> (Seq<u8>, FedView) {
    let used = record_len(bytes);
    if bytes.len() == 0 {
        (
            Seq::empty(),
            FedView::End(
                if frame.len() > 0 {
                    Some(frame)
                } else {
                    None
                },
            ),
        )
    } else if frame.len() + used > limit {
        (frame, FedView::TooLarge)
    } else if bytes[used - 1] == 10 {
        (Seq::empty(), FedView::Frame(frame + bytes.take(used as int), used))
    } else {
        (frame + bytes, FedView::More)
    }
}

impl FrameReader {
    pub fn new() -> (r: Self)
        ensures
            r.frame@.len() == 0,
    {
        FrameReader { frame: Vec::new() }
    }

    /// Take `bytes`, which the stream has next; none means that it is over.
    pub fn feed(&mut self, bytes: &[u8], limit: usize) -> (r: Fed)
        requires
            old(self).frame@.len() <= limit <= isize::MAX,
        ensures
            (final(self).frame@, r@) == fed(old(self).frame@, bytes@, limit as nat),
            final(self).frame@.len() <= limit,
            r matches Fed::Frame(_, used) ==> used <= bytes@.len(),
    {
        if bytes.len() == 0 {
            let mut frame: Vec<u8> = Vec::new();
            std::mem::swap(&mut frame, &mut self.frame);
            assert(self.frame@ =~= Seq::empty());
            return Fed::End(
                if frame.len() > 0 {
                    Some(frame)
                } else {
                    None
                },
            );
        }
        let mut take: usize = 0;
        let mut done = false;
        while take < bytes.len() && !done
            invariant
                take <= bytes@.len(),
                done ==> take > 0 && bytes@[take - 1] == 10,
                forall|j: int|
                    0 <= j < (if done {
                        take - 1
                    } else {
                        take as int
                    }) ==> bytes@[j] != 10,
            decreases bytes@.len() - take,
                (if done {
                    0int
                } else {
                    1int
                }),
        {
            done = bytes[take] == 10;
            take = take + 1;
        }
        proof {
            lemma_record_len(bytes@, (take - 1) as nat);
            assert(record_len(bytes@) == take);
        }
        if take > limit - self.frame.len() {
            return Fed::TooLarge;
        }
        // Geometric growth, capped at the limit of a record.
        let capacity: usize = capacity_of(&self.frame);
        if capacity - self.frame.len() < take {
            let mut wanted: usize = capacity.saturating_add(capacity);
            if wanted < self.frame.len() + take {
                wanted = self.frame.len() + take;
            }
            if wanted > limit {
                wanted = limit;
            }
            let more: usize = wanted - self.frame.len();
            reserve_exact(&mut self.frame, more);
        }
        let part = slice_subrange(bytes, 0, take);
        let mut i: usize = 0;
        let ghost start = self.frame@;
        while i < part.len()
            invariant
                i <= part@.len(),
                self.frame@ == start + part@.take(i as int),
            decreases part@.len() - i,
        {
            self.frame.push(part[i]);
            i = i + 1;
            assert(part@.take(i as int) =~= part@.take(i - 1).push(part@[i - 1]));
            assert(self.frame@ =~= start + part@.take(i as int));
        }
        assert(part@.take(i as int) =~= bytes@.take(take as int));
        if done {
            let mut frame: Vec<u8> = Vec::new();
            std::mem::swap(&mut frame, &mut self.frame);
            assert(self.frame@ =~= Seq::empty());
            Fed::Frame(frame, take)
        } else {
            assert(bytes@.take(take as int) =~= bytes@);
            Fed::More
        }
    }
}

// ---------------------------------------------------------------------------
// Writing
// ---------------------------------------------------------------------------

/// When a command must have been written, and when the terminal was last
/// looked after.
pub struct WriteClock {
    pub deadline: Option<u64>,
    pub timeout: u64,
    pub last_service: Option<u64>,
}

/// What a writer does next.
#[derive(Clone, Copy, Debug, PartialEq, Eq, Structural)]
pub enum Attempt {
    /// The connection is gone; delivery is uncertain.
    Closed,
    /// Writing took too long; delivery is uncertain.
    TimedOut,
    /// Look after the terminal, then write.
    Service,
    Write,
}

/// When the writing that begins now must be over.
pub open spec fn write_deadline(clock: WriteClock, now: u64) -> u64 {
    match clock.deadline {
        Some(deadline) => deadline,
        None => if now + clock.timeout > u64::MAX {
            u64::MAX
        } else {
            (now + clock.timeout) as u64
        },
    }
}

/// A gone connection comes before a missed deadline, and both before
/// everything else.
pub open spec fn attempt_of(clock: WriteClock, closed: bool, now: u64) -> Attempt {
    if closed {
        Attempt::Closed
    } else if now >= write_deadline(clock, now) {
        Attempt::TimedOut
    } else if clock.last_service matches Some(time) && now - time < SERVICE_INTERVAL {
        Attempt::Write
    } else {
        Attempt::Service
    }
}

impl WriteClock {
    pub fn new() -> (r: Self)
        ensures
            r == (WriteClock { deadline: None, timeout: WRITE_TIMEOUT, last_service: None }),
    {
        WriteClock { deadline: None, timeout: WRITE_TIMEOUT, last_service: None }
    }

    /// What to do next. The deadline of a command is set once.
    pub fn attempt(&mut self, closed: bool, now: u64) -> (r: Attempt)
        ensures
            r == attempt_of(*old(self), closed, now),
            *final(self) == (WriteClock {
                deadline: Some(write_deadline(*old(self), now)),
                ..*old(self)
            }),
    {
        let deadline: u64 = match self.deadline {
            Some(deadline) => deadline,
            None => now.saturating_add(self.timeout),
        };
        self.deadline = Some(deadline);
        if closed {
            Attempt::Closed
        } else if now >= deadline {
            Attempt::TimedOut
        } else {
            match self.last_service {
                Some(time) => if now < time || now - time < SERVICE_INTERVAL {
                    Attempt::Write
                } else {
                    Attempt::Service
                },
                None => Attempt::Service,
            }
        }
    }

    /// The terminal was looked after.
    pub fn serviced(&mut self, now: u64)
        ensures
            *final(self) == (WriteClock { last_service: Some(now), ..*old(self) }),
    {
        self.last_service = Some(now);
    }

    /// A new command begins: the terminal is looked after first.
    pub fn begin(&mut self)
        ensures
            *final(self) == (WriteClock { last_service: None, ..*old(self) }),
    {
        self.last_service = None;
    }

    /// The command was written.
    pub fn flushed(&mut self)
        ensures
            *final(self) == (WriteClock { deadline: None, ..*old(self) }),
    {
        self.deadline = None;
    }
}

/// How much of `len` bytes is written at once.
pub fn write_size(len: usize) -> (n: usize)
    ensures
        n == if len < WRITE_CHUNK {
            len
        } else {
            WRITE_CHUNK
        },
{
    if len < WRITE_CHUNK {
        len
    } else {
        WRITE_CHUNK
    }
}

// ---------------------------------------------------------------------------
// Laws
// ---------------------------------------------------------------------------

/// Records come out in the order in which they went in: a record that is
/// taken waits behind all others, and the oldest is handed out first.
pub proof fn law_first_in_first_out(m: Mailbox, frame: Seq<u8>, capacity: nat, limits: Limits)
    requires
        !m.closed,
        m.failure is None,
        m.room(capacity, limits),
        m.frames.len() > 0,
        parsed(m.frames[0].0) is Some,
    ensures
        m.push(frame, capacity, limits).receive().1 == ReceivedView::Record(
            parsed(m.frames[0].0)->0,
        ),
        m.push(frame, capacity, limits).receive().0.frames == m.frames.skip(1).push(
            (frame, capacity),
        ),
{
    assert(m.frames.push((frame, capacity)).skip(1) =~= m.frames.skip(1).push((frame, capacity)));
}

/// Overload is never silent: a frame for which there is no room fails the
/// connection, and the next thing handed out is that failure.
pub proof fn law_overload_is_reported(m: Mailbox, frame: Seq<u8>, capacity: nat, limits: Limits)
    requires
        m.wf(),
        !m.closed,
        !m.reported,
        !m.room(capacity, limits),
    ensures
        m.push(frame, capacity, limits).failure == Some(BACKLOG_FAILURE@),
        m.push(frame, capacity, limits).frames.len() == 0,
        m.push(frame, capacity, limits).receive().1 is Failed,
{
}

/// A failure is reported once, and after it nothing more comes.
pub proof fn law_failure_is_reported_once(m: Mailbox)
    requires
        m.wf(),
        m.failure is Some,
        !m.reported,
    ensures
        m.receive().1 is Failed,
        m.receive().0.receive().1 == ReceivedView::Closed,
        m.receive().0.failure == m.failure,
{
}

/// A failure stays: no frame, no other failure and no reading removes it.
pub proof fn law_failure_is_sticky(
    m: Mailbox,
    other: Seq<char>,
    frame: Seq<u8>,
    capacity: nat,
    limits: Limits,
)
    requires
        m.wf(),
        m.failure is Some,
    ensures
        m.fail(other).failure == m.failure,
        m.push(frame, capacity, limits) == m,
        m.receive().0.failure == m.failure,
{
}

/// Within the limits the mailbox never held more than they allow, whatever
/// arrives, is read or fails.
pub proof fn law_limits_hold(m: Mailbox, frame: Seq<u8>, capacity: nat, limits: Limits, s: Seq<char>)
    requires
        m.wf(),
        m.within(limits),
    ensures
        m.push(frame, capacity, limits).within(limits),
        m.receive().0.within(limits),
        m.fail(s).within(limits),
        m.bytes <= limits.bytes,
        m.frames.len() <= limits.records,
{
}

/// Only a line feed ends a record: a record that is read is the beginning of
/// the stream up to and with its first line feed, in whatever pieces the
/// stream arrives.
pub proof fn law_records_end_at_line_feeds(read: Seq<u8>, bytes: Seq<u8>, rest: Seq<u8>)
    requires
        forall|j: int| 0 <= j < read.len() ==> read[j] != 10,
        bytes.len() > 0,
        bytes[record_len(bytes) - 1] == 10,
    ensures
        record_len(read + bytes + rest) == read.len() + record_len(bytes),
        (read + bytes + rest).take(record_len(read + bytes + rest) as int) == read + bytes.take(
            record_len(bytes) as int,
        ),
{
    lemma_record_bounds(bytes);
    let k = record_len(bytes);
    let all = read + bytes + rest;
    assert forall|j: int| 0 <= j < read.len() + k - 1 implies all[j] != 10 by {
        if j < read.len() {
            assert(all[j] == read[j]);
        } else {
            assert(all[j] == bytes[j - read.len()]);
        }
    }
    assert(all[read.len() + k - 1] == bytes[k - 1]);
    lemma_record_len(all, (read.len() + k - 1) as nat);
    assert(all.take(record_len(all) as int) =~= read + bytes.take(k as int));
}

proof fn lemma_record_bounds(bytes: Seq<u8>)
    requires
        bytes.len() > 0,
    ensures
        1 <= record_len(bytes) <= bytes.len(),
        forall|j: int| 0 <= j < record_len(bytes) - 1 ==> bytes[j] != 10,
    decreases bytes.len(),
{
    if bytes.len() == 1 {
        assert(record_len(bytes.skip(1)) == 0);
    } else if bytes[0] != 10 {
        lemma_record_bounds(bytes.skip(1));
        assert forall|j: int| 0 <= j < record_len(bytes) - 1 implies bytes[j] != 10 by {
            if j > 0 {
                assert(bytes[j] == bytes.skip(1)[j - 1]);
            }
        }
    }
}

/// No byte is lost or added between the pieces of a record and the record.
pub proof fn law_pieces_make_up_the_stream(read: Seq<u8>, bytes: Seq<u8>)
    requires
        bytes.len() > 0,
    ensures
        (read + bytes.take(record_len(bytes) as int)) + bytes.skip(record_len(bytes) as int) == read
            + bytes,
{
    lemma_record_bounds(bytes);
    assert((read + bytes.take(record_len(bytes) as int)) + bytes.skip(record_len(bytes) as int)
        =~= read + bytes);
}

/// Where no line feed is among the first `k` bytes, they all belong to the
/// first record.
proof fn lemma_record_reaches(bytes: Seq<u8>, k: nat)
    requires
        k <= bytes.len(),
        forall|j: int| 0 <= j < k ==> bytes[j] != 10,
    ensures
        record_len(bytes) >= k,
{
    if bytes.len() > 0 {
        lemma_record_bounds(bytes);
        let n = record_len(bytes);
        if n < k {
            lemma_record_end(bytes);
            assert(bytes[n - 1] != 10);
        }
    }
}

/// A record ends with a line feed or with the stream.
proof fn lemma_record_end(bytes: Seq<u8>)
    requires
        bytes.len() > 0,
    ensures
        1 <= record_len(bytes) <= bytes.len(),
        record_len(bytes) < bytes.len() ==> bytes[record_len(bytes) - 1] == 10,
    decreases bytes.len(),
{
    lemma_record_bounds(bytes);
    if bytes[0] != 10 && bytes.len() > 1 {
        lemma_record_end(bytes.skip(1));
        assert(bytes.skip(1)[record_len(bytes.skip(1)) - 1] == bytes[record_len(bytes) - 1]);
    }
}

/// The records of a stream.
pub open spec fn records(stream: Seq<u8>) -> Seq<Seq<u8>>
    decreases stream.len(),
{
    let n = record_len(stream);
    if stream.len() == 0 || n == 0 || n > stream.len() {
        Seq::empty()
    } else {
        seq![stream.take(n as int)] + records(stream.skip(n as int))
    }
}

/// Records one after the other.
pub open spec fn joined(records: Seq<Seq<u8>>) -> Seq<u8>
    decreases records.len(),
{
    if records.len() == 0 {
        Seq::empty()
    } else {
        records[0] + joined(records.skip(1))
    }
}

/// The records of a stream, joined, are the stream. Each holds something and
/// has a line feed at most as its last byte, and only the last one may end
/// without.
pub proof fn law_records_make_up_the_stream(stream: Seq<u8>)
    ensures
        joined(records(stream)) == stream,
        forall|i: int, j: int|
            0 <= i < records(stream).len() && 0 <= j < records(stream)[i].len() - 1
                ==> #[trigger] records(stream)[i][j] != 10,
        forall|i: int|
            0 <= i < records(stream).len() ==> (#[trigger] records(stream)[i]).len() > 0,
        forall|i: int|
            0 <= i < records(stream).len() - 1 ==> (#[trigger] records(stream)[i]).last() == 10,
    decreases stream.len(),
{
    let all = records(stream);
    if stream.len() > 0 {
        lemma_record_end(stream);
        lemma_record_bounds(stream);
        let n = record_len(stream) as int;
        let first = stream.take(n);
        let rest = stream.skip(n);
        law_records_make_up_the_stream(rest);
        assert(all.skip(1) =~= records(rest));
        assert(all[0] == first);
        assert(joined(all) =~= stream);
        assert forall|i: int, j: int| 0 <= i < all.len() && 0 <= j < all[i].len() - 1 implies
            #[trigger] all[i][j] != 10 by {
            if i == 0 {
                assert(first[j] == stream[j]);
            } else {
                assert(all[i] == records(rest)[i - 1]);
                assert(records(rest)[i - 1][j] != 10);
            }
        }
        assert forall|i: int| 0 <= i < all.len() implies (#[trigger] all[i]).len() > 0 by {
            if i > 0 {
                assert(all[i] == records(rest)[i - 1]);
            }
        }
        assert forall|i: int| 0 <= i < all.len() - 1 implies (#[trigger] all[i]).last() == 10 by {
            if i > 0 {
                assert(all[i] == records(rest)[i - 1]);
            } else {
                assert(rest.len() > 0);
                assert(first.last() == stream[n - 1]);
            }
        }
    } else {
        assert(joined(all) =~= stream);
    }
}

/// What is read of a stream, of whose next record `frame` was read already,
/// until it is over or a record is too large: the records, and whether that
/// was all. Of what is left of the stream, `cut` says how many bytes arrive
/// next.
pub open spec fn read_all(
    frame: Seq<u8>,
    rest: Seq<u8>,
    cut: spec_fn(Seq<u8>) -> nat,
    limit: nat,
) -> (Seq<Seq<u8>>, bool)
    decreases rest.len(),
{
    let k = cut(rest);
    let bytes = rest.take(k as int);
    if rest.len() == 0 {
        match fed(frame, rest, limit).1 {
            FedView::End(Some(last)) => (seq![last], true),
            _ => (Seq::empty(), true),
        }
    } else if k == 0 || k > rest.len() {
        (Seq::empty(), false)
    } else {
        match fed(frame, bytes, limit) {
            (_, FedView::Frame(record, used)) => if 0 < used <= rest.len() {
                let (more, complete) = read_all(Seq::empty(), rest.skip(used as int), cut, limit);
                (seq![record] + more, complete)
            } else {
                (Seq::empty(), false)
            },
            (kept, FedView::More) => read_all(kept, rest.skip(k as int), cut, limit),
            _ => (Seq::empty(), false),
        }
    }
}

/// What was read are the first records of a stream. It is all of them, or
/// the next one is larger than allowed.
pub open spec fn reads(stream: Seq<u8>, limit: nat, read: Seq<Seq<u8>>, complete: bool) -> bool {
    let all = records(stream);
    &&& read.len() <= all.len()
    &&& read == all.take(read.len() as int)
    &&& forall|i: int| 0 <= i < read.len() ==> (#[trigger] read[i]).len() <= limit
    &&& if complete {
        read.len() == all.len()
    } else {
        read.len() < all.len() && all[read.len() as int].len() > limit
    }
}

proof fn lemma_read_all(
    frame: Seq<u8>,
    rest: Seq<u8>,
    cut: spec_fn(Seq<u8>) -> nat,
    limit: nat,
)
    requires
        frame.len() <= limit,
        forall|j: int| 0 <= j < frame.len() ==> frame[j] != 10,
        forall|s: Seq<u8>| s.len() > 0 ==> 1 <= #[trigger] cut(s) <= s.len(),
    ensures
        ({
            let (read, complete) = read_all(frame, rest, cut, limit);
            reads(frame + rest, limit, read, complete)
        }),
    decreases rest.len(),
{
    let stream = frame + rest;
    let all = records(stream);
    let (read, complete) = read_all(frame, rest, cut, limit);
    if rest.len() == 0 {
        assert(stream =~= frame);
        if frame.len() > 0 {
            lemma_record_len(frame, (frame.len() - 1) as nat);
            assert(frame.take(frame.len() as int) =~= frame);
            assert(records(frame.skip(frame.len() as int)).len() == 0);
            assert(all =~= seq![frame]);
        }
        assert(read =~= all.take(read.len() as int));
    } else {
        let k = cut(rest);
        let bytes = rest.take(k as int);
        let later = rest.skip(k as int);
        let used = record_len(bytes);
        lemma_record_bounds(bytes);
        lemma_record_end(bytes);
        lemma_record_end(stream);
        assert(stream =~= frame + bytes + later);
        assert(all[0] == stream.take(record_len(stream) as int));
        if bytes[used - 1] == 10 {
            law_records_end_at_line_feeds(frame, bytes, later);
            let record = frame + bytes.take(used as int);
            assert(all[0] == record);
            if frame.len() + used <= limit {
                let left = rest.skip(used as int);
                lemma_read_all(Seq::empty(), left, cut, limit);
                assert(Seq::<u8>::empty() + left =~= left);
                assert(stream.skip(record_len(stream) as int) =~= left);
                let (more, _) = read_all(Seq::empty(), left, cut, limit);
                assert(read =~= seq![record] + more);
                assert(all =~= seq![record] + records(left));
                assert(all.take(read.len() as int) =~= seq![record] + records(left).take(
                    more.len() as int,
                ));
                assert forall|i: int| 0 <= i < read.len() implies (#[trigger] read[i]).len()
                    <= limit by {
                    if i > 0 {
                        assert(read[i] == more[i - 1]);
                    }
                }
            } else {
                assert(read =~= all.take(0));
            }
        } else {
            assert(used == bytes.len());
            assert forall|j: int| 0 <= j < frame.len() + used implies stream[j] != 10 by {
                if j < frame.len() {
                    assert(stream[j] == frame[j]);
                } else {
                    assert(stream[j] == bytes[j - frame.len()]);
                }
            }
            lemma_record_reaches(stream, frame.len() + used);
            if frame.len() + used <= limit {
                assert forall|j: int| 0 <= j < (frame + bytes).len() implies (frame + bytes)[j]
                    != 10 by {
                    assert((frame + bytes)[j] == stream[j]);
                }
                lemma_read_all(frame + bytes, later, cut, limit);
            } else {
                assert(read =~= all.take(0));
            }
        }
    }
}

/// However a stream arrives, what is read of it are its records, in order,
/// as far as they are no larger than allowed: all of them, unless the next
/// one is larger, and then that is said. Where all are read, they make up the
/// stream.
pub proof fn law_streams_are_read_whole(
    stream: Seq<u8>,
    cut: spec_fn(Seq<u8>) -> nat,
    limit: nat,
)
    requires
        forall|s: Seq<u8>| s.len() > 0 ==> 1 <= #[trigger] cut(s) <= s.len(),
    ensures
        ({
            let (read, complete) = read_all(Seq::empty(), stream, cut, limit);
            &&& reads(stream, limit, read, complete)
            &&& complete ==> read == records(stream) && joined(read) == stream
            &&& complete <==> forall|i: int|
                0 <= i < records(stream).len() ==> (#[trigger] records(stream)[i]).len() <= limit
        }),
{
    lemma_read_all(Seq::empty(), stream, cut, limit);
    assert(Seq::<u8>::empty() + stream =~= stream);
    law_records_make_up_the_stream(stream);
    let (read, complete) = read_all(Seq::empty(), stream, cut, limit);
    let all = records(stream);
    if complete {
        assert(all.take(all.len() as int) =~= all);
    }
}

/// A setting is what it says where that is in range, and refused where not;
/// without it the default holds.
pub proof fn law_settings_are_what_they_say(name: Seq<char>, text: &str, n: nat, default: nat, max: nat)
    requires
        text@ == decimal(n),
        n <= usize::MAX,
    ensures
        1 <= n <= max ==> setting_of(name, Setting::Value(text), default, max) == Ok::<
            nat,
            Seq<char>,
        >(n),
        n == 0 || n > max ==> setting_of(name, Setting::Value(text), default, max) is Err,
        setting_of(name, Setting::Absent, default, max) == Ok::<nat, Seq<char>>(default),
        setting_of(name, Setting::NotText, default, max) is Err,
{
    crate::number::law_numbers_read_back(n, usize::MAX as nat);
}

/// A record that is within the limits is taken, behind those that wait, and
/// nothing else changes; the room that it takes is given back when it is read.
pub proof fn law_records_within_the_limits_are_taken(
    m: Mailbox,
    frame: Seq<u8>,
    capacity: nat,
    limits: Limits,
)
    requires
        !m.closed,
        m.failure is None,
        m.bytes + capacity <= limits.bytes,
        m.frames.len() < limits.records,
    ensures
        m.push(frame, capacity, limits).frames == m.frames.push((frame, capacity)),
        m.push(frame, capacity, limits).failure is None,
        m.push(frame, capacity, limits).bytes == m.bytes + capacity,
        !m.push(frame, capacity, limits).closed,
        m.frames.len() == 0 && parsed(frame) is Some ==> m.push(
            frame,
            capacity,
            limits,
        ).receive().1 == ReceivedView::Record(parsed(frame)->0) && m.push(
            frame,
            capacity,
            limits,
        ).receive().0.frames == m.frames && m.push(frame, capacity, limits).receive().0.bytes
            == m.bytes,
{
    assert(m.frames.push((frame, capacity)).skip(1) =~= m.frames || m.frames.len() > 0);
}

/// A record beyond the limits is not taken.
pub proof fn law_records_beyond_the_limits_are_refused(
    m: Mailbox,
    frame: Seq<u8>,
    capacity: nat,
    limits: Limits,
)
    requires
        !m.closed,
        m.bytes + capacity > limits.bytes || m.frames.len() >= limits.records,
        capacity > 0,
    ensures
        m.push(frame, capacity, limits).closed,
        m.push(frame, capacity, limits).frames.len() == 0,
        m.push(frame, capacity, limits).failure is Some,
{
}

/// The most that was held is never forgotten, and never less than what is
/// held.
pub proof fn law_peaks_only_grow(m: Mailbox, frame: Seq<u8>, capacity: nat, limits: Limits)
    ensures
        m.push(frame, capacity, limits).peak_bytes >= m.peak_bytes,
        m.push(frame, capacity, limits).peak_records >= m.peak_records,
        m.receive().0.peak_bytes == m.peak_bytes,
        m.receive().0.peak_records == m.peak_records,
        m.push(frame, capacity, limits).peak_bytes <= larger(m.peak_bytes, m.bytes + capacity),
        m.push(frame, capacity, limits).peak_records <= larger(
            m.peak_records,
            m.frames.len() + 1,
        ),
{
}

/// A write is given up when its time is over, counted from the first attempt,
/// and no sooner.
pub proof fn law_writes_have_a_deadline(clock: WriteClock, first: u64, now: u64)
    requires
        clock.deadline is None,
        first <= now,
        first + clock.timeout <= u64::MAX,
    ensures
        ({
            let begun = WriteClock { deadline: Some(write_deadline(clock, first)), ..clock };
            attempt_of(begun, false, now) == Attempt::TimedOut <==> now - first >= clock.timeout
        }),
        attempt_of(clock, true, now) == Attempt::Closed,
{
}

/// Before a write goes on, what Pi sends is looked at, unless that was done a
/// moment ago.
pub proof fn law_reading_goes_on_while_writing(clock: WriteClock, time: u64, now: u64)
    requires
        now < write_deadline(clock, now),
        clock.last_service == Some(time),
        time <= now,
    ensures
        attempt_of(clock, false, now) == Attempt::Service <==> now - time >= 16,
        attempt_of(clock, false, now) == Attempt::Write <==> now - time < 16,
{
}

}

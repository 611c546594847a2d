//! Building blocks of traffic generators and listeners.

use vstd::prelude::*;
use vstd::string::*;

use crate::sys::IfIndex;
use crate::text::decimal_text;
use crate::time::TimeSpan;

verus! {

/// Stopping criteria of a traffic loop. Without limits the loop runs until the
/// caller stops it.
#[derive(Clone, Copy, Debug, Eq, PartialEq, Structural)]
pub struct RunLimit {
    /// Stop after this many packets.
    pub count: Option<u64>,
    /// Stop after this much time.
    pub duration: Option<TimeSpan>,
}

impl Default for RunLimit {
    fn default() -> (r: Self)
        ensures
            r.count is None,
            r.duration is None,
    {
        RunLimit { count: None, duration: None }
    }
}

impl RunLimit {
    /// The time limit is a proper span.
    pub open spec fn wf(self) -> bool {
        self.duration matches Some(duration) ==> duration.wf()
    }

    /// Neither limit is reached.
    pub open spec fn allows(self, completed: int, elapsed: nat) -> bool {
        &&& self.count matches Some(count) ==> completed < count
        &&& self.duration matches Some(duration) ==> elapsed < duration@
    }

    /// Returns whether both limits, if set, are still satisfied.
    #[must_use]
    pub fn keep_running(self, completed: u64, elapsed: TimeSpan) -> (r: bool)
        requires
            self.wf(),
            elapsed.wf(),
        ensures
            r == self.allows(completed as int, elapsed@),
    {
        if let Some(count) = self.count {
            if completed >= count {
                return false;
            }
        }
        if let Some(duration) = self.duration {
            if !elapsed.is_shorter_than(&duration) {
                return false;
            }
        }
        true
    }

    /// Returns whether a batch that already has `requested` packets should get
    /// one more: there is room for 64, and the limits allow another packet.
    #[must_use]
    pub fn requests_more(self, completed: u64, requested: usize, elapsed: TimeSpan) -> (r: bool)
        requires
            self.wf(),
            elapsed.wf(),
            completed + requested <= u64::MAX,
        ensures
            r == (requested < BATCH_SIZE && self.allows(completed + requested, elapsed@)),
    {
        requested < BATCH_SIZE && self.keep_running(completed + requested as u64, elapsed)
    }
}

/// Number of packets per batch.
pub const BATCH_SIZE: usize = 64;

/// The share of `count` packets that thread `index` of `threads` sends: an equal
/// part, and one more for the first threads while packets are left over.
pub open spec fn thread_share(count: int, index: int, threads: int) -> int {
    count / threads + (if index < count % threads {
        1int
    } else {
        0
    })
}

/// Returns the limits of one of several threads that share the packets.
#[must_use]
pub fn thread_limit(limit: RunLimit, index: usize, threads: usize) -> (r: RunLimit)
    requires
        threads > 0,
    ensures
        r.duration == limit.duration,
        match limit.count {
            Some(count) => r.count matches Some(share) && share == thread_share(
                count as int,
                index as int,
                threads as int,
            ),
            None => r.count is None,
        },
{
    let count = match limit.count {
        Some(count) => {
            let threads: u64 = threads as u64;
            let base: u64 = count / threads;
            let remainder: u64 = count % threads;
            proof {
                assert(base < u64::MAX || remainder == 0) by {
                    if threads > 1 && count > 0 {
                        vstd::arithmetic::div_mod::lemma_div_decreases(
                            count as int,
                            threads as int,
                        );
                    }
                }
            }
            let extra: u64 = if (index as u64) < remainder {
                1
            } else {
                0
            };
            Some(base + extra)
        },
        None => None,
    };
    RunLimit { count, duration: limit.duration }
}

/// The packets that the first `first` of `threads` threads send together.
pub open spec fn shares_sum(count: int, first: nat, threads: int) -> int
    decreases first,
{
    if first == 0 {
        0
    } else {
        shares_sum(count, (first - 1) as nat, threads) + thread_share(count, first - 1, threads)
    }
}

proof fn lemma_shares_sum(count: int, first: nat, threads: int)
    requires
        0 <= count,
        0 < threads,
        first <= threads,
    ensures
        shares_sum(count, first, threads) == first * (count / threads) + (if first < count % threads {
            first as int
        } else {
            count % threads
        }),
    decreases first,
{
    if first > 0 {
        lemma_shares_sum(count, (first - 1) as nat, threads);
        assert(first * (count / threads) == (first - 1) * (count / threads) + count / threads)
            by (nonlinear_arith);
    } else {
        assert(0 * (count / threads) == 0) by (nonlinear_arith);
    }
}

/// The threads together send exactly the packets asked for.
pub proof fn law_thread_limits_add_up(count: u64, threads: nat)
    requires
        threads > 0,
    ensures
        shares_sum(count as int, threads, threads as int) == count,
{
    lemma_shares_sum(count as int, threads, threads as int);
    vstd::arithmetic::div_mod::lemma_fundamental_div_mod(count as int, threads as int);
    assert(threads * (count as int / threads as int) == threads as int * (count as int
        / threads as int));
}

/// Why a number could not be read.
#[derive(Clone, Copy, Debug, Eq, PartialEq, Structural)]
pub enum ParseNumberError {
    /// There is no text.
    Empty,
    /// A character is not a decimal digit, or there is only a sign.
    InvalidDigit,
    /// The number is too large.
    Overflow,
}

/// The number that decimal digits spell, read from the left. The first character
/// that is no digit, or makes the number too large, decides on the error.
pub open spec fn digits_value(digits: Seq<char>) -> Result<u64, ParseNumberError>
    decreases digits.len(),
{
    if digits.len() == 0 {
        Ok(0)
    } else {
        match digits_value(digits.drop_last()) {
            Err(error) => Err(error),
            Ok(value) => if !('0' <= digits.last() <= '9') {
                Err(ParseNumberError::InvalidDigit)
            } else {
                let next = value * 10 + (digits.last() as int - '0' as int);
                if next > u64::MAX {
                    Err(ParseNumberError::Overflow)
                } else {
                    Ok(next as u64)
                }
            },
        }
    }
}

/// The number that a text spells: decimal digits behind an optional plus sign.
pub open spec fn number_value(text: Seq<char>) -> Result<u64, ParseNumberError> {
    if text.len() == 0 {
        Err(ParseNumberError::Empty)
    } else if text[0] == '+' {
        if text.len() == 1 {
            Err(ParseNumberError::InvalidDigit)
        } else {
            digits_value(text.skip(1))
        }
    } else {
        digits_value(text)
    }
}

/// Reads a decimal number.
pub fn parse_number(text: &str) -> (r: Result<u64, ParseNumberError>)
    ensures
        r == number_value(text@),
{
    let length: usize = text.unicode_len();
    if length == 0 {
        return Err(ParseNumberError::Empty);
    }
    let mut start: usize = 0;
    if text.get_char(0) == '+' {
        if length == 1 {
            return Err(ParseNumberError::InvalidDigit);
        }
        start = 1;
    }
    let ghost digits = text@.skip(start as int);
    assert(text@.skip(0) =~= text@);
    let mut value: u64 = 0;
    let mut at: usize = start;
    assert(digits.take(0) =~= Seq::<char>::empty());
    while at < length
        invariant
            start <= at <= length,
            length == text@.len(),
            digits == text@.skip(start as int),
            number_value(text@) == digits_value(digits),
            digits_value(digits.take(at - start)) == Ok::<u64, ParseNumberError>(value),
        decreases length - at,
    {
        let c = text.get_char(at);
        proof {
            let now = at - start;
            assert(digits.take(now + 1).drop_last() =~= digits.take(now));
            assert(digits.take(now + 1).last() == c);
        }
        if c < '0' || c > '9' {
            proof {
                lemma_digits_error(digits, at - start + 1);
            }
            return Err(ParseNumberError::InvalidDigit);
        }
        let digit: u64 = (c as u32 - '0' as u32) as u64;
        if value > u64::MAX / 10 || (value == u64::MAX / 10 && digit > u64::MAX % 10) {
            proof {
                lemma_digits_error(digits, at - start + 1);
            }
            return Err(ParseNumberError::Overflow);
        }
        value = value * 10 + digit;
        at = at + 1;
    }
    assert(digits.take(length - start) =~= digits);
    Ok(value)
}

proof fn lemma_digits_error(digits: Seq<char>, read: int)
    requires
        0 <= read <= digits.len(),
        digits_value(digits.take(read)) is Err,
    ensures
        digits_value(digits) == digits_value(digits.take(read)),
    decreases digits.len(),
{
    if read < digits.len() {
        assert(digits.drop_last().take(read) =~= digits.take(read));
        lemma_digits_error(digits.drop_last(), read);
    } else {
        assert(digits.take(read) =~= digits);
    }
}

/// Reads a span of whole milliseconds.
pub fn parse_duration_ms(text: &str) -> (r: Result<TimeSpan, ParseNumberError>)
    ensures
        match number_value(text@) {
            Ok(millis) => r matches Ok(span) && span.wf() && span@ == millis as nat * 1_000_000,
            Err(error) => r == Err::<TimeSpan, ParseNumberError>(error),
        },
{
    match parse_number(text) {
        Ok(millis) => Ok(TimeSpan::from_millis(millis)),
        Err(error) => Err(error),
    }
}

/// Packets and time between two progress reports.
#[derive(Clone, Copy, Debug, Eq, PartialEq, Structural)]
pub struct ProgressReport {
    /// Packets since the last report.
    pub packets: u64,
    /// Time since the last report.
    pub window: TimeSpan,
}

/// Ticks after which the clock is read once.
pub const TICKS_BETWEEN_CLOCK_CHECKS: u32 = 1024;

/// When to report progress: at most once a second, reading the clock only every
/// [`TICKS_BETWEEN_CLOCK_CHECKS`] ticks. Times are counted from the start.
#[derive(Clone, Copy, Debug, Eq, PartialEq, Structural)]
pub struct Progress {
    last: TimeSpan,
    last_count: u64,
    ticks_since_clock_check: u32,
}

impl Progress {
    /// The time of the last report.
    pub closed spec fn last_time(self) -> TimeSpan {
        self.last
    }

    /// The packet count of the last report.
    pub closed spec fn reported(self) -> u64 {
        self.last_count
    }

    /// The ticks since the clock was read.
    pub closed spec fn ticks(self) -> u32 {
        self.ticks_since_clock_check
    }

    /// The clock is read before too many ticks have passed.
    pub open spec fn wf(self) -> bool {
        self.last_time().wf() && self.ticks() < TICKS_BETWEEN_CLOCK_CHECKS
    }

    /// Starts with nothing reported.
    #[must_use]
    pub fn new() -> (r: Self)
        ensures
            r.wf(),
            r.last_time()@ == 0,
            r.reported() == 0,
            r.ticks() == 0,
    {
        Progress { last: TimeSpan::new(0, 0), last_count: 0, ticks_since_clock_check: 0 }
    }

    /// Counts a tick. Returns whether the clock is to be read.
    pub fn tick(&mut self) -> (r: bool)
        requires
            old(self).wf(),
        ensures
            final(self).wf(),
            final(self).last_time() == old(self).last_time(),
            final(self).reported() == old(self).reported(),
            r == (old(self).ticks() + 1 == TICKS_BETWEEN_CLOCK_CHECKS),
            final(self).ticks() == (if r {
                0
            } else {
                old(self).ticks() + 1
            }),
    {
        self.ticks_since_clock_check = self.ticks_since_clock_check + 1;
        if self.ticks_since_clock_check < TICKS_BETWEEN_CLOCK_CHECKS {
            return false;
        }
        self.ticks_since_clock_check = 0;
        true
    }

    /// Decides at time `now` whether to report `count` packets: a second after the
    /// last report.
    pub fn sample(&mut self, now: TimeSpan, count: u64) -> (r: Option<ProgressReport>)
        requires
            old(self).wf(),
            now.wf(),
            count >= old(self).reported(),
        ensures
            final(self).wf(),
            final(self).ticks() == old(self).ticks(),
            if now@ >= old(self).last_time()@ + 1_000_000_000 {
                &&& r matches Some(report)
                &&& report.packets == count - old(self).reported()
                &&& report.window.wf()
                &&& report.window@ == now@ - old(self).last_time()@
                &&& final(self).last_time() == now
                &&& final(self).reported() == count
            } else {
                &&& r is None
                &&& *final(self) == *old(self)
            },
    {
        let window = now.saturating_since(&self.last);
        if window.is_shorter_than(&TimeSpan::new(1, 0)) {
            return None;
        }
        let packets: u64 = count - self.last_count;
        self.last = now;
        self.last_count = count;
        Some(ProgressReport { packets, window })
    }
}

/// Returns a payload of `len` bytes that count up from 0 and start over at 256.
#[must_use]
pub fn payload(len: usize) -> (r: Vec<u8>)
    ensures
        r@ == Seq::new(len as nat, |i: int| (i % 256) as u8),
{
    let mut out: Vec<u8> = Vec::with_capacity(len);
    while out.len() < len
        invariant
            out@.len() <= len,
            forall|i: int| 0 <= i < out@.len() ==> (#[trigger] out@[i]) == (i % 256) as u8,
        decreases len - out@.len(),
    {
        let byte: u8 = (out.len() % 256) as u8;
        out.push(byte);
    }
    assert(out@ =~= Seq::new(len as nat, |i: int| (i % 256) as u8));
    out
}

/// First port of the dynamic range.
pub const FIRST_DYNAMIC_PORT: u16 = 49152;

/// Returns a UDP source port of the dynamic range derived from a process ID. Not
/// collision-free across processes.
#[must_use]
pub fn dynamic_source_port(process_id: u32) -> (r: u16)
    ensures
        r == 49152 + process_id % 16384,
{
    FIRST_DYNAMIC_PORT + (process_id % 16384) as u16
}

/// Byte `i` of the big-endian form of `sequence`.
pub open spec fn sequence_byte(sequence: u64, i: int) -> u8 {
    (sequence as int / power_of_256(7 - i) % 256) as u8
}

/// 256 to the power of `exponent`.
pub open spec fn power_of_256(exponent: int) -> int {
    if exponent <= 0 {
        1
    } else if exponent == 1 {
        0x100
    } else if exponent == 2 {
        0x1_0000
    } else if exponent == 3 {
        0x100_0000
    } else if exponent == 4 {
        0x1_0000_0000
    } else if exponent == 5 {
        0x100_0000_0000
    } else if exponent == 6 {
        0x1_0000_0000_0000
    } else {
        0x100_0000_0000_0000
    }
}

/// `payload` with the big-endian `sequence` in its first eight bytes, as far as
/// there are that many.
pub open spec fn with_sequence(payload: Seq<u8>, sequence: u64) -> Seq<u8> {
    Seq::new(
        payload.len(),
        |i: int|
            if i < 8 {
                sequence_byte(sequence, i)
            } else {
                payload[i]
            },
    )
}

/// Writes a sequence number to the start of a payload.
pub fn write_sequence(payload: &mut [u8], sequence: u64)
    ensures
        final(payload)@ == with_sequence(old(payload)@, sequence),
{
    let mut at: usize = 8;
    let mut rest: u64 = sequence;
    while at > 0
        invariant
            at <= 8,
            payload@.len() == old(payload)@.len(),
            at > 0 ==> rest == sequence as int / power_of_256(8 - at),
            forall|i: int|
                0 <= i < payload@.len() ==> (#[trigger] payload@[i]) == (if at <= i < 8 {
                    sequence_byte(sequence, i)
                } else {
                    old(payload)@[i]
                }),
        decreases at,
    {
        at = at - 1;
        if at < payload.len() {
            payload[at] = (rest % 256) as u8;
        }
        rest = rest / 256;
        proof {
            lemma_next_power(sequence as int, 7 - at);
        }
    }
    assert(payload@ =~= with_sequence(old(payload)@, sequence));
}

proof fn lemma_next_power(sequence: int, exponent: int)
    requires
        0 <= sequence,
        0 <= exponent <= 7,
    ensures
        exponent < 7 ==> sequence / power_of_256(exponent) / 256 == sequence / power_of_256(
            exponent + 1,
        ),
{
    vstd::arithmetic::div_mod::lemma_div_denominator(sequence, power_of_256(exponent), 256);
}

/// The number that the first eight bytes spell.
pub open spec fn sequence_of(payload: Seq<u8>) -> int {
    payload[0] * 0x100_0000_0000_0000 + payload[1] * 0x1_0000_0000_0000 + payload[2]
        * 0x100_0000_0000 + payload[3] * 0x1_0000_0000 + payload[4] * 0x100_0000 + payload[5]
        * 0x1_0000 + payload[6] * 0x100 + payload[7]
}

/// A sequence number can be read back from a payload of at least eight bytes.
pub proof fn law_sequence_round_trip(payload: Seq<u8>, sequence: u64)
    requires
        payload.len() >= 8,
    ensures
        sequence_of(with_sequence(payload, sequence)) == sequence,
{
    let written = with_sequence(payload, sequence);
    let s = sequence as int;
    let rest = |k: int| s / power_of_256(k);
    assert forall|k: int| 0 <= k < 7 implies #[trigger] rest(k) == 256 * rest(k + 1) + written[7
        - k] by {
        lemma_next_power(s, k);
        assert(rest(k) == 256 * (rest(k) / 256) + rest(k) % 256);
    }
    assert(rest(0) == 256 * rest(1) + written[7]);
    assert(rest(1) == 256 * rest(2) + written[6]);
    assert(rest(2) == 256 * rest(3) + written[5]);
    assert(rest(3) == 256 * rest(4) + written[4]);
    assert(rest(4) == 256 * rest(5) + written[3]);
    assert(rest(5) == 256 * rest(6) + written[2]);
    assert(rest(6) == 256 * rest(7) + written[1]);
    assert(rest(7) == written[0]);
    assert(rest(0) == s);
}

/// Signal presses after which the process exits at once.
pub const FORCE_EXIT_PRESSES: usize = 3;

/// Returns whether a shutdown signal was received.
#[must_use]
pub fn shutdown_requested(presses: usize) -> (r: bool)
    ensures
        r == (presses > 0),
{
    presses > 0
}

/// Decides on a shutdown signal after `earlier` ones: the first presses only ask the
/// loops to finish, the third one forces the exit with a code that names the signal.
#[must_use]
pub fn forced_exit(earlier: usize, signal: i32) -> (r: Option<i32>)
    requires
        earlier < usize::MAX,
        signal <= i32::MAX - 128,
    ensures
        r == (if earlier + 1 >= 3 {
            Some((128 + signal) as i32)
        } else {
            None
        }),
{
    if earlier + 1 >= FORCE_EXIT_PRESSES {
        Some(128 + signal)
    } else {
        None
    }
}

/// Which network interface to use.
#[derive(Clone, Debug, Eq, PartialEq)]
pub enum InterfaceSelector {
    /// By index.
    Index(IfIndex),
    /// By name.
    Name(String),
}

/// Why no network interface was selected.
#[derive(Clone, Copy, Debug, Eq, PartialEq, Structural)]
pub enum InterfaceSelectorError {
    /// Both an index and a name were given.
    Both,
    /// Neither an index nor a name was given.
    Neither,
}

impl InterfaceSelectorError {
    /// The text that describes this error.
    pub open spec fn message_text(self) -> Seq<char> {
        match self {
            InterfaceSelectorError::Both => "use only one of --ifindex or --iface"@,
            InterfaceSelectorError::Neither => "missing --ifindex N or --iface NAME"@,
        }
    }

    /// Renders this error for people.
    pub fn message(&self) -> (r: String)
        ensures
            r@ == self.message_text(),
    {
        match self {
            InterfaceSelectorError::Both => "use only one of --ifindex or --iface".to_owned(),
            InterfaceSelectorError::Neither => "missing --ifindex N or --iface NAME".to_owned(),
        }
    }
}

/// Selects an interface from mutually exclusive options. The index 0 names none.
pub fn interface_selector(ifindex: Option<u32>, iface: Option<String>) -> (r: Result<
    InterfaceSelector,
    InterfaceSelectorError,
>)
    requires
        ifindex == Some(0u32) ==> iface is Some,
    ensures
        match (ifindex, iface) {
            (Some(index), None) => r matches Ok(InterfaceSelector::Index(selected))
                && selected.value() == index,
            (None, Some(name)) => r == Ok::<InterfaceSelector, InterfaceSelectorError>(
                InterfaceSelector::Name(name),
            ),
            (Some(_), Some(_)) => r == Err::<InterfaceSelector, InterfaceSelectorError>(
                InterfaceSelectorError::Both,
            ),
            (None, None) => r == Err::<InterfaceSelector, InterfaceSelectorError>(
                InterfaceSelectorError::Neither,
            ),
        },
{
    match (ifindex, iface) {
        (Some(index), None) => Ok(InterfaceSelector::Index(IfIndex::new(index))),
        (None, Some(name)) => Ok(InterfaceSelector::Name(name)),
        (Some(_), Some(_)) => Err(InterfaceSelectorError::Both),
        (None, None) => Err(InterfaceSelectorError::Neither),
    }
}

/// `at` is the first position of its interface.
pub open spec fn is_first_occurrence(slots: Seq<IfIndex>, at: int) -> bool {
    forall|i: int| 0 <= i < at ==> (#[trigger] slots[i]) != slots[at]
}

/// Returns the queue slots for which a program has to be attached: the first slot of
/// every interface, in order.
#[must_use]
pub fn attach_xdp_programs_for_slots(slots: &Vec<IfIndex>) -> (r: Vec<usize>)
    ensures
        forall|k: int|
            0 <= k < r@.len() ==> (#[trigger] r@[k]) < slots@.len() && is_first_occurrence(
                slots@,
                r@[k] as int,
            ),
        forall|k: int, l: int| 0 <= k < l < r@.len() ==> r@[k] < r@[l],
        forall|at: int|
            0 <= at < slots@.len() && #[trigger] is_first_occurrence(slots@, at) ==> r@.contains(
                at as usize,
            ),
{
    let mut out: Vec<usize> = Vec::new();
    let mut at: usize = 0;
    while at < slots.len()
        invariant
            at <= slots@.len(),
            forall|k: int|
                0 <= k < out@.len() ==> (#[trigger] out@[k]) < at && is_first_occurrence(
                    slots@,
                    out@[k] as int,
                ),
            forall|k: int, l: int| 0 <= k < l < out@.len() ==> out@[k] < out@[l],
            forall|i: int|
                0 <= i < at && #[trigger] is_first_occurrence(slots@, i) ==> out@.contains(
                    i as usize,
                ),
        decreases slots@.len() - at,
    {
        let ghost before = out@;
        let mut known = false;
        let mut i: usize = 0;
        while i < at
            invariant
                i <= at < slots@.len(),
                known == !(forall|j: int| 0 <= j < i ==> (#[trigger] slots@[j]) != slots@[at as int]),
            decreases at - i,
        {
            if slots[i] == slots[at] {
                assert(slots@[i as int] == slots@[at as int]);
                known = true;
            }
            i = i + 1;
        }
        assert(known == !is_first_occurrence(slots@, at as int));
        if !known {
            out.push(at);
            proof {
                assert(out@[before.len() as int] == at);
                assert forall|k: int| 0 <= k < before.len() implies out@[k] == before[k] by {}
            }
        }
        proof {
            assert forall|i: int|
                0 <= i < at + 1 && #[trigger] is_first_occurrence(
                    slots@,
                    i,
                ) implies out@.contains(i as usize) by {
                if i < at {
                    let k = choose|k: int| 0 <= k < before.len() && before[k] == i as usize;
                    assert(out@[k] == i as usize);
                }
            }
        }
        at = at + 1;
    }
    out
}

/// `programs` holds the attached slots of `slots`: positions in it.
pub open spec fn are_positions(slots: Seq<IfIndex>, programs: Seq<usize>) -> bool {
    forall|k: int| 0 <= k < programs.len() ==> (#[trigger] programs[k]) < slots.len()
}

/// The program `k` is attached to `interface`.
pub open spec fn serves_interface(
    slots: Seq<IfIndex>,
    programs: Seq<usize>,
    k: int,
    interface: IfIndex,
) -> bool {
    slots[programs[k] as int] == interface
}

/// Some program serves the interface.
pub open spec fn is_served(
    slots: Seq<IfIndex>,
    programs: Seq<usize>,
    interface: IfIndex,
) -> bool {
    exists|k: int|
        0 <= k < programs.len() && #[trigger] serves_interface(slots, programs, k, interface)
}

/// Returns the program that is attached to the interface of a queue slot, as its
/// number among the attached programs.
#[must_use]
pub fn xdp_program_for_slot(slots: &Vec<IfIndex>, programs: &Vec<usize>, interface: IfIndex) -> (r:
    Option<usize>)
    requires
        are_positions(slots@, programs@),
    ensures
        match r {
            Some(found) => {
                &&& found < programs@.len()
                &&& serves_interface(slots@, programs@, found as int, interface)
                &&& forall|k: int|
                    0 <= k < found ==> !#[trigger] serves_interface(slots@, programs@, k, interface)
            },
            None => forall|k: int|
                0 <= k < programs@.len() ==> !#[trigger] serves_interface(
                    slots@,
                    programs@,
                    k,
                    interface,
                ),
        },
        r is Some <==> is_served(slots@, programs@, interface),
{
    let mut at: usize = 0;
    while at < programs.len()
        invariant
            at <= programs@.len(),
            are_positions(slots@, programs@),
            forall|k: int|
                0 <= k < at ==> !#[trigger] serves_interface(slots@, programs@, k, interface),
        decreases programs@.len() - at,
    {
        let position: usize = programs[at];
        if slots[position] == interface {
            assert(serves_interface(slots@, programs@, at as int, interface));
            return Some(at);
        }
        at = at + 1;
    }
    None
}

/// Every queue slot has a program, and only one, once programs are attached to the
/// first slot of every interface.
pub proof fn law_every_slot_has_one_program(slots: Seq<IfIndex>, programs: Seq<usize>, slot: int)
    requires
        0 <= slot < slots.len() <= usize::MAX,
        forall|k: int|
            0 <= k < programs.len() ==> (#[trigger] programs[k]) < slots.len()
                && is_first_occurrence(slots, programs[k] as int),
        forall|k: int, l: int| 0 <= k < l < programs.len() ==> programs[k] < programs[l],
        forall|at: int|
            0 <= at < slots.len() && #[trigger] is_first_occurrence(slots, at)
                ==> programs.contains(at as usize),
    ensures
        exists|k: int|
            0 <= k < programs.len() && #[trigger] serves_interface(
                slots,
                programs,
                k,
                slots[slot],
            ),
        forall|k: int, l: int|
            0 <= k < l < programs.len() ==> !(#[trigger] serves_interface(
                slots,
                programs,
                k,
                slots[slot],
            ) && #[trigger] serves_interface(slots, programs, l, slots[slot])),
{
    let first = lemma_first_occurrence(slots, slot);
    assert(is_first_occurrence(slots, first));
    assert(programs.contains(first as usize));
    let k = choose|k: int| 0 <= k < programs.len() && programs[k] == first as usize;
    assert(serves_interface(slots, programs, k, slots[slot]));
    assert forall|k: int, l: int| 0 <= k < l < programs.len() implies !(
    #[trigger] serves_interface(slots, programs, k, slots[slot])
        && #[trigger] serves_interface(slots, programs, l, slots[slot])) by {
        assert(programs[k] < programs[l]);
        assert(is_first_occurrence(slots, programs[l] as int));
    }
}

proof fn lemma_first_occurrence(slots: Seq<IfIndex>, slot: int) -> (first: int)
    requires
        0 <= slot < slots.len(),
    ensures
        0 <= first <= slot,
        slots[first] == slots[slot],
        is_first_occurrence(slots, first),
    decreases slot,
{
    if is_first_occurrence(slots, slot) {
        slot
    } else {
        let i = choose|i: int| 0 <= i < slot && #[trigger] slots[i] == slots[slot];
        lemma_first_occurrence(slots, i)
    }
}

/// Reads an interface argument: a number is an index, anything else a name. The
/// index 0 names no interface.
pub fn interface_argument(text: String) -> (r: InterfaceSelector)
    requires
        number_value(text@) != Ok::<u64, ParseNumberError>(0u64),
    ensures
        match number_value(text@) {
            Ok(number) if number <= u32::MAX => r matches InterfaceSelector::Index(index)
                && index.value() == number,
            _ => r == InterfaceSelector::Name(text),
        },
{
    if let Ok(number) = parse_number(text.as_str()) {
        if number <= u32::MAX as u64 {
            return InterfaceSelector::Index(IfIndex::new(number as u32));
        }
    }
    InterfaceSelector::Name(text)
}

/// Returns the CPUs that handle receive queues, each once and in ascending order, or
/// nothing if no queue has one.
#[must_use]
pub fn incoming_cpus(queue_cpus: &Vec<u32>) -> (r: Option<Vec<u32>>)
    ensures
        r is None <==> queue_cpus@.len() == 0,
        r matches Some(cpus) ==> {
            &&& forall|k: int, l: int| 0 <= k < l < cpus@.len() ==> cpus@[k] < cpus@[l]
            &&& forall|cpu: u32| #[trigger] cpus@.contains(cpu) <==> queue_cpus@.contains(cpu)
        },
{
    if queue_cpus.len() == 0 {
        return None;
    }
    let mut cpus: Vec<u32> = Vec::new();
    let mut at: usize = 0;
    while at < queue_cpus.len()
        invariant
            at <= queue_cpus@.len(),
            forall|k: int, l: int| 0 <= k < l < cpus@.len() ==> cpus@[k] < cpus@[l],
            forall|cpu: u32| #[trigger]
                cpus@.contains(cpu) <==> queue_cpus@.take(at as int).contains(cpu),
        decreases queue_cpus@.len() - at,
    {
        let cpu: u32 = queue_cpus[at];
        let ghost seen = queue_cpus@.take(at as int);
        let ghost before = cpus@;
        let mut place: usize = 0;
        while place < cpus.len() && cpus[place] < cpu
            invariant
                place <= cpus@.len(),
                forall|k: int| 0 <= k < place ==> (#[trigger] cpus@[k]) < cpu,
            decreases cpus@.len() - place,
        {
            place = place + 1;
        }
        proof {
            let next = queue_cpus@.take(at + 1);
            assert(next =~= seen.push(cpu));
            assert(next[at as int] == cpu);
            assert forall|other: u32| #[trigger]
                next.contains(other) == (seen.contains(other) || other == cpu) by {
                if seen.contains(other) {
                    let i = choose|i: int| 0 <= i < seen.len() && seen[i] == other;
                    assert(next[i] == other);
                }
                if next.contains(other) && other != cpu {
                    let i = choose|i: int| 0 <= i < next.len() && next[i] == other;
                    assert(seen[i] == other);
                }
            }
        }
        if place == cpus.len() || cpus[place] != cpu {
            cpus.insert(place, cpu);
            proof {
                assert(cpus@ =~= before.insert(place as int, cpu));
                assert(cpus@[place as int] == cpu);
                assert forall|other: u32| #[trigger]
                    cpus@.contains(other) == (before.contains(other) || other == cpu) by {
                    if before.contains(other) {
                        let i = choose|i: int| 0 <= i < before.len() && before[i] == other;
                        assert(cpus@[if i < place {
                            i
                        } else {
                            i + 1
                        }] == other);
                    }
                    if cpus@.contains(other) && other != cpu {
                        let i = choose|i: int| 0 <= i < cpus@.len() && cpus@[i] == other;
                        assert(before[if i < place {
                            i
                        } else {
                            i - 1
                        }] == other);
                    }
                }
            }
        } else {
            assert(before[place as int] == cpu);
        }
        at = at + 1;
    }
    assert(queue_cpus@.take(at as int) =~= queue_cpus@);
    Some(cpus)
}

/// A run goes on while it is below each limit that it has, and asks for more while its
/// batch of 64 is not full and the limits allow what was asked for already.
pub proof fn law_runs_stop_at_their_limits(
    limit: RunLimit,
    completed: u64,
    requested: usize,
    elapsed: TimeSpan,
)
    ensures
        forall|r: bool| #[trigger]
            call_ensures(RunLimit::keep_running, (limit, completed, elapsed), r) ==> {
                &&& limit.count is None && limit.duration is None ==> r
                &&& limit.count matches Some(count) ==> (completed >= count ==> !r)
                &&& limit.duration matches Some(duration) ==> (elapsed@ >= duration@ ==> !r)
                &&& !r ==> (limit.count matches Some(count) && completed >= count) || (
                limit.duration matches Some(duration) && elapsed@ >= duration@)
            },
        forall|r: bool| #[trigger]
            call_ensures(RunLimit::requests_more, (limit, completed, requested, elapsed), r) ==> {
                &&& requested >= 64 ==> !r
                &&& requested < 64 && limit.count is None && limit.duration is None ==> r
                &&& limit.count matches Some(count) ==> (completed + requested >= count ==> !r)
                &&& limit.duration matches Some(duration) ==> (elapsed@ >= duration@ ==> !r)
                &&& !r && requested < 64 ==> (limit.count matches Some(count) && completed
                    + requested >= count) || (limit.duration matches Some(duration) && elapsed@
                    >= duration@)
            },
{
}

/// A count is dealt out to the threads in turn: a thread gets one for each round in which
/// the count reaches it. The time limit is the same for all.
pub proof fn law_counts_are_dealt_out_in_turn(
    limit: RunLimit,
    index: usize,
    threads: usize,
    r: RunLimit,
)
    requires
        call_ensures(thread_limit, (limit, index, threads), r),
        index < threads,
    ensures
        r.duration == limit.duration,
        r.count is Some <==> limit.count is Some,
        limit.count matches Some(count) ==> {
            &&& r.count->0 * threads >= count - index
            &&& (r.count->0 - 1) * threads < count - index
        },
{
    if let Some(count) = limit.count {
        let t = threads as int;
        let whole = count as int / t;
        let rest = count as int % t;
        let share = r.count->0 as int;
        vstd::arithmetic::div_mod::lemma_fundamental_div_mod(count as int, t);
        assert(t * whole == whole * t) by (nonlinear_arith);
        assert((whole + 1) * t == whole * t + t) by (nonlinear_arith);
        assert((whole - 1) * t == whole * t - t) by (nonlinear_arith);
        assert(share == whole || share == whole + 1);
        assert(0 <= rest < t);
    }
}

proof fn lemma_digits_of_decimal(n: nat)
    requires
        n <= u64::MAX,
    ensures
        digits_value(decimal_text(n)) == Ok::<u64, ParseNumberError>(n as u64),
        decimal_text(n).len() > 0,
        decimal_text(n)[0] != '+',
    decreases n,
{
    reveal_with_fuel(digits_value, 2);
    if n >= 10 {
        lemma_digits_of_decimal(n / 10);
        let text = decimal_text(n);
        assert(text.drop_last() =~= decimal_text(n / 10));
        assert(text[0] == decimal_text(n / 10)[0]);
    } else {
        assert(decimal_text(n).drop_last() =~= Seq::<char>::empty());
    }
}

/// A number is read digit by digit: each counts ten times what stands behind it. What is
/// no digit is refused, and so is what does not fit.
pub proof fn law_numbers_are_read_digit_by_digit(digits: Seq<char>, next: char)
    ensures
        digits_value(Seq::<char>::empty()) == Ok::<u64, ParseNumberError>(0),
        digits_value(digits) matches Err(error) ==> digits_value(digits.push(next)) == Err::<
            u64,
            ParseNumberError,
        >(error),
        digits_value(digits) matches Ok(value) ==> {
            let digit = next as int - 48;
            &&& !(0 <= digit <= 9) ==> digits_value(digits.push(next)) == Err::<
                u64,
                ParseNumberError,
            >(ParseNumberError::InvalidDigit)
            &&& 0 <= digit <= 9 && value * 10 + digit <= 0xffff_ffff_ffff_ffff ==> digits_value(
                digits.push(next),
            ) == Ok::<u64, ParseNumberError>((value * 10 + digit) as u64)
            &&& 0 <= digit <= 9 && value * 10 + digit > 0xffff_ffff_ffff_ffff ==> digits_value(
                digits.push(next),
            ) == Err::<u64, ParseNumberError>(ParseNumberError::Overflow)
        },
{
    assert(digits.push(next).drop_last() =~= digits);
}

/// A number's decimal text is read back as that number, with or without a plus sign in
/// front. Nothing is no number, and neither is a plus sign alone.
pub proof fn law_decimal_texts_are_read_back(
    text: &str,
    n: u64,
    r: Result<u64, ParseNumberError>,
    span: Result<TimeSpan, ParseNumberError>,
)
    requires
        call_ensures(parse_number, (text,), r),
        call_ensures(parse_duration_ms, (text,), span),
    ensures
        text@ == decimal_text(n as nat) ==> r == Ok::<u64, ParseNumberError>(n),
        text@ == seq!['+'] + decimal_text(n as nat) ==> r == Ok::<u64, ParseNumberError>(n),
        text@.len() == 0 <==> r == Err::<u64, ParseNumberError>(ParseNumberError::Empty),
        text@ == seq!['+'] ==> r == Err::<u64, ParseNumberError>(ParseNumberError::InvalidDigit),
        r matches Ok(millis) ==> (span matches Ok(duration) && duration@ == millis * 1_000_000),
        r matches Err(error) ==> span == Err::<TimeSpan, ParseNumberError>(error),
{
    lemma_digits_of_decimal(n as nat);
    lemma_digits_are_not_empty(text@);
    if text@.len() > 0 {
        lemma_digits_are_not_empty(text@.skip(1));
    }
    assert((seq!['+'] + decimal_text(n as nat)).skip(1) =~= decimal_text(n as nat));
}

proof fn lemma_digits_are_not_empty(digits: Seq<char>)
    ensures
        digits_value(digits) != Err::<u64, ParseNumberError>(ParseNumberError::Empty),
    decreases digits.len(),
{
    if digits.len() > 0 {
        lemma_digits_are_not_empty(digits.drop_last());
    }
}

/// The clock is looked at on every 1024th tick, and a report is made of what has come in
/// since the last one, once a second or more has passed.
pub proof fn law_progress_is_reported_every_second(
    now: TimeSpan,
    count: u64,
    look: bool,
    r: Option<ProgressReport>,
)
    ensures
        forall|progress: &mut Progress| #[trigger]
            call_ensures(Progress::tick, (progress,), look) && progress.wf() ==> {
                &&& look <==> progress.ticks() == 1023
                &&& look ==> final(progress).ticks() == 0
                &&& !look ==> final(progress).ticks() == progress.ticks() + 1
                &&& final(progress).reported() == progress.reported()
                &&& final(progress).last_time() == progress.last_time()
            },
        forall|progress: &mut Progress| #[trigger]
            call_ensures(Progress::sample, (progress, now, count), r) ==> {
                &&& r is Some <==> now@ >= progress.last_time()@ + 1_000_000_000
                &&& r matches Some(report) ==> {
                    &&& progress.reported() + report.packets == count
                    &&& progress.last_time()@ + report.window@ == now@
                    &&& final(progress).reported() == count
                    &&& final(progress).last_time() == now
                }
                &&& r is None ==> final(progress).reported() == progress.reported()
                    && final(progress).last_time() == progress.last_time()
            },
{
}

/// A payload counts its bytes up, starting over at 256.
pub proof fn law_payload_bytes_count_up(len: usize, r: Vec<u8>)
    requires
        call_ensures(payload, (len,), r),
    ensures
        r@.len() == len,
        len > 0 ==> r@[0] == 0,
        forall|i: int|
            0 <= i && i + 1 < len ==> #[trigger] r@[i + 1] == (if r@[i] == 255 {
                0int
            } else {
                r@[i] + 1
            }),
{
}

/// A source port is one of the 16384 dynamic ones, and processes with neighbouring numbers
/// have neighbouring ports.
pub proof fn law_source_ports_are_dynamic(process_id: u32, r: u16, next: u16)
    requires
        call_ensures(dynamic_source_port, (process_id,), r),
        process_id < u32::MAX,
        call_ensures(dynamic_source_port, ((process_id + 1) as u32,), next),
    ensures
        49152 <= r <= 65535,
        r < 65535 ==> next == r + 1,
        r == 65535 ==> next == 49152,
        process_id < 16384 ==> r == 49152 + process_id,
{
}

/// A sequence number stands in the first eight bytes of a payload, most significant byte
/// first, and nothing else changes. A shorter payload has the leading bytes of it.
pub proof fn law_sequence_numbers_lead_the_payload(sequence: u64)
    ensures
        forall|payload: &mut [u8]| #[trigger]
            call_ensures(write_sequence, (payload, sequence), ()) ==> {
                let after = final(payload)@;
                &&& after.len() == payload@.len()
                &&& forall|i: int| 8 <= i < after.len() ==> #[trigger] after[i] == payload@[i]
                &&& after.len() >= 8 ==> after[0] * 0x100_0000_0000_0000 + after[1]
                    * 0x1_0000_0000_0000 + after[2] * 0x100_0000_0000 + after[3] * 0x1_0000_0000
                    + after[4] * 0x100_0000 + after[5] * 0x1_0000 + after[6] * 0x100 + after[7]
                    == sequence
            },
        forall|short: &mut [u8], long: &mut [u8], i: int|
            #![trigger call_ensures(write_sequence, (short, sequence), ()), call_ensures(
                write_sequence,
                (long, sequence),
                (),
            ), final(short)@[i]]
            call_ensures(write_sequence, (short, sequence), ()) && call_ensures(
                write_sequence,
                (long, sequence),
                (),
            ) && 0 <= i < 8 && i < short@.len() && i < long@.len() ==> final(short)@[i]
                == final(long)@[i],
{
    assert forall|payload: &mut [u8]| #[trigger]
        call_ensures(write_sequence, (payload, sequence), ()) implies {
        let after = final(payload)@;
        &&& after.len() == payload@.len()
        &&& forall|i: int| 8 <= i < after.len() ==> #[trigger] after[i] == payload@[i]
        &&& after.len() >= 8 ==> after[0] * 0x100_0000_0000_0000 + after[1] * 0x1_0000_0000_0000
            + after[2] * 0x100_0000_0000 + after[3] * 0x1_0000_0000 + after[4] * 0x100_0000
            + after[5] * 0x1_0000 + after[6] * 0x100 + after[7] == sequence
    } by {
        if payload@.len() >= 8 {
            law_sequence_round_trip(payload@, sequence);
        }
    }
}

/// The first two interrupts ask for a stop, and the third one ends the process at once with
/// the signal's exit code.
pub proof fn law_third_interrupt_forces_the_exit(earlier: usize, signal: i32, r: Option<i32>)
    requires
        call_ensures(forced_exit, (earlier, signal), r),
        0 <= signal <= i32::MAX - 128,
    ensures
        earlier < 2 ==> r is None,
        earlier >= 2 ==> (r matches Some(code) && code == 128 + signal),
        forall|stop: bool| #[trigger]
            call_ensures(shutdown_requested, (earlier,), stop) ==> (stop <==> earlier > 0),
{
}

/// An interface is named by its index or by its name, by exactly one of the two.
pub proof fn law_interfaces_are_named_once(
    ifindex: Option<u32>,
    iface: Option<String>,
    r: Result<InterfaceSelector, InterfaceSelectorError>,
)
    requires
        call_ensures(interface_selector, (ifindex, iface), r),
    ensures
        r is Ok <==> (ifindex is Some) != (iface is Some),
        r matches Ok(InterfaceSelector::Index(index)) ==> ifindex == Some(index.value()),
        r matches Ok(InterfaceSelector::Name(name)) ==> iface == Some(name),
        r matches Err(error) ==> (error is Both <==> ifindex is Some),
        r matches Err(error) ==> (error is Neither <==> ifindex is None),
{
}

/// A number that can be an index is one, and any other text is a name.
pub proof fn law_interface_arguments_are_indexes_or_names(text: String, n: u32, r: InterfaceSelector)
    requires
        call_ensures(interface_argument, (text,), r),
    ensures
        text@ == decimal_text(n as nat) && n > 0 ==> (r matches InterfaceSelector::Index(index)
            && index.value() == n),
        r matches InterfaceSelector::Name(name) ==> name == text,
        r matches InterfaceSelector::Index(index) ==> number_value(text@) == Ok::<
            u64,
            ParseNumberError,
        >(index.value() as u64),
{
    lemma_digits_of_decimal(n as nat);
}

/// Each interface gets one program, at its first slot, and every slot finds one, the program
/// of its interface.
pub proof fn law_slots_find_their_program(
    slots: &Vec<IfIndex>,
    programs: Vec<usize>,
    slot: int,
    interface: IfIndex,
    r: Option<usize>,
)
    requires
        call_ensures(attach_xdp_programs_for_slots, (slots,), programs),
        0 <= slot < slots@.len() <= usize::MAX,
        interface == slots@[slot],
        call_ensures(xdp_program_for_slot, (slots, &programs, interface), r),
    ensures
        r is Some,
        exists|k: int|
            0 <= k < programs@.len() && slots@[#[trigger] programs@[k] as int] == interface,
        r matches Some(k) ==> k < programs@.len() && slots@[programs@[k as int] as int] == interface
            && programs@[k as int] <= slot,
        forall|k: int, l: int|
            0 <= k < l < programs@.len() ==> slots@[#[trigger] programs@[k] as int]
                != slots@[#[trigger] programs@[l] as int],
{
    law_every_slot_has_one_program(slots@, programs@, slot);
    let k = choose|k: int|
        0 <= k < programs@.len() && #[trigger] serves_interface(slots@, programs@, k, interface);
    assert(slots@[programs@[k] as int] == interface);
    if let Some(found) = r {
        assert(is_first_occurrence(slots@, programs@[found as int] as int));
    }
    assert forall|k: int, l: int| 0 <= k < l < programs@.len() implies slots@[
        #[trigger] programs@[k] as int] != slots@[#[trigger] programs@[l] as int] by {
        assert(is_first_occurrence(slots@, programs@[l] as int));
        assert(programs@[k] < programs@[l]);
        assert(slots@[programs@[k] as int] != slots@[programs@[l] as int]);
    }
}

/// The CPUs that packets should come in on are those of the queues, each once, in ascending
/// order. Without queues there is no wish.
pub proof fn law_incoming_cpus_are_those_of_the_queues(queue_cpus: &Vec<u32>, r: Option<Vec<u32>>)
    requires
        call_ensures(incoming_cpus, (queue_cpus,), r),
    ensures
        queue_cpus@.len() == 0 <==> r is None,
        r matches Some(cpus) ==> {
            &&& forall|k: int, l: int|
                0 <= k < l < cpus@.len() ==> #[trigger] cpus@[k] < #[trigger] cpus@[l]
            &&& forall|k: int|
                0 <= k < cpus@.len() ==> queue_cpus@.contains(#[trigger] cpus@[k])
            &&& forall|q: int|
                0 <= q < queue_cpus@.len() ==> cpus@.contains(#[trigger] queue_cpus@[q])
        },
{
    if let Some(cpus) = r {
        assert forall|k: int| 0 <= k < cpus@.len() implies queue_cpus@.contains(
            #[trigger] cpus@[k],
        ) by {
            assert(cpus@.contains(cpus@[k]));
        }
        assert forall|q: int| 0 <= q < queue_cpus@.len() implies cpus@.contains(
            #[trigger] queue_cpus@[q],
        ) by {
            assert(queue_cpus@.contains(queue_cpus@[q]));
        }
    }
}

/// What a wrong choice of interface is told.
pub proof fn law_selector_errors_say_what_is_wrong(error: &InterfaceSelectorError, r: String)
    requires
        call_ensures(InterfaceSelectorError::message, (error,), r),
    ensures
        *error is Both ==> r@ == "use only one of --ifindex or --iface"@,
        *error is Neither ==> r@ == "missing --ifindex N or --iface NAME"@,
{
}

} // verus!

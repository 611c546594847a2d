//! Polling modes of a tile worker, and how an idle worker waits.

use vstd::prelude::*;

use crate::io::IoError;
use crate::policy::{BusyPollDriverKind, PollDriver, WaitDrivenDriverKind};
use crate::tile::TileError;

verus! {

/// Longest time that an idle parked worker sleeps, in milliseconds.
pub const PARK_IDLE_TIMEOUT_MS: i32 = 1;

/// Poll event: there is something to read.
pub const POLLIN: u16 = 1;

/// Keeps the set of polling modes closed.
pub trait Sealed {

}

/// Concrete tile polling mode kind.
#[derive(Clone, Copy, Debug, Eq, PartialEq, Structural)]
pub enum TilePollModeKind {
    /// Busy-polling tile loop.
    Spin,
    /// Wait-driven tile loop.
    Park,
}

/// Tile worker polling mode.
///
/// [`Spin`] is for busy-poll sockets. [`Park`] is for wait-driven sockets and
/// sleeps on socket wake handles plus per-lane transmit wake handles.
pub trait TilePollMode: Sealed {
    /// Per-lane wake state used by this mode.
    type State;

    /// The polling mode kind.
    spec fn kind_spec() -> TilePollModeKind;

    /// The descriptor that wakes a parked worker.
    spec fn wake_fd_spec(state: Self::State) -> Option<i32>;

    /// Returns the polling mode kind.
    fn kind() -> (r: TilePollModeKind)
        ensures
            r == Self::kind_spec(),
    ;

    /// Returns the descriptor that a producer has to signal after a successful push.
    fn on_push(state: &Self::State) -> (r: Option<i32>)
        ensures
            r == Self::wake_fd_spec(*state),
    ;

    /// Returns the descriptor that wakes a parked worker for this lane.
    fn wake_fd(state: &Self::State) -> (r: Option<i32>)
        ensures
            r == Self::wake_fd_spec(*state),
    ;
}

/// Marker trait implemented when a socket driver supports a tile polling mode.
pub trait TilePollModeDriver<M: TilePollMode>: PollDriver {

}

impl<D: BusyPollDriverKind> TilePollModeDriver<Spin> for D {

}

impl<D: WaitDrivenDriverKind> TilePollModeDriver<Park> for D {

}

/// Busy-poll tile mode.
#[derive(Clone, Copy, Debug, Default, Eq, PartialEq, Structural)]
pub struct Spin;

impl Sealed for Spin {

}

impl TilePollMode for Spin {
    type State = ();

    open spec fn kind_spec() -> TilePollModeKind {
        TilePollModeKind::Spin
    }

    open spec fn wake_fd_spec(state: ()) -> Option<i32> {
        None
    }

    fn kind() -> TilePollModeKind {
        TilePollModeKind::Spin
    }

    fn on_push(state: &()) -> Option<i32> {
        None
    }

    fn wake_fd(state: &()) -> Option<i32> {
        None
    }
}

/// Wait-driven tile mode.
#[derive(Clone, Copy, Debug, Default, Eq, PartialEq, Structural)]
pub struct Park;

impl Sealed for Park {

}

/// Per-lane wake state used by [`Park`]: the descriptor of an event counter.
#[derive(Clone, Copy, Debug, Eq, PartialEq, Structural)]
pub struct ParkState {
    /// The descriptor.
    pub fd: i32,
}

impl TilePollMode for Park {
    type State = ParkState;

    open spec fn kind_spec() -> TilePollModeKind {
        TilePollModeKind::Park
    }

    open spec fn wake_fd_spec(state: ParkState) -> Option<i32> {
        Some(state.fd)
    }

    fn kind() -> TilePollModeKind {
        TilePollModeKind::Park
    }

    fn on_push(state: &ParkState) -> Option<i32> {
        Some(state.fd)
    }

    fn wake_fd(state: &ParkState) -> Option<i32> {
        Some(state.fd)
    }
}

/// Every one of `fds` is there.
pub open spec fn all_present(fds: Seq<Option<i32>>) -> bool {
    forall|i: int| 0 <= i < fds.len() ==> (#[trigger] fds[i]) is Some
}

/// The descriptors themselves.
pub open spec fn present(fds: Seq<Option<i32>>) -> Seq<i32> {
    Seq::new(fds.len(), |i: int| fds[i]->0)
}

fn collect_fds(fds: &Vec<Option<i32>>) -> (r: Option<Vec<i32>>)
    ensures
        r is Some <==> all_present(fds@),
        r matches Some(out) ==> out@ == present(fds@),
{
    let mut out: Vec<i32> = Vec::with_capacity(fds.len());
    let mut at: usize = 0;
    while at < fds.len()
        invariant
            at <= fds@.len(),
            out@.len() == at,
            forall|i: int| 0 <= i < at ==> #[trigger] fds@[i] == Some(out@[i]),
        decreases fds@.len() - at,
    {
        match fds[at] {
            Some(fd) => {
                out.push(fd);
            },
            None => {
                assert(fds@[at as int] is None);
                return None;
            },
        }
        at = at + 1;
    }
    assert(out@ =~= present(fds@));
    Some(out)
}

/// What an idle worker waits on.
#[derive(Clone, Debug, Eq, PartialEq)]
pub struct IdleWait {
    kind: TilePollModeKind,
    poll_fds: Vec<i32>,
    lane_wake_count: usize,
}

impl IdleWait {
    /// The polling mode.
    pub closed spec fn kind_of(&self) -> TilePollModeKind {
        self.kind
    }

    /// The descriptors to poll: those of the lanes, then those of the sockets.
    pub closed spec fn fds(&self) -> Seq<i32> {
        self.poll_fds@
    }

    /// How many of the descriptors belong to lanes.
    pub closed spec fn lane_wakes_spec(&self) -> nat {
        self.lane_wake_count as nat
    }

    /// The lanes' descriptors are among those to poll.
    pub open spec fn wf(&self) -> bool {
        self.lane_wakes_spec() <= self.fds().len()
    }

    /// Collects what a worker of the given mode waits on. A parked worker needs
    /// the wake descriptor of every lane and of every socket.
    pub fn new(
        kind: TilePollModeKind,
        lane_wakes: &Vec<Option<i32>>,
        socket_wakes: &Vec<Option<i32>>,
    ) -> (r: Result<Self, TileError>)
        ensures
            match r {
                Ok(idle) => {
                    &&& idle.wf()
                    &&& idle.kind_of() == kind
                    &&& match kind {
                        TilePollModeKind::Spin => idle.fds().len() == 0 && idle.lane_wakes_spec()
                            == 0,
                        TilePollModeKind::Park => {
                            &&& all_present(lane_wakes@)
                            &&& all_present(socket_wakes@)
                            &&& idle.fds() == present(lane_wakes@) + present(socket_wakes@)
                            &&& idle.lane_wakes_spec() == lane_wakes@.len()
                        },
                    }
                },
                Err(error) => {
                    &&& error == TileError::MissingWakeHandle
                    &&& kind == TilePollModeKind::Park
                    &&& !(all_present(lane_wakes@) && all_present(socket_wakes@))
                },
            },
    {
        match kind {
            TilePollModeKind::Spin => Ok(
                IdleWait { kind, poll_fds: Vec::new(), lane_wake_count: 0 },
            ),
            TilePollModeKind::Park => {
                let mut poll_fds: Vec<i32> = match collect_fds(lane_wakes) {
                    Some(fds) => fds,
                    None => {
                        return Err(TileError::MissingWakeHandle);
                    },
                };
                let mut sockets: Vec<i32> = match collect_fds(socket_wakes) {
                    Some(fds) => fds,
                    None => {
                        return Err(TileError::MissingWakeHandle);
                    },
                };
                poll_fds.append(&mut sockets);
                Ok(IdleWait { kind, poll_fds, lane_wake_count: lane_wakes.len() })
            },
        }
    }

    /// Returns the descriptors to poll.
    #[must_use]
    pub fn poll_fds(&self) -> (r: &Vec<i32>)
        ensures
            r@ == self.fds(),
    {
        &self.poll_fds
    }

    /// Returns the lanes' descriptors, which are drained before the lanes are
    /// looked at a last time. A spinning worker has none.
    #[must_use]
    pub fn lane_wakes(&self) -> (r: Vec<i32>)
        requires
            self.wf(),
        ensures
            r@ == self.fds().take(self.lane_wakes_spec() as int),
    {
        let mut out: Vec<i32> = Vec::with_capacity(self.lane_wake_count);
        while out.len() < self.lane_wake_count
            invariant
                self.wf(),
                out@.len() <= self.lane_wake_count,
                out@ == self.poll_fds@.take(out@.len() as int),
            decreases self.lane_wake_count - out@.len(),
        {
            let ghost before = out@;
            let at: usize = out.len();
            out.push(self.poll_fds[at]);
            assert(out@ =~= self.poll_fds@.take(out@.len() as int));
        }
        out
    }

    /// Decides whether an idle worker sleeps: only a parked one, and only when no
    /// lane has queued work since. A parked worker without anything to wait on fails.
    pub fn sleeps(&self, lane_tx_queues_empty: bool) -> (r: Result<bool, TileError>)
        ensures
            r == (if self.kind_of() == TilePollModeKind::Spin || !lane_tx_queues_empty {
                Ok::<bool, TileError>(false)
            } else if self.fds().len() == 0 {
                Err::<bool, TileError>(TileError::MissingWakeHandle)
            } else {
                Ok::<bool, TileError>(true)
            }),
    {
        match self.kind {
            TilePollModeKind::Spin => Ok(false),
            TilePollModeKind::Park => {
                if !lane_tx_queues_empty {
                    return Ok(false);
                }
                if self.poll_fds.len() == 0 {
                    return Err(TileError::MissingWakeHandle);
                }
                Ok(true)
            },
        }
    }

    /// Returns the lanes' descriptors that became readable, given the events of
    /// all descriptors. They are drained after the sleep.
    #[must_use]
    pub fn ready_lane_wakes(&self, events: &Vec<u16>) -> (r: Vec<i32>)
        requires
            self.wf(),
            events@.len() == self.fds().len(),
        ensures
            r@ == readable(
                self.fds().take(self.lane_wakes_spec() as int),
                events@.take(self.lane_wakes_spec() as int),
            ),
    {
        let mut out: Vec<i32> = Vec::new();
        let mut at: usize = 0;
        assert(self.poll_fds@.take(0) =~= Seq::<i32>::empty());
        while at < self.lane_wake_count
            invariant
                self.wf(),
                at <= self.lane_wake_count,
                events@.len() == self.poll_fds@.len(),
                out@ == readable(self.poll_fds@.take(at as int), events@.take(at as int)),
            decreases self.lane_wake_count - at,
        {
            assert(self.poll_fds@.take(at + 1).drop_last() =~= self.poll_fds@.take(at as int));
            assert(events@.take(at + 1).drop_last() =~= events@.take(at as int));
            if events[at] % 2 != 0 {
                out.push(self.poll_fds[at]);
            }
            at = at + 1;
        }
        out
    }
}

/// The descriptors whose events say that there is something to read.
pub open spec fn readable(fds: Seq<i32>, events: Seq<u16>) -> Seq<i32>
    decreases fds.len(),
{
    if fds.len() == 0 {
        Seq::empty()
    } else {
        let earlier = readable(fds.drop_last(), events.drop_last());
        if events.last() % 2 != 0 {
            earlier.push(fds.last())
        } else {
            earlier
        }
    }
}

/// What a sleep of an idle worker returns: a failed poll is an error, any other
/// ends the sleep.
pub fn after_poll(outcome: Result<u32, IoError>) -> (r: Result<(), TileError>)
    ensures
        r == (match outcome {
            Ok(_) => Ok::<(), TileError>(()),
            Err(error) => Err::<(), TileError>(TileError::Wait(error)),
        }),
{
    match outcome {
        Ok(_) => Ok(()),
        Err(error) => Err(TileError::Wait(error)),
    }
}

/// The bit that says that there is something to read is the lowest one.
pub proof fn law_readable_is_the_lowest_bit(events: u16)
    ensures
        (events & POLLIN != 0) == (events % 2 != 0),
{
    assert((events & 1 != 0) == (events % 2 != 0)) by (bit_vector);
}

/// A parking worker waits for every lane and every socket, the lanes first, and cannot
/// where one of them cannot wake it. A spinning worker waits for nothing.
pub proof fn law_parked_workers_wait_for_everything(
    kind: TilePollModeKind,
    lane_wakes: &Vec<Option<i32>>,
    socket_wakes: &Vec<Option<i32>>,
    r: Result<IdleWait, TileError>,
)
    requires
        call_ensures(IdleWait::new, (kind, lane_wakes, socket_wakes), r),
    ensures
        kind is Spin ==> (r matches Ok(idle) && idle.fds().len() == 0 && idle.lane_wakes_spec()
            == 0),
        r matches Err(error) ==> error is MissingWakeHandle && kind is Park && ((exists|i: int|
            0 <= i < lane_wakes@.len() && (#[trigger] lane_wakes@[i]) is None) || (exists|i: int|
            0 <= i < socket_wakes@.len() && (#[trigger] socket_wakes@[i]) is None)),
        r matches Ok(idle) ==> idle.kind_of() == kind,
        kind is Park ==> (r matches Ok(idle) ==> {
            &&& idle.lane_wakes_spec() == lane_wakes@.len()
            &&& idle.fds().len() == lane_wakes@.len() + socket_wakes@.len()
            &&& forall|i: int|
                0 <= i < lane_wakes@.len() ==> #[trigger] lane_wakes@[i] == Some(idle.fds()[i])
            &&& forall|i: int|
                0 <= i < socket_wakes@.len() ==> #[trigger] socket_wakes@[i] == Some(
                    idle.fds()[lane_wakes@.len() + i],
                )
        }),
{
}

/// A worker sleeps only where it parks, nothing is queued by a lane, and something can wake
/// it.
pub proof fn law_workers_sleep_only_when_idle(
    idle: &IdleWait,
    lane_tx_queues_empty: bool,
    r: Result<bool, TileError>,
)
    requires
        call_ensures(IdleWait::sleeps, (idle, lane_tx_queues_empty), r),
    ensures
        r == Ok::<bool, TileError>(true) <==> idle.kind_of() is Park && lane_tx_queues_empty
            && idle.fds().len() > 0,
        r is Err <==> idle.kind_of() is Park && lane_tx_queues_empty && idle.fds().len() == 0,
        r matches Err(error) ==> error is MissingWakeHandle,
{
}

/// Of the lanes that a worker waited for, those are ready whose events have the lowest bit,
/// in order.
pub proof fn law_ready_lanes_are_the_readable_ones(
    fds: Seq<i32>,
    events: Seq<u16>,
    fd: i32,
    event: u16,
)
    ensures
        readable(Seq::<i32>::empty(), Seq::<u16>::empty()).len() == 0,
        event & 1 != 0 ==> readable(fds.push(fd), events.push(event)) == readable(
            fds,
            events,
        ).push(fd),
        event & 1 == 0 ==> readable(fds.push(fd), events.push(event)) == readable(fds, events),
{
    assert(fds.push(fd).drop_last() =~= fds);
    assert(events.push(event).drop_last() =~= events);
    law_readable_is_the_lowest_bit(event);
}

/// Only the lanes' events are looked at for ready lanes, and a failed poll is an error.
pub proof fn law_sockets_are_no_ready_lanes(
    idle: &IdleWait,
    events: &Vec<u16>,
    other: &Vec<u16>,
    r: Vec<i32>,
    r_other: Vec<i32>,
)
    requires
        idle.wf(),
        call_ensures(IdleWait::ready_lane_wakes, (idle, events), r),
        call_ensures(IdleWait::ready_lane_wakes, (idle, other), r_other),
        events@.take(idle.lane_wakes_spec() as int) == other@.take(idle.lane_wakes_spec() as int),
    ensures
        r@ == r_other@,
        idle.lane_wakes_spec() == 0 ==> r@.len() == 0,
        forall|outcome: Result<u32, IoError>, after: Result<(), TileError>| #[trigger]
            call_ensures(after_poll, (outcome,), after) ==> match outcome {
                Ok(_) => after is Ok,
                Err(error) => after == Err::<(), TileError>(TileError::Wait(error)),
            },
{
}

/// A parking worker is woken through its own handle, and a spinning one through none.
pub proof fn law_wake_handles(state: &ParkState, r: Option<i32>)
    ensures
        call_ensures(Park::on_push, (state,), r) ==> r == Some(state.fd),
        call_ensures(Park::wake_fd, (state,), r) ==> r == Some(state.fd),
        call_ensures(Spin::on_push, (&(),), r) ==> r is None,
        call_ensures(Spin::wake_fd, (&(),), r) ==> r is None,
        forall|kind: TilePollModeKind| #[trigger]
            call_ensures(Park::kind, (), kind) ==> kind is Park,
        forall|kind: TilePollModeKind| #[trigger]
            call_ensures(Spin::kind, (), kind) ==> kind is Spin,
{
}

/// A parked worker looks after a millisecond at the latest whether it has work.
pub proof fn law_parked_workers_wake_every_millisecond()
    ensures
        PARK_IDLE_TIMEOUT_MS == 1,
        POLLIN == 1,
{
}

} // verus!

//! Groups of tiles that share their lanes, and the state of their workers.

use vstd::prelude::*;

use crate::device::counter_sum;
use crate::io::IoError;
use crate::net::SocketAddr;
use crate::sys::QueueId;
use crate::text::{decimal_text, push_decimal};
use crate::tile::{IngressClassifier, SourceAddrClassifier, TileConfig, TileError, TileStats};
use crate::time::TimeSpan;
use crate::udp::{UdpRxBuffer, UdpSocket};
use crate::udp_tile::{tile_config_ok, UdpSocketSet, UdpTile, UdpTileHandle};

verus! {

/// Error returned while building a group of AF_XDP UDP tiles.
pub enum XdpTileBuildError {
    /// Setting up the queues failed.
    Setup(IoError),
    /// Tile startup failed.
    Tile(TileError),
}

impl XdpTileBuildError {
    /// The text that describes this error.
    pub open spec fn message_text(self) -> Seq<char> {
        match self {
            XdpTileBuildError::Setup(error) => "XDP tile setup failed: "@ + error.text@,
            XdpTileBuildError::Tile(error) => "XDP tile startup failed: "@ + error.message_text(),
        }
    }

    /// Renders this error for people.
    pub fn message(&self) -> (r: String)
        ensures
            r@ == self.message_text(),
    {
        match self {
            XdpTileBuildError::Setup(error) => {
                "XDP tile setup failed: ".to_owned().concat(error.text.as_str())
            },
            XdpTileBuildError::Tile(error) => {
                "XDP tile startup failed: ".to_owned().concat(error.message().as_str())
            },
        }
    }
}

/// Failure reported by [`check_worker_threads`].
pub enum TileWorkerError {
    /// A tile worker returned without an error, which should not happen for the
    /// long-running tile loop.
    Exited {
        /// Tile worker index.
        index: usize,
    },
    /// A tile worker returned a tile error.
    Failed {
        /// Tile worker index.
        index: usize,
        /// Worker error.
        error: TileError,
    },
    /// A tile worker panicked.
    Panicked {
        /// Tile worker index.
        index: usize,
    },
}

impl TileWorkerError {
    /// The text that describes this error.
    pub open spec fn message_text(self) -> Seq<char> {
        match self {
            TileWorkerError::Exited { index } => "tile worker "@ + decimal_text(index as nat)
                + " exited unexpectedly"@,
            TileWorkerError::Failed { index, error } => "tile worker "@ + decimal_text(index as nat)
                + " failed: "@ + error.message_text(),
            TileWorkerError::Panicked { index } => "tile worker "@ + decimal_text(index as nat)
                + " panicked"@,
        }
    }

    /// Renders this error for people.
    pub fn message(&self) -> (r: String)
        ensures
            r@ == self.message_text(),
    {
        let mut out = "tile worker ".to_owned();
        match self {
            TileWorkerError::Exited { index } => {
                push_decimal(&mut out, *index as u64);
                out.append(" exited unexpectedly");
            },
            TileWorkerError::Failed { index, error } => {
                push_decimal(&mut out, *index as u64);
                out.append(" failed: ");
                out.append(error.message().as_str());
            },
            TileWorkerError::Panicked { index } => {
                push_decimal(&mut out, *index as u64);
                out.append(" panicked");
            },
        }
        out
    }
}

/// How a worker thread ended.
pub enum WorkerExit {
    /// It returned.
    Returned(Result<(), TileError>),
    /// It panicked.
    Panicked,
}

/// What is known of a worker thread.
pub enum WorkerState {
    /// It is running.
    Running,
    /// It has ended, and nobody has asked yet.
    Finished(WorkerExit),
    /// Its end has been reported.
    Reported,
}

/// The error that the end of worker `index` is reported as.
pub open spec fn worker_error(index: usize, exit: WorkerExit) -> TileWorkerError {
    match exit {
        WorkerExit::Returned(Ok(_)) => TileWorkerError::Exited { index },
        WorkerExit::Returned(Err(error)) => TileWorkerError::Failed { index, error },
        WorkerExit::Panicked => TileWorkerError::Panicked { index },
    }
}

/// The first worker that has ended and was not reported, or the number of workers.
pub open spec fn first_finished(workers: Seq<WorkerState>) -> int
    decreases workers.len(),
{
    if workers.len() == 0 {
        0
    } else {
        let earlier = first_finished(workers.drop_last());
        if earlier < workers.len() - 1 || workers.last() is Finished {
            earlier
        } else {
            workers.len() as int
        }
    }
}

proof fn lemma_first_finished(workers: Seq<WorkerState>, at: int)
    requires
        0 <= at < workers.len(),
        workers[at] is Finished,
        forall|i: int| 0 <= i < at ==> !((#[trigger] workers[i]) is Finished),
    ensures
        first_finished(workers) == at,
    decreases workers.len(),
{
    if at < workers.len() - 1 {
        lemma_first_finished(workers.drop_last(), at);
    } else {
        lemma_none_finished(workers.drop_last());
    }
}

proof fn lemma_none_finished(workers: Seq<WorkerState>)
    requires
        forall|i: int| 0 <= i < workers.len() ==> !((#[trigger] workers[i]) is Finished),
    ensures
        first_finished(workers) == workers.len(),
    decreases workers.len(),
{
    if workers.len() > 0 {
        lemma_none_finished(workers.drop_last());
    }
}

/// Checks whether any tile worker exited unexpectedly. The first one that did is
/// reported, once.
pub fn check_worker_threads(workers: &mut Vec<WorkerState>) -> (r: Result<(), TileWorkerError>)
    ensures
        ({
            let index = first_finished(old(workers)@);
            if index < old(workers)@.len() {
                &&& old(workers)@[index] matches WorkerState::Finished(exit)
                &&& r == Err::<(), TileWorkerError>(worker_error(index as usize, exit))
                &&& final(workers)@ == old(workers)@.update(index, WorkerState::Reported)
            } else {
                &&& r == Ok::<(), TileWorkerError>(())
                &&& final(workers)@ == old(workers)@
            }
        }),
{
    let mut index: usize = 0;
    while index < workers.len()
        invariant
            index <= workers@.len(),
            workers@ == old(workers)@,
            forall|i: int| 0 <= i < index ==> !((#[trigger] workers@[i]) is Finished),
        decreases workers@.len() - index,
    {
        let finished = match &workers[index] {
            WorkerState::Finished(_) => true,
            _ => false,
        };
        if finished {
            proof {
                lemma_first_finished(workers@, index as int);
            }
            let mut state = WorkerState::Reported;
            core::mem::swap(&mut workers[index], &mut state);
            if let WorkerState::Finished(exit) = state {
                return match exit {
                    WorkerExit::Returned(Ok(_)) => Err(TileWorkerError::Exited { index }),
                    WorkerExit::Returned(Err(error)) => Err(
                        TileWorkerError::Failed { index, error },
                    ),
                    WorkerExit::Panicked => Err(TileWorkerError::Panicked { index }),
                };
            }
        }
        index = index + 1;
    }
    proof {
        lemma_none_finished(workers@);
    }
    Ok(())
}

/// The queue that the route monitor watches: the first queue of the first worker,
/// or queue 0.
pub open spec fn monitor_queue_spec(plans: Seq<Vec<QueueId>>) -> u32 {
    if plans.len() > 0 && plans[0]@.len() > 0 {
        plans[0]@[0].value()
    } else {
        0
    }
}

/// Chooses the queue that the route monitor watches, given the queues of each worker.
#[must_use]
pub fn monitor_queue(plans: &Vec<Vec<QueueId>>) -> (r: QueueId)
    ensures
        r.value() == monitor_queue_spec(plans@),
{
    if plans.len() > 0 && plans[0].len() > 0 {
        plans[0][0]
    } else {
        QueueId::new(0)
    }
}

proof fn lemma_counter_sum_prefix(counters: Seq<u64>, count: int)
    requires
        0 <= count <= counters.len(),
    ensures
        counter_sum(counters.take(count)) <= counter_sum(counters),
    decreases counters.len(),
{
    if count < counters.len() {
        assert(counters.drop_last().take(count) =~= counters.take(count));
        lemma_counter_sum_prefix(counters.drop_last(), count);
    } else {
        assert(counters.take(count) =~= counters);
    }
}

/// Adds up counters whose sum fits.
#[must_use]
pub fn sum_counters(counters: &Vec<u64>) -> (r: u64)
    requires
        counter_sum(counters@) <= u64::MAX,
    ensures
        r == counter_sum(counters@),
{
    let mut sum: u64 = 0;
    let mut at: usize = 0;
    assert(counters@.take(0) =~= Seq::<u64>::empty());
    while at < counters.len()
        invariant
            at <= counters@.len(),
            sum == counter_sum(counters@.take(at as int)),
            counter_sum(counters@) <= u64::MAX,
        decreases counters@.len() - at,
    {
        proof {
            assert(counters@.take(at + 1).drop_last() =~= counters@.take(at as int));
            lemma_counter_sum_prefix(counters@, at + 1);
        }
        sum = sum + counters[at];
        at = at + 1;
    }
    assert(counters@.take(at as int) =~= counters@);
    sum
}

/// Tiles that share their lanes.
pub struct XdpUdpTiles<S: UdpSocket, C: IngressClassifier<S::RecvMeta, UdpRxBuffer<S>>> {
    tiles: Vec<UdpTile<S, C>>,
    taken_lanes: Vec<bool>,
}

impl<S: UdpSocket, C: IngressClassifier<S::RecvMeta, UdpRxBuffer<S>>> XdpUdpTiles<S, C> {
    /// The tiles.
    pub closed spec fn view(&self) -> Seq<UdpTile<S, C>> {
        self.tiles@
    }

    /// Whether the handles of each lane have been given out.
    pub closed spec fn taken(&self) -> Seq<bool> {
        self.taken_lanes@
    }

    /// Every tile is consistent, and a lane that is free here is free everywhere.
    pub open spec fn wf(&self) -> bool {
        forall|t: int|
            0 <= t < self@.len() ==> {
                &&& (#[trigger] self@[t]).wf()
                &&& self@[t].lanes() == self.taken().len()
                &&& self@[t].taken_lanes() == self.taken()
            }
    }

    /// One counter of every tile.
    pub open spec fn counters(&self, counter: spec_fn(TileStats) -> u64) -> Seq<u64> {
        Seq::new(self@.len(), |t: int| counter(self@[t].stats_spec()))
    }

    /// Groups tiles with `lane_count` lanes each, none of which has been given out.
    #[must_use]
    pub fn new(tiles: Vec<UdpTile<S, C>>, lane_count: usize) -> (r: Self)
        requires
            forall|t: int|
                0 <= t < tiles@.len() ==> {
                    &&& (#[trigger] tiles@[t]).wf()
                    &&& tiles@[t].lanes() == lane_count
                    &&& tiles@[t].taken_lanes() == Seq::new(lane_count as nat, |l: int| false)
                },
        ensures
            r.wf(),
            r@ == tiles@,
            r.taken() == Seq::new(lane_count as nat, |l: int| false),
    {
        let mut taken_lanes: Vec<bool> = Vec::with_capacity(lane_count);
        while taken_lanes.len() < lane_count
            invariant
                taken_lanes@.len() <= lane_count,
                forall|l: int| 0 <= l < taken_lanes@.len() ==> !(#[trigger] taken_lanes@[l]),
            decreases lane_count - taken_lanes@.len(),
        {
            taken_lanes.push(false);
        }
        assert(taken_lanes@ =~= Seq::new(lane_count as nat, |l: int| false));
        XdpUdpTiles { tiles, taken_lanes }
    }

    /// Returns the number of tile workers.
    #[must_use]
    pub fn len(&self) -> (r: usize)
        ensures
            r == self@.len(),
    {
        self.tiles.len()
    }

    /// Returns `true` when there are no tile workers.
    #[must_use]
    pub fn is_empty(&self) -> (r: bool)
        ensures
            r == (self@.len() == 0),
    {
        self.tiles.len() == 0
    }

    /// Gives out one handle for `lane_index` on every tile.
    ///
    /// Returns `None` if the lane index is outside the configured lane range or if
    /// the handles of this lane were already taken.
    pub fn lane_handles(&mut self, lane_index: usize) -> (r: Option<Vec<UdpTileHandle>>)
        requires
            old(self).wf(),
        ensures
            final(self).wf(),
            final(self)@.len() == old(self)@.len(),
            if lane_index < old(self).taken().len() && !old(self).taken()[lane_index as int] {
                &&& r matches Some(handles)
                &&& handles@.len() == old(self)@.len()
                &&& forall|t: int|
                    0 <= t < handles@.len() ==> (#[trigger] handles@[t]).lane() == lane_index
                &&& forall|t: int|
                    0 <= t < final(self)@.len() ==> (#[trigger] final(self)@[t]).same_but_taken(
                        &old(self)@[t],
                    )
                &&& final(self).taken() == old(self).taken().update(lane_index as int, true)
            } else {
                &&& r is None
                &&& *final(self) == *old(self)
            },
    {
        if lane_index >= self.taken_lanes.len() || self.taken_lanes[lane_index] {
            return None;
        }
        let ghost free = self.taken_lanes@;
        proof {
            assert forall|t: int| 0 <= t < self.tiles@.len() implies {
                &&& (#[trigger] self.tiles@[t]).wf()
                &&& self.tiles@[t].lanes() == free.len()
                &&& self.tiles@[t].taken_lanes() == free
            } by {
                assert(self@[t].wf());
            }
        }
        let mut handles: Vec<UdpTileHandle> = Vec::with_capacity(self.tiles.len());
        let mut at: usize = 0;
        while at < self.tiles.len()
            invariant
                at <= self.tiles@.len(),
                handles@.len() == at,
                forall|t: int|
                    0 <= t < handles@.len() ==> (#[trigger] handles@[t]).lane() == lane_index,
                self.tiles@.len() == old(self).tiles@.len(),
                self.taken_lanes@ == free,
                lane_index < free.len(),
                !free[lane_index as int],
                forall|t: int|
                    0 <= t < self.tiles@.len() ==> {
                        &&& (#[trigger] self.tiles@[t]).wf()
                        &&& self.tiles@[t].lanes() == free.len()
                        &&& self.tiles@[t].taken_lanes() == (if t < at {
                            free.update(lane_index as int, true)
                        } else {
                            free
                        })
                        &&& self.tiles@[t].same_but_taken(&old(self).tiles@[t])
                    },
            decreases self.tiles@.len() - at,
        {
            let ghost before = self.tiles@;
            assert(before[at as int].wf());
            if let Some(handle) = self.tiles[at].lane_handle(lane_index) {
                handles.push(handle);
            }
            proof {
                assert forall|t: int| 0 <= t < self.tiles@.len() implies {
                    &&& (#[trigger] self.tiles@[t]).wf()
                    &&& self.tiles@[t].lanes() == free.len()
                    &&& self.tiles@[t].taken_lanes() == (if t < at + 1 {
                        free.update(lane_index as int, true)
                    } else {
                        free
                    })
                    &&& self.tiles@[t].same_but_taken(&old(self).tiles@[t])
                } by {
                    if t != at {
                        assert(self.tiles@[t] == before[t]);
                    }
                }
            }
            at = at + 1;
        }
        self.taken_lanes[lane_index] = true;
        Some(handles)
    }

    /// Returns summed counters across all tiles.
    #[must_use]
    pub fn stats(&self) -> (r: TileStats)
        requires
            counter_sum(self.counters(|s: TileStats| s.classifier_drops)) <= u64::MAX,
            counter_sum(self.counters(|s: TileStats| s.rx_queue_drops)) <= u64::MAX,
            counter_sum(self.counters(|s: TileStats| s.tx_drops)) <= u64::MAX,
            counter_sum(self.counters(|s: TileStats| s.tx_packets)) <= u64::MAX,
        ensures
            r.classifier_drops == counter_sum(self.counters(|s: TileStats| s.classifier_drops)),
            r.rx_queue_drops == counter_sum(self.counters(|s: TileStats| s.rx_queue_drops)),
            r.tx_drops == counter_sum(self.counters(|s: TileStats| s.tx_drops)),
            r.tx_packets == counter_sum(self.counters(|s: TileStats| s.tx_packets)),
    {
        let mut classifier_drops: Vec<u64> = Vec::with_capacity(self.tiles.len());
        let mut rx_queue_drops: Vec<u64> = Vec::with_capacity(self.tiles.len());
        let mut tx_drops: Vec<u64> = Vec::with_capacity(self.tiles.len());
        let mut tx_packets: Vec<u64> = Vec::with_capacity(self.tiles.len());
        let mut at: usize = 0;
        while at < self.tiles.len()
            invariant
                at <= self.tiles@.len(),
                classifier_drops@.len() == at,
                rx_queue_drops@.len() == at,
                tx_drops@.len() == at,
                tx_packets@.len() == at,
                forall|t: int|
                    0 <= t < at ==> {
                        &&& classifier_drops@[t] == (
                        #[trigger] self.tiles@[t]).stats_spec().classifier_drops
                        &&& rx_queue_drops@[t] == self.tiles@[t].stats_spec().rx_queue_drops
                        &&& tx_drops@[t] == self.tiles@[t].stats_spec().tx_drops
                        &&& tx_packets@[t] == self.tiles@[t].stats_spec().tx_packets
                    },
            decreases self.tiles@.len() - at,
        {
            let stats = self.tiles[at].stats();
            classifier_drops.push(stats.classifier_drops);
            rx_queue_drops.push(stats.rx_queue_drops);
            tx_drops.push(stats.tx_drops);
            tx_packets.push(stats.tx_packets);
            at = at + 1;
        }
        proof {
            assert(classifier_drops@ =~= self.counters(|s: TileStats| s.classifier_drops));
            assert(rx_queue_drops@ =~= self.counters(|s: TileStats| s.rx_queue_drops));
            assert(tx_drops@ =~= self.counters(|s: TileStats| s.tx_drops));
            assert(tx_packets@ =~= self.counters(|s: TileStats| s.tx_packets));
        }
        TileStats {
            classifier_drops: sum_counters(&classifier_drops),
            rx_queue_drops: sum_counters(&rx_queue_drops),
            tx_drops: sum_counters(&tx_drops),
            tx_packets: sum_counters(&tx_packets),
        }
    }
}

/// Wait-driven tiles that share their lanes. How a tile waits is up to its worker.
pub type ParkXdpUdpTiles<S, C> = XdpUdpTiles<S, C>;

/// The sockets of one worker over several queues, and whether they share their packet
/// memory.
pub struct XdpUdpSocketSet<S: UdpSocket> {
    members: Vec<S>,
    share_umem: bool,
}

impl<S: UdpSocket> XdpUdpSocketSet<S> {
    /// The sockets.
    pub closed spec fn view(&self) -> Seq<S> {
        self.members@
    }

    /// The sockets share their packet memory.
    pub closed spec fn shares_umem(&self) -> bool {
        self.share_umem
    }

    /// Wraps sockets as a tile socket set.
    #[must_use]
    pub fn new(members: Vec<S>, share_umem: bool) -> (r: Self)
        ensures
            r@ == members@,
            r.shares_umem() == share_umem,
    {
        XdpUdpSocketSet { members, share_umem }
    }

    /// Borrows the sockets.
    #[must_use]
    pub fn aggregate(&self) -> (r: &Vec<S>)
        ensures
            r@ == self@,
    {
        &self.members
    }

    /// Mutably borrows the sockets.
    #[must_use]
    pub fn aggregate_mut(&mut self) -> (r: &mut Vec<S>)
        ensures
            r@ == old(self)@,
            final(self)@ == final(r)@,
            final(self).shares_umem() == old(self).shares_umem(),
    {
        &mut self.members
    }

    /// Returns the sockets.
    #[must_use]
    pub fn into_inner(self) -> (r: Vec<S>)
        ensures
            r@ == self@,
    {
        self.members
    }
}

impl<S: UdpSocket> UdpSocketSet for XdpUdpSocketSet<S> {
    type Socket = S;

    open spec fn sockets(&self) -> Seq<S> {
        self@
    }

    fn sockets_mut(&mut self) -> (r: &mut [S]) {
        self.members.as_mut_slice()
    }

    fn can_transmit_from_any_socket(&self) -> (r: bool)
        ensures
            r == self.shares_umem(),
    {
        self.share_umem
    }
}

/// Builder for the tiles of several workers, each with its own queues.
pub struct XdpUdpTileBuilder<C = SourceAddrClassifier> {
    worker_queues: Vec<Vec<QueueId>>,
    local: SocketAddr,
    lane_count: usize,
    classifier: C,
    config: TileConfig,
    route_poll_interval: TimeSpan,
}

impl XdpUdpTileBuilder<SourceAddrClassifier> {
    /// Creates a builder using [`SourceAddrClassifier`], default tile config and a route
    /// poll interval of a second.
    #[must_use]
    pub fn new(worker_queues: Vec<Vec<QueueId>>, local: SocketAddr, lane_count: usize) -> (r: Self)
        ensures
            r.queues() == worker_queues@,
            r.local_spec() == local,
            r.lane_count_spec() == lane_count,
            r.classifier_spec() == SourceAddrClassifier,
            r.config_spec() == TileConfig::default_spec(),
            r.interval().wf(),
            r.interval()@ == 1_000_000_000,
    {
        XdpUdpTileBuilder {
            worker_queues,
            local,
            lane_count,
            classifier: SourceAddrClassifier,
            config: TileConfig::default(),
            route_poll_interval: TimeSpan::from_millis(1000),
        }
    }
}

impl<C> XdpUdpTileBuilder<C> {
    /// The queues of each worker.
    pub closed spec fn queues(&self) -> Seq<Vec<QueueId>> {
        self.worker_queues@
    }

    /// The local endpoint.
    pub closed spec fn local_spec(&self) -> SocketAddr {
        self.local
    }

    /// The number of lanes.
    pub closed spec fn lane_count_spec(&self) -> usize {
        self.lane_count
    }

    /// The classifier.
    pub closed spec fn classifier_spec(&self) -> C {
        self.classifier
    }

    /// The tile configuration.
    pub closed spec fn config_spec(&self) -> TileConfig {
        self.config
    }

    /// The route poll interval.
    pub closed spec fn interval(&self) -> TimeSpan {
        self.route_poll_interval
    }

    /// Uses a different ingress classifier.
    #[must_use]
    pub fn classifier<N>(self, classifier: N) -> (r: XdpUdpTileBuilder<N>)
        ensures
            r.classifier_spec() == classifier,
            r.queues() == self.queues(),
            r.local_spec() == self.local_spec(),
            r.lane_count_spec() == self.lane_count_spec(),
            r.config_spec() == self.config_spec(),
            r.interval() == self.interval(),
    {
        XdpUdpTileBuilder {
            worker_queues: self.worker_queues,
            local: self.local,
            lane_count: self.lane_count,
            classifier,
            config: self.config,
            route_poll_interval: self.route_poll_interval,
        }
    }

    /// Uses an explicit tile configuration.
    #[must_use]
    pub fn config(self, config: TileConfig) -> (r: Self)
        ensures
            r.config_spec() == config,
            r.classifier_spec() == self.classifier_spec(),
            r.queues() == self.queues(),
            r.local_spec() == self.local_spec(),
            r.lane_count_spec() == self.lane_count_spec(),
            r.interval() == self.interval(),
    {
        XdpUdpTileBuilder { config, ..self }
    }

    /// Sets the route-monitor polling interval.
    #[must_use]
    pub fn route_poll_interval(self, interval: TimeSpan) -> (r: Self)
        ensures
            r.interval() == interval,
            r.config_spec() == self.config_spec(),
            r.classifier_spec() == self.classifier_spec(),
            r.queues() == self.queues(),
            r.local_spec() == self.local_spec(),
            r.lane_count_spec() == self.lane_count_spec(),
    {
        XdpUdpTileBuilder { route_poll_interval: interval, ..self }
    }

    /// Returns the local endpoint that the sockets are opened with.
    #[must_use]
    pub fn local_addr(&self) -> (r: SocketAddr)
        ensures
            r == self.local_spec(),
    {
        self.local
    }

    /// Returns what the route monitor needs: the queue that it watches, how often it
    /// polls, and how many queues of each worker want updates.
    #[must_use]
    pub fn route_monitor_plan(&self) -> (r: (QueueId, TimeSpan, Vec<usize>))
        ensures
            r.0.value() == monitor_queue_spec(self.queues()),
            r.1 == self.interval(),
            r.2@.len() == self.queues().len(),
            forall|w: int| 0 <= w < r.2@.len() ==> (#[trigger] r.2@[w]) == self.queues()[w]@.len(),
    {
        let mut registered: Vec<usize> = Vec::with_capacity(self.worker_queues.len());
        let mut worker: usize = 0;
        while worker < self.worker_queues.len()
            invariant
                worker <= self.worker_queues@.len(),
                registered@.len() == worker,
                forall|w: int|
                    0 <= w < worker ==> (#[trigger] registered@[w]) == self.worker_queues@[w]@.len(),
            decreases self.worker_queues@.len() - worker,
        {
            registered.push(self.worker_queues[worker].len());
            worker = worker + 1;
        }
        (monitor_queue(&self.worker_queues), self.route_poll_interval, registered)
    }

    /// Makes one tile per worker.
    #[must_use]
    pub fn build<S: UdpSocket>(self) -> (r: XdpUdpTiles<S, C>) where
        C: IngressClassifier<S::RecvMeta, UdpRxBuffer<S>> + Clone,

        requires
            tile_config_ok(self.lane_count_spec(), self.config_spec()),
        ensures
            r.wf(),
            r@.len() == self.queues().len(),
            r.taken() == Seq::new(self.lane_count_spec() as nat, |l: int| false),
            forall|t: int|
                0 <= t < r@.len() ==> {
                    &&& cloned(self.classifier_spec(), (#[trigger] r@[t]).classifier_spec())
                    &&& r@[t].is_fresh(
                        r@[t].classifier_spec(),
                        self.lane_count_spec(),
                        self.config_spec(),
                    )
                },
    {
        let count: usize = self.worker_queues.len();
        let mut tiles: Vec<UdpTile<S, C>> = Vec::with_capacity(count);
        while tiles.len() < count
            invariant
                tiles@.len() <= count,
                tile_config_ok(self.lane_count, self.config),
                forall|t: int|
                    0 <= t < tiles@.len() ==> {
                        &&& (#[trigger] tiles@[t]).wf()
                        &&& cloned(self.classifier, tiles@[t].classifier_spec())
                        &&& tiles@[t].is_fresh(
                            tiles@[t].classifier_spec(),
                            self.lane_count,
                            self.config,
                        )
                    },
            decreases count - tiles@.len(),
        {
            let tile = UdpTile::with_config(self.classifier.clone(), self.lane_count, self.config);
            tiles.push(tile);
        }
        XdpUdpTiles::new(tiles, self.lane_count)
    }
}

proof fn lemma_finished_before(workers: Seq<WorkerState>)
    ensures
        0 <= first_finished(workers) <= workers.len(),
        forall|i: int|
            0 <= i < first_finished(workers) ==> !((#[trigger] workers[i]) is Finished),
        first_finished(workers) < workers.len() ==> workers[first_finished(workers)] is Finished,
    decreases workers.len(),
{
    if workers.len() > 0 {
        let front = workers.drop_last();
        lemma_finished_before(front);
        assert forall|i: int| 0 <= i < first_finished(workers) implies !((
        #[trigger] workers[i]) is Finished) by {
            if i < front.len() {
                assert(front[i] == workers[i]);
            }
        }
    }
}

/// The first worker that has finished is reported, once, with how it ended. Without one
/// all is well.
pub proof fn law_first_finished_worker_is_reported(r: Result<(), TileWorkerError>)
    ensures
        forall|workers: &mut Vec<WorkerState>|
            #![trigger call_ensures(check_worker_threads, (workers,), r)]
            call_ensures(check_worker_threads, (workers,), r) && workers@.len() <= usize::MAX ==> {
                &&& r is Ok ==> final(workers)@ == workers@ && forall|i: int|
                    0 <= i < workers@.len() ==> !((#[trigger] workers@[i]) is Finished)
                &&& r matches Err(error) ==> exists|index: int|
                    {
                        &&& 0 <= index < workers@.len()
                        &&& (#[trigger] workers@[index]) matches WorkerState::Finished(exit)
                        &&& match exit {
                            WorkerExit::Returned(Ok(_)) => error matches TileWorkerError::Exited {
                                index: named,
                            } && named == index,
                            WorkerExit::Returned(Err(cause)) => error
                                matches TileWorkerError::Failed { index: named, error: reported }
                                && named == index && reported == cause,
                            WorkerExit::Panicked => error matches TileWorkerError::Panicked {
                                index: named,
                            } && named == index,
                        }
                        &&& forall|i: int|
                            0 <= i < index ==> !((#[trigger] workers@[i]) is Finished)
                        &&& final(workers)@ == workers@.update(index, WorkerState::Reported)
                    }
            },
{
    assert forall|workers: &mut Vec<WorkerState>|
        #![trigger call_ensures(check_worker_threads, (workers,), r)]
        call_ensures(check_worker_threads, (workers,), r) && workers@.len()
            <= usize::MAX implies {
        &&& r is Ok ==> final(workers)@ == workers@ && forall|i: int|
            0 <= i < workers@.len() ==> !((#[trigger] workers@[i]) is Finished)
        &&& r matches Err(error) ==> exists|index: int|
            {
                &&& 0 <= index < workers@.len()
                &&& (#[trigger] workers@[index]) matches WorkerState::Finished(exit)
                &&& match exit {
                    WorkerExit::Returned(Ok(_)) => error matches TileWorkerError::Exited {
                        index: named,
                    } && named == index,
                    WorkerExit::Returned(Err(cause)) => error matches TileWorkerError::Failed {
                        index: named,
                        error: reported,
                    } && named == index && reported == cause,
                    WorkerExit::Panicked => error matches TileWorkerError::Panicked {
                        index: named,
                    } && named == index,
                }
                &&& forall|i: int| 0 <= i < index ==> !((#[trigger] workers@[i]) is Finished)
                &&& final(workers)@ == workers@.update(index, WorkerState::Reported)
            }
    } by {
        lemma_finished_before(workers@);
        let index = first_finished(workers@);
        if index < workers@.len() {
            assert(workers@[index] is Finished);
        }
    }
}

/// Routes are watched on the first queue of the first worker, or on queue zero where there
/// is none.
pub proof fn law_routes_are_watched_on_the_first_queue(plans: &Vec<Vec<QueueId>>, r: QueueId)
    requires
        call_ensures(monitor_queue, (plans,), r),
    ensures
        plans@.len() > 0 && plans@[0]@.len() > 0 ==> r.value() == plans@[0]@[0].value(),
        plans@.len() == 0 || plans@[0]@.len() == 0 ==> r.value() == 0,
{
}

/// The statistics of a set of tiles are the sums over its tiles, counter by counter: one
/// tile more adds its own counters.
pub proof fn law_tile_statistics_add_up<
    S: UdpSocket,
    C: IngressClassifier<S::RecvMeta, UdpRxBuffer<S>>,
>(
    tiles: &XdpUdpTiles<S, C>,
    more: &XdpUdpTiles<S, C>,
    stats: TileStats,
    more_stats: TileStats,
)
    requires
        call_ensures(XdpUdpTiles::<S, C>::stats, (tiles,), stats),
        call_ensures(XdpUdpTiles::<S, C>::stats, (more,), more_stats),
        more@.len() == tiles@.len() + 1,
        more@.drop_last() == tiles@,
    ensures
        more_stats.classifier_drops == stats.classifier_drops
            + more@.last().stats_spec().classifier_drops,
        more_stats.rx_queue_drops == stats.rx_queue_drops + more@.last().stats_spec().rx_queue_drops,
        more_stats.tx_drops == stats.tx_drops + more@.last().stats_spec().tx_drops,
        more_stats.tx_packets == stats.tx_packets + more@.last().stats_spec().tx_packets,
        tiles@.len() == 0 ==> stats.classifier_drops == 0 && stats.rx_queue_drops == 0
            && stats.tx_drops == 0 && stats.tx_packets == 0,
{
    assert forall|t: int| 0 <= t < tiles@.len() implies tiles@[t] == more@[t] by {
        assert(more@.drop_last()[t] == more@[t]);
    }
    let drops = |s: TileStats| s.classifier_drops;
    let lost = |s: TileStats| s.rx_queue_drops;
    let unsent = |s: TileStats| s.tx_drops;
    let sent = |s: TileStats| s.tx_packets;
    assert(more.counters(drops).drop_last() =~= tiles.counters(drops));
    assert(more.counters(lost).drop_last() =~= tiles.counters(lost));
    assert(more.counters(unsent).drop_last() =~= tiles.counters(unsent));
    assert(more.counters(sent).drop_last() =~= tiles.counters(sent));
}

/// Counters are summed up one by one.
pub proof fn law_counters_are_summed_up(counters: Seq<u64>, counter: u64, all: &Vec<u64>, r: u64)
    requires
        all@ == counters.push(counter),
        call_ensures(sum_counters, (all,), r),
    ensures
        counter_sum(Seq::<u64>::empty()) == 0,
        r == counter_sum(counters) + counter,
{
    assert(counters.push(counter).drop_last() =~= counters);
}

/// A lane is handed out once, of all tiles together.
pub proof fn law_lanes_of_all_tiles_are_handed_out_once<
    S: UdpSocket,
    C: IngressClassifier<S::RecvMeta, UdpRxBuffer<S>>,
>(lane_index: usize, r: Option<Vec<UdpTileHandle>>)
    ensures
        forall|tiles: &mut XdpUdpTiles<S, C>|
            #![trigger call_ensures(XdpUdpTiles::<S, C>::lane_handles, (tiles, lane_index), r)]
            call_ensures(XdpUdpTiles::<S, C>::lane_handles, (tiles, lane_index), r) ==> {
                &&& r is Some <==> lane_index < tiles.taken().len()
                    && !tiles.taken()[lane_index as int]
                &&& r matches Some(handles) ==> handles@.len() == tiles@.len()
                    && final(tiles).taken()[lane_index as int] && forall|t: int|
                    0 <= t < handles@.len() ==> (#[trigger] handles@[t]).lane() == lane_index
                &&& forall|l: int|
                    0 <= l < tiles.taken().len() && l != lane_index
                        ==> #[trigger] final(tiles).taken()[l] == tiles.taken()[l]
            },
{
}

/// A tile builder starts with the defaults and asks for routes every second, each setting
/// changes what it names, and one tile is built per worker.
pub proof fn law_tile_builders_keep_their_settings<C>(
    worker_queues: Vec<Vec<QueueId>>,
    local: SocketAddr,
    lane_count: usize,
    fresh: XdpUdpTileBuilder<SourceAddrClassifier>,
    builder: XdpUdpTileBuilder<C>,
    config: TileConfig,
    interval: TimeSpan,
    r: XdpUdpTileBuilder<C>,
)
    ensures
        call_ensures(
            XdpUdpTileBuilder::<SourceAddrClassifier>::new,
            (worker_queues, local, lane_count),
            fresh,
        ) ==> {
            &&& fresh.queues() == worker_queues@
            &&& fresh.local_spec() == local
            &&& fresh.lane_count_spec() == lane_count
            &&& fresh.interval()@ == 1_000_000_000
            &&& fresh.config_spec().batch_size == 64
            &&& fresh.config_spec().queue_capacity == 1024
            &&& fresh.config_spec().pin_thread
        },
        call_ensures(XdpUdpTileBuilder::<C>::config, (builder, config), r) ==> r.config_spec()
            == config && r.queues() == builder.queues() && r.local_spec() == builder.local_spec()
            && r.lane_count_spec() == builder.lane_count_spec() && r.interval()
            == builder.interval() && r.classifier_spec() == builder.classifier_spec(),
        call_ensures(XdpUdpTileBuilder::<C>::route_poll_interval, (builder, interval), r)
            ==> r.interval() == interval && r.queues() == builder.queues() && r.local_spec()
            == builder.local_spec() && r.lane_count_spec() == builder.lane_count_spec()
            && r.config_spec() == builder.config_spec() && r.classifier_spec()
            == builder.classifier_spec(),
        forall|plan: (QueueId, TimeSpan, Vec<usize>)| #[trigger]
            call_ensures(XdpUdpTileBuilder::<C>::route_monitor_plan, (&builder,), plan) ==> {
                &&& plan.1 == builder.interval()
                &&& plan.2@.len() == builder.queues().len()
                &&& builder.queues().len() > 0 && builder.queues()[0]@.len() > 0
                    ==> plan.0.value() == builder.queues()[0]@[0].value()
                &&& forall|w: int|
                    0 <= w < plan.2@.len() ==> #[trigger] plan.2@[w] == builder.queues()[w]@.len()
            },
{
}

/// Sockets may send for each other where they share their memory.
pub proof fn law_sockets_with_shared_memory_send_for_each_other<S: UdpSocket>(
    members: Vec<S>,
    share_umem: bool,
    set: XdpUdpSocketSet<S>,
)
    requires
        call_ensures(XdpUdpSocketSet::<S>::new, (members, share_umem), set),
    ensures
        set@ == members@,
        forall|r: bool| #[trigger]
            call_ensures(XdpUdpSocketSet::<S>::can_transmit_from_any_socket, (&set,), r) ==> r
                == share_umem,
        forall|r: Vec<S>| #[trigger]
            call_ensures(XdpUdpSocketSet::<S>::into_inner, (set,), r) ==> r@ == members@,
{
}

/// What the errors of a worker and of a build say.
pub proof fn law_worker_errors_name_the_worker(
    error: &TileWorkerError,
    build: &XdpTileBuildError,
    cause: &TileError,
    r: String,
    inner: String,
)
    requires
        call_ensures(TileError::message, (cause,), inner),
    ensures
        call_ensures(TileWorkerError::message, (error,), r) ==> {
            &&& *error matches TileWorkerError::Exited { index } ==> r@ == "tile worker "@
                + decimal_text(index as nat) + " exited unexpectedly"@
            &&& *error matches TileWorkerError::Panicked { index } ==> r@ == "tile worker "@
                + decimal_text(index as nat) + " panicked"@
            &&& *error matches TileWorkerError::Failed { index, error: failed } ==> (failed
                == *cause ==> r@ == "tile worker "@ + decimal_text(index as nat) + " failed: "@
                + inner@)
        },
        call_ensures(XdpTileBuildError::message, (build,), r) ==> {
            &&& *build matches XdpTileBuildError::Setup(io) ==> r@ == "XDP tile setup failed: "@
                + io.text@
            &&& *build == XdpTileBuildError::Tile(*cause) ==> r@ == "XDP tile startup failed: "@
                + inner@
        },
{
}

/// A set of tiles has one tile per worker, each with the lanes and the configuration that
/// were set, not started, and with no lane handed out.
pub proof fn law_one_tile_is_built_per_worker<
    S: UdpSocket,
    C: IngressClassifier<S::RecvMeta, UdpRxBuffer<S>> + Clone,
>(builder: XdpUdpTileBuilder<C>, r: XdpUdpTiles<S, C>, t: int)
    requires
        call_ensures(XdpUdpTileBuilder::<C>::build::<S>, (builder,), r),
        0 <= t < builder.queues().len(),
    ensures
        r@.len() == builder.queues().len(),
        r@[t].lanes() == builder.lane_count_spec(),
        r@[t].config_spec() == builder.config_spec(),
        !r@[t].is_started(),
        r.taken().len() == builder.lane_count_spec(),
        forall|l: int| 0 <= l < r.taken().len() ==> !#[trigger] r.taken()[l],
{
}

} // verus!

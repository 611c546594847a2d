//! Builders for tiles over operating-system sockets.

use vstd::prelude::*;

use crate::net::SocketAddr;
use crate::os_socket::{is_default_config, OsUdpSocketBuilder, OsUdpSocketConfig};
use crate::ring::reversed;
use crate::sys::QueueId;
use crate::tile::{IngressClassifier, SourceAddrClassifier, TileConfig};
use crate::udp::{UdpRxBuffer, UdpSocket};
use crate::udp_tile::{tile_config_ok, UdpTile};

verus! {

/// Builder for the common OS UDP tile shape.
pub struct OsUdpTileBuilder<C = SourceAddrClassifier> {
    classifier: C,
    lane_count: usize,
    config: TileConfig,
}

impl OsUdpTileBuilder<SourceAddrClassifier> {
    /// Creates a builder using [`SourceAddrClassifier`] and default tile config.
    #[must_use]
    pub fn new(lane_count: usize) -> (r: Self)
        ensures
            r.classifier_spec() == SourceAddrClassifier,
            r.lane_count_spec() == lane_count,
            r.config_spec() == TileConfig::default_spec(),
    {
        OsUdpTileBuilder {
            classifier: SourceAddrClassifier,
            lane_count,
            config: TileConfig::default(),
        }
    }

    /// Creates a builder for a tile over `socket_count` sockets that share the
    /// address `bind_addr`.
    #[must_use]
    pub fn reuse_port(
        bind_addr: SocketAddr,
        socket_count: usize,
        lane_count: usize,
    ) -> (r: OsUdpTileReusePortBuilder<SourceAddrClassifier>)
        ensures
            r.tile_spec().classifier_spec() == SourceAddrClassifier,
            r.tile_spec().lane_count_spec() == lane_count,
            r.tile_spec().config_spec() == TileConfig::default_spec(),
            r.bind_addr_spec() == bind_addr,
            r.device_spec() is None,
            r.socket_count_spec() == socket_count,
    {
        OsUdpTileReusePortBuilder {
            bind_addr,
            bind_device: None,
            socket_count,
            tile: OsUdpTileBuilder::new(lane_count),
        }
    }
}

impl<C> OsUdpTileBuilder<C> {
    /// The classifier.
    pub closed spec fn classifier_spec(self) -> C {
        self.classifier
    }

    /// The number of lanes.
    pub closed spec fn lane_count_spec(self) -> usize {
        self.lane_count
    }

    /// The tile configuration.
    pub closed spec fn config_spec(self) -> TileConfig {
        self.config
    }

    /// Uses a different ingress classifier.
    #[must_use]
    pub fn classifier<N>(self, classifier: N) -> (r: OsUdpTileBuilder<N>)
        ensures
            r.classifier_spec() == classifier,
            r.lane_count_spec() == self.lane_count_spec(),
            r.config_spec() == self.config_spec(),
    {
        OsUdpTileBuilder { classifier, lane_count: self.lane_count, config: self.config }
    }

    /// Uses an explicit tile configuration.
    #[must_use]
    pub fn config(self, config: TileConfig) -> (r: Self)
        ensures
            r.classifier_spec() == self.classifier_spec(),
            r.lane_count_spec() == self.lane_count_spec(),
            r.config_spec() == config,
    {
        OsUdpTileBuilder { classifier: self.classifier, lane_count: self.lane_count, config }
    }

    /// Builds the tile.
    #[must_use]
    pub fn build<S: UdpSocket>(self) -> (r: UdpTile<S, C>) where
        C: IngressClassifier<S::RecvMeta, UdpRxBuffer<S>>,

        requires
            tile_config_ok(self.lane_count_spec(), self.config_spec()),
        ensures
            r.wf(),
            r.is_fresh(self.classifier_spec(), self.lane_count_spec(), self.config_spec()),
    {
        UdpTile::with_config(self.classifier, self.lane_count, self.config)
    }
}

/// Builder for an OS UDP tile over sockets that share one address.
pub struct OsUdpTileReusePortBuilder<C = SourceAddrClassifier> {
    bind_addr: SocketAddr,
    bind_device: Option<String>,
    socket_count: usize,
    tile: OsUdpTileBuilder<C>,
}

/// How one socket of a tile is opened.
pub struct OsSocketPlan {
    /// The socket's own settings.
    pub builder: OsUdpSocketBuilder,
    /// The network device to bind to.
    pub device: Option<String>,
}

/// `plan` opens the socket `index` of a tile: it shares the address with the
/// others and its queue is named after its index.
pub open spec fn is_socket_plan(
    plan: OsSocketPlan,
    bind_addr: SocketAddr,
    device: Option<Seq<char>>,
    index: int,
) -> bool {
    &&& plan.builder.bind_addr_spec() == bind_addr
    &&& plan.builder.reuse_port_spec()
    &&& plan.builder.config_spec().wf()
    &&& plan.builder.config_spec().queue_id.value() == index
    &&& exists|config: OsUdpSocketConfig|
        #[trigger] is_default_config(config) && plan.builder.config_spec() == (OsUdpSocketConfig {
            queue_id: plan.builder.config_spec().queue_id,
            ..config
        })
    &&& match plan.device {
        Some(name) => device == Some(name@),
        None => device is None,
    }
}

/// `plan` opens the socket `index` of a tile with settings that `configure` made of the
/// usual ones.
pub open spec fn is_configured_plan<F: Fn(usize, OsUdpSocketBuilder) -> OsUdpSocketBuilder>(
    plan: OsSocketPlan,
    bind_addr: SocketAddr,
    device: Option<Seq<char>>,
    index: int,
    configure: F,
) -> bool {
    exists|plain: OsSocketPlan|
        {
            &&& #[trigger] is_socket_plan(plain, bind_addr, device, index)
            &&& call_ensures(configure, (index as usize, plain.builder), plan.builder)
            &&& plan.device == plain.device
        }
}

impl<C> OsUdpTileReusePortBuilder<C> {
    /// The tile to build.
    pub closed spec fn tile_spec(self) -> OsUdpTileBuilder<C> {
        self.tile
    }

    /// The address that all sockets share.
    pub closed spec fn bind_addr_spec(self) -> SocketAddr {
        self.bind_addr
    }

    /// The network device that all sockets are bound to.
    pub closed spec fn device_spec(self) -> Option<Seq<char>> {
        match self.bind_device {
            Some(device) => Some(device@),
            None => None,
        }
    }

    /// The number of sockets.
    pub closed spec fn socket_count_spec(self) -> usize {
        self.socket_count
    }

    /// Uses a different ingress classifier.
    #[must_use]
    pub fn classifier<N>(self, classifier: N) -> (r: OsUdpTileReusePortBuilder<N>)
        ensures
            r.tile_spec().classifier_spec() == classifier,
            r.tile_spec().lane_count_spec() == self.tile_spec().lane_count_spec(),
            r.tile_spec().config_spec() == self.tile_spec().config_spec(),
            r.bind_addr_spec() == self.bind_addr_spec(),
            r.device_spec() == self.device_spec(),
            r.socket_count_spec() == self.socket_count_spec(),
    {
        OsUdpTileReusePortBuilder {
            bind_addr: self.bind_addr,
            bind_device: self.bind_device,
            socket_count: self.socket_count,
            tile: self.tile.classifier(classifier),
        }
    }

    /// Uses an explicit tile configuration.
    #[must_use]
    pub fn config(self, config: TileConfig) -> (r: Self)
        ensures
            r.tile_spec().classifier_spec() == self.tile_spec().classifier_spec(),
            r.tile_spec().lane_count_spec() == self.tile_spec().lane_count_spec(),
            r.tile_spec().config_spec() == config,
            r.bind_addr_spec() == self.bind_addr_spec(),
            r.device_spec() == self.device_spec(),
            r.socket_count_spec() == self.socket_count_spec(),
    {
        OsUdpTileReusePortBuilder {
            bind_addr: self.bind_addr,
            bind_device: self.bind_device,
            socket_count: self.socket_count,
            tile: self.tile.config(config),
        }
    }

    /// Binds every socket in the set to an operating-system network device.
    #[must_use]
    pub fn bind_device(self, device: String) -> (r: Self)
        ensures
            r.tile_spec() == self.tile_spec(),
            r.bind_addr_spec() == self.bind_addr_spec(),
            r.device_spec() == Some(device@),
            r.socket_count_spec() == self.socket_count_spec(),
    {
        OsUdpTileReusePortBuilder {
            bind_addr: self.bind_addr,
            bind_device: Some(device),
            socket_count: self.socket_count,
            tile: self.tile,
        }
    }

    /// Returns how every socket of the tile is opened. Applications may customize
    /// each plan before they bind the socket.
    #[must_use]
    pub fn socket_plans(&self) -> (r: Vec<OsSocketPlan>)
        requires
            self.socket_count_spec() <= 0x1_0000_0000,
        ensures
            r@.len() == self.socket_count_spec(),
            forall|i: int|
                0 <= i < r@.len() ==> is_socket_plan(
                    #[trigger] r@[i],
                    self.bind_addr_spec(),
                    self.device_spec(),
                    i,
                ),
    {
        let mut plans: Vec<OsSocketPlan> = Vec::new();
        while plans.len() < self.socket_count
            invariant
                plans@.len() <= self.socket_count,
                self.socket_count <= 0x1_0000_0000,
                forall|i: int|
                    0 <= i < plans@.len() ==> is_socket_plan(
                        #[trigger] plans@[i],
                        self.bind_addr_spec(),
                        self.device_spec(),
                        i,
                    ),
            decreases self.socket_count - plans@.len(),
        {
            let index: usize = plans.len();
            let plain = OsUdpSocketBuilder::new(self.bind_addr);
            let builder = plain.reuse_port(true).queue_id(QueueId::new(index as u32));
            let device = match &self.bind_device {
                Some(name) => {
                    let copy = name.as_str().to_owned();
                    Some(copy)
                },
                None => None,
            };
            proof {
                assert(is_default_config(plain.config_spec()));
                assert(builder.config_spec() == (OsUdpSocketConfig {
                    queue_id: builder.config_spec().queue_id,
                    ..plain.config_spec()
                }));
            }
            plans.push(OsSocketPlan { builder, device });
        }
        plans
    }

    /// Returns how every socket of the tile is opened, with each socket's settings
    /// customized by `configure`, which gets the socket's index.
    #[must_use]
    pub fn configure_socket<F: Fn(usize, OsUdpSocketBuilder) -> OsUdpSocketBuilder>(
        &self,
        configure: F,
    ) -> (r: Vec<OsSocketPlan>)
        requires
            self.socket_count_spec() <= 0x1_0000_0000,
            forall|index: usize, builder: OsUdpSocketBuilder| #[trigger]
                call_requires(configure, (index, builder)),
        ensures
            r@.len() == self.socket_count_spec(),
            forall|i: int|
                0 <= i < r@.len() ==> is_configured_plan(
                    #[trigger] r@[i],
                    self.bind_addr_spec(),
                    self.device_spec(),
                    i,
                    configure,
                ),
    {
        let plain = self.socket_plans();
        let ghost given = plain@;
        let count: usize = plain.len();
        let mut left = reversed(plain);
        let mut plans: Vec<OsSocketPlan> = Vec::with_capacity(count);
        while left.len() > 0
            invariant
                count == given.len(),
                count == self.socket_count_spec(),
                left@.len() + plans@.len() == count,
                forall|index: usize, builder: OsUdpSocketBuilder| #[trigger]
                    call_requires(configure, (index, builder)),
                forall|i: int|
                    0 <= i < left@.len() ==> (#[trigger] left@[i]) == given[count - 1 - i],
                forall|i: int|
                    0 <= i < given.len() ==> is_socket_plan(
                        #[trigger] given[i],
                        self.bind_addr_spec(),
                        self.device_spec(),
                        i,
                    ),
                forall|i: int|
                    0 <= i < plans@.len() ==> is_configured_plan(
                        #[trigger] plans@[i],
                        self.bind_addr_spec(),
                        self.device_spec(),
                        i,
                        configure,
                    ),
            decreases left@.len(),
        {
            let index: usize = plans.len();
            if let Some(plan) = left.pop() {
                assert(plan == given[index as int]);
                let builder = configure(index, plan.builder);
                let configured = OsSocketPlan { builder, device: plan.device };
                proof {
                    assert(is_socket_plan(
                        plan,
                        self.bind_addr_spec(),
                        self.device_spec(),
                        index as int,
                    ));
                }
                plans.push(configured);
            }
        }
        plans
    }

    /// Builds the tile.
    #[must_use]
    pub fn build<S: UdpSocket>(self) -> (r: UdpTile<S, C>) where
        C: IngressClassifier<S::RecvMeta, UdpRxBuffer<S>>,

        requires
            tile_config_ok(self.tile_spec().lane_count_spec(), self.tile_spec().config_spec()),
        ensures
            r.wf(),
            r.is_fresh(
                self.tile_spec().classifier_spec(),
                self.tile_spec().lane_count_spec(),
                self.tile_spec().config_spec(),
            ),
    {
        self.tile.build()
    }
}

/// A tile builder starts with the defaults, and each setting changes what it names.
pub proof fn law_tile_builders_keep_their_settings<C, N>(
    lane_count: usize,
    fresh: OsUdpTileBuilder<SourceAddrClassifier>,
    builder: OsUdpTileBuilder<C>,
    config: TileConfig,
    classifier: N,
)
    ensures
        call_ensures(OsUdpTileBuilder::<SourceAddrClassifier>::new, (lane_count,), fresh) ==> {
            &&& fresh.lane_count_spec() == lane_count
            &&& fresh.config_spec().queue_capacity == 1024
            &&& fresh.config_spec().batch_size == 64
            &&& fresh.config_spec().pin_thread
        },
        forall|r: OsUdpTileBuilder<C>| #[trigger]
            call_ensures(OsUdpTileBuilder::<C>::config, (builder, config), r) ==> r.config_spec()
                == config && r.lane_count_spec() == builder.lane_count_spec()
                && r.classifier_spec() == builder.classifier_spec(),
        forall|r: OsUdpTileBuilder<N>| #[trigger]
            call_ensures(OsUdpTileBuilder::<C>::classifier::<N>, (builder, classifier), r)
                ==> r.classifier_spec() == classifier && r.lane_count_spec()
                == builder.lane_count_spec() && r.config_spec() == builder.config_spec(),
{
}

/// A tile that is built has the lanes, the configuration and the classifier that were set.
pub proof fn law_built_tiles_follow_their_builder<
    S: UdpSocket,
    C: IngressClassifier<S::RecvMeta, UdpRxBuffer<S>>,
>(builder: OsUdpTileBuilder<C>, shared: OsUdpTileReusePortBuilder<C>, tile: UdpTile<S, C>)
    ensures
        call_ensures(OsUdpTileBuilder::<C>::build::<S>, (builder,), tile) ==> {
            &&& tile.lanes() == builder.lane_count_spec()
            &&& tile.config_spec() == builder.config_spec()
            &&& tile.classifier_spec() == builder.classifier_spec()
            &&& !tile.is_started()
        },
        call_ensures(OsUdpTileReusePortBuilder::<C>::build::<S>, (shared,), tile) ==> {
            &&& tile.lanes() == shared.tile_spec().lane_count_spec()
            &&& tile.config_spec() == shared.tile_spec().config_spec()
            &&& tile.classifier_spec() == shared.tile_spec().classifier_spec()
            &&& !tile.is_started()
        },
{
}

/// Sockets that share an address are planned one by one: each is bound to the address and
/// to the device, may share the port, and has its own number as its queue.
pub proof fn law_shared_sockets_are_numbered<C>(
    builder: &OsUdpTileReusePortBuilder<C>,
    r: Vec<OsSocketPlan>,
    i: int,
)
    requires
        call_ensures(OsUdpTileReusePortBuilder::<C>::socket_plans, (builder,), r),
        0 <= i < builder.socket_count_spec(),
    ensures
        r@.len() == builder.socket_count_spec(),
        r@[i].builder.bind_addr_spec() == builder.bind_addr_spec(),
        r@[i].builder.reuse_port_spec(),
        r@[i].builder.config_spec().queue_id.value() == i,
        builder.device_spec() is Some <==> r@[i].device is Some,
        builder.device_spec() matches Some(device) ==> r@[i].device->0@ == device,
{
    assert(is_socket_plan(r@[i], builder.bind_addr_spec(), builder.device_spec(), i));
}

/// A builder for shared sockets keeps what it was made with.
pub proof fn law_shared_socket_builders_keep_their_settings<C>(
    bind_addr: SocketAddr,
    socket_count: usize,
    lane_count: usize,
    fresh: OsUdpTileReusePortBuilder<SourceAddrClassifier>,
    builder: OsUdpTileReusePortBuilder<C>,
    device: String,
    config: TileConfig,
    r: OsUdpTileReusePortBuilder<C>,
)
    ensures
        call_ensures(
            OsUdpTileBuilder::<SourceAddrClassifier>::reuse_port,
            (bind_addr, socket_count, lane_count),
            fresh,
        ) ==> {
            &&& fresh.bind_addr_spec() == bind_addr
            &&& fresh.socket_count_spec() == socket_count
            &&& fresh.tile_spec().lane_count_spec() == lane_count
            &&& fresh.device_spec() is None
        },
        call_ensures(OsUdpTileReusePortBuilder::<C>::bind_device, (builder, device), r) ==> {
            &&& r.device_spec() == Some(device@)
            &&& r.bind_addr_spec() == builder.bind_addr_spec()
            &&& r.socket_count_spec() == builder.socket_count_spec()
            &&& r.tile_spec() == builder.tile_spec()
        },
        call_ensures(OsUdpTileReusePortBuilder::<C>::config, (builder, config), r) ==> {
            &&& r.tile_spec().config_spec() == config
            &&& r.tile_spec().lane_count_spec() == builder.tile_spec().lane_count_spec()
            &&& r.bind_addr_spec() == builder.bind_addr_spec()
            &&& r.device_spec() == builder.device_spec()
            &&& r.socket_count_spec() == builder.socket_count_spec()
        },
{
}

/// A socket that is configured further starts from its own plan: bound to the address, with
/// a shared port and its own number as its queue.
pub proof fn law_configured_sockets_start_from_their_plan<
    C,
    F: Fn(usize, OsUdpSocketBuilder) -> OsUdpSocketBuilder,
>(builder: &OsUdpTileReusePortBuilder<C>, configure: F, r: Vec<OsSocketPlan>, i: int)
    requires
        call_ensures(
            OsUdpTileReusePortBuilder::<C>::configure_socket::<F>,
            (builder, configure),
            r,
        ),
        0 <= i < builder.socket_count_spec(),
    ensures
        r@.len() == builder.socket_count_spec(),
        builder.device_spec() is Some <==> r@[i].device is Some,
        exists|plain: OsUdpSocketBuilder|
            {
                &&& #[trigger] call_ensures(configure, (i as usize, plain), r@[i].builder)
                &&& plain.bind_addr_spec() == builder.bind_addr_spec()
                &&& plain.reuse_port_spec()
                &&& plain.config_spec().queue_id.value() == i
            },
{
    assert(is_configured_plan(
        r@[i],
        builder.bind_addr_spec(),
        builder.device_spec(),
        i,
        configure,
    ));
    let plain = choose|plain: OsSocketPlan|
        {
            &&& #[trigger] is_socket_plan(
                plain,
                builder.bind_addr_spec(),
                builder.device_spec(),
                i,
            )
            &&& call_ensures(configure, (i as usize, plain.builder), r@[i].builder)
            &&& r@[i].device == plain.device
        };
    assert(call_ensures(configure, (i as usize, plain.builder), r@[i].builder));
}

} // verus!

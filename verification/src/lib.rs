//! Verified core of a fast UDP and IP-packet socket stack.
//!
//! The crate holds the parts of the stack that decide and compute: packet
//! buffers, batches, endpoint validation, buffer pools, queues, transmit
//! scheduling and packet parsing. System calls, threads and async tasks live in
//! the application around it.

pub mod actor;
pub mod affinity;
pub mod batch;
pub mod bench;
pub mod buffer;
pub mod bytes;
pub mod device;
pub mod endpoint_batch;
pub mod error;
pub mod heap;
pub mod io;
pub mod ip_packet;
pub mod ipv4;
pub mod net;
pub mod num;
pub mod os_addr;
pub mod os_buffer;
pub mod os_socket;
pub mod packet;
pub mod policy;
pub mod poll_mode;
pub mod queue;
pub mod ring;
pub mod route;
pub mod spsc;
pub mod sys;
pub mod text;
pub mod tile;
pub mod tile_os;
pub mod tile_queue;
pub mod tile_runtime;
pub mod tile_rx;
pub mod tile_set;
pub mod tile_tx;
pub mod time;
pub mod traffic;
pub mod udp;
pub mod udp_tile;
pub mod wait;
pub mod xdp_filter;

pub use actor::{
    ActorClosed, ActorCommand, ActorConfig, ActorRxBatch, ActorRxPacket, ActorTxBuffer, ActorTxMeta,
    ActorTxPacket, ActorWait, AsyncUdpError, CommandOutcome, UdpActor,
};
pub use affinity::{
    pin_current_thread_to_affinity, pin_current_thread_to_cpu,
    pin_current_thread_to_ip_packet_socket, pin_current_thread_to_socket, PinError, PinOutcome,
};
pub use batch::{RecvBatch, SendAllStep, SendError, TxSlot};
pub use buffer::{
    BufferAccessError, BufferCapabilities, BufferLayout, BufferPool, OwnedPacketBuffer,
    PacketBuffer, PacketBufferMut, QueueBufferConfig, ReserveError, ScatterGather, Segment,
    SocketBufferPool,
};
pub use device::{Capabilities, RawDevice, RawDeviceStats};
pub use endpoint_batch::{UdpEndpointBatch, UdpEndpointBatches};
pub use error::{DeviceError, DeviceErrorKind, Error};
pub use heap::{HeapBufferPool, PacketBuf, PacketBufMut};
pub use ip_packet::{
    BusyPollIpPacketSocket, ChecksumStatus, CoreEgress, IpPacketEgress, IpPacketReceive,
    IpPacketRecvMeta, IpPacketRxBuffer, IpPacketRxItem, IpPacketSocket, IpPacketTransmit,
    IpPacketTxBuffer, IpPacketTxBufferMut, IpPacketTxItem, IpVersion, ReadinessIpPacketSocket,
    TxOffload,
};
pub use net::{IpAddr, Ipv4Addr, Ipv6Addr, SocketAddr};
pub use num::NonZeroU16;
pub use os_buffer::{OsBufferPool, OsPacketBuf, OsPacketBufMut};
pub use os_socket::{OsUdpSocket, OsUdpSocketBuilder, OsUdpSocketConfig};
pub use policy::{
    BusyPollDriver, BusyPollDriverKind, IpFamily, Mixed, PollDriver, PollMode, V4Only, V6Only,
    WaitDrivenDriverKind, WaitOutcome, WakeHandle,
};
pub use poll_mode::{Park, Spin, TilePollMode, TilePollModeDriver, TilePollModeKind};
pub use route::{EgressResolver, LinkAddr, LinkAddrParseError, NeighborId, RouteId};
pub use sys::{HugePageSize, IfIndex, NumaNode, QueueAffinity, QueueId, SocketId};
pub use tile::{
    validate_socket_affinity, AcceptAllClassifier, IngressClassifier, IngressDecision, SocketIndex,
    SourceAddrClassifier, TileAffinity, TileConfig, TileError, TileRxBatch, TileRxPacket, TileStats,
    TileTxBatch, TileTxBuffer, TileTxMeta, TileTxPacket,
};
pub use time::TimeSpan;
pub use udp::{
    prepare_generic_udp_endpoint, send_generic_udp_endpoint, EcnCodepoint, GenericUdpEndpoint,
    UdpCapabilities, UdpEndpointInfo, UdpEndpointSpec, UdpEndpointTransmit, UdpReceive,
    UdpRecvMeta, UdpRxBuffer, UdpSocket, UdpTransmit, UdpTxBuffer, UdpTxBufferMut,
};
pub use udp_tile::{UdpSocketSet, UdpTile, UdpTileHandle};

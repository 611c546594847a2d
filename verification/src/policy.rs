//! Polling policy traits and canonical driver types.

use vstd::prelude::*;

use crate::error::Error;
use crate::net::{IpAddr, Ipv4Addr, Ipv6Addr};
use crate::time::TimeSpan;

verus! {

/// Socket polling regime selected by a concrete driver type.
#[derive(Clone, Copy, Debug, Eq, PartialEq, Structural)]
pub enum PollMode {
    /// Wait-driven polling through an external event source.
    WaitDriven,
    /// Busy-polling on a dedicated worker core.
    BusyPoll,
}

/// Outcome of a polling wait operation.
#[derive(Clone, Copy, Debug, Eq, PartialEq, Structural)]
pub enum WaitOutcome {
    /// At least one receive, transmit-completion, or wake source has work.
    Ready,
    /// The timeout elapsed with no work.
    Timeout,
    /// Returned without work; callers continue their worker loop.
    Spurious,
}

/// Wake handle: the number of the file descriptor to wait on.
#[derive(Clone, Copy, Debug, Eq, PartialEq, Structural)]
pub struct WakeHandle {
    fd: i32,
}

impl WakeHandle {
    /// The descriptor number.
    pub closed spec fn fd_spec(self) -> i32 {
        self.fd
    }

    /// Creates a wake handle from a file descriptor number.
    #[must_use]
    pub fn from_fd(fd: i32) -> (r: Self)
        ensures
            r.fd_spec() == fd,
    {
        WakeHandle { fd }
    }

    /// Returns the file descriptor number.
    #[must_use]
    pub fn borrowed_fd(self) -> (r: i32)
        ensures
            r == self.fd_spec(),
    {
        self.fd
    }
}

/// Companion trait used by sockets to expose their polling behavior.
pub trait PollDriver {
    /// The polling mode selected by this driver.
    closed spec fn mode_spec() -> PollMode {
        arbitrary()
    }

    /// Returns the polling mode selected by this driver.
    fn mode() -> (r: PollMode)
        ensures
            r == Self::mode_spec(),
    ;

    /// Waits for work, timeout, or a spurious wakeup.
    fn wait(&mut self, timeout: Option<TimeSpan>) -> (r: Result<WaitOutcome, Error>);

    /// Returns a wake handle when this driver supports one.
    fn wake_handle(&self) -> (r: Option<WakeHandle>);
}

/// Marker trait for drivers that are intended to be polled continuously.
pub trait BusyPollDriverKind: PollDriver {

}

/// Marker trait for drivers that can wait on an external event source.
pub trait WaitDrivenDriverKind: PollDriver {

}

/// Busy-poll driver for sockets that own a worker core.
#[derive(Clone, Copy, Debug, Default, Eq, PartialEq, Structural)]
pub struct BusyPollDriver;

impl BusyPollDriver {
    /// Creates a busy-poll driver.
    #[must_use]
    pub fn new() -> (r: Self)
        ensures
            r == BusyPollDriver,
    {
        BusyPollDriver
    }
}

impl PollDriver for BusyPollDriver {
    open spec fn mode_spec() -> PollMode {
        PollMode::BusyPoll
    }

    fn mode() -> PollMode {
        PollMode::BusyPoll
    }

    fn wait(&mut self, timeout: Option<TimeSpan>) -> (r: Result<WaitOutcome, Error>)
        ensures
            r == Ok::<WaitOutcome, Error>(WaitOutcome::Spurious),
            *final(self) == *old(self),
    {
        Ok(WaitOutcome::Spurious)
    }

    fn wake_handle(&self) -> (r: Option<WakeHandle>)
        ensures
            r is None,
    {
        None
    }
}

impl BusyPollDriverKind for BusyPollDriver {

}

/// Type-level IP family policy used by IP packet sockets.
pub trait IpFamily {
    /// Address type used by this family policy.
    type Addr: Copy;
}

/// Mixed IPv4/IPv6 family policy.
#[derive(Clone, Copy, Debug, Default, Eq, PartialEq, Structural)]
pub struct Mixed;

impl IpFamily for Mixed {
    type Addr = IpAddr;
}

/// IPv4-only family policy.
#[derive(Clone, Copy, Debug, Default, Eq, PartialEq, Structural)]
pub struct V4Only;

impl IpFamily for V4Only {
    type Addr = Ipv4Addr;
}

/// IPv6-only family policy.
#[derive(Clone, Copy, Debug, Default, Eq, PartialEq, Structural)]
pub struct V6Only;

impl IpFamily for V6Only {
    type Addr = Ipv6Addr;
}

/// A busy-polling driver never waits and cannot be woken.
pub proof fn law_busy_polling_never_waits(
    timeout: Option<TimeSpan>,
    r: Result<WaitOutcome, Error>,
    driver: &BusyPollDriver,
    handle: Option<WakeHandle>,
    mode: PollMode,
)
    ensures
        forall|used: &mut BusyPollDriver| #[trigger]
            call_ensures(BusyPollDriver::wait, (used, timeout), r) ==> r == Ok::<
                WaitOutcome,
                Error,
            >(WaitOutcome::Spurious),
        call_ensures(BusyPollDriver::wake_handle, (driver,), handle) ==> handle is None,
        call_ensures(BusyPollDriver::mode, (), mode) ==> mode is BusyPoll,
        forall|fd: i32, made: WakeHandle, r: i32|
            #![trigger call_ensures(WakeHandle::from_fd, (fd,), made), call_ensures(
                WakeHandle::borrowed_fd,
                (made,),
                r,
            )]
            call_ensures(WakeHandle::from_fd, (fd,), made) && call_ensures(
                WakeHandle::borrowed_fd,
                (made,),
                r,
            ) ==> r == fd,
{
}

} // verus!

//! Failures that the operating system reports.

use vstd::prelude::*;

use crate::error::{DeviceError, DeviceErrorKind, Error};
use crate::policy::WaitOutcome;
use crate::time::TimeSpan;

verus! {

/// Kind of a failed system call.
#[derive(Clone, Copy, Debug, Eq, PartialEq, Structural)]
pub enum IoErrorKind {
    /// The call would have blocked.
    WouldBlock,
    /// The call timed out.
    TimedOut,
    /// A signal interrupted the call.
    Interrupted,
    /// An argument was invalid.
    InvalidInput,
    /// The address is not available.
    AddrNotAvailable,
    /// The network is unreachable.
    NetworkUnreachable,
    /// The host is unreachable.
    HostUnreachable,
    /// The peer refused the connection.
    ConnectionRefused,
    /// The peer reset the connection.
    ConnectionReset,
    /// Anything else.
    Other,
}

/// A failed system call: its kind and the system's description.
#[derive(Clone, Debug)]
pub struct IoError {
    /// Kind of the failure.
    pub kind: IoErrorKind,
    /// The system's description.
    pub text: String,
}

/// The failure may go away by itself.
pub open spec fn transient_kind(kind: IoErrorKind) -> bool {
    kind == IoErrorKind::WouldBlock || kind == IoErrorKind::TimedOut || kind
        == IoErrorKind::Interrupted
}

/// `error` is how the core reports the failure `io`.
pub open spec fn reports_io_error(io: IoError, error: Error) -> bool {
    match io.kind {
        IoErrorKind::WouldBlock | IoErrorKind::TimedOut | IoErrorKind::Interrupted => error
            == Error::WouldBlock,
        IoErrorKind::InvalidInput => error == Error::OversizeForMtu,
        IoErrorKind::AddrNotAvailable
        | IoErrorKind::NetworkUnreachable
        | IoErrorKind::HostUnreachable => error == Error::NoEgressRoute,
        IoErrorKind::ConnectionRefused | IoErrorKind::ConnectionReset => {
            &&& error matches Error::Device(device)
            &&& device.kind_spec() == DeviceErrorKind::FdClosed
            &&& device.source_text() == Some(io.text@)
        },
        IoErrorKind::Other => {
            &&& error matches Error::Device(device)
            &&& device.kind_spec() == DeviceErrorKind::Backend
            &&& device.source_text() == Some(io.text@)
        },
    }
}

/// Returns whether the failure may go away by itself.
pub fn is_transient(error: &IoError) -> (r: bool)
    ensures
        r == transient_kind(error.kind),
{
    matches!(
        error.kind,
        IoErrorKind::WouldBlock | IoErrorKind::TimedOut | IoErrorKind::Interrupted
    )
}

/// Translates a failed system call into the core error vocabulary.
pub fn io_error_to_core(error: IoError) -> (r: Error)
    ensures
        reports_io_error(error, r),
{
    match error.kind {
        IoErrorKind::WouldBlock | IoErrorKind::TimedOut | IoErrorKind::Interrupted => {
            Error::WouldBlock
        },
        IoErrorKind::InvalidInput => Error::OversizeForMtu,
        IoErrorKind::AddrNotAvailable
        | IoErrorKind::NetworkUnreachable
        | IoErrorKind::HostUnreachable => Error::NoEgressRoute,
        IoErrorKind::ConnectionRefused | IoErrorKind::ConnectionReset => {
            Error::Device(DeviceError::with_source(DeviceErrorKind::FdClosed, error.text))
        },
        IoErrorKind::Other => {
            Error::Device(DeviceError::with_source(DeviceErrorKind::Backend, error.text))
        },
    }
}

/// The `poll` timeout for a span: forever, at once, or whole milliseconds of at least 1.
pub open spec fn poll_millis(timeout: Option<TimeSpan>) -> i32 {
    match timeout {
        None => -1i32,
        Some(span) => if span@ == 0 {
            0i32
        } else if span@ / 1_000_000 < 1 {
            1i32
        } else if span@ / 1_000_000 > i32::MAX {
            i32::MAX
        } else {
            (span@ / 1_000_000) as i32
        },
    }
}

/// Converts a wait timeout into the milliseconds that `poll` takes.
pub fn timeout_to_poll_ms(timeout: Option<TimeSpan>) -> (r: i32)
    requires
        timeout matches Some(span) ==> span.wf(),
    ensures
        r == poll_millis(timeout),
{
    match timeout {
        None => -1,
        Some(span) => {
            if span.is_zero() {
                return 0;
            }
            let millis: u128 = span.as_millis();
            if millis < 1 {
                1
            } else if millis > i32::MAX as u128 {
                i32::MAX
            } else {
                millis as i32
            }
        },
    }
}

/// Interprets what `poll` returned: the number of ready descriptors or a failure.
pub fn wait_outcome(polled: Result<u32, IoError>) -> (r: Result<WaitOutcome, Error>)
    ensures
        match polled {
            Ok(ready) => r == Ok::<WaitOutcome, Error>(
                if ready > 0 {
                    WaitOutcome::Ready
                } else {
                    WaitOutcome::Timeout
                },
            ),
            Err(io) => if io.kind == IoErrorKind::Interrupted {
                r == Ok::<WaitOutcome, Error>(WaitOutcome::Spurious)
            } else {
                r matches Err(error) && reports_io_error(io, error)
            },
        },
{
    match polled {
        Ok(ready) => if ready > 0 {
            Ok(WaitOutcome::Ready)
        } else {
            Ok(WaitOutcome::Timeout)
        },
        Err(error) => if error.kind == IoErrorKind::Interrupted {
            Ok(WaitOutcome::Spurious)
        } else {
            Err(io_error_to_core(error))
        },
    }
}

/// A system error is reported by its kind: as a reason to wait, as a packet that is too
/// long, as a missing route, or as a failed device that keeps the system's words.
pub proof fn law_system_errors_are_reported_by_kind(io: IoError, r: Error, transient: bool)
    requires
        call_ensures(io_error_to_core, (io,), r),
        call_ensures(is_transient, (&io,), transient),
    ensures
        transient <==> io.kind is WouldBlock || io.kind is TimedOut || io.kind is Interrupted,
        transient <==> r is WouldBlock,
        io.kind is InvalidInput <==> r is OversizeForMtu,
        io.kind is AddrNotAvailable || io.kind is NetworkUnreachable || io.kind is HostUnreachable
            <==> r is NoEgressRoute,
        io.kind is ConnectionRefused || io.kind is ConnectionReset ==> (r matches Error::Device(
            device,
        ) && device.kind_spec() is FdClosed && device.source_text() == Some(io.text@)),
        io.kind is Other ==> (r matches Error::Device(device) && device.kind_spec() is Backend
            && device.source_text() == Some(io.text@)),
{
}

/// A poll timeout is forever without a limit, none for zero, and otherwise the whole
/// milliseconds of the limit: at least one, and no more than fit.
pub proof fn law_poll_timeouts_round_down_to_one(timeout: Option<TimeSpan>, r: i32)
    requires
        call_ensures(timeout_to_poll_ms, (timeout,), r),
    ensures
        timeout is None <==> r == -1,
        timeout matches Some(span) ==> {
            &&& r == 0 <==> span@ == 0
            &&& r > 1 ==> r * 1_000_000 <= span@
            &&& 0 < r < 0x7fff_ffff ==> span@ < (r + 1) * 1_000_000
            &&& span@ >= 1_000_000 * 0x7fff_ffff <==> r == 0x7fff_ffff
        },
{
}

/// A poll that finds something ready says so, one that finds nothing has timed out, an
/// interrupted one tells nothing, and any other error is reported.
pub proof fn law_polls_say_what_they_found(
    polled: Result<u32, IoError>,
    r: Result<WaitOutcome, Error>,
)
    requires
        call_ensures(wait_outcome, (polled,), r),
    ensures
        polled matches Ok(ready) ==> (ready > 0 ==> r == Ok::<WaitOutcome, Error>(
            WaitOutcome::Ready,
        )),
        polled == Ok::<u32, IoError>(0) ==> r == Ok::<WaitOutcome, Error>(WaitOutcome::Timeout),
        polled matches Err(io) ==> {
            &&& io.kind is Interrupted <==> r == Ok::<WaitOutcome, Error>(WaitOutcome::Spurious)
            &&& !(io.kind is Interrupted) ==> r is Err
            &&& io.kind is WouldBlock || io.kind is TimedOut ==> r == Err::<WaitOutcome, Error>(
                Error::WouldBlock,
            )
            &&& io.kind is Other ==> (r matches Err(Error::Device(device))
                && device.kind_spec() is Backend && device.source_text() == Some(io.text@))
        },
{
}

} // verus!

//! Error vocabulary shared by all operations.

use vstd::prelude::*;
use vstd::string::*;

verus! {

/// Error type shared by socket and device operations.
#[derive(Clone, Debug)]
pub enum Error {
    /// The operation cannot make progress immediately.
    ///
    /// A full caller-supplied container is [`Error::BatchFull`] instead.
    WouldBlock,
    /// Packet bytes or metadata were malformed.
    InvalidPacket,
    /// The caller submitted a malformed batch.
    InvalidBatch,
    /// Backend-reported device or descriptor failure.
    Device(DeviceError),
    /// The caller-supplied output storage has no remaining capacity.
    BatchFull,
    /// An incoming packet did not fit in the caller-supplied space.
    Truncated,
    /// The finished packet exceeds the socket MTU.
    OversizeForMtu,
    /// The resolved egress handle no longer maps to a destination.
    NoEgressRoute,
}

impl Error {
    /// The text that describes this error.
    pub open spec fn message_text(self) -> Seq<char> {
        match self {
            Error::WouldBlock => "operation would block"@,
            Error::InvalidPacket => "packet was invalid"@,
            Error::InvalidBatch => "batch was invalid"@,
            Error::Device(error) => "device error: "@ + error.message_text(),
            Error::BatchFull => "receive batch is full"@,
            Error::Truncated => "packet was truncated"@,
            Error::OversizeForMtu => "packet exceeds MTU"@,
            Error::NoEgressRoute => "no usable egress route"@,
        }
    }

    /// Renders this error for people.
    pub fn message(&self) -> (r: String)
        ensures
            r@ == self.message_text(),
    {
        match self {
            Error::WouldBlock => "operation would block".to_owned(),
            Error::InvalidPacket => "packet was invalid".to_owned(),
            Error::InvalidBatch => "batch was invalid".to_owned(),
            Error::Device(error) => "device error: ".to_owned().concat(error.message().as_str()),
            Error::BatchFull => "receive batch is full".to_owned(),
            Error::Truncated => "packet was truncated".to_owned(),
            Error::OversizeForMtu => "packet exceeds MTU".to_owned(),
            Error::NoEgressRoute => "no usable egress route".to_owned(),
        }
    }
}

/// Coarse category for a backend-reported device error.
#[derive(Clone, Copy, Debug, Eq, PartialEq, Structural)]
pub enum DeviceErrorKind {
    /// Backend-specific error not covered by a more specific variant.
    Backend,
    /// The underlying device disappeared or was administratively removed.
    DeviceRemoved,
    /// The underlying file descriptor or handle was closed.
    FdClosed,
    /// A descriptor ring or completion queue reported corruption.
    RingCorrupt,
}

impl DeviceErrorKind {
    /// The text that describes this category.
    pub open spec fn message_text(self) -> Seq<char> {
        match self {
            DeviceErrorKind::Backend => "backend error"@,
            DeviceErrorKind::DeviceRemoved => "device removed"@,
            DeviceErrorKind::FdClosed => "handle closed"@,
            DeviceErrorKind::RingCorrupt => "ring corrupt"@,
        }
    }

    /// Renders this category for people.
    pub fn message(&self) -> (r: String)
        ensures
            r@ == self.message_text(),
    {
        match self {
            DeviceErrorKind::Backend => "backend error".to_owned(),
            DeviceErrorKind::DeviceRemoved => "device removed".to_owned(),
            DeviceErrorKind::FdClosed => "handle closed".to_owned(),
            DeviceErrorKind::RingCorrupt => "ring corrupt".to_owned(),
        }
    }
}

/// Device error: a category and, where known, the backend's own description.
#[derive(Clone, Debug)]
pub struct DeviceError {
    kind: DeviceErrorKind,
    source: Option<String>,
}

impl DeviceError {
    /// The coarse category.
    pub closed spec fn kind_spec(self) -> DeviceErrorKind {
        self.kind
    }

    /// The backend's own description.
    pub closed spec fn source_text(self) -> Option<Seq<char>> {
        match self.source {
            Some(source) => Some(source@),
            None => None,
        }
    }

    /// The text that describes this error.
    pub open spec fn message_text(self) -> Seq<char> {
        match self.source_text() {
            Some(source) => self.kind_spec().message_text() + ": "@ + source,
            None => self.kind_spec().message_text(),
        }
    }

    /// Creates a device error without a backend-specific source.
    #[must_use]
    pub fn new(kind: DeviceErrorKind) -> (r: Self)
        ensures
            r.kind_spec() == kind,
            r.source_text() is None,
    {
        Self { kind, source: None }
    }

    /// Creates a device error with the backend's description attached.
    #[must_use]
    pub fn with_source(kind: DeviceErrorKind, source: String) -> (r: Self)
        ensures
            r.kind_spec() == kind,
            r.source_text() == Some(source@),
    {
        Self { kind, source: Some(source) }
    }

    /// Returns the coarse device error category.
    #[must_use]
    pub fn kind(&self) -> (r: DeviceErrorKind)
        ensures
            r == self.kind_spec(),
    {
        self.kind
    }

    /// Renders this error for people.
    pub fn message(&self) -> (r: String)
        ensures
            r@ == self.message_text(),
    {
        match &self.source {
            Some(source) => self.kind.message().concat(": ").concat(source.as_str()),
            None => self.kind.message(),
        }
    }
}

/// What the errors say.
pub proof fn law_error_messages(error: &Error, device: &DeviceError, r: String, inner: String)
    ensures
        call_ensures(Error::message, (error,), r) ==> {
            &&& *error is WouldBlock ==> r@ == "operation would block"@
            &&& *error is InvalidPacket ==> r@ == "packet was invalid"@
            &&& *error is InvalidBatch ==> r@ == "batch was invalid"@
            &&& *error is BatchFull ==> r@ == "receive batch is full"@
            &&& *error is Truncated ==> r@ == "packet was truncated"@
            &&& *error is OversizeForMtu ==> r@ == "packet exceeds MTU"@
            &&& *error is NoEgressRoute ==> r@ == "no usable egress route"@
        },
        call_ensures(Error::message, (error,), r) && *error == Error::Device(*device)
            && call_ensures(DeviceError::message, (device,), inner) ==> r@ == "device error: "@
            + inner@,
        call_ensures(DeviceError::message, (device,), r) ==> {
            let kind = match device.kind_spec() {
                DeviceErrorKind::Backend => "backend error"@,
                DeviceErrorKind::DeviceRemoved => "device removed"@,
                DeviceErrorKind::FdClosed => "handle closed"@,
                DeviceErrorKind::RingCorrupt => "ring corrupt"@,
            };
            &&& device.source_text() is None ==> r@ == kind
            &&& device.source_text() matches Some(source) ==> r@ == kind + ": "@ + source
        },
{
}

/// A device error keeps its kind and what caused it.
pub proof fn law_device_errors_keep_their_cause(
    kind: DeviceErrorKind,
    source: String,
    plain: DeviceError,
    caused: DeviceError,
)
    requires
        call_ensures(DeviceError::new, (kind,), plain),
        call_ensures(DeviceError::with_source, (kind, source), caused),
    ensures
        plain.source_text() is None,
        caused.source_text() == Some(source@),
        forall|r: DeviceErrorKind| #[trigger]
            call_ensures(DeviceError::kind, (&plain,), r) ==> r == kind,
        forall|r: DeviceErrorKind| #[trigger]
            call_ensures(DeviceError::kind, (&caused,), r) ==> r == kind,
{
}

} // verus!

//! Places a worker thread on the CPUs its socket asks for.
//!
//! The functions here decide which CPUs to request; the caller supplies the
//! operation that applies the request to the current thread.

use vstd::prelude::*;
use vstd::string::*;

use crate::ip_packet::IpPacketSocket;
use crate::sys::QueueAffinity;
use crate::text::{decimal_text, push_decimal};
use crate::udp::UdpSocket;

verus! {

/// Number of CPUs that a CPU set can name.
pub const CPU_SET_SIZE: u32 = 1024;

/// Result of a thread-pinning request.
#[derive(Clone, Copy, Debug, Eq, PartialEq, Structural)]
pub enum PinOutcome {
    /// The thread was pinned to the reported affinity.
    Pinned(QueueAffinity),
    /// There was no hint; nothing was pinned.
    NoHint,
}

/// Why a thread was not pinned.
#[derive(Clone, Copy, Debug, Eq, PartialEq, Structural)]
pub enum PinError {
    /// The CPU index is beyond what a CPU set can name.
    CpuOutOfRange(u32),
    /// The CPU mask names no CPU.
    EmptyMask,
    /// The system refused the request with this error number.
    Os(i32),
}

impl PinError {
    /// The text that describes this error.
    pub open spec fn message_text(self) -> Seq<char> {
        match self {
            PinError::CpuOutOfRange(cpu) => "CPU index "@ + decimal_text(cpu as nat)
                + " exceeds CPU_SETSIZE (1024)"@,
            PinError::EmptyMask => "empty CPU affinity mask"@,
            PinError::Os(_) => "the system refused the CPU affinity"@,
        }
    }

    /// Renders this error for people.
    pub fn message(&self) -> (r: String)
        ensures
            r@ == self.message_text(),
    {
        match self {
            PinError::CpuOutOfRange(cpu) => {
                let mut out = "CPU index ".to_owned();
                push_decimal(&mut out, *cpu as u64);
                out.append(" exceeds CPU_SETSIZE (1024)");
                out
            },
            PinError::EmptyMask => "empty CPU affinity mask".to_owned(),
            PinError::Os(_) => "the system refused the CPU affinity".to_owned(),
        }
    }
}

/// Bit `n` of `mask` is set.
pub open spec fn mask_has(mask: u64, n: int) -> bool {
    mask & (1u64 << (n as u64)) != 0
}

/// The CPUs below `limit` that `mask` names, in ascending order.
pub open spec fn mask_cpus_below(mask: u64, limit: nat) -> Seq<u32>
    decreases limit,
{
    if limit == 0 {
        Seq::empty()
    } else {
        let below = mask_cpus_below(mask, (limit - 1) as nat);
        if mask_has(mask, limit - 1) {
            below.push((limit - 1) as u32)
        } else {
            below
        }
    }
}

/// The CPUs that an affinity asks for, or why it cannot be requested.
pub open spec fn requested_cpus(affinity: QueueAffinity) -> Result<Seq<u32>, PinError> {
    match affinity {
        QueueAffinity::Any => Ok(Seq::empty()),
        QueueAffinity::Core(cpu) => if cpu >= CPU_SET_SIZE {
            Err(PinError::CpuOutOfRange(cpu))
        } else {
            Ok(seq![cpu])
        },
        QueueAffinity::Mask(mask) => if mask == 0 {
            Err(PinError::EmptyMask)
        } else {
            Ok(mask_cpus_below(mask, 64))
        },
    }
}

/// The outcome of pinning to `affinity` when the system answers `applied`.
pub open spec fn pin_result(affinity: QueueAffinity, applied: Result<(), PinError>) -> Result<
    PinOutcome,
    PinError,
> {
    match applied {
        Ok(_) => Ok(PinOutcome::Pinned(affinity)),
        Err(error) => Err(error),
    }
}

/// `set_affinity` may be asked for what `affinity` requests, and that is all it has to
/// take: without a hint, or where nothing can be requested, it is not called.
pub open spec fn takes_request<F: FnOnce(Vec<u32>) -> Result<(), PinError>>(
    affinity: QueueAffinity,
    set_affinity: F,
) -> bool {
    affinity != QueueAffinity::Any ==> forall|cpus: Vec<u32>|
        requested_cpus(affinity) == Ok::<Seq<u32>, PinError>(cpus@) ==> #[trigger] call_requires(
            set_affinity,
            (cpus,),
        )
}

/// The outcomes of pinning to `affinity` with `set_affinity`.
pub open spec fn may_pin<F: FnOnce(Vec<u32>) -> Result<(), PinError>>(
    affinity: QueueAffinity,
    set_affinity: F,
    r: Result<PinOutcome, PinError>,
) -> bool {
    match (affinity, requested_cpus(affinity)) {
        (QueueAffinity::Any, _) => r == Ok::<PinOutcome, PinError>(PinOutcome::NoHint),
        (_, Err(error)) => r == Err::<PinOutcome, PinError>(error),
        (_, Ok(wanted)) => exists|cpus: Vec<u32>, applied: Result<(), PinError>|
            {
                &&& cpus@ == wanted
                &&& #[trigger] call_ensures(set_affinity, (cpus,), applied)
                &&& r == pin_result(affinity, applied)
            },
    }
}

fn cpus_in_mask(mask: u64) -> (r: Vec<u32>)
    ensures
        r@ == mask_cpus_below(mask, 64),
{
    let mut cpus: Vec<u32> = Vec::new();
    let mut bit: u32 = 0;
    while bit < 64
        invariant
            bit <= 64,
            cpus@ == mask_cpus_below(mask, bit as nat),
        decreases 64 - bit,
    {
        if mask & (1u64 << (bit as u64)) != 0 {
            cpus.push(bit);
        }
        bit = bit + 1;
    }
    cpus
}

/// Pins the current thread to a single CPU core through `set_affinity`.
pub fn pin_current_thread_to_cpu<F: FnOnce(Vec<u32>) -> Result<(), PinError>>(
    cpu: u32,
    set_affinity: F,
) -> (r: Result<(), PinError>)
    requires
        forall|cpus: Vec<u32>|
            cpu < CPU_SET_SIZE && cpus@ == seq![cpu] ==> #[trigger] call_requires(
                set_affinity,
                (cpus,),
            ),
    ensures
        if cpu >= CPU_SET_SIZE {
            r == Err::<(), PinError>(PinError::CpuOutOfRange(cpu))
        } else {
            exists|cpus: Vec<u32>|
                cpus@ == seq![cpu] && #[trigger] call_ensures(set_affinity, (cpus,), r)
        },
{
    if cpu >= CPU_SET_SIZE {
        return Err(PinError::CpuOutOfRange(cpu));
    }
    let mut cpus: Vec<u32> = Vec::new();
    cpus.push(cpu);
    proof {
        assert(cpus@ =~= seq![cpu]);
    }
    set_affinity(cpus)
}

/// Pins the current thread to every CPU in `mask` through `set_affinity`.
pub fn pin_current_thread_to_mask<F: FnOnce(Vec<u32>) -> Result<(), PinError>>(
    mask: u64,
    set_affinity: F,
) -> (r: Result<(), PinError>)
    requires
        forall|cpus: Vec<u32>|
            mask != 0 && cpus@ == mask_cpus_below(mask, 64) ==> #[trigger] call_requires(
                set_affinity,
                (cpus,),
            ),
    ensures
        if mask == 0 {
            r == Err::<(), PinError>(PinError::EmptyMask)
        } else {
            exists|cpus: Vec<u32>|
                cpus@ == mask_cpus_below(mask, 64) && #[trigger] call_ensures(
                    set_affinity,
                    (cpus,),
                    r,
                )
        },
{
    if mask == 0 {
        return Err(PinError::EmptyMask);
    }
    set_affinity(cpus_in_mask(mask))
}

/// Pins the current thread to the CPU(s) named by `affinity`.
///
/// [`QueueAffinity::Any`] is a no-op that returns [`PinOutcome::NoHint`];
/// [`QueueAffinity::Core`] pins to that core and [`QueueAffinity::Mask`] to
/// every set bit. `set_affinity` applies a non-empty list of CPUs to the
/// current thread.
pub fn pin_current_thread_to_affinity<F: FnOnce(Vec<u32>) -> Result<(), PinError>>(
    affinity: QueueAffinity,
    set_affinity: F,
) -> (r: Result<PinOutcome, PinError>)
    requires
        takes_request(affinity, set_affinity),
    ensures
        may_pin(affinity, set_affinity, r),
{
    match affinity {
        QueueAffinity::Any => Ok(PinOutcome::NoHint),
        QueueAffinity::Core(cpu) => {
            match pin_current_thread_to_cpu(cpu, set_affinity) {
                Ok(_) => Ok(PinOutcome::Pinned(QueueAffinity::Core(cpu))),
                Err(error) => Err(error),
            }
        },
        QueueAffinity::Mask(mask) => {
            match pin_current_thread_to_mask(mask, set_affinity) {
                Ok(_) => Ok(PinOutcome::Pinned(QueueAffinity::Mask(mask))),
                Err(error) => Err(error),
            }
        },
    }
}

/// Pins the current thread to the CPU(s) `socket` asks for.
pub fn pin_current_thread_to_socket<S: UdpSocket, F: FnOnce(Vec<u32>) -> Result<(), PinError>>(
    socket: &S,
    set_affinity: F,
) -> (r: Result<PinOutcome, PinError>)
    requires
        forall|affinity: QueueAffinity| #[trigger]
            call_ensures(S::worker_affinity, (socket,), affinity) ==> takes_request(
                affinity,
                set_affinity,
            ),
    ensures
        exists|affinity: QueueAffinity|
            #[trigger] call_ensures(S::worker_affinity, (socket,), affinity) && may_pin(
                affinity,
                set_affinity,
                r,
            ),
{
    pin_current_thread_to_affinity(socket.worker_affinity(), set_affinity)
}

/// Pins the current thread to the CPU(s) an IP-packet `socket` asks for.
pub fn pin_current_thread_to_ip_packet_socket<
    S: IpPacketSocket,
    F: FnOnce(Vec<u32>) -> Result<(), PinError>,
>(socket: &S, set_affinity: F) -> (r: Result<PinOutcome, PinError>)
    requires
        forall|affinity: QueueAffinity| #[trigger]
            call_ensures(S::worker_affinity, (socket,), affinity) ==> takes_request(
                affinity,
                set_affinity,
            ),
    ensures
        exists|affinity: QueueAffinity|
            #[trigger] call_ensures(S::worker_affinity, (socket,), affinity) && may_pin(
                affinity,
                set_affinity,
                r,
            ),
{
    pin_current_thread_to_affinity(socket.worker_affinity(), set_affinity)
}

proof fn lemma_mask_cpus_below(mask: u64, limit: nat)
    requires
        limit <= 64,
    ensures
        forall|i: int|
            0 <= i < mask_cpus_below(mask, limit).len() ==> {
                &&& (#[trigger] mask_cpus_below(mask, limit)[i]) < limit
                &&& mask_has(mask, mask_cpus_below(mask, limit)[i] as int)
            },
        forall|n: int|
            0 <= n < limit && #[trigger] mask_has(mask, n) ==> mask_cpus_below(
                mask,
                limit,
            ).contains(n as u32),
    decreases limit,
{
    if limit > 0 {
        let below = mask_cpus_below(mask, (limit - 1) as nat);
        lemma_mask_cpus_below(mask, (limit - 1) as nat);
        assert forall|n: int|
            0 <= n < limit && #[trigger] mask_has(mask, n) implies mask_cpus_below(
            mask,
            limit,
        ).contains(n as u32) by {
            if n == limit - 1 {
                assert(mask_cpus_below(mask, limit)[below.len() as int] == n as u32);
            } else {
                assert(below.contains(n as u32));
                let i = choose|i: int| 0 <= i < below.len() && below[i] == n as u32;
                assert(mask_cpus_below(mask, limit)[i] == n as u32);
            }
        }
    }
}

proof fn lemma_no_low_bits(mask: u64, limit: u64)
    requires
        1 <= limit <= 64,
        forall|n: int| 0 <= n < limit ==> !#[trigger] mask_has(mask, n),
    ensures
        mask << ((64 - limit) as u64) == 0,
    decreases limit,
{
    let top: u64 = (limit - 1) as u64;
    let shift: u64 = (64 - limit) as u64;
    assert(!mask_has(mask, top as int));
    if limit == 1 {
        assert(mask & (1u64 << 0u64) == 0 ==> mask << 63u64 == 0) by (bit_vector);
    } else {
        lemma_no_low_bits(mask, top);
        let wider: u64 = (64 - top) as u64;
        assert(mask << shift == 0) by (bit_vector)
            requires
                mask & (1u64 << top) == 0,
                mask << wider == 0,
                1 <= top < 64,
                wider == 64 - top,
                shift == 63 - top,
        ;
    }
}

/// A mask that is not 0 asks for at least one CPU, for exactly the CPUs whose
/// bits are set, and for none that a CPU set cannot name.
pub proof fn law_mask_names_its_bits(mask: u64)
    requires
        mask != 0,
    ensures
        mask_cpus_below(mask, 64).len() > 0,
        forall|i: int|
            0 <= i < mask_cpus_below(mask, 64).len() ==> {
                &&& (#[trigger] mask_cpus_below(mask, 64)[i]) < CPU_SET_SIZE
                &&& mask_has(mask, mask_cpus_below(mask, 64)[i] as int)
            },
        forall|n: int|
            0 <= n < 64 && #[trigger] mask_has(mask, n) ==> mask_cpus_below(mask, 64).contains(
                n as u32,
            ),
{
    lemma_mask_cpus_below(mask, 64);
    if forall|n: int| 0 <= n < 64 ==> !#[trigger] mask_has(mask, n) {
        lemma_no_low_bits(mask, 64);
        assert(mask << 0u64 == mask) by (bit_vector);
    }
}

/// A thread that is pinned to a mask may run on the CPUs that are the mask's bits, each
/// named once, in ascending order. One that is pinned to a CPU may run there alone.
pub proof fn law_mask_cpus_are_its_bits<F: FnOnce(Vec<u32>) -> Result<(), PinError>>(
    mask: u64,
    cpu: u32,
    set_affinity: F,
    r: Result<(), PinError>,
)
    ensures
        call_ensures(pin_current_thread_to_mask::<F>, (mask, set_affinity), r) && mask == 0 ==> r
            == Err::<(), PinError>(PinError::EmptyMask),
        call_ensures(pin_current_thread_to_mask::<F>, (mask, set_affinity), r) && mask != 0
            ==> exists|cpus: Vec<u32>|
            {
                &&& #[trigger] call_ensures(set_affinity, (cpus,), r)
                &&& forall|i: int, j: int|
                    0 <= i < j < cpus@.len() ==> #[trigger] cpus@[i] < #[trigger] cpus@[j]
                &&& forall|i: int|
                    0 <= i < cpus@.len() ==> (#[trigger] cpus@[i]) < 64 && mask & (1u64
                        << (cpus@[i] as u64)) != 0
                &&& forall|n: u64|
                    n < 64 && mask & #[trigger] (1u64 << n) != 0 ==> cpus@.contains(n as u32)
            },
        call_ensures(pin_current_thread_to_cpu::<F>, (cpu, set_affinity), r) && cpu >= 1024 ==> r
            == Err::<(), PinError>(PinError::CpuOutOfRange(cpu)),
        call_ensures(pin_current_thread_to_cpu::<F>, (cpu, set_affinity), r) && cpu < 1024
            ==> exists|cpus: Vec<u32>| #[trigger]
            call_ensures(set_affinity, (cpus,), r) && cpus@.len() == 1 && cpus@[0] == cpu,
{
    if call_ensures(pin_current_thread_to_mask::<F>, (mask, set_affinity), r) && mask != 0 {
        let cpus = choose|cpus: Vec<u32>|
            cpus@ == mask_cpus_below(mask, 64) && #[trigger] call_ensures(
                set_affinity,
                (cpus,),
                r,
            );
        lemma_mask_cpus_ascend(mask, 64);
        lemma_mask_cpus_below(mask, 64);
        assert forall|i: int| 0 <= i < cpus@.len() implies (#[trigger] cpus@[i]) < 64 && mask & (
        1u64 << (cpus@[i] as u64)) != 0 by {
            assert(mask_has(mask, cpus@[i] as int));
        }
        assert forall|n: u64| n < 64 && mask & #[trigger] (1u64 << n) != 0 implies cpus@.contains(
            n as u32,
        ) by {
            assert(mask_has(mask, n as int));
        }
        assert(call_ensures(set_affinity, (cpus,), r));
    }
}

proof fn lemma_mask_cpus_ascend(mask: u64, limit: nat)
    requires
        limit <= 64,
    ensures
        forall|i: int|
            0 <= i < mask_cpus_below(mask, limit).len() ==> (#[trigger] mask_cpus_below(
                mask,
                limit,
            )[i]) < limit,
        forall|i: int, j: int|
            0 <= i < j < mask_cpus_below(mask, limit).len() ==> (#[trigger] mask_cpus_below(
                mask,
                limit,
            )[i]) < (#[trigger] mask_cpus_below(mask, limit)[j]),
    decreases limit,
{
    lemma_mask_cpus_below(mask, limit);
    if limit > 0 {
        let below = mask_cpus_below(mask, (limit - 1) as nat);
        lemma_mask_cpus_below(mask, (limit - 1) as nat);
        lemma_mask_cpus_ascend(mask, (limit - 1) as nat);
        let cpus = mask_cpus_below(mask, limit);
        assert forall|i: int, j: int| 0 <= i < j < cpus.len() implies (#[trigger] cpus[i]) < (
        #[trigger] cpus[j]) by {
            assert(cpus[i] == below[i]);
            if j < below.len() {
                assert(cpus[j] == below[j]);
            } else {
                assert(cpus[j] == (limit - 1) as u32);
            }
        }
    }
}

/// A thread is pinned to the one CPU of a core, to all CPUs of a mask, or not at all where
/// there is no hint. A CPU that a CPU set cannot hold and an empty mask are refused. What
/// the system answers is passed on.
pub proof fn law_threads_are_pinned_where_asked<F: FnOnce(Vec<u32>) -> Result<(), PinError>>(
    affinity: QueueAffinity,
    set_affinity: F,
    r: Result<PinOutcome, PinError>,
)
    requires
        call_ensures(pin_current_thread_to_affinity::<F>, (affinity, set_affinity), r),
    ensures
        affinity is Any ==> r == Ok::<PinOutcome, PinError>(PinOutcome::NoHint),
        affinity matches QueueAffinity::Core(cpu) ==> {
            &&& cpu >= 1024 ==> r == Err::<PinOutcome, PinError>(PinError::CpuOutOfRange(cpu))
            &&& cpu < 1024 ==> exists|cpus: Vec<u32>, applied: Result<(), PinError>|
                {
                    &&& #[trigger] call_ensures(set_affinity, (cpus,), applied)
                    &&& cpus@.len() == 1 && cpus@[0] == cpu
                    &&& applied is Ok ==> r == Ok::<PinOutcome, PinError>(
                        PinOutcome::Pinned(affinity),
                    )
                    &&& applied matches Err(error) ==> r == Err::<PinOutcome, PinError>(error)
                }
        },
        affinity matches QueueAffinity::Mask(mask) ==> {
            &&& mask == 0 ==> r == Err::<PinOutcome, PinError>(PinError::EmptyMask)
            &&& mask != 0 ==> exists|cpus: Vec<u32>, applied: Result<(), PinError>|
                {
                    &&& #[trigger] call_ensures(set_affinity, (cpus,), applied)
                    &&& forall|n: u64|
                        n < 64 ==> (mask & #[trigger] (1u64 << n) != 0 <==> cpus@.contains(
                            n as u32,
                        ))
                    &&& forall|i: int| 0 <= i < cpus@.len() ==> #[trigger] cpus@[i] < 64
                    &&& applied is Ok ==> r == Ok::<PinOutcome, PinError>(
                        PinOutcome::Pinned(affinity),
                    )
                    &&& applied matches Err(error) ==> r == Err::<PinOutcome, PinError>(error)
                }
        },
{
    if let QueueAffinity::Mask(mask) = affinity {
        if mask != 0 {
            let (cpus, applied) = choose|cpus: Vec<u32>, applied: Result<(), PinError>|
                {
                    &&& cpus@ == mask_cpus_below(mask, 64)
                    &&& #[trigger] call_ensures(set_affinity, (cpus,), applied)
                    &&& r == pin_result(affinity, applied)
                };
            lemma_mask_cpus_below(mask, 64);
            lemma_mask_cpus_ascend(mask, 64);
            assert forall|n: u64| n < 64 implies (mask & #[trigger] (1u64 << n) != 0
                <==> cpus@.contains(n as u32)) by {
                if mask & (1u64 << n) != 0 {
                    assert(mask_has(mask, n as int));
                }
                if cpus@.contains(n as u32) {
                    let i = cpus@.index_of(n as u32);
                    assert(mask_has(mask, cpus@[i] as int));
                }
            }
        }
    }
}

/// What a refused affinity is told.
pub proof fn law_pin_errors_say_what_is_wrong(error: &PinError, r: String)
    requires
        call_ensures(PinError::message, (error,), r),
    ensures
        *error matches PinError::CpuOutOfRange(cpu) ==> r@ == "CPU index "@ + decimal_text(
            cpu as nat,
        ) + " exceeds CPU_SETSIZE (1024)"@,
        *error is EmptyMask ==> r@ == "empty CPU affinity mask"@,
{
}

} // verus!

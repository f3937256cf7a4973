//! The decision at the end of a guarded call into the host: a bailout, a
//! native panic to resume, or the closure's result.
use vstd::prelude::*;

verus! {

/// Error returned when a bailout occurred inside a guarded call.
#[derive(Debug, Clone, Copy, PartialEq, Eq, Structural)]
pub struct CatchError;

/// What a guarded closure left in its result slot: its return value, or the
/// payload of a native panic that it raised.
pub enum FrameOutcome<R, P> {
    Returned(R),
    Panicked(P),
}

/// What a guarded call does once the host's frame is left: hand back a
/// result, or resume a native panic.
pub enum Settlement<R, P> {
    Finish(Result<R, CatchError>),
    Resume(P),
}

/// Decides the end of a guarded call from the host's bailout indicator and
/// the result slot, which a bailout leaves empty. A bailout becomes
/// `CatchError`; a native panic is resumed, never turned into a
/// `CatchError`; a returned value is handed back unchanged.
pub fn settle<R, P>(has_bailout: bool, slot: Option<FrameOutcome<R, P>>) -> (r: Settlement<R, P>)
    ensures
        (has_bailout || slot is None) ==> r == Settlement::<R, P>::Finish(Err(CatchError)),
        !has_bailout ==> match slot {
            Some(FrameOutcome::Returned(v)) => r == Settlement::<R, P>::Finish(Ok(v)),
            Some(FrameOutcome::Panicked(p)) => r == Settlement::<R, P>::Resume(p),
            None => true,
        },
{
    if has_bailout {
        return Settlement::Finish(Err(CatchError));
    }
    match slot {
        None => Settlement::Finish(Err(CatchError)),
        Some(FrameOutcome::Returned(v)) => Settlement::Finish(Ok(v)),
        Some(FrameOutcome::Panicked(p)) => Settlement::Resume(p),
    }
}

} // verus!

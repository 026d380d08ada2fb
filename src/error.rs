use vstd::prelude::*;

verus! {

/// Why a lease could not be handed out.
#[derive(PartialEq, Eq, Structural, Clone, Copy, Debug)]
pub enum PoolError {
    /// The target record does not exist.
    TargetNotFound,
    /// TCP or SSH handshake failure.
    ConnectFailure,
    /// Credentials rejected, or no usable authentication method.
    AuthFailure,
    /// Connecting and authenticating took longer than allowed.
    Timeout,
    /// The per-target connection cap or the per-connection child cap is reached.
    CapacityExhausted,
    /// The connection has been retired from the pool.
    ConnectionExpired,
}

} // verus!

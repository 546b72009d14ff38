//! Attested connections to backup replicas, tagged with their enclave
//! flavor, and the errors of establishing them.
use std::marker::PhantomData;

use vstd::prelude::*;

use crate::connection::{NetError, ServiceState};
use crate::enclave::Svr3Flavor;

verus! {

/// Why attestation evidence was rejected.
#[derive(Clone, Copy, Debug, PartialEq, Eq, Structural)]
pub enum AttestationError {
    /// The enclave runs another build than the one configured.
    IdentityMismatch,
    /// The evidence could not be read or does not verify.
    MalformedEvidence,
}

/// How an attested handshake over an open transport failed.
#[derive(Clone, Copy, Debug, PartialEq, Eq, Structural)]
pub enum AttestedConnectionError {
    /// The client side of the encrypted session failed.
    ClientConnection,
    Net(NetError),
    /// The enclave sent an unexpected message.
    Protocol,
    /// The enclave's evidence was rejected.
    Sgx(AttestationError),
}

/// Failure to establish an attested connection to a replica.
#[derive(Clone, Copy, Debug, PartialEq, Eq, Structural)]
pub enum Error {
    /// Network error.
    Net(NetError),
    /// Protocol error after establishing a connection.
    Protocol,
    /// Enclave attestation failed.
    AttestationError(AttestationError),
}

/// The connection error that a handshake failure is reported as: session
/// and message failures are protocol errors, the others keep their cause.
pub open spec fn error_of(e: AttestedConnectionError) -> Error {
    match e {
        AttestedConnectionError::ClientConnection => Error::Protocol,
        AttestedConnectionError::Net(n) => Error::Net(n),
        AttestedConnectionError::Protocol => Error::Protocol,
        AttestedConnectionError::Sgx(a) => Error::AttestationError(a),
    }
}

impl From<AttestedConnectionError> for Error {
    fn from(value: AttestedConnectionError) -> (r: Self) {
        match value {
            AttestedConnectionError::ClientConnection => Self::Protocol,
            AttestedConnectionError::Net(net) => Self::Net(net),
            AttestedConnectionError::Protocol => Self::Protocol,
            AttestedConnectionError::Sgx(err) => Self::AttestationError(err),
        }
    }
}

impl vstd::std_specs::convert::FromSpecImpl<AttestedConnectionError> for Error {
    open spec fn obeys_from_spec() -> bool {
        true
    }

    open spec fn from_spec(v: AttestedConnectionError) -> Error {
        error_of(v)
    }
}

impl From<NetError> for Error {
    fn from(value: NetError) -> (r: Self) {
        Self::Net(value)
    }
}

impl vstd::std_specs::convert::FromSpecImpl<NetError> for Error {
    open spec fn obeys_from_spec() -> bool {
        true
    }

    open spec fn from_spec(v: NetError) -> Error {
        Error::Net(v)
    }
}

/// What a connection attempt reports to a caller that needs a channel:
/// the channel, or the network error it stands for. A route that is
/// cooling down was not tried, and counts as no connection.
pub open spec fn channel_of<W>(state: ServiceState<W>) -> Result<W, Error> {
    match state {
        ServiceState::Active(w) => Ok(w),
        ServiceState::Cooldown(_) => Err(Error::Net(NetError::NoServiceConnection)),
        ServiceState::Error(e) => Err(Error::Net(e)),
        ServiceState::TimedOut => Err(Error::Net(NetError::Timeout)),
    }
}

/// An attested channel `S` to a replica of flavor `Flavor`.
pub struct SvrConnection<Flavor: Svr3Flavor, S> {
    inner: S,
    witness: PhantomData<Flavor>,
}

impl<Flavor: Svr3Flavor, S> SvrConnection<Flavor, S> {
    /// The channel.
    pub closed spec fn channel(&self) -> S {
        self.inner
    }

    pub fn new(inner: S) -> (r: Self)
        ensures
            r.channel() == inner,
    {
        Self { inner, witness: PhantomData }
    }

    /// Gives up the flavor tag.
    pub fn into_inner(self) -> (r: S)
        ensures
            r == self.channel(),
    {
        self.inner
    }

    /// The first step of connecting: the transport channel that the
    /// connection manager produced, or the error that ends the attempt.
    pub fn transport_from<W>(state: ServiceState<W>) -> (r: Result<W, Error>)
        ensures
            r == channel_of(state),
    {
        match state {
            ServiceState::Active(w) => Ok(w),
            ServiceState::Cooldown(_) => Err(Error::Net(NetError::NoServiceConnection)),
            ServiceState::Error(e) => Err(Error::Net(e)),
            ServiceState::TimedOut => Err(Error::Net(NetError::Timeout)),
        }
    }

    /// The last step of connecting: the attested channel, tagged with its
    /// flavor, or the handshake's failure as a connection error.
    pub fn from_handshake(attested: Result<S, AttestedConnectionError>) -> (r: Result<Self, Error>)
        ensures
            match attested {
                Ok(s) => r matches Ok(c) && c.channel() == s,
                Err(e) => r == Err::<Self, Error>(error_of(e)),
            },
    {
        match attested {
            Ok(s) => Ok(Self::new(s)),
            Err(e) => Err(Error::from(e)),
        }
    }
}

/// A fixed group of flavor-tagged connections, one per replica, that the
/// protocol fans out over.
pub trait IntoConnections<S>: Sized {
    /// The channels, in replica order.
    spec fn channels(self) -> Seq<S>;

    fn into_connections(self) -> (r: Vec<S>)
        ensures
            r@ == self.channels(),
    ;
}

impl<A: Svr3Flavor, S> IntoConnections<S> for SvrConnection<A, S> {
    open spec fn channels(self) -> Seq<S> {
        seq![self.channel()]
    }

    fn into_connections(self) -> (r: Vec<S>) {
        let mut v = Vec::new();
        v.push(self.into_inner());
        proof {
            assert(v@ =~= seq![self.channel()]);
        }
        v
    }
}

impl<A: Svr3Flavor, B: Svr3Flavor, S> IntoConnections<S> for (SvrConnection<A, S>, SvrConnection<B, S>) {
    open spec fn channels(self) -> Seq<S> {
        seq![self.0.channel(), self.1.channel()]
    }

    fn into_connections(self) -> (r: Vec<S>) {
        let ghost g = self;
        let (a, b) = self;
        let mut v = Vec::new();
        v.push(a.into_inner());
        v.push(b.into_inner());
        proof {
            assert(v@ =~= seq![g.0.channel(), g.1.channel()]);
        }
        v
    }
}

impl<A: Svr3Flavor, B: Svr3Flavor, C: Svr3Flavor, S> IntoConnections<S> for (
    SvrConnection<A, S>,
    SvrConnection<B, S>,
    SvrConnection<C, S>,
) {
    open spec fn channels(self) -> Seq<S> {
        seq![self.0.channel(), self.1.channel(), self.2.channel()]
    }

    fn into_connections(self) -> (r: Vec<S>) {
        let ghost g = self;
        let (a, b, c) = self;
        let mut v = Vec::new();
        v.push(a.into_inner());
        v.push(b.into_inner());
        v.push(c.into_inner());
        proof {
            assert(v@ =~= seq![g.0.channel(), g.1.channel(), g.2.channel()]);
        }
        v
    }
}

} // verus!

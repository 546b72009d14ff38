//! Enclave flavors, their identities, and the endpoints that reach them.
//!
//! Each flavor is a type used only as a tag (its one value is never
//! needed), so that an identity, an endpoint or a channel checked for one
//! flavor cannot be handed to code that expects another.
use std::marker::PhantomData;

use http::uri::{InvalidUri, PathAndQuery};
use vstd::prelude::*;

use crate::connection::{ConnectionParams, MultiRouteConnectionManager, SingleRouteThrottlingConnectionManager};

verus! {

#[verifier::external_type_specification]
#[verifier::external_body]
pub struct ExPathAndQuery(PathAndQuery);

#[verifier::external_type_specification]
#[verifier::external_body]
pub struct ExInvalidUri(InvalidUri);

/// Longest path and query, in bytes, that a request URI may carry.
pub const MAX_PATH_LEN: usize = 65534;

/// Bytes that http accepts in the path part of a URI without escaping:
/// `!`, `"`, `$` to `;`, `=`, `@` to `_`, `a` to `z`, `{`, `|`, `}`, `~`,
/// and every byte of a multi-byte UTF-8 character.
pub open spec fn is_path_byte(x: u8) -> bool {
    x == 0x21 || x == 0x22 || (0x24 <= x && x <= 0x3B) || x == 0x3D || (0x40 <= x && x <= 0x5F) || (0x61 <= x
        && x <= 0x7A) || x == 0x7B || x == 0x7C || x == 0x7D || x == 0x7E || x >= 0x80
}

/// Bytes that http accepts in the query part of a URI: `!`, `$` to `;`,
/// `=`, `?` to `~`, and every byte of a multi-byte UTF-8 character.
pub open spec fn is_query_byte(x: u8) -> bool {
    x == 0x21 || (0x24 <= x && x <= 0x3B) || x == 0x3D || (0x3F <= x && x <= 0x7E) || x >= 0x80
}

/// Whether byte `i` of `b` lies in the query part: at or after a `?`.
pub open spec fn in_query(b: Seq<u8>, i: int) -> bool {
    exists|j: int| 0 <= j <= i && b[j] == 0x3F
}

/// A path and query that http accepts as it is: it starts with `/`, is at
/// most `MAX_PATH_LEN` bytes long, and every byte belongs to the class of
/// its part; there is no fragment.
pub open spec fn is_uri_path(b: Seq<u8>) -> bool {
    &&& 1 <= b.len() <= MAX_PATH_LEN
    &&& b[0] == 0x2F
    &&& forall|i: int| 0 <= i < b.len() ==> if in_query(b, i) {
        is_query_byte(#[trigger] b[i])
    } else {
        is_path_byte(b[i])
    }
}

/// Whether every byte is an ASCII code.
pub open spec fn is_ascii_bytes(b: Seq<u8>) -> bool {
    forall|i: int| 0 <= i < b.len() ==> #[trigger] b[i] < 128
}

/// The lowercase hexadecimal digit of `n`, for `n < 16`, as an ASCII byte.
pub open spec fn hex_digit(n: u8) -> u8 {
    if n < 10 { (0x30 + n) as u8 } else { (0x57 + n) as u8 }
}

/// Two lowercase hexadecimal digits per byte, high half first, as ASCII.
pub open spec fn hex_of(b: Seq<u8>) -> Seq<u8>
    decreases b.len(),
{
    if b.len() == 0 {
        Seq::empty()
    } else {
        hex_of(b.drop_last()) + seq![hex_digit(b.last() / 16), hex_digit(b.last() % 16)]
    }
}

/// The bytes of `"/v1/"`.
pub open spec fn version_prefix() -> Seq<u8> {
    seq![0x2Fu8, 0x76u8, 0x31u8, 0x2Fu8]
}

/// The bytes of `"/discovery"`.
pub open spec fn discovery_suffix() -> Seq<u8> {
    seq![0x2Fu8, 0x64u8, 0x69u8, 0x73u8, 0x63u8, 0x6Fu8, 0x76u8, 0x65u8, 0x72u8, 0x79u8]
}

/// Lowercase letters, digits and `/`: bytes that keep a path plain.
pub open spec fn is_plain_byte(x: u8) -> bool {
    (0x61 <= x && x <= 0x7A) || (0x30 <= x && x <= 0x39) || x == 0x2F
}

proof fn lemma_hex_of(b: Seq<u8>)
    ensures
        hex_of(b).len() == 2 * b.len(),
        forall|i: int| 0 <= i < hex_of(b).len() ==> is_plain_byte(#[trigger] hex_of(b)[i]),
    decreases b.len(),
{
    if b.len() > 0 {
        lemma_hex_of(b.drop_last());
        let h = hex_of(b.drop_last());
        let d = seq![hex_digit(b.last() / 16), hex_digit(b.last() % 16)];
        assert(is_plain_byte(d[0]) && is_plain_byte(d[1]));
        assert forall|i: int| 0 <= i < hex_of(b).len() implies is_plain_byte(#[trigger] hex_of(b)[i]) by {
            if i < h.len() {
                assert(hex_of(b)[i] == h[i]);
            } else {
                assert(hex_of(b)[i] == d[i - h.len()]);
            }
        }
    }
}

/// ASCII text is valid UTF-8.
proof fn lemma_ascii_utf8(b: Seq<u8>)
    requires
        is_ascii_bytes(b),
    ensures
        vstd::utf8::valid_utf8(b),
    decreases b.len(),
{
    if b.len() > 0 {
        assert(vstd::utf8::valid_first_scalar(b));
        let rest = vstd::utf8::pop_first_scalar(b);
        assert(rest =~= b.subrange(1, b.len() as int));
        assert(is_ascii_bytes(rest)) by {
            assert forall|i: int| 0 <= i < rest.len() implies #[trigger] rest[i] < 128 by {
                assert(rest[i] == b[i + 1]);
            }
        }
        lemma_ascii_utf8(rest);
    }
}

/// A plain path that starts with `/` and fits is accepted by http.
proof fn lemma_plain_is_uri_path(b: Seq<u8>)
    requires
        1 <= b.len() <= MAX_PATH_LEN,
        b[0] == 0x2F,
        forall|i: int| 0 <= i < b.len() ==> is_plain_byte(#[trigger] b[i]),
    ensures
        is_uri_path(b),
        vstd::utf8::valid_utf8(b),
{
    assert forall|i: int| 0 <= i < b.len() implies !in_query(b, i) && is_path_byte(#[trigger] b[i]) by {
        if in_query(b, i) {
            let j = choose|j: int| 0 <= j <= i && b[j] == 0x3F;
            assert(is_plain_byte(b[j]));
        }
    }
    assert(is_ascii_bytes(b)) by {
        assert forall|i: int| 0 <= i < b.len() implies #[trigger] b[i] < 128 by {
            assert(is_plain_byte(b[i]));
        }
    }
    lemma_ascii_utf8(b);
}

/// Relies on `hex::encode`: two lowercase hexadecimal digits per byte, high
/// half first; the digits are ASCII, one byte each.
#[verifier::external_body]
fn encode_hex(bytes: &[u8]) -> (r: Vec<u8>)
    ensures
        r@ == hex_of(bytes@),
{
    hex::encode(bytes).into_bytes()
}

/// Relies on `std::str::from_utf8`: it accepts exactly the well-formed UTF-8
/// encodings (no overlong forms, no surrogates).
#[verifier::external_body]
fn is_utf8(bytes: &[u8]) -> (r: bool)
    ensures
        r == vstd::utf8::valid_utf8(bytes@),
{
    std::str::from_utf8(bytes).is_ok()
}

/// The bytes of the path and query that `p` holds (`p.as_str()`).
pub uninterp spec fn path_bytes(p: PathAndQuery) -> Seq<u8>;

/// Relies on `PathAndQuery`'s `TryFrom<&[u8]>`: valid UTF-8 that starts with
/// `/`, is at most `MAX_PATH_LEN` bytes long, holds no `#` and only bytes of
/// the path class before the first `?` and of the query class after it, is
/// accepted and kept as it is.
#[verifier::external_body]
fn parse_path(bytes: &[u8]) -> (r: Result<PathAndQuery, InvalidUri>)
    ensures
        r is Ok || !(is_uri_path(bytes@) && vstd::utf8::valid_utf8(bytes@)),
        r matches Ok(p) ==> (is_uri_path(bytes@) ==> path_bytes(p) == bytes@),
{
    PathAndQuery::try_from(bytes)
}

/// Checks `is_uri_path(b@)`.
fn check_uri_path(b: &[u8]) -> (r: bool)
    ensures
        r == is_uri_path(b@),
{
    if b.len() == 0 || b.len() > MAX_PATH_LEN || b[0] != 0x2F {
        return false;
    }
    let mut seen_query = false;
    let mut i: usize = 0;
    while i < b.len()
        invariant
            0 <= i <= b@.len(),
            seen_query <==> exists|j: int| 0 <= j < i && b@[j] == 0x3F,
            forall|k: int| 0 <= k < i ==> if in_query(b@, k) {
                is_query_byte(#[trigger] b@[k])
            } else {
                is_path_byte(b@[k])
            },
        decreases b@.len() - i,
    {
        let x = b[i];
        let q = seen_query || x == 0x3F;
        proof {
            if q {
                if x == 0x3F {
                    assert(in_query(b@, i as int));
                } else {
                    let j = choose|j: int| 0 <= j < i && b@[j] == 0x3F;
                    assert(in_query(b@, i as int));
                }
            } else {
                assert(!in_query(b@, i as int));
            }
        }
        let ok = if q {
            x == 0x21 || (0x24 <= x && x <= 0x3B) || x == 0x3D || (0x3F <= x && x <= 0x7E) || x >= 0x80
        } else {
            x == 0x21 || x == 0x22 || (0x24 <= x && x <= 0x3B) || x == 0x3D || (0x40 <= x && x <= 0x5F) || (0x61
                <= x && x <= 0x7A) || x == 0x7B || x == 0x7C || x == 0x7D || x == 0x7E || x >= 0x80
        };
        if !ok {
            return false;
        }
        seen_query = q;
        i = i + 1;
    }
    true
}

/// Appends `tail` to `v`.
fn push_all(v: &mut Vec<u8>, tail: &[u8])
    ensures
        final(v)@ == old(v)@ + tail@,
{
    let mut i: usize = 0;
    while i < tail.len()
        invariant
            0 <= i <= tail@.len(),
            v@ == old(v)@ + tail@.subrange(0, i as int),
        decreases tail@.len() - i,
    {
        v.push(tail[i]);
        i = i + 1;
        proof {
            assert(tail@.subrange(0, i as int) =~= tail@.subrange(0, i - 1) + seq![tail@[i - 1]]);
        }
    }
    proof {
        assert(tail@.subrange(0, tail@.len() as int) =~= tail@);
    }
}

/// A flavor of enclave, with the route path that an identity of it maps to.
pub trait EnclaveKind {
    /// The bytes of the path that reaches the enclave with identity
    /// `enclave`, where it has one that http accepts.
    spec fn route_path(enclave: Seq<u8>) -> Option<Seq<u8>>;

    /// The route path of `enclave` as bytes, where it has one.
    fn url_path_bytes(enclave: &[u8]) -> (r: Option<Vec<u8>>)
        ensures
            match r {
                Some(b) => Self::route_path(enclave@) == Some(b@) && is_uri_path(b@) && vstd::utf8::valid_utf8(b@),
                None => Self::route_path(enclave@) is None,
            },
    ;

    /// The route path of `enclave`, ready for a request.
    fn url_path(enclave: &[u8]) -> (r: PathAndQuery)
        requires
            Self::route_path(enclave@) is Some,
        ensures
            Self::route_path(enclave@) == Some(path_bytes(r)),
    ;
}

/// Parses a route path that `url_path_bytes` produced.
fn path_of(b: Option<Vec<u8>>) -> (r: PathAndQuery)
    requires
        b matches Some(v) && is_uri_path(v@) && vstd::utf8::valid_utf8(v@),
    ensures
        path_bytes(r) == b.unwrap()@,
{
    match b {
        Some(v) => match parse_path(v.as_slice()) {
            Ok(p) => p,
            Err(_) => vstd::pervasive::unreached(),
        },
        None => vstd::pervasive::unreached(),
    }
}

/// A flavor that serves secret backups.
pub trait Svr3Flavor: EnclaveKind {

}

/// The contact-discovery enclave.
pub enum Cdsi {
    Tag,
}

/// The SGX backup enclave.
pub enum Sgx {
    Tag,
}

/// The Nitro backup enclave.
pub enum Nitro {
    Tag,
}

/// `"/v1/"` followed by the hex digits of `enclave`, then `suffix`, where that
/// fits in a URI.
pub open spec fn hex_route(enclave: Seq<u8>, suffix: Seq<u8>) -> Option<Seq<u8>> {
    if 4 + 2 * enclave.len() + suffix.len() <= MAX_PATH_LEN {
        Some(version_prefix() + hex_of(enclave) + suffix)
    } else {
        None
    }
}

fn hex_route_bytes(enclave: &[u8], suffix: &[u8]) -> (r: Option<Vec<u8>>)
    requires
        suffix@.len() <= 16,
        forall|i: int| 0 <= i < suffix@.len() ==> is_plain_byte(#[trigger] suffix@[i]),
    ensures
        match r {
            Some(b) => hex_route(enclave@, suffix@) == Some(b@) && is_uri_path(b@) && vstd::utf8::valid_utf8(b@),
            None => hex_route(enclave@, suffix@) is None,
        },
{
    if enclave.len() > (MAX_PATH_LEN - 4 - suffix.len()) / 2 {
        return None;
    }
    let hex = encode_hex(enclave);
    proof {
        lemma_hex_of(enclave@);
    }
    let mut path: Vec<u8> = Vec::new();
    push_all(&mut path, &[0x2Fu8, 0x76u8, 0x31u8, 0x2Fu8]);
    push_all(&mut path, hex.as_slice());
    push_all(&mut path, suffix);
    proof {
        let t = path@;
        let h = hex_of(enclave@);
        assert(t =~= version_prefix() + h + suffix@);
        assert forall|i: int| 0 <= i < t.len() implies is_plain_byte(#[trigger] t[i]) by {
            if i < 4 {
            } else if i < 4 + h.len() {
                assert(t[i] == h[i - 4]);
            } else {
                assert(t[i] == suffix@[i - 4 - h.len()]);
            }
        }
        lemma_plain_is_uri_path(t);
    }
    Some(path)
}

impl EnclaveKind for Cdsi {
    open spec fn route_path(enclave: Seq<u8>) -> Option<Seq<u8>> {
        hex_route(enclave, discovery_suffix())
    }

    fn url_path_bytes(enclave: &[u8]) -> (r: Option<Vec<u8>>) {
        let suffix = [0x2Fu8, 0x64u8, 0x69u8, 0x73u8, 0x63u8, 0x6Fu8, 0x76u8, 0x65u8, 0x72u8, 0x79u8];
        proof {
            assert(suffix@ =~= discovery_suffix());
        }
        hex_route_bytes(enclave, &suffix)
    }

    fn url_path(enclave: &[u8]) -> (r: PathAndQuery) {
        path_of(Self::url_path_bytes(enclave))
    }
}

impl EnclaveKind for Sgx {
    open spec fn route_path(enclave: Seq<u8>) -> Option<Seq<u8>> {
        hex_route(enclave, Seq::empty())
    }

    fn url_path_bytes(enclave: &[u8]) -> (r: Option<Vec<u8>>) {
        let suffix: [u8; 0] = [];
        proof {
            assert(suffix@ =~= Seq::<u8>::empty());
        }
        hex_route_bytes(enclave, &suffix)
    }

    fn url_path(enclave: &[u8]) -> (r: PathAndQuery) {
        path_of(Self::url_path_bytes(enclave))
    }
}

impl EnclaveKind for Nitro {
    /// A Nitro identity is UTF-8 text, used in the path as it is.
    open spec fn route_path(enclave: Seq<u8>) -> Option<Seq<u8>> {
        let b = version_prefix() + enclave;
        if vstd::utf8::valid_utf8(b) && is_uri_path(b) {
            Some(b)
        } else {
            None
        }
    }

    fn url_path_bytes(enclave: &[u8]) -> (r: Option<Vec<u8>>) {
        let mut path: Vec<u8> = Vec::new();
        push_all(&mut path, &[0x2Fu8, 0x76u8, 0x31u8, 0x2Fu8]);
        push_all(&mut path, enclave);
        proof {
            assert(path@ =~= version_prefix() + enclave@);
        }
        if is_utf8(path.as_slice()) && check_uri_path(path.as_slice()) {
            Some(path)
        } else {
            None
        }
    }

    fn url_path(enclave: &[u8]) -> (r: PathAndQuery) {
        path_of(Self::url_path_bytes(enclave))
    }
}

impl Svr3Flavor for Sgx {

}

impl Svr3Flavor for Nitro {

}

/// The measurement that identifies one enclave build of flavor `E`.
pub struct MrEnclave<Bytes, E> {
    inner: Bytes,
    enclave_kind: PhantomData<E>,
}

impl<Bytes, E: EnclaveKind> MrEnclave<Bytes, E> {
    /// The identity bytes.
    pub closed spec fn identity(&self) -> Bytes {
        self.inner
    }

    pub fn new(bytes: Bytes) -> (r: Self)
        ensures
            r.identity() == bytes,
    {
        Self { inner: bytes, enclave_kind: PhantomData }
    }

    pub fn as_bytes(&self) -> (r: &Bytes)
        ensures
            *r == self.identity(),
    {
        &self.inner
    }
}

/// Membership settings of a replicated-consensus group, where a deployment
/// overrides the ones that the attestation evidence is checked against.
#[derive(Clone, Copy, Debug, PartialEq, Eq, Structural)]
pub struct RaftConfig {
    pub min_voting_replicas: u32,
    pub max_voting_replicas: u32,
    pub super_majority: u32,
    pub group_id: u64,
    pub db_version: u32,
    pub attestation_timeout: u32,
    pub simulated: bool,
}

/// What a handshake with an enclave of flavor `E` is checked against.
pub struct EndpointParams<E: EnclaveKind> {
    pub mr_enclave: MrEnclave<&'static [u8], E>,
    pub raft_config_override: Option<RaftConfig>,
}

impl<E: EnclaveKind> EndpointParams<E> {
    pub fn new(mr_enclave: MrEnclave<&'static [u8], E>) -> (r: Self)
        ensures
            r.mr_enclave == mr_enclave,
            r.raft_config_override is None,
    {
        Self { mr_enclave, raft_config_override: None }
    }

    pub fn with_raft_override(self, raft_config: RaftConfig) -> (r: Self)
        ensures
            r.mr_enclave == self.mr_enclave,
            r.raft_config_override == Some(raft_config),
    {
        Self { mr_enclave: self.mr_enclave, raft_config_override: Some(raft_config) }
    }
}

/// A configured enclave: how to reach it and which build it must run.
pub struct EnclaveEndpoint<'a, E: EnclaveKind> {
    pub domain_config: ConnectionParams,
    pub mr_enclave: MrEnclave<&'a [u8], E>,
}

/// Everything needed to open attested connections to one enclave: the
/// connection manager, the request path and deadline, and the handshake
/// parameters.
pub struct EnclaveEndpointConnection<E: EnclaveKind, C> {
    pub manager: C,
    pub path: PathAndQuery,
    pub connect_timeout_ms: u64,
    pub params: EndpointParams<E>,
}

impl<E: EnclaveKind> EnclaveEndpointConnection<E, SingleRouteThrottlingConnectionManager> {
    /// A connection over the endpoint's single route, with no consensus
    /// override.
    pub fn new(endpoint: EnclaveEndpoint<'static, E>, connect_timeout_ms: u64) -> (r: Self)
        requires
            E::route_path(endpoint.mr_enclave.identity()@) is Some,
        ensures
            r.manager.params == endpoint.domain_config,
            r.manager.connect_timeout_ms == connect_timeout_ms,
            r.manager.state.consecutive_failures == 0,
            r.manager.state.cooldown_until == 0,
            r.connect_timeout_ms == connect_timeout_ms,
            r.params.mr_enclave == endpoint.mr_enclave,
            r.params.raft_config_override is None,
            E::route_path(endpoint.mr_enclave.identity()@) == Some(path_bytes(r.path)),
    {
        Self::with_custom_properties(endpoint, connect_timeout_ms, None)
    }

    /// A connection over the endpoint's single route, checked against the
    /// given consensus settings where there are any.
    pub fn with_custom_properties(
        endpoint: EnclaveEndpoint<'static, E>,
        connect_timeout_ms: u64,
        raft_config_override: Option<RaftConfig>,
    ) -> (r: Self)
        requires
            E::route_path(endpoint.mr_enclave.identity()@) is Some,
        ensures
            r.manager.params == endpoint.domain_config,
            r.manager.connect_timeout_ms == connect_timeout_ms,
            r.manager.state.consecutive_failures == 0,
            r.manager.state.cooldown_until == 0,
            r.connect_timeout_ms == connect_timeout_ms,
            r.params.mr_enclave == endpoint.mr_enclave,
            r.params.raft_config_override == raft_config_override,
            E::route_path(endpoint.mr_enclave.identity()@) == Some(path_bytes(r.path)),
    {
        let path = E::url_path(endpoint.mr_enclave.as_bytes());
        Self {
            manager: SingleRouteThrottlingConnectionManager::new(endpoint.domain_config, connect_timeout_ms),
            path,
            connect_timeout_ms,
            params: EndpointParams { mr_enclave: endpoint.mr_enclave, raft_config_override },
        }
    }
}

impl<E: EnclaveKind> EnclaveEndpointConnection<E, MultiRouteConnectionManager> {
    /// A connection that fails over between `connection_params`, in order.
    pub fn new_multi(
        mr_enclave: MrEnclave<&'static [u8], E>,
        connection_params: Vec<ConnectionParams>,
        connect_timeout_ms: u64,
    ) -> (r: Self)
        requires
            E::route_path(mr_enclave.identity()@) is Some,
        ensures
            r.manager.routes@.len() == connection_params@.len(),
            forall|i: int| 0 <= i < connection_params@.len() ==> {
                let m = #[trigger] r.manager.routes@[i];
                &&& m.params == connection_params@[i]
                &&& m.connect_timeout_ms == connect_timeout_ms
                &&& m.state.consecutive_failures == 0
                &&& m.state.cooldown_until == 0
            },
            r.connect_timeout_ms == connect_timeout_ms,
            r.params.mr_enclave == mr_enclave,
            r.params.raft_config_override is None,
            E::route_path(mr_enclave.identity()@) == Some(path_bytes(r.path)),
    {
        let mut routes: Vec<SingleRouteThrottlingConnectionManager> = Vec::new();
        let mut params = connection_params;
        let ghost all = params@;
        let n = params.len();
        let mut i: usize = 0;
        while i < n
            invariant
                n == all.len(),
                i <= n,
                params@ == all.subrange(i as int, n as int),
                routes@.len() == i,
                forall|j: int| 0 <= j < i ==> {
                    let m = #[trigger] routes@[j];
                    &&& m.params == all[j]
                    &&& m.connect_timeout_ms == connect_timeout_ms
                    &&& m.state.consecutive_failures == 0
                    &&& m.state.cooldown_until == 0
                },
            decreases n - i,
        {
            let p = params.remove(0);
            routes.push(SingleRouteThrottlingConnectionManager::new(p, connect_timeout_ms));
            i = i + 1;
        }
        let path = E::url_path(mr_enclave.as_bytes());
        Self {
            manager: MultiRouteConnectionManager::new(routes),
            path,
            connect_timeout_ms,
            params: EndpointParams { mr_enclave, raft_config_override: None },
        }
    }
}

/// The attestation verifier that checks a flavor's evidence.
#[derive(Clone, Copy, Debug, PartialEq, Eq, Structural)]
pub enum Verifier {
    /// SGX evidence of a consensus-replicated enclave.
    Svr2,
    /// SGX evidence of the contact-discovery enclave.
    Cds2,
    /// Nitro evidence of a consensus-replicated enclave.
    Nitro,
}

/// One handshake to verify: the verifier to use and what it is given.
///
/// The caller hands it to the attestation verifier that `check` names;
/// verifying the evidence is not part of this library, which only decides
/// which verifier sees which inputs.
pub struct HandshakeRequest<'a> {
    pub check: Verifier,
    pub mr_enclave: &'static [u8],
    pub attestation_message: &'a [u8],
    pub now_ms: u64,
    pub raft_config_override: Option<RaftConfig>,
}

/// A flavor whose attestation evidence can be verified.
pub trait NewHandshake: EnclaveKind + Sized {
    /// The verifier for this flavor.
    spec fn verifier_kind() -> Verifier;

    /// Whether this flavor runs on a consensus group whose settings may be
    /// overridden.
    spec fn uses_raft() -> bool;

    /// The check of `attestation_message`, received at `now_ms`, against
    /// `params`.
    fn new_handshake<'a>(params: &EndpointParams<Self>, attestation_message: &'a [u8], now_ms: u64) -> (r:
        HandshakeRequest<'a>)
        ensures
            r.check == Self::verifier_kind(),
            r.mr_enclave == params.mr_enclave.identity(),
            r.attestation_message == attestation_message,
            r.now_ms == now_ms,
            r.raft_config_override == if Self::uses_raft() {
                params.raft_config_override
            } else {
                None
            },
    ;
}

impl NewHandshake for Sgx {
    open spec fn verifier_kind() -> Verifier {
        Verifier::Svr2
    }

    open spec fn uses_raft() -> bool {
        true
    }

    fn new_handshake<'a>(params: &EndpointParams<Self>, attestation_message: &'a [u8], now_ms: u64) -> (r:
        HandshakeRequest<'a>) {
        HandshakeRequest {
            check: Verifier::Svr2,
            mr_enclave: *params.mr_enclave.as_bytes(),
            attestation_message,
            now_ms,
            raft_config_override: params.raft_config_override,
        }
    }
}

impl NewHandshake for Cdsi {
    open spec fn verifier_kind() -> Verifier {
        Verifier::Cds2
    }

    open spec fn uses_raft() -> bool {
        false
    }

    fn new_handshake<'a>(params: &EndpointParams<Self>, attestation_message: &'a [u8], now_ms: u64) -> (r:
        HandshakeRequest<'a>) {
        HandshakeRequest {
            check: Verifier::Cds2,
            mr_enclave: *params.mr_enclave.as_bytes(),
            attestation_message,
            now_ms,
            raft_config_override: None,
        }
    }
}

impl NewHandshake for Nitro {
    open spec fn verifier_kind() -> Verifier {
        Verifier::Nitro
    }

    open spec fn uses_raft() -> bool {
        true
    }

    fn new_handshake<'a>(params: &EndpointParams<Self>, attestation_message: &'a [u8], now_ms: u64) -> (r:
        HandshakeRequest<'a>) {
        HandshakeRequest {
            check: Verifier::Nitro,
            mr_enclave: *params.mr_enclave.as_bytes(),
            attestation_message,
            now_ms,
            raft_config_override: params.raft_config_override,
        }
    }
}

/// A fixed-size group of values, one per replica.
pub trait ArrayIsh<T> {
    /// The number of values.
    spec fn spec_size() -> nat;

    fn size() -> (r: usize)
        ensures
            r == Self::spec_size(),
    ;

    fn items(&self) -> (r: &[T])
        ensures
            r@.len() == Self::spec_size(),
    ;
}

impl<T, const N: usize> ArrayIsh<T> for [T; N] {
    open spec fn spec_size() -> nat {
        N as nat
    }

    fn size() -> (r: usize) {
        N
    }

    fn items(&self) -> (r: &[T]) {
        self.as_slice()
    }
}

/// A deployment of replicated backup enclaves.
pub trait PpssSetup {
    /// The ids of the replicas, in the order their connections are given.
    spec fn spec_server_ids() -> Seq<u64>;

    fn server_ids() -> (r: Vec<u64>)
        ensures
            r@ == Self::spec_server_ids(),
    ;
}

/// The backup service: one SGX replica and one Nitro replica.
pub struct Svr3Env {
    pub sgx: EnclaveEndpoint<'static, Sgx>,
    pub nitro: EnclaveEndpoint<'static, Nitro>,
}

impl PpssSetup for Svr3Env {
    open spec fn spec_server_ids() -> Seq<u64> {
        seq![1u64, 2u64]
    }

    fn server_ids() -> (r: Vec<u64>) {
        let r = vec![1u64, 2u64];
        proof {
            assert(r@ =~= seq![1u64, 2u64]);
        }
        r
    }
}

} // verus!

use svr_net::connection::ConnectionParams;
use svr_net::enclave::{
    ArrayIsh,
    Cdsi, EnclaveEndpoint, EnclaveEndpointConnection, EnclaveKind, EndpointParams, MrEnclave, NewHandshake, Nitro,
    PpssSetup, RaftConfig, Sgx, Svr3Env, Verifier,
};

static SGX_ID: [u8; 3] = [0xab, 0x01, 0xff];
static NITRO_ID: &[u8] = b"nitro.staging.1";

fn params() -> ConnectionParams {
    ConnectionParams { host: "svr.example".to_string(), port: 443, cooldown_base_ms: 1000, max_cooldown_ms: 8000 }
}

fn raft() -> RaftConfig {
    RaftConfig {
        min_voting_replicas: 3,
        max_voting_replicas: 5,
        super_majority: 0,
        group_id: 42,
        db_version: 2,
        attestation_timeout: 604800,
        simulated: false,
    }
}

#[test]
fn sgx_and_cdsi_paths_use_hex() {
    assert_eq!(Sgx::url_path_bytes(&SGX_ID).unwrap(), b"/v1/ab01ff".to_vec());
    assert_eq!(Cdsi::url_path_bytes(&SGX_ID).unwrap(), b"/v1/ab01ff/discovery".to_vec());
    assert_eq!(Sgx::url_path(&SGX_ID).as_str(), "/v1/ab01ff");
    assert_eq!(Cdsi::url_path(&SGX_ID).as_str(), "/v1/ab01ff/discovery");
    assert_eq!(Sgx::url_path_bytes(&[]).unwrap(), b"/v1/".to_vec());
}

#[test]
fn nitro_path_uses_name() {
    assert_eq!(Nitro::url_path_bytes(NITRO_ID).unwrap(), b"/v1/nitro.staging.1".to_vec());
    assert_eq!(Nitro::url_path(NITRO_ID).as_str(), "/v1/nitro.staging.1");
    assert_eq!(Nitro::url_path(b"a@b").as_str(), "/v1/a@b");
    assert_eq!(Nitro::url_path("caf\u{e9}".as_bytes()).as_str(), "/v1/caf\u{e9}");
    assert_eq!(Nitro::url_path(b"id?v=1").as_str(), "/v1/id?v=1");
    assert_eq!(Nitro::url_path(b"{\"a\"}").as_str(), "/v1/{\"a\"}");
}

#[test]
fn nitro_names_that_http_refuses_have_no_path() {
    assert!(Nitro::url_path_bytes(b"has space").is_none());
    assert!(Nitro::url_path_bytes(b"frag#ment").is_none());
    assert!(Nitro::url_path_bytes(b"q?\"x\"").is_none());
    assert!(Nitro::url_path_bytes(&[0xff, 0xfe]).is_none());
    assert!(Nitro::url_path_bytes(&[0xc3]).is_none());
}

#[test]
fn overlong_identity_has_no_path() {
    let long = vec![0u8; 40000];
    assert!(Sgx::url_path_bytes(&long).is_none());
    assert!(Nitro::url_path_bytes(&vec![b'a'; 65531]).is_none());
    assert!(Nitro::url_path_bytes(&vec![b'a'; 65530]).is_some());
}

#[test]
fn endpoint_params_and_handshakes() {
    let p = EndpointParams::new(MrEnclave::<&'static [u8], Sgx>::new(&SGX_ID));
    assert!(p.raft_config_override.is_none());
    let p = p.with_raft_override(raft());
    let h = Sgx::new_handshake(&p, b"evidence", 77);
    assert_eq!(h.check, Verifier::Svr2);
    assert_eq!(h.mr_enclave, &SGX_ID[..]);
    assert_eq!(h.attestation_message, b"evidence");
    assert_eq!(h.now_ms, 77);
    assert_eq!(h.raft_config_override, Some(raft()));

    let p = EndpointParams::new(MrEnclave::<&'static [u8], Cdsi>::new(&SGX_ID)).with_raft_override(raft());
    let h = Cdsi::new_handshake(&p, b"e", 1);
    assert_eq!(h.check, Verifier::Cds2);
    assert_eq!(h.raft_config_override, None);

    let p = EndpointParams::new(MrEnclave::<&'static [u8], Nitro>::new(NITRO_ID));
    let h = Nitro::new_handshake(&p, b"e", 1);
    assert_eq!(h.check, Verifier::Nitro);
    assert_eq!(h.mr_enclave, NITRO_ID);
}

#[test]
fn endpoint_connections() {
    let endpoint = EnclaveEndpoint { domain_config: params(), mr_enclave: MrEnclave::<&'static [u8], Sgx>::new(&SGX_ID) };
    let c = EnclaveEndpointConnection::new(endpoint, 10_000);
    assert_eq!(c.path.as_str(), "/v1/ab01ff");
    assert_eq!(c.connect_timeout_ms, 10_000);
    assert_eq!(c.manager.params.host, "svr.example");
    assert!(c.params.raft_config_override.is_none());

    let endpoint = EnclaveEndpoint { domain_config: params(), mr_enclave: MrEnclave::<&'static [u8], Nitro>::new(NITRO_ID) };
    let c = EnclaveEndpointConnection::with_custom_properties(endpoint, 500, Some(raft()));
    assert_eq!(c.path.as_str(), "/v1/nitro.staging.1");
    assert_eq!(c.params.raft_config_override, Some(raft()));

    let mut second = params();
    second.host = "backup.example".to_string();
    let c = EnclaveEndpointConnection::new_multi(MrEnclave::<&'static [u8], Cdsi>::new(&SGX_ID), vec![params(), second], 20);
    assert_eq!(c.manager.routes.len(), 2);
    assert_eq!(c.manager.routes[1].params.host, "backup.example");
    assert_eq!(c.path.as_str(), "/v1/ab01ff/discovery");
}

#[test]
fn backup_service_has_two_servers() {
    assert_eq!(Svr3Env::server_ids(), vec![1, 2]);
    assert_eq!(*MrEnclave::<&'static [u8], Sgx>::new(&SGX_ID).as_bytes(), &SGX_ID[..]);
}

#[test]
fn arrays_report_their_size() {
    assert_eq!(<[u64; 2] as ArrayIsh<u64>>::size(), 2);
    let ids: [u64; 3] = [4, 5, 6];
    assert_eq!(ids.items(), &[4, 5, 6][..]);
}

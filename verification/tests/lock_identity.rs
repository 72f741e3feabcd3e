use shard_sink::lockmgr::{
    minimum_shard_offsets_payload, select_interface_by_local_ip, select_interface_by_name, IfAddr,
    InterfaceError, NetworkInterface,
};
use shard_sink::types::{ScyllaSinkConfig, ScyllaSinkError, CommitmentLevel};

fn nif(name: &[u8], addr: IfAddr) -> NetworkInterface {
    NetworkInterface { name: name.to_vec(), addr }
}

#[test]
fn named_interface_must_carry_ipv4() {
    let interfaces = vec![
        nif(b"lo", IfAddr::V4(127, 0, 0, 1)),
        nif(b"eth0", IfAddr::V6),
        nif(b"eth0", IfAddr::V4(10, 0, 0, 2)),
    ];
    let r = select_interface_by_name(&interfaces, &b"eth0".to_vec());
    assert_eq!(r.unwrap(), IfAddr::V4(10, 0, 0, 2));

    let r = select_interface_by_name(&interfaces, &b"eth1".to_vec());
    assert_eq!(r.unwrap_err(), InterfaceError::InterfaceNotFound);
}

#[test]
fn default_local_ip_selects_its_interface() {
    let interfaces = vec![
        nif(b"lo", IfAddr::V4(127, 0, 0, 1)),
        nif(b"eth0", IfAddr::V4(10, 0, 0, 2)),
    ];
    let r = select_interface_by_local_ip(&interfaces, IfAddr::V4(10, 0, 0, 2));
    let (name, addr) = r.unwrap();
    assert_eq!(name, b"eth0".to_vec());
    assert_eq!(addr, IfAddr::V4(10, 0, 0, 2));

    let r = select_interface_by_local_ip(&interfaces, IfAddr::V6);
    assert_eq!(r.unwrap_err(), InterfaceError::Ipv6NotSupported);

    let r = select_interface_by_local_ip(&interfaces, IfAddr::V4(192, 168, 1, 1));
    assert_eq!(r.unwrap_err(), InterfaceError::NoMatchingInterface);
}

#[test]
fn readiness_payload_covers_every_shard_once() {
    // the published map holds exactly one entry per shard, in order,
    // each carrying the recovered offset and the initial slot
    let payload = minimum_shard_offsets_payload(&vec![-1, 19, 7], 555);
    assert_eq!(payload, vec![(0, (-1, 555)), (1, (19, 555)), (2, (7, 555))]);
}

#[test]
fn config_derives_shard_byte_budget() {
    let cfg = ScyllaSinkConfig {
        producer_id: None,
        num_shards: 2,
        batch_len_limit: 3,
        batch_size_kb_limit: 64,
        linger_ms: 1000,
        keyspace: String::from("event_log"),
        ifname: None,
        commitment_level: CommitmentLevel::Finalized,
    };
    assert_eq!(cfg.max_buffer_byte_size(), 64 * 1024);
    assert_eq!(cfg.resolve_producer_id(9), 9);
    let cfg2 = ScyllaSinkConfig { producer_id: Some(3), ..cfg };
    assert_eq!(cfg2.resolve_producer_id(9), 3);
}

#[test]
fn sink_close_error_exists() {
    let e = ScyllaSinkError::SinkClose;
    assert_eq!(e, ScyllaSinkError::SinkClose);
}

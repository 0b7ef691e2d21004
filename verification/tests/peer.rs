use zvariant::peer::{get_machine_id, machine_id_from_uuid, Peer};

#[test]
fn linux_machine_id() {
    let raw = b"0123456789abcdef0123456789abcdef\n".to_vec();
    if let Ok(id) = get_machine_id(Some(raw)) {
        assert_eq!(id.len(), 32, "machine ID should be 32 hex characters");
        assert!(
            id.iter().all(|c| (*c as char).is_ascii_hexdigit()),
            "machine ID should only contain hex characters"
        );
    }
}

#[test]
fn macos_machine_id() {
    let uuid: [u8; 16] = [
        0x01, 0x23, 0x45, 0x67, 0x89, 0xab, 0xcd, 0xef, 0x10, 0x32, 0x54, 0x76, 0x98, 0xba, 0xdc,
        0xfe,
    ];
    let id = machine_id_from_uuid(&uuid);
    assert_eq!(id.len(), 32, "machine ID should be 32 hex characters");
    assert!(
        id.iter().all(|c| (*c as char).is_ascii_hexdigit()),
        "machine ID should only contain hex characters"
    );
    assert_eq!(id, b"0123456789abcdef1032547698badcfe".to_vec());
}

#[test]
fn machine_id_trims_trailing_whitespace() {
    let id = get_machine_id(Some(b"abc123\n\t ".to_vec())).unwrap();
    assert_eq!(id, b"abc123".to_vec());
}

#[test]
fn machine_id_read_failure_is_io_error() {
    let err = get_machine_id(None).unwrap_err();
    assert!(matches!(err, zvariant::error::Error::InputOutput(_)));
}

#[test]
fn peer_ping_and_machine_id() {
    let peer = Peer;
    peer.ping();
    let id = peer.get_machine_id(Some(b"00ff\n".to_vec())).unwrap();
    assert_eq!(id, b"00ff".to_vec());
}

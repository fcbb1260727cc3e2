use micronet::constants::MAX_IPC_FRAME_BYTES;
use micronet::ipc::protocol::{Health, Request, Response};
use micronet::ipc::{default_socket, read_frame_from, write_frame_to};
use micronet::apply::{Mode, Status};
use micronet::version::Info;

#[test]
fn frame_roundtrip() {
    let mut buf = Vec::new();
    let payload = br#"{"type":"status"}"#;
    write_frame_to(&mut buf, payload).unwrap();
    let back = read_frame_from(&buf).unwrap();
    assert_eq!(back, payload.to_vec());
}

#[test]
fn mod_oversized_frame_rejected() {
    let mut too_big = (MAX_IPC_FRAME_BYTES as u32 + 1).to_le_bytes().to_vec();
    too_big.extend_from_slice(&[0u8; 8]);
    assert!(read_frame_from(&too_big).is_err());
}

#[test]
fn ipc_oversized_frame_rejected() {
    let len = u32::try_from(MAX_IPC_FRAME_BYTES).unwrap_or(u32::MAX).saturating_add(1);
    let mut too_big = len.to_le_bytes().to_vec();
    too_big.extend_from_slice(&[0u8; 8]);
    assert!(read_frame_from(&too_big).is_err());
}

#[test]
fn write_read_request() {
    let mut buf = Vec::new();
    let payload = br#"{"type":"reconfigure"}"#;
    write_frame_to(&mut buf, payload).unwrap();
    assert_eq!(&buf[..4], &(payload.len() as u32).to_le_bytes());
    let back = read_frame_from(&buf).unwrap();
    assert_eq!(back, payload.to_vec());
}

#[test]
fn short_frames_rejected() {
    assert!(read_frame_from(&[1, 0]).is_err());
    assert!(read_frame_from(&[5, 0, 0, 0, 1, 2]).is_err());
    assert_eq!(read_frame_from(&[0, 0, 0, 0]).unwrap(), Vec::<u8>::new());
}

#[test]
fn responses_from_snapshots() {
    let mut st = Status::empty();
    st.iface = "eth0".to_string();
    st.cidr = Some("10.0.10.1/24".to_string());
    match Response::from_status(&st, &Health::ok()) {
        Response::Status { iface, cidr, mode, healthy, .. } => {
            assert_eq!(iface, "eth0");
            assert_eq!(cidr.as_deref(), Some("10.0.10.1/24"));
            assert_eq!(mode, Mode::Gateway);
            assert!(healthy);
        }
        other => panic!("unexpected {other:?}"),
    }
    let info = Info {
        version: "1.2.3".to_string(),
        build_commit: "abc".to_string(),
        tag_commit: "def".to_string(),
        build_time: "now".to_string(),
    };
    match Response::from_info(&info, "host".to_string()) {
        Response::Info { version, hostname, .. } => {
            assert_eq!(version, "1.2.3");
            assert_eq!(hostname, "host");
        }
        other => panic!("unexpected {other:?}"),
    }
    assert_eq!(Request::Status, Request::Status);
    assert_eq!(default_socket("/data"), "/data/run/micronet.sock");
}

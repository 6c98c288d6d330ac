//! The server runtime's registry and shutdown, and the client session's
//! correlation and failure behavior.

use piteria::db::DeploymentStore;
use piteria::deployment::nginx::NginxConfig;
use piteria::deployment::systemd::SystemdConfig;
use piteria::deployment::Deployment;
use piteria::error::{PiteriaError, PiteriaIOError};
use piteria::socket::client::{
    client_handle_reply, encode_request_frame, run_exchanges, ClientReadOutcome,
};
use piteria::socket::message::{PiteriaMessage, PiteriaResponse};
use piteria::socket::server::ServerRuntime;
use piteria::socket::{read_frame, FrameRead, PiteriaTag};
use piteria::PiteriaService;

#[test]
fn runtime_registers_sessions_under_fresh_ids() {
    let mut rt: ServerRuntime<&'static str> = ServerRuntime::new();
    assert!(rt.is_accepting());
    assert_eq!(rt.on_connection("one").unwrap(), 0);
    assert_eq!(rt.on_connection("two").unwrap(), 1);
    assert_eq!(rt.on_connection("three").unwrap(), 2);
    assert_eq!(rt.session_count(), 3);
}

#[test]
fn shutdown_is_complete_and_idempotent() {
    // After close() the registry is empty and every handle was handed out
    // to be signalled and awaited; a second close finds nothing.
    let mut rt: ServerRuntime<&'static str> = ServerRuntime::new();
    rt.on_connection("a").unwrap();
    rt.on_connection("b").unwrap();
    let handles = rt.close();
    assert_eq!(handles, vec!["a", "b"]);
    assert_eq!(rt.session_count(), 0);
    assert!(!rt.is_accepting());
    let again = rt.close();
    assert!(again.is_empty());
    assert_eq!(rt.session_count(), 0);
}

#[test]
fn session_close_is_recorded_exactly_once() {
    // The session's own close and a concurrent shutdown converge on the
    // same removal: the second arrival is a no-op, never a panic.
    let mut rt: ServerRuntime<&'static str> = ServerRuntime::new();
    let id = rt.on_connection("only").unwrap();
    assert_eq!(rt.on_session_closed(id), Some("only"));
    assert_eq!(rt.session_count(), 0);
    assert_eq!(rt.on_session_closed(id), None);
    assert_eq!(rt.session_count(), 0);
    assert!(rt.close().is_empty());
}

#[test]
fn closed_session_is_not_signalled_at_shutdown() {
    let mut rt: ServerRuntime<&'static str> = ServerRuntime::new();
    rt.on_connection("stays").unwrap();
    let went = rt.on_connection("goes").unwrap();
    rt.on_session_closed(went);
    assert_eq!(rt.close(), vec!["stays"]);
}

#[test]
fn request_frames_are_wellformed() {
    let frame = encode_request_frame(&PiteriaMessage::ViewDeployment(9));
    match read_frame(frame.as_slice(), 0) {
        FrameRead::Frame(payload, end) => {
            assert_eq!(end, frame.len());
            assert_eq!(payload[0], PiteriaTag::ViewDeployment.byte());
        },
        _ => panic!("a request frame reads back as one frame"),
    }
}

#[test]
fn only_a_clean_peer_close_is_fatal_for_a_session() {
    assert!(PiteriaIOError::SocketClosed("eof".to_string()).is_fatal());
    assert!(!PiteriaIOError::Io("transient".to_string()).is_fatal());
    assert!(!PiteriaIOError::MalformedHeader.is_fatal());
}

#[test]
fn pending_call_resolves_when_the_server_dies_mid_flight() {
    // The server process went away between the write and the read: the
    // caller's pending call resolves with a connection-lost failure
    // rather than hanging, and the session stops.
    let (delivered, stop) = client_handle_reply(
        PiteriaTag::Overview,
        ClientReadOutcome::PeerClosed("early eof".to_string()),
    );
    assert!(stop);
    match delivered {
        Err(PiteriaError::PiteriaIO(PiteriaIOError::SocketClosed(m))) => assert_eq!(m, "early eof"),
        other => panic!("expected a connection-lost failure, got {:?}", other),
    }
}

#[test]
fn transient_read_failure_resolves_the_caller_but_keeps_the_session() {
    let (delivered, stop) = client_handle_reply(
        PiteriaTag::Hello,
        ClientReadOutcome::Failed("timed out".to_string()),
    );
    assert!(!stop);
    assert!(matches!(delivered, Err(PiteriaError::PiteriaIO(PiteriaIOError::Io(_)))));
}

#[test]
fn garbled_reply_resolves_as_a_decode_failure() {
    let (delivered, stop) =
        client_handle_reply(PiteriaTag::Hello, ClientReadOutcome::Reply(vec![9u8, 9, 9]));
    assert!(!stop);
    assert!(matches!(delivered, Err(PiteriaError::PiteriaIO(PiteriaIOError::Decode(_)))));
}

#[test]
fn concurrent_callers_each_get_their_own_reply() {
    // Distinguishable requests from several callers, fanned through one
    // session that serializes them: every caller's entry carries its own
    // identity and the answer to its own request, never another's.
    let d = Deployment::new("solo", "d", NginxConfig::default(), SystemdConfig::default());
    let mut store = DeploymentStore::new();
    let row = store.insert_deployment(&d, 0).unwrap();
    let svc = PiteriaService::new(store);

    let callers = vec![
        (7u64, PiteriaMessage::Hello),
        (8u64, PiteriaMessage::Overview),
        (9u64, PiteriaMessage::ViewDeployment(row.id + 100)),
        (10u64, PiteriaMessage::Hello),
    ];
    let replies = run_exchanges(&svc, &callers);
    assert_eq!(replies.len(), 4);

    assert_eq!(replies[0].0, 7);
    assert!(matches!(replies[0].1, Ok(PiteriaResponse::Hello)));

    assert_eq!(replies[1].0, 8);
    match &replies[1].1 {
        Ok(PiteriaResponse::Overview(rows)) => {
            assert_eq!(rows.len(), 1);
            assert_eq!(rows[0].name, "solo");
        },
        other => panic!("caller 8 asked for the listing, got {:?}", other),
    }

    assert_eq!(replies[2].0, 9);
    match &replies[2].1 {
        Err(PiteriaError::NotFound(id)) => assert_eq!(*id, row.id + 100),
        other => panic!("caller 9 asked for a missing id, got {:?}", other),
    }

    assert_eq!(replies[3].0, 10);
    assert!(matches!(replies[3].1, Ok(PiteriaResponse::Hello)));
}

//! End-to-end scenarios over a real local stream: a server session task on
//! one end of a unix socket pair, a caller on the other.

use piteria::db::DeploymentStore;
use piteria::error::{PiteriaError, PiteriaIOError};
use piteria::socket::client::{client_handle_reply, encode_request_frame, ClientReadOutcome};
use piteria::socket::message::{decode_response, PiteriaMessage, PiteriaResponse};
use piteria::socket::server::{session_step, SessionEvent, SessionStep};
use piteria::socket::{encode_frame, Header, PiteriaTag, HEADER_SIZE};
use piteria::PiteriaService;
use std::sync::Arc;
use std::time::Duration;
use tokio::io::{AsyncReadExt, AsyncWriteExt};
use tokio::net::UnixStream;

fn runtime() -> tokio::runtime::Runtime {
    tokio::runtime::Builder::new_current_thread()
        .enable_all()
        .build()
        .expect("tokio runtime")
}

async fn read_event(stream: &mut UnixStream) -> SessionEvent {
    let mut header = [0u8; HEADER_SIZE];
    match stream.read_exact(&mut header).await {
        Ok(_) => {},
        Err(e) if e.kind() == std::io::ErrorKind::UnexpectedEof => {
            return SessionEvent::PeerClosed;
        },
        Err(e) => return SessionEvent::ReadError(PiteriaIOError::Io(e.to_string())),
    }
    let len = Header::size(&header) as usize;
    let mut payload = vec![0u8; len];
    match stream.read_exact(&mut payload).await {
        Ok(_) => SessionEvent::Frame(payload),
        Err(e) => SessionEvent::ReadError(PiteriaIOError::Io(e.to_string())),
    }
}

/// A server session over one end of the pair: read, decide, act, until the
/// peer closes. Returns whether the close notification was reached.
async fn serve(mut stream: UnixStream, svc: Arc<PiteriaService>) -> bool {
    loop {
        let event = read_event(&mut stream).await;
        match session_step(&svc, event) {
            SessionStep::Reply(bytes) => {
                let frame = encode_frame(&bytes);
                stream.write_all(&frame).await.expect("reply written");
                stream.flush().await.expect("reply flushed");
            },
            SessionStep::Ignore => {},
            SessionStep::NotifyCloseAndStop => return true,
            SessionStep::Stop => return false,
        }
    }
}

async fn read_reply(stream: &mut UnixStream) -> ClientReadOutcome {
    let mut header = [0u8; HEADER_SIZE];
    match stream.read_exact(&mut header).await {
        Ok(_) => {},
        Err(e) if e.kind() == std::io::ErrorKind::UnexpectedEof => {
            return ClientReadOutcome::PeerClosed(e.to_string());
        },
        Err(e) => return ClientReadOutcome::Failed(e.to_string()),
    }
    let len = Header::size(&header) as usize;
    let mut payload = vec![0u8; len];
    match stream.read_exact(&mut payload).await {
        Ok(_) => ClientReadOutcome::Reply(payload),
        Err(e) => ClientReadOutcome::Failed(e.to_string()),
    }
}

async fn exchange_over_stream(
    stream: &mut UnixStream,
    msg: PiteriaMessage,
) -> Result<PiteriaResponse, PiteriaError> {
    let frame = encode_request_frame(&msg);
    stream.write_all(&frame).await.expect("request written");
    stream.flush().await.expect("request flushed");
    let outcome = read_reply(stream).await;
    let (delivered, _stop) = client_handle_reply(msg.tag(), outcome);
    delivered
}

#[test]
fn connect_check_liveness_list_and_look_up() {
    let rt = runtime();
    rt.block_on(async {
        let (mut client, server) = UnixStream::pair().expect("socket pair");
        let svc = Arc::new(PiteriaService::new(DeploymentStore::new()));
        let session = tokio::spawn(serve(server, svc));

        let work = async {
            // connectivity self-test first, as a fresh client does
            let hello = exchange_over_stream(&mut client, PiteriaMessage::Hello).await;
            assert!(matches!(hello, Ok(PiteriaResponse::Hello)));

            // an empty store lists nothing
            match exchange_over_stream(&mut client, PiteriaMessage::Overview).await {
                Ok(PiteriaResponse::Overview(rows)) => assert!(rows.is_empty()),
                other => panic!("expected an empty listing, got {:?}", other),
            }

            // an unknown id is a reported failure, not a broken connection
            match exchange_over_stream(&mut client, PiteriaMessage::ViewDeployment(12)).await {
                Err(PiteriaError::NotFound(id)) => assert_eq!(id, 12),
                other => panic!("expected a not-found failure, got {:?}", other),
            }
        };
        tokio::time::timeout(Duration::from_secs(5), work).await.expect("replies in time");

        // a clean client close ends the session through its notification
        drop(client);
        let notified = tokio::time::timeout(Duration::from_secs(5), session)
            .await
            .expect("session ends")
            .expect("session task joins");
        assert!(notified);
    });
}

#[test]
fn two_requests_written_back_to_back_do_not_desynchronize() {
    // A misbehaving peer sends a second request before reading the first
    // response; the length-prefixed stream keeps both sides aligned, and
    // here the server happens to answer both in order.
    let rt = runtime();
    rt.block_on(async {
        let (mut client, server) = UnixStream::pair().expect("socket pair");
        let svc = Arc::new(PiteriaService::new(DeploymentStore::new()));
        let session = tokio::spawn(serve(server, svc));

        let work = async {
            let mut both = encode_request_frame(&PiteriaMessage::Hello);
            both.extend_from_slice(&encode_request_frame(&PiteriaMessage::Overview));
            client.write_all(&both).await.expect("both frames written");
            client.flush().await.expect("flushed");

            let first = read_reply(&mut client).await;
            let (delivered, _) = client_handle_reply(PiteriaTag::Hello, first);
            assert!(matches!(delivered, Ok(PiteriaResponse::Hello)));

            let second = read_reply(&mut client).await;
            match second {
                ClientReadOutcome::Reply(bytes) => {
                    let decoded = decode_response(PiteriaTag::Overview, &bytes)
                        .expect("second response decodes");
                    assert!(matches!(decoded, Ok(PiteriaResponse::Overview(_))));
                },
                other => panic!("expected the second reply, got {:?}", outcome_name(&other)),
            }
        };
        tokio::time::timeout(Duration::from_secs(5), work).await.expect("replies in time");

        drop(client);
        let _ = tokio::time::timeout(Duration::from_secs(5), session).await;
    });
}

fn outcome_name(o: &ClientReadOutcome) -> &'static str {
    match o {
        ClientReadOutcome::Reply(_) => "a reply",
        ClientReadOutcome::PeerClosed(_) => "a peer close",
        ClientReadOutcome::Failed(_) => "a failure",
    }
}

#[test]
fn pending_call_sees_connection_lost_when_the_server_goes_away() {
    // The request is written, then the server end disappears before any
    // response: the caller's pending call resolves with a connection-lost
    // failure instead of hanging.
    let rt = runtime();
    rt.block_on(async {
        let (mut client, mut server) = UnixStream::pair().expect("socket pair");
        let work = async {
            let frame = encode_request_frame(&PiteriaMessage::Overview);
            client.write_all(&frame).await.expect("request written");
            client.flush().await.expect("flushed");
            // the server reads the request, then goes away before replying
            let mut swallowed = vec![0u8; frame.len()];
            server.read_exact(&mut swallowed).await.expect("request arrives");
            drop(server);
            let outcome = read_reply(&mut client).await;
            let (delivered, stop) = client_handle_reply(PiteriaTag::Overview, outcome);
            assert!(stop);
            assert!(matches!(
                delivered,
                Err(PiteriaError::PiteriaIO(PiteriaIOError::SocketClosed(_)))
            ));
        };
        tokio::time::timeout(Duration::from_secs(5), work).await.expect("resolves in time");
    });
}

//! The service dispatch, exercised through the whole protocol pipeline:
//! encoded request in, encoded response out.

use piteria::db::DeploymentStore;
use piteria::deployment::nginx::{NginxConfig, NginxLocation};
use piteria::deployment::systemd::SystemdConfig;
use piteria::deployment::Deployment;
use piteria::error::PiteriaError;
use piteria::setup_deployment_files;
use piteria::socket::message::{decode_response, PiteriaMessage, PiteriaResponse};
use piteria::socket::server::{session_step, SessionEvent, SessionStep};
use piteria::socket::PiteriaTag;
use piteria::PiteriaService;

/// Round-trip one request through the session step: encode the envelope,
/// let the session answer it, decode the response for that tag.
fn exchange(svc: &PiteriaService, msg: PiteriaMessage) -> Result<PiteriaResponse, PiteriaError> {
    let payload = msg.to_request().encode();
    match session_step(svc, SessionEvent::Frame(payload)) {
        SessionStep::Reply(bytes) => decode_response(msg.tag(), &bytes).expect("response decodes"),
        _ => panic!("a decodable frame must be answered"),
    }
}

#[test]
fn liveness_check_is_acknowledged() {
    let svc = PiteriaService::new(DeploymentStore::new());
    assert!(matches!(exchange(&svc, PiteriaMessage::Hello), Ok(PiteriaResponse::Hello)));
}

#[test]
fn overview_of_an_empty_store_is_empty() {
    let svc = PiteriaService::new(DeploymentStore::new());
    match exchange(&svc, PiteriaMessage::Overview) {
        Ok(PiteriaResponse::Overview(rows)) => assert!(rows.is_empty()),
        other => panic!("expected an empty listing, got {:?}", other),
    }
}

#[test]
fn view_of_an_unknown_id_is_not_found_not_a_crash() {
    let svc = PiteriaService::new(DeploymentStore::new());
    match exchange(&svc, PiteriaMessage::ViewDeployment(999)) {
        Err(PiteriaError::NotFound(id)) => assert_eq!(id, 999),
        other => panic!("expected a not-found failure, got {:?}", other),
    }
}

#[test]
fn view_returns_the_record_written_for_it() {
    // Insert one deployment, regenerate its config files, and look it up:
    // the record carries the stored name and description, and a
    // reverse-proxy config whose port and server name match what was
    // written out.
    let nginx = NginxConfig {
        file_location: "dump/web.vhost".to_string(),
        listen: 42069,
        server_name: "mysite.com".to_string(),
        access_log: None,
        location: vec![NginxLocation::new()],
    };
    let sysd = SystemdConfig::default();
    let d = Deployment::new("web", "the web app", nginx, sysd);
    let ((npath, ntext), (spath, stext)) = setup_deployment_files(
        NginxConfig {
            file_location: d.nginx_cfg.file_location.clone(),
            listen: d.nginx_cfg.listen,
            server_name: d.nginx_cfg.server_name.clone(),
            access_log: None,
            location: vec![NginxLocation::new()],
        },
        SystemdConfig::default(),
    );
    let mut store = DeploymentStore::new();
    let row = store.insert_deployment(&d, 1234).unwrap();
    let mut svc = PiteriaService::new(store);
    svc.put_file(npath, ntext);
    svc.put_file(spath, stext);

    match exchange(&svc, PiteriaMessage::ViewDeployment(row.id)) {
        Ok(PiteriaResponse::ViewDeployment(record)) => {
            assert_eq!(record.name, "web");
            assert_eq!(record.description, "the web app");
            assert_eq!(record.nginx_cfg.listen, 42069);
            assert_eq!(record.nginx_cfg.server_name, "mysite.com");
            assert_eq!(record.id.len(), 36);
        },
        other => panic!("expected the full record, got {:?}", other),
    }
}

#[test]
fn view_with_missing_config_file_reports_io() {
    let d = Deployment::new("x", "d", NginxConfig::default(), SystemdConfig::default());
    let mut store = DeploymentStore::new();
    let row = store.insert_deployment(&d, 0).unwrap();
    let svc = PiteriaService::new(store);
    match exchange(&svc, PiteriaMessage::ViewDeployment(row.id)) {
        Err(PiteriaError::IO(path)) => assert_eq!(path, "dump/hello.vhost"),
        other => panic!("expected a file failure, got {:?}", other),
    }
}

#[test]
fn view_with_corrupt_nginx_file_reports_parse_failure() {
    let d = Deployment::new("x", "d", NginxConfig::default(), SystemdConfig::default());
    let mut store = DeploymentStore::new();
    let row = store.insert_deployment(&d, 0).unwrap();
    let mut svc = PiteriaService::new(store);
    svc.put_file("dump/hello.vhost".to_string(), "server {\n  listen nope;\n}\n".to_string());
    match exchange(&svc, PiteriaMessage::ViewDeployment(row.id)) {
        Err(PiteriaError::NginxParse(m)) => assert_eq!(m, "Invalid `listen` port value: nope"),
        other => panic!("expected a parse failure, got {:?}", other),
    }
}

#[test]
fn undecodable_envelope_is_skipped_not_fatal() {
    let svc = PiteriaService::new(DeploymentStore::new());
    let garbage = vec![99u8, 1, 2, 3];
    assert!(matches!(session_step(&svc, SessionEvent::Frame(garbage)), SessionStep::Ignore));
}

#[test]
fn session_events_drive_the_session_loop() {
    let svc = PiteriaService::new(DeploymentStore::new());
    assert!(matches!(session_step(&svc, SessionEvent::Terminate), SessionStep::Stop));
    assert!(matches!(
        session_step(&svc, SessionEvent::PeerClosed),
        SessionStep::NotifyCloseAndStop
    ));
    assert!(matches!(
        session_step(
            &svc,
            SessionEvent::ReadError(piteria::error::PiteriaIOError::Io("late".to_string()))
        ),
        SessionStep::Ignore
    ));
}

#[test]
fn malformed_lookup_body_travels_back_as_a_decode_failure() {
    let svc = PiteriaService::new(DeploymentStore::new());
    // A lookup envelope whose body is too short to hold an id.
    let mut payload = vec![PiteriaTag::ViewDeployment.byte()];
    payload.extend_from_slice(&[1, 2, 3]);
    match session_step(&svc, SessionEvent::Frame(payload)) {
        SessionStep::Reply(bytes) => {
            let decoded = decode_response(PiteriaTag::ViewDeployment, &bytes)
                .expect("error response decodes");
            match decoded {
                Err(PiteriaError::PiteriaIO(piteria::error::PiteriaIOError::Decode(_))) => {},
                other => panic!("expected a decode failure, got {:?}", other),
            }
        },
        _ => panic!("the session answers a decodable envelope"),
    }
}

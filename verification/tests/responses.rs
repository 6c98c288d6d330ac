//! The response codec: every dispatch outcome crosses the wire unchanged.

use piteria::db::DeploymentStore;
use piteria::deployment::nginx::{NginxConfig, NginxLocation};
use piteria::deployment::systemd::SystemdConfig;
use piteria::deployment::Deployment;
use piteria::error::{DecodeError, PiteriaError, PiteriaIOError};
use piteria::socket::message::{decode_response, encode_response, PiteriaResponse};
use piteria::socket::PiteriaTag;

#[test]
fn hello_round_trips() {
    let bytes = encode_response(&Ok(PiteriaResponse::Hello));
    let decoded = decode_response(PiteriaTag::Hello, &bytes).unwrap();
    assert!(matches!(decoded, Ok(PiteriaResponse::Hello)));
}

#[test]
fn overview_round_trips_with_rows() {
    let mut store = DeploymentStore::new();
    let d = Deployment::new("one", "first", NginxConfig::default(), SystemdConfig::default());
    store.insert_deployment(&d, 11).unwrap();
    let e = Deployment::new("two", "second", NginxConfig::default(), SystemdConfig::default());
    store.insert_deployment(&e, 22).unwrap();
    let rows = store.list_deployments();

    let bytes = encode_response(&Ok(PiteriaResponse::Overview(rows)));
    match decode_response(PiteriaTag::Overview, &bytes).unwrap() {
        Ok(PiteriaResponse::Overview(back)) => {
            assert_eq!(back.len(), 2);
            assert_eq!(back[0].id, 1);
            assert_eq!(back[0].name, "one");
            assert_eq!(back[0].description, "first");
            assert_eq!(back[0].created_at, 11);
            assert_eq!(back[1].name, "two");
        },
        other => panic!("expected the listing back, got {:?}", other),
    }
}

#[test]
fn full_deployment_round_trips() {
    let nginx = NginxConfig {
        file_location: "dump/site.vhost".to_string(),
        listen: 8443,
        server_name: "site.example".to_string(),
        access_log: Some("/var/log/site".to_string()),
        location: vec![NginxLocation::new(), NginxLocation::default()],
    };
    let sysd = SystemdConfig::parse("[Unit]\nDescription=Site\n");
    let d = Deployment::new("site", "the site", nginx, sysd);

    let bytes = encode_response(&Ok(PiteriaResponse::ViewDeployment(d)));
    match decode_response(PiteriaTag::ViewDeployment, &bytes).unwrap() {
        Ok(PiteriaResponse::ViewDeployment(back)) => {
            assert_eq!(back.name, "site");
            assert_eq!(back.description, "the site");
            assert_eq!(back.id.len(), 36);
            assert_eq!(back.nginx_cfg.listen, 8443);
            assert_eq!(back.nginx_cfg.server_name, "site.example");
            assert_eq!(back.nginx_cfg.access_log, Some("/var/log/site".to_string()));
            assert_eq!(back.nginx_cfg.location.len(), 2);
            assert_eq!(back.nginx_cfg.location[0].proxy_pass, "http://localhost:42069/");
            assert!(back.nginx_cfg.location[1].paths.is_empty());
            assert_eq!(
                back.service_cfg.unit.params,
                vec![("Description".to_string(), "Site".to_string())]
            );
        },
        other => panic!("expected the record back, got {:?}", other),
    }
}

#[test]
fn domain_failures_round_trip() {
    for err in [
        PiteriaError::NotFound(77),
        PiteriaError::NginxParse("Invalid `listen` port value: x".to_string()),
        PiteriaError::IO("dump/hello.vhost".to_string()),
        PiteriaError::PiteriaIO(PiteriaIOError::MalformedHeader),
        PiteriaError::PiteriaIO(PiteriaIOError::Decode(DecodeError::BadTag(9))),
    ] {
        let bytes = encode_response(&Err(err.clone()));
        match decode_response(PiteriaTag::Hello, &bytes).unwrap() {
            Err(back) => assert_eq!(back, err),
            other => panic!("expected the failure back, got {:?}", other),
        }
    }
}

#[test]
fn empty_response_is_truncated() {
    let empty: Vec<u8> = Vec::new();
    assert!(matches!(decode_response(PiteriaTag::Hello, &empty), Err(DecodeError::Truncated)));
}

#[test]
fn unknown_status_byte_is_refused() {
    let bytes = vec![7u8];
    assert!(matches!(decode_response(PiteriaTag::Hello, &bytes), Err(DecodeError::BadStatus(7))));
}

#[test]
fn trailing_bytes_are_refused() {
    let mut bytes = encode_response(&Ok(PiteriaResponse::Hello));
    bytes.push(0);
    assert!(matches!(decode_response(PiteriaTag::Hello, &bytes), Err(DecodeError::TrailingBytes)));
}

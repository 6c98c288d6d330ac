//! The deployment store.

use piteria::db::DeploymentStore;
use piteria::deployment::nginx::NginxConfig;
use piteria::deployment::systemd::SystemdConfig;
use piteria::deployment::Deployment;
use piteria::error::PiteriaError;

fn sample_deployment(name: &str) -> Deployment {
    Deployment::new(name, "a deployment", NginxConfig::default(), SystemdConfig::default())
}

#[test]
fn fresh_store_lists_nothing() {
    let store = DeploymentStore::new();
    assert!(store.list_deployments().is_empty());
}

#[test]
fn insert_assigns_increasing_ids_and_lists_in_order() {
    let mut store = DeploymentStore::new();
    let a = store.insert_deployment(&sample_deployment("a"), 100).unwrap();
    let b = store.insert_deployment(&sample_deployment("b"), 200).unwrap();
    assert_eq!(a.id, 1);
    assert_eq!(b.id, 2);
    let rows = store.list_deployments();
    assert_eq!(rows.len(), 2);
    assert_eq!(rows[0].name, "a");
    assert_eq!(rows[0].created_at, 100);
    assert_eq!(rows[1].name, "b");
}

#[test]
fn get_returns_row_and_both_config_rows() {
    let mut store = DeploymentStore::new();
    let d = sample_deployment("app");
    let row = store.insert_deployment(&d, 7).unwrap();
    let (got, nginx, sysd) = store.get_deployment(row.id).unwrap();
    assert_eq!(got.name, "app");
    assert_eq!(got.description, "a deployment");
    assert_eq!(nginx.deployment_id, row.id);
    assert_eq!(nginx.file_path, d.nginx_cfg.file_location);
    assert_eq!(sysd.file_path, d.service_cfg.file_location);
}

#[test]
fn get_unknown_id_reports_not_found() {
    let store = DeploymentStore::new();
    match store.get_deployment(42) {
        Err(PiteriaError::NotFound(id)) => assert_eq!(id, 42),
        other => panic!("expected a not-found failure, got {:?}", other),
    }
}

#[test]
fn delete_reports_affected_rows() {
    let mut store = DeploymentStore::new();
    let row = store.insert_deployment(&sample_deployment("gone"), 0).unwrap();
    store.insert_deployment(&sample_deployment("kept"), 0).unwrap();
    assert_eq!(store.delete_deployment(row.id), 1);
    assert_eq!(store.delete_deployment(row.id), 0);
    let rows = store.list_deployments();
    assert_eq!(rows.len(), 1);
    assert_eq!(rows[0].name, "kept");
}

#[test]
fn duplicate_rows_are_copies() {
    let mut store = DeploymentStore::new();
    let row = store.insert_deployment(&sample_deployment("x"), 3).unwrap();
    let copy = row.duplicate();
    assert_eq!(copy.id, row.id);
    assert_eq!(copy.name, row.name);
    assert_eq!(copy.created_at, row.created_at);
}

#[test]
fn new_deployment_gets_a_fresh_identifier() {
    let a = sample_deployment("a");
    let b = sample_deployment("b");
    assert_eq!(a.id.len(), 36);
    assert_eq!(b.id.len(), 36);
    assert_ne!(a.id, b.id);
}

#[test]
fn config_files_pair_paths_with_rendered_texts() {
    let d = sample_deployment("files");
    let ((npath, ntext), (spath, stext)) = d.config_files();
    assert_eq!(npath, "dump/hello.vhost");
    assert_eq!(ntext, d.nginx_cfg.to_text());
    assert_eq!(spath, "dump/hello.service");
    assert_eq!(stext, d.service_cfg.to_text());
}

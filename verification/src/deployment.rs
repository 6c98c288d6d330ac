//! A deployment: one logical application, pairing a reverse-proxy
//! configuration and a process-supervisor configuration under a name.

use vstd::prelude::*;

pub mod nginx;
pub mod systemd;

use vstd::utf8::is_ascii_chars;

use nginx::{spec_render_nginx, NginxConfig, NginxConfigView};
use systemd::{spec_render_systemd, SystemdConfig, SystemdConfigView};

verus! {

/// A materialized deployment: its identity, what the user called it, and
/// its two resolved configuration files.
#[derive(Debug)]
pub struct Deployment {
    /// Generated identifier of the deployment.
    pub id: String,
    /// User defined name of the deployment.
    pub name: String,
    /// User defined description. Not the systemd description; when the
    /// latter is missing, this one stands in for it.
    pub description: String,
    /// The systemd service file.
    pub service_cfg: SystemdConfig,
    /// The nginx vhost file.
    pub nginx_cfg: NginxConfig,
}

/// The mathematical content of a deployment.
#[verifier::ext_equal]
pub ghost struct DeploymentView {
    pub id: Seq<char>,
    pub name: Seq<char>,
    pub description: Seq<char>,
    pub service_cfg: SystemdConfigView,
    pub nginx_cfg: NginxConfigView,
}

impl View for Deployment {
    type V = DeploymentView;

    open spec fn view(&self) -> DeploymentView {
        DeploymentView {
            id: self.id@,
            name: self.name@,
            description: self.description@,
            service_cfg: self.service_cfg@,
            nginx_cfg: self.nginx_cfg@,
        }
    }
}

/// Relies on `uuid::Uuid::new_v4` and its `Display` form: a fresh random
/// identifier rendered hyphenated, 36 ASCII chars. The value is random, so
/// nothing more is promised of it.
#[verifier::external_body]
fn fresh_id() -> (r: String)
    ensures
        r@.len() == 36,
        is_ascii_chars(r@),
{
    uuid::Uuid::new_v4().to_string()
}

impl Deployment {
    /// A new deployment under a fresh identifier.
    pub fn new(name: &str, desc: &str, nginx: NginxConfig, sysd: SystemdConfig) -> (r: Self)
        ensures
            r@.name == name@,
            r@.description == desc@,
            r@.nginx_cfg == nginx@,
            r@.service_cfg == sysd@,
            r@.id.len() == 36,
    {
        Deployment {
            id: fresh_id(),
            name: name.to_owned(),
            description: desc.to_owned(),
            service_cfg: sysd,
            nginx_cfg: nginx,
        }
    }

    /// The deployment's two config files, each as the path it belongs at
    /// and the text that goes there. Writing them to disk is the caller's
    /// step.
    pub fn config_files(&self) -> (r: ((String, String), (String, String)))
        ensures
            r.0.0@ == self@.nginx_cfg.file_location,
            r.0.1@ == spec_render_nginx(self@.nginx_cfg),
            r.1.0@ == self@.service_cfg.file_location,
            r.1.1@ == spec_render_systemd(self@.service_cfg),
    {
        (
            (self.nginx_cfg.file_location.clone(), self.nginx_cfg.to_text()),
            (self.service_cfg.file_location.clone(), self.service_cfg.to_text()),
        )
    }
}

} // verus!

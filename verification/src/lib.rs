//! Piteria: a local deployment-control agent.
//!
//! The library holds the verified core: the framed wire protocol and its
//! message catalog, the server runtime's session registry and shutdown
//! bookkeeping, the client session's request/response correlation, the
//! deployment store, and the nginx / systemd configuration text formats.
//! Process wiring (sockets, tasks, signals) lives outside the library and
//! drives these state machines.

pub mod db;
pub mod deployment;
pub mod error;
pub mod socket;
pub mod systemd;
pub mod text;

use vstd::prelude::*;

use db::{spec_config_index, spec_lookup_ok, spec_row_index, DeploymentStore, DeploymentStoreView};
use deployment::nginx::{spec_parse_nginx, NginxConfig, NginxConfigView, spec_render_nginx};
use deployment::systemd::{spec_parse_systemd, SystemdConfig, SystemdConfigView, spec_render_systemd};
use error::{PiteriaError, PiteriaErrorView, PiteriaIOError};
use socket::message::{
    spec_dec_message, spec_response_matches, PiteriaMessage, PiteriaResponse, PiteriaResponseView,
};
use socket::{PiteriaRequest, PiteriaTag};
use text::{chars_of, eq_chars};

verus! {

/// Result alias used across the library, mirroring the domain error type.
pub type PiteriaResult<T> = Result<T, PiteriaError>;

/// First file with the given path, if one is stored.
pub open spec fn spec_find_file(files: Seq<(Seq<char>, Seq<char>)>, path: Seq<char>) -> Option<
    Seq<char>,
>
    decreases files.len(),
{
    if files.len() == 0 {
        None
    } else if files[0].0 == path {
        Some(files[0].1)
    } else {
        spec_find_file(files.drop_first(), path)
    }
}

/// The mathematical content of the service: its store and the config file
/// texts it holds.
#[verifier::ext_equal]
pub ghost struct PiteriaServiceView {
    pub db: DeploymentStoreView,
    pub files: Seq<(Seq<char>, Seq<char>)>,
}

/// The agent's domain service: the deployment store, and the generated
/// config files it serves, each under the path it belongs at. The process
/// around the library mirrors these texts to disk; the service answers
/// requests from this state alone.
pub struct PiteriaService {
    db: DeploymentStore,
    files: Vec<(String, String)>,
}

impl View for PiteriaService {
    type V = PiteriaServiceView;

    closed spec fn view(&self) -> PiteriaServiceView {
        PiteriaServiceView {
            db: self.db@,
            files: self.files@.map_values(|f: (String, String)| (f.0@, f.1@)),
        }
    }
}

/// What looking up a deployment's materialized record yields: the row's
/// name and description and both parsed configs, or the exact failure.
pub open spec fn spec_view_deployment(s: PiteriaServiceView, id: int) -> Result<
    (Seq<char>, Seq<char>, SystemdConfigView, NginxConfigView),
    PiteriaErrorView,
> {
    if !spec_lookup_ok(s.db, id) {
        Err(PiteriaErrorView::NotFound(id))
    } else {
        let row = s.db.rows[spec_row_index(s.db.rows, id)];
        let nrow = s.db.nginx_rows[spec_config_index(s.db.nginx_rows, id)];
        let srow = s.db.sysd_rows[spec_config_index(s.db.sysd_rows, id)];
        match spec_find_file(s.files, nrow.file_path) {
            None => Err(PiteriaErrorView::IO(nrow.file_path)),
            Some(ntext) => match spec_parse_nginx(ntext) {
                Err(m) => Err(PiteriaErrorView::NginxParse(m)),
                Ok(ncfg) => match spec_find_file(s.files, srow.file_path) {
                    None => Err(PiteriaErrorView::IO(srow.file_path)),
                    Some(stext) => Ok((row.name, row.description, spec_parse_systemd(stext), ncfg)),
                },
            },
        }
    }
}

/// How a dispatch outcome relates to the request: the liveness check and
/// the listing always succeed with their exact answers; the lookup succeeds
/// exactly when its body decodes and the record materializes, and then the
/// returned record carries the row's name and description and the parsed
/// configs (under a fresh identifier).
pub open spec fn spec_respond_rel(
    s: PiteriaServiceView,
    tag: PiteriaTag,
    body: Seq<u8>,
    r: Result<PiteriaResponseView, PiteriaErrorView>,
) -> bool {
    match tag {
        PiteriaTag::Hello => r == Ok::<PiteriaResponseView, PiteriaErrorView>(
            PiteriaResponseView::Hello,
        ),
        PiteriaTag::Overview => r == Ok::<PiteriaResponseView, PiteriaErrorView>(
            PiteriaResponseView::Overview(s.db.rows),
        ),
        PiteriaTag::ViewDeployment => match spec_dec_message(tag, body) {
            Err(de) => r == Err::<PiteriaResponseView, PiteriaErrorView>(
                PiteriaErrorView::PiteriaIO(error::PiteriaIOErrorView::Decode(de)),
            ),
            Ok(m) => {
                let id = m->ViewDeployment_0 as int;
                match spec_view_deployment(s, id) {
                    Err(e) => r == Err::<PiteriaResponseView, PiteriaErrorView>(e),
                    Ok((name, desc, scfg, ncfg)) => match r {
                        Ok(resp) => match resp {
                            PiteriaResponseView::ViewDeployment(d) => {
                                &&& d.name == name
                                &&& d.description == desc
                                &&& d.service_cfg == scfg
                                &&& d.nginx_cfg == ncfg
                                &&& d.id.len() == 36
                            },
                            _ => false,
                        },
                        Err(_) => false,
                    },
                }
            },
        },
    }
}

impl PiteriaService {
    /// A service over a deployment store, holding no file texts yet.
    pub fn new(db: DeploymentStore) -> (r: Self)
        ensures
            r@.db == db@,
            r@.files == Seq::<(Seq<char>, Seq<char>)>::empty(),
    {
        let r = PiteriaService { db, files: Vec::new() };
        proof {
            assert(r@.files =~= Seq::<(Seq<char>, Seq<char>)>::empty());
        }
        r
    }

    /// Record a config file's text under its path (prepended, so the most
    /// recent text wins a lookup).
    pub fn put_file(&mut self, path: String, text: String)
        ensures
            final(self)@.db == old(self)@.db,
            final(self)@.files == seq![(path@, text@)] + old(self)@.files,
    {
        self.files.insert(0, (path, text));
        proof {
            assert(self@.files =~= seq![(path@, text@)] + old(self)@.files);
        }
    }

    fn read_file(&self, path: &str) -> (r: Option<String>)
        ensures
            match r {
                Some(t) => spec_find_file(self@.files, path@) == Some(t@),
                None => spec_find_file(self@.files, path@) is None,
            },
    {
        let ghost fv = self@.files;
        proof {
            assert(fv.skip(0) =~= fv);
        }
        let mut i: usize = 0;
        while i < self.files.len()
            invariant
                i <= self.files@.len(),
                fv == self.files@.map_values(|f: (String, String)| (f.0@, f.1@)),
                forall|j: int| 0 <= j < i ==> fv[j].0 != path@,
                spec_find_file(fv, path@) == spec_find_file(fv.skip(i as int), path@),
            decreases self.files@.len() - i,
        {
            let key = chars_of(self.files[i].0.as_str());
            let wanted = chars_of(path);
            let hit = eq_chars(key.as_slice(), wanted.as_slice());
            proof {
                assert(fv.skip(i as int)[0] == fv[i as int]);
                assert(fv.skip(i as int).drop_first() =~= fv.skip(i as int + 1));
            }
            if hit {
                return Some(self.files[i].1.clone());
            }
            i += 1;
        }
        proof {
            assert(fv.skip(fv.len() as int) =~= Seq::<(Seq<char>, Seq<char>)>::empty());
        }
        None
    }

    /// Materialize one deployment: its row, and both configs parsed from
    /// the stored file texts.
    pub fn view_deployment(&self, id: i64) -> (r: PiteriaResult<deployment::Deployment>)
        ensures
            match r {
                Ok(d) => match spec_view_deployment(self@, id as int) {
                    Ok((name, desc, scfg, ncfg)) => d@.name == name && d@.description == desc
                        && d@.service_cfg == scfg && d@.nginx_cfg == ncfg && d@.id.len() == 36,
                    Err(_) => false,
                },
                Err(e) => spec_view_deployment(self@, id as int) == Err::<
                    (Seq<char>, Seq<char>, SystemdConfigView, NginxConfigView),
                    PiteriaErrorView,
                >(e@),
            },
    {
        let (row, nrow, srow) = match self.db.get_deployment(id) {
            Ok(t) => t,
            Err(e) => {
                return Err(e);
            },
        };
        let ntext = match self.read_file(nrow.file_path.as_str()) {
            Some(t) => t,
            None => {
                return Err(PiteriaError::IO(nrow.file_path));
            },
        };
        let ncfg = match NginxConfig::parse(ntext.as_str()) {
            Ok(c) => c,
            Err(e) => {
                return Err(e);
            },
        };
        let stext = match self.read_file(srow.file_path.as_str()) {
            Some(t) => t,
            None => {
                return Err(PiteriaError::IO(srow.file_path));
            },
        };
        let scfg = SystemdConfig::parse(stext.as_str());
        Ok(deployment::Deployment::new(row.name.as_str(), row.description.as_str(), ncfg, scfg))
    }

    /// Answer one decoded envelope: route it by its tag, perform the
    /// operation, and hand back the response or the domain failure.
    pub fn respond(&self, msg: &PiteriaRequest) -> (r: PiteriaResult<PiteriaResponse>)
        ensures
            match r {
                Ok(resp) => spec_respond_rel(self@, msg.tag, msg.message@, Ok(resp@))
                    && spec_response_matches(msg.tag, resp@),
                Err(e) => spec_respond_rel(self@, msg.tag, msg.message@, Err(e@)),
            },
    {
        match msg.tag {
            PiteriaTag::Hello => Ok(PiteriaResponse::Hello),
            PiteriaTag::Overview => Ok(PiteriaResponse::Overview(self.db.list_deployments())),
            PiteriaTag::ViewDeployment => {
                let m = match socket::message::decode_message(msg) {
                    Ok(m) => m,
                    Err(de) => {
                        return Err(PiteriaError::PiteriaIO(PiteriaIOError::Decode(de)));
                    },
                };
                match m {
                    PiteriaMessage::ViewDeployment(id) => {
                        match self.view_deployment(id) {
                            Ok(d) => Ok(PiteriaResponse::ViewDeployment(d)),
                            Err(e) => Err(e),
                        }
                    },
                    _ => {
                        // the lookup tag decodes only to the lookup message
                        proof {
                            assert(false);
                        }
                        Ok(PiteriaResponse::Hello)
                    },
                }
            },
        }
    }
}

/// The deployment's two config files as path/text pairs, ready to be
/// written to disk by the process around the library.
pub fn setup_deployment_files(nginx_cfg: NginxConfig, systemd_cfg: SystemdConfig) -> (r: (
    (String, String),
    (String, String),
))
    ensures
        r.0.0@ == nginx_cfg@.file_location,
        r.0.1@ == spec_render_nginx(nginx_cfg@),
        r.1.0@ == systemd_cfg@.file_location,
        r.1.1@ == spec_render_systemd(systemd_cfg@),
{
    let n = (nginx_cfg.file_location.clone(), nginx_cfg.to_text());
    let s = (systemd_cfg.file_location.clone(), systemd_cfg.to_text());
    (n, s)
}

} // verus!

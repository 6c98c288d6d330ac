//! A typed systemd service file: the fields a deployment actually sets,
//! each rendered to its own line. The parameter-map flavor under the
//! deployment module is the general format; this one names the handful of
//! options the agent writes, so a caller cannot misspell a key.

use vstd::prelude::*;

pub use crate::deployment::systemd::RestartOption;

use crate::deployment::systemd::{
    render_env_into, spec_pairs_view, spec_render_env, spec_restart_text, ParamsView,
};
use crate::text::{chars_to_string, push_str_chars};

verus! {

/// The `[Unit]` section: just the description.
#[derive(Debug)]
pub struct SysdUnitConfig {
    /// The unit description under `[Unit]`.
    pub description: String,
}

/// The `[Install]` section: which target wants the service.
#[derive(Debug)]
pub struct SysdInstallConfig {
    pub wanted_by: String,
}

/// The `[Service]` section: how the application runs.
#[derive(Debug)]
pub struct SysdServiceConfig {
    /// The command that starts the application.
    pub exec_start: String,
    /// The restart policy.
    pub restart: RestartOption,
    /// Which user the service runs as.
    pub user: String,
    /// Which group the service runs as.
    pub group: String,
    /// Environment variables for the application.
    pub env: Vec<(String, String)>,
    /// The working directory the commands run in.
    pub dir: String,
}

/// A whole typed service file, and where it lives on disk.
#[derive(Debug)]
pub struct SystemdConfig {
    /// Absolute path to the systemd service file.
    pub file_location: String,
    pub unit: SysdUnitConfig,
    pub service: SysdServiceConfig,
    pub install: SysdInstallConfig,
}

/// The `[Unit]` section's text.
pub open spec fn spec_render_unit(description: Seq<char>) -> Seq<char> {
    "[Unit]\n"@ + "Description="@ + description + seq!['\n']
}

/// The `[Install]` section's text.
pub open spec fn spec_render_install(wanted_by: Seq<char>) -> Seq<char> {
    "[Install]\n"@ + "WantedBy="@ + wanted_by + seq!['\n']
}

/// The `[Service]` section's text: each field on its own line, the
/// environment variables between the group and the working directory.
pub open spec fn spec_render_service(
    exec_start: Seq<char>,
    restart: RestartOption,
    user: Seq<char>,
    group: Seq<char>,
    env: ParamsView,
    dir: Seq<char>,
) -> Seq<char> {
    "[Service]\n"@ + "ExecStart="@ + exec_start + seq!['\n'] + "Restart="@ + spec_restart_text(
        restart,
    ) + seq!['\n'] + "User="@ + user + seq!['\n'] + "Group="@ + group + seq!['\n']
        + spec_render_env(env) + "WorkingDirectory="@ + dir + seq!['\n']
}

/// The whole typed service file: the three sections, each closed by a
/// blank line.
pub open spec fn spec_render_typed_sysd(c: SystemdConfig) -> Seq<char> {
    spec_render_unit(c.unit.description@) + seq!['\n'] + spec_render_service(
        c.service.exec_start@,
        c.service.restart,
        c.service.user@,
        c.service.group@,
        spec_pairs_view(c.service.env@),
        c.service.dir@,
    ) + seq!['\n'] + spec_render_install(c.install.wanted_by@) + seq!['\n']
}

impl Default for SysdInstallConfig {
    fn default() -> (r: Self)
        ensures
            r.wanted_by@ == "multi-user.target"@,
    {
        SysdInstallConfig { wanted_by: "multi-user.target".to_owned() }
    }
}

impl SysdUnitConfig {
    /// The `[Unit]` section's text.
    pub fn to_text(&self) -> (s: String)
        ensures
            s@ == spec_render_unit(self.description@),
    {
        let mut out: Vec<char> = Vec::new();
        push_str_chars(&mut out, "[Unit]\n");
        push_str_chars(&mut out, "Description=");
        push_str_chars(&mut out, self.description.as_str());
        out.push('\n');
        proof {
            assert(out@ =~= spec_render_unit(self.description@));
        }
        chars_to_string(&out)
    }
}

impl SysdInstallConfig {
    /// The `[Install]` section's text.
    pub fn to_text(&self) -> (s: String)
        ensures
            s@ == spec_render_install(self.wanted_by@),
    {
        let mut out: Vec<char> = Vec::new();
        push_str_chars(&mut out, "[Install]\n");
        push_str_chars(&mut out, "WantedBy=");
        push_str_chars(&mut out, self.wanted_by.as_str());
        out.push('\n');
        proof {
            assert(out@ =~= spec_render_install(self.wanted_by@));
        }
        chars_to_string(&out)
    }
}

impl SysdServiceConfig {
    /// The `[Service]` section's text.
    pub fn to_text(&self) -> (s: String)
        ensures
            s@ == spec_render_service(
                self.exec_start@,
                self.restart,
                self.user@,
                self.group@,
                spec_pairs_view(self.env@),
                self.dir@,
            ),
    {
        let mut out: Vec<char> = Vec::new();
        push_str_chars(&mut out, "[Service]\n");
        push_str_chars(&mut out, "ExecStart=");
        push_str_chars(&mut out, self.exec_start.as_str());
        out.push('\n');
        push_str_chars(&mut out, "Restart=");
        let restart = self.restart.as_text();
        push_str_chars(&mut out, restart.as_str());
        out.push('\n');
        push_str_chars(&mut out, "User=");
        push_str_chars(&mut out, self.user.as_str());
        out.push('\n');
        push_str_chars(&mut out, "Group=");
        push_str_chars(&mut out, self.group.as_str());
        out.push('\n');
        render_env_into(&mut out, &self.env);
        push_str_chars(&mut out, "WorkingDirectory=");
        push_str_chars(&mut out, self.dir.as_str());
        out.push('\n');
        proof {
            assert(out@ =~= spec_render_service(
                self.exec_start@,
                self.restart,
                self.user@,
                self.group@,
                spec_pairs_view(self.env@),
                self.dir@,
            ));
        }
        chars_to_string(&out)
    }
}

impl SystemdConfig {
    /// The whole service file's text, ready to be written to
    /// `file_location`.
    pub fn to_text(&self) -> (s: String)
        ensures
            s@ == spec_render_typed_sysd(*self),
    {
        let mut out: Vec<char> = Vec::new();
        let unit = self.unit.to_text();
        push_str_chars(&mut out, unit.as_str());
        out.push('\n');
        let service = self.service.to_text();
        push_str_chars(&mut out, service.as_str());
        out.push('\n');
        let install = self.install.to_text();
        push_str_chars(&mut out, install.as_str());
        out.push('\n');
        proof {
            assert(out@ =~= spec_render_typed_sysd(*self));
        }
        chars_to_string(&out)
    }
}

} // verus!

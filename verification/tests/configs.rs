//! The systemd and nginx configuration text formats.

use piteria::deployment::nginx::{NginxConfig, NginxLocation};
use piteria::deployment::systemd::{RestartOption, SysdServiceConfig, SystemdConfig};

fn pairs(v: &[(&str, &str)]) -> Vec<(String, String)> {
    v.iter().map(|(k, val)| (k.to_string(), val.to_string())).collect()
}

#[test]
fn systemd_default_renders_exactly() {
    let cfg = SystemdConfig::default();
    let expected = "[Unit]\n\
                    Description=My super awesome application\n\
                    \n\
                    [Service]\n\
                    ExecStart=echo 'Hello World'\n\
                    Restart=always\n\
                    User=root\n\
                    Group=root\n\
                    WorkingDirectory=/path/to/my-app\n\
                    Environment=MyKey=MyValue\n\
                    \n\
                    [Install]\n\
                    WantedBy=multi-user.target\n\
                    \n";
    assert_eq!(cfg.to_text(), expected);
}

#[test]
fn systemd_parse_overrides_defaults_in_place() {
    let text = "[Unit]\nDescription=A real unit\n\n[Service]\nExecStart=/usr/bin/app\n";
    let cfg = SystemdConfig::parse(text);
    // The overridden keys keep their position; untouched defaults survive.
    assert_eq!(
        cfg.unit.params,
        pairs(&[("Description", "A real unit")])
    );
    assert_eq!(
        *cfg.service.params(),
        pairs(&[
            ("ExecStart", "/usr/bin/app"),
            ("Restart", "always"),
            ("User", "root"),
            ("Group", "root"),
            ("WorkingDirectory", "/path/to/my-app"),
        ])
    );
    assert_eq!(cfg.install.params, pairs(&[("WantedBy", "multi-user.target")]));
}

#[test]
fn systemd_parse_new_keys_append() {
    let text = "[Install]\nAlso=other.target\n";
    let cfg = SystemdConfig::parse(text);
    assert_eq!(
        cfg.install.params,
        pairs(&[("WantedBy", "multi-user.target"), ("Also", "other.target")])
    );
}

#[test]
fn systemd_parse_ignores_lines_outside_sections() {
    let cfg = SystemdConfig::parse("Stray=value\n# not a section\n");
    assert_eq!(cfg.unit.params, pairs(&[("Description", "My super awesome application")]));
}

#[test]
fn systemd_parse_handles_crlf_and_blank_lines() {
    let text = "[Unit]\r\n\r\nDescription=Windows file\r\n";
    let cfg = SystemdConfig::parse(text);
    assert_eq!(cfg.unit.params, pairs(&[("Description", "Windows file")]));
}

#[test]
fn systemd_round_trip_of_rendered_default() {
    let cfg = SystemdConfig::default();
    let reparsed = SystemdConfig::parse(&cfg.to_text());
    assert_eq!(reparsed.unit.params, cfg.unit.params);
    assert_eq!(reparsed.install.params, cfg.install.params);
    // The environment line folds back into the service parameters as
    // `Environment=MyKey=MyValue`.
    let sp = reparsed.service.params();
    assert!(sp.contains(&("Environment".to_string(), "MyKey=MyValue".to_string())));
}

#[test]
fn service_config_accessors() {
    let svc = SysdServiceConfig::new(pairs(&[("ExecStart", "/bin/x")]), pairs(&[("A", "B")]));
    assert_eq!(*svc.params(), pairs(&[("ExecStart", "/bin/x")]));
    assert_eq!(*svc.env(), pairs(&[("A", "B")]));
}

#[test]
fn restart_options_render() {
    assert_eq!(RestartOption::No.as_text(), "no");
    assert_eq!(RestartOption::OnSuccess.as_text(), "no");
    assert_eq!(RestartOption::OnFailure.as_text(), "on-failure");
    assert_eq!(RestartOption::OnAbnormal.as_text(), "on-abnormal");
    assert_eq!(RestartOption::OnWatchdog.as_text(), "on-watchdog");
    assert_eq!(RestartOption::OnAbort.as_text(), "on-abort");
    assert_eq!(RestartOption::Always.as_text(), "always");
}

#[test]
fn stock_location_contents() {
    let loc = NginxLocation::new();
    assert_eq!(loc.paths, vec!["/".to_string()]);
    assert_eq!(loc.proxy_pass, "http://localhost:42069/");
    assert_eq!(loc.directives.len(), 6);
    assert_eq!(loc.directives[0], ("proxy_set_header".to_string(), "Host $host".to_string()));
    assert_eq!(
        loc.directives[5],
        ("proxy_set_header".to_string(), "X-Scheme $scheme".to_string())
    );
}

#[test]
fn nginx_default_renders_exactly() {
    let cfg = NginxConfig::default();
    assert_eq!(cfg.to_text(), "server {\n  listen 80;\n  server_name ;\n}\n");
}

#[test]
fn nginx_render_then_parse_recovers_the_server_block() {
    let cfg = NginxConfig {
        file_location: "dump/hello.vhost".to_string(),
        listen: 42069,
        server_name: "mysite.com".to_string(),
        access_log: None,
        location: vec![NginxLocation::new()],
    };
    let text = cfg.to_text();
    let parsed = NginxConfig::parse(&text).expect("rendered vhost parses");
    assert_eq!(parsed.listen, 42069);
    assert_eq!(parsed.server_name, "mysite.com");
    assert_eq!(parsed.location.len(), 1);
    let loc = &parsed.location[0];
    assert_eq!(loc.paths, vec!["/".to_string()]);
    assert_eq!(loc.proxy_pass, "http://localhost:42069/");
    // The line parser keeps a directive's closing separator in its value.
    assert_eq!(loc.directives[0], ("proxy_set_header".to_string(), "Host $host;".to_string()));
}

#[test]
fn nginx_parse_reads_listen_server_name_and_access_log() {
    let text = "server {\n  listen 8080;\n  server_name example.org;\n  access_log /var/log/x;\n}\n";
    let cfg = NginxConfig::parse(text).expect("vhost parses");
    assert_eq!(cfg.listen, 8080);
    assert_eq!(cfg.server_name, "example.org");
    assert_eq!(cfg.access_log, Some("/var/log/x".to_string()));
    assert!(cfg.location.is_empty());
}

#[test]
fn nginx_parse_rejects_bad_listen_port() {
    let text = "server {\n  listen eighty;\n}\n";
    let err = NginxConfig::parse(text).unwrap_err();
    match err {
        piteria::error::PiteriaError::NginxParse(m) => {
            assert_eq!(m, "Invalid `listen` port value: eighty");
        },
        other => panic!("expected a parse failure, got {:?}", other),
    }
}

#[test]
fn nginx_parse_rejects_empty_proxy_pass() {
    let text = "server {\n  location / {\n    proxy_pass ;\n  }\n}\n";
    let err = NginxConfig::parse(text).unwrap_err();
    match err {
        piteria::error::PiteriaError::NginxParse(m) => {
            assert_eq!(m, "Invalid proxy_pass at: proxy_pass ;");
        },
        other => panic!("expected a parse failure, got {:?}", other),
    }
}

#[test]
fn nginx_parse_rejects_bare_location_directive() {
    let text = "server {\n  location / {\n    standalone\n  }\n}\n";
    let err = NginxConfig::parse(text).unwrap_err();
    match err {
        piteria::error::PiteriaError::NginxParse(m) => {
            assert_eq!(m, "Invalid location directive at: standalone");
        },
        other => panic!("expected a parse failure, got {:?}", other),
    }
}

#[test]
fn nginx_parse_unclosed_location_is_dropped() {
    let text = "server {\n  location / {\n    proxy_pass http://x;\n";
    let cfg = NginxConfig::parse(text).expect("parses");
    assert!(cfg.location.is_empty());
}

#[test]
fn nginx_parse_multiple_location_paths() {
    let text = "server {\n  location /a /b {\n    proxy_pass http://x;\n  }\n}\n";
    let cfg = NginxConfig::parse(text).expect("parses");
    assert_eq!(cfg.location[0].paths, vec!["/a".to_string(), "/b".to_string()]);
    assert_eq!(cfg.location[0].proxy_pass, "http://x");
}

#[test]
fn typed_systemd_renders_each_field_on_its_line() {
    let cfg = piteria::systemd::SystemdConfig {
        file_location: "/etc/systemd/system/app.service".to_string(),
        unit: piteria::systemd::SysdUnitConfig { description: "An app".to_string() },
        service: piteria::systemd::SysdServiceConfig {
            exec_start: "/usr/bin/app".to_string(),
            restart: piteria::systemd::RestartOption::OnFailure,
            user: "app".to_string(),
            group: "app".to_string(),
            env: pairs(&[("PORT", "8080")]),
            dir: "/srv/app".to_string(),
        },
        install: piteria::systemd::SysdInstallConfig::default(),
    };
    let expected = "[Unit]\n\
                    Description=An app\n\
                    \n\
                    [Service]\n\
                    ExecStart=/usr/bin/app\n\
                    Restart=on-failure\n\
                    User=app\n\
                    Group=app\n\
                    Environment=PORT=8080\n\
                    WorkingDirectory=/srv/app\n\
                    \n\
                    [Install]\n\
                    WantedBy=multi-user.target\n\
                    \n";
    assert_eq!(cfg.to_text(), expected);
}

#[test]
fn typed_systemd_parses_back_through_the_general_format() {
    let cfg = piteria::systemd::SystemdConfig {
        file_location: "dump/app.service".to_string(),
        unit: piteria::systemd::SysdUnitConfig { description: "Round".to_string() },
        service: piteria::systemd::SysdServiceConfig {
            exec_start: "/usr/bin/round".to_string(),
            restart: piteria::systemd::RestartOption::Always,
            user: "root".to_string(),
            group: "root".to_string(),
            env: Vec::new(),
            dir: "/".to_string(),
        },
        install: piteria::systemd::SysdInstallConfig::default(),
    };
    let reparsed = SystemdConfig::parse(&cfg.to_text());
    assert_eq!(reparsed.unit.params, pairs(&[("Description", "Round")]));
    let sp = reparsed.service.params();
    assert!(sp.contains(&("ExecStart".to_string(), "/usr/bin/round".to_string())));
    assert!(sp.contains(&("WorkingDirectory".to_string(), "/".to_string())));
}

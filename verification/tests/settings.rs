use graft::cli::{exec_session, forwards};
use graft::config::{config_path, Config, Injectable};
use graft::forward::PortForward;
use graft::invocation::Failure;

#[test]
fn missing_config_uses_defaults() {
    let c = Config::load(None, &None).unwrap();
    assert!(c.inject.is_empty());
    assert_eq!(c.session.shell, "/bin/bash");
    assert_eq!(c.session.multiplexer, "tmux");
    assert_eq!(c.git.safe_directories, vec!["*".to_string()]);
    assert!(c.aliases.is_empty());
}

#[test]
fn broken_config_is_told() {
    let f = || Failure::Message("parsing graft config".to_string());
    assert_eq!(Config::load(Some(Err(f())), &None), Err(f()));
}

#[test]
fn local_paths_start_at_the_users_home() {
    let with = |config: &str| Config {
        inject: vec![Injectable {
            name: "nvim".to_string(),
            binary: Some("/usr/local/bin/nvim".to_string()),
            config: Some(config.to_string()),
            target_binary: None,
            target_config: Some("~/.config/nvim".to_string()),
            skip_if_exists: false,
            copy_deps: true,
        }],
        ..Config::default()
    };
    let home = Some("/home/me/".to_string());
    let read = |config: &str| Config::load(Some(Ok(with(config))), &home);
    assert_eq!(read("~/.config/nvim"), Ok(with("/home/me/.config/nvim")));
    assert_eq!(read("/etc/nvim"), Ok(with("/etc/nvim")));
    assert_eq!(
        Config::load(Some(Ok(with("~/.config/nvim"))), &None),
        Ok(with("~/.config/nvim"))
    );
}

#[test]
fn config_stands_under_the_configuration_directory() {
    assert_eq!(config_path(&Some("/home/me/.config".to_string())), "/home/me/.config/graft/config.toml");
    assert_eq!(config_path(&None), "~/.config/graft/config.toml");
}

#[test]
fn serialized_forwards_are_read_back() {
    let ports = vec!["80:80".to_string(), "junk".to_string(), "1:db:2".to_string()];
    assert_eq!(
        forwards(&ports),
        vec![
            PortForward::same(80),
            PortForward { local: 1, host: Some("db".to_string()), port: 2 }
        ]
    );
    assert_eq!(exec_session("box"), "graft-box");
}

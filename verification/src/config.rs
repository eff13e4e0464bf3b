//! The user's configuration.
use vstd::prelude::*;

use crate::inject;
use crate::inject::resolve_home;
use crate::invocation::{args1, Failure};
use crate::path;

verus! {

/// The user's configuration.
#[derive(Debug, PartialEq, Eq)]
pub struct Config {
    pub inject: Vec<Injectable>,
    pub session: SessionConfig,
    pub git: GitConfig,
    /// Aliases by name; no name occurs twice.
    pub aliases: Vec<(String, String)>,
}

/// A tool to bring into containers.
#[derive(Debug, PartialEq, Eq)]
pub struct Injectable {
    pub name: String,
    /// Local path to the binary to copy in; a leading `~` is the user's home
    pub binary: Option<String>,
    /// Local config directory/file to copy in; a leading `~` is the user's home
    pub config: Option<String>,
    /// Where to place the binary inside the container
    pub target_binary: Option<String>,
    /// Where to place the config inside the container
    pub target_config: Option<String>,
    /// If true, skip injecting the binary/config when it already exists in the
    /// container. Set false to refresh it on every graft (e.g. an evolving
    /// editor config); leave true for large stable trees (plugins, runtime).
    pub skip_if_exists: bool,
    /// Copy shared library dependencies discovered via ldd (skips libs already
    /// present)
    pub copy_deps: bool,
}

/// How the interactive session is opened.
#[derive(Debug, PartialEq, Eq)]
pub struct SessionConfig {
    /// Shell to launch inside the container
    pub shell: String,
    /// Terminal multiplexer to wrap the session in: "tmux" or "none"
    /// ("none" execs straight into the container with no multiplexer).
    pub multiplexer: String,
}

/// What git is told inside the container.
#[derive(Debug, PartialEq, Eq)]
pub struct GitConfig {
    /// Directories to register as git `safe.directory` inside the container.
    /// Injected plugins and the mounted workspace are owned by the host user but
    /// git runs as root in the container, so without this git refuses them with
    /// "detected dubious ownership" and plugins/repos fail to load. Defaults to
    /// `["*"]` (trust all); set to `[]` to disable.
    pub safe_directories: Vec<String>,
}

/// The shell that is launched unless another is set.
pub fn default_shell() -> (r: String)
    ensures
        r@ == "/bin/bash"@,
{
    "/bin/bash".to_string()
}

/// The multiplexer that is used unless another is set.
pub fn default_multiplexer() -> (r: String)
    ensures
        r@ == "tmux"@,
{
    "tmux".to_string()
}

/// The directories that git trusts unless others are set: all.
pub fn default_safe_directories() -> (r: Vec<String>)
    ensures
        r.deep_view() == seq!["*"@],
{
    args1("*")
}

/// What the switches of an injectable are unless they are set.
pub fn default_true() -> (r: bool)
    ensures
        r,
{
    true
}

impl Default for SessionConfig {
    fn default() -> (r: Self)
        ensures
            r.shell@ == "/bin/bash"@,
            r.multiplexer@ == "tmux"@,
    {
        SessionConfig { shell: default_shell(), multiplexer: default_multiplexer() }
    }
}

impl Default for GitConfig {
    fn default() -> (r: Self)
        ensures
            r.safe_directories.deep_view() == seq!["*"@],
    {
        GitConfig { safe_directories: default_safe_directories() }
    }
}

impl Default for Config {
    fn default() -> (r: Self)
        ensures
            r.inject@.len() == 0,
            r.session.shell@ == "/bin/bash"@,
            r.session.multiplexer@ == "tmux"@,
            r.git.safe_directories.deep_view() == seq!["*"@],
            r.aliases@.len() == 0,
    {
        Config {
            inject: Vec::new(),
            session: SessionConfig::default(),
            git: GitConfig::default(),
            aliases: Vec::new(),
        }
    }
}

/// A local path with a leading `~` replaced by the user's home directory, where
/// that is known.
pub open spec fn local_spec(p: Option<Seq<char>>, home: Option<Seq<char>>) -> Option<Seq<char>> {
    match (p, home) {
        (Some(p), Some(h)) => Some(inject::resolve_home_spec(p, h)),
        _ => p,
    }
}

/// `b` is `a` with its local paths in full.
pub open spec fn localized(a: Injectable, b: Injectable, home: Option<Seq<char>>) -> bool {
    &&& b.name == a.name
    &&& b.binary.deep_view() == local_spec(a.binary.deep_view(), home)
    &&& b.config.deep_view() == local_spec(a.config.deep_view(), home)
    &&& b.target_binary == a.target_binary
    &&& b.target_config == a.target_config
    &&& b.skip_if_exists == a.skip_if_exists
    &&& b.copy_deps == a.copy_deps
}

fn local(p: Option<String>, home: &Option<String>) -> (r: Option<String>)
    ensures
        r.deep_view() == local_spec(p.deep_view(), home.deep_view()),
{
    match (p, home) {
        (Some(p), Some(h)) => Some(resolve_home(p.as_str(), h.as_str())),
        (p, _) => p,
    }
}

impl Config {
    /// The configuration: what the file holds, with `~` in local paths expanded
    /// to the user's home directory, or the defaults where there is no file. A
    /// file that cannot be read or does not parse is a failure.
    pub fn load(file: Option<Result<Config, Failure>>, home: &Option<String>) -> (r: Result<
        Config,
        Failure,
    >)
        ensures
            match file {
                Some(Ok(c)) => r matches Ok(d) && {
                    &&& d.inject@.len() == c.inject@.len()
                    &&& forall|i: int|
                        0 <= i < c.inject@.len() ==> localized(
                            c.inject@[i],
                            #[trigger] d.inject@[i],
                            home.deep_view(),
                        )
                    &&& d.session == c.session
                    &&& d.git == c.git
                    &&& d.aliases == c.aliases
                },
                Some(Err(f)) => r == Err::<Config, Failure>(f),
                None => r matches Ok(c) && c.inject@.len() == 0 && c.aliases@.len() == 0
                    && c.session.shell@ == "/bin/bash"@ && c.session.multiplexer@ == "tmux"@
                    && c.git.safe_directories.deep_view() == seq!["*"@],
            },
    {
        match file {
            Some(Ok(c)) => {
                let ghost items = c.inject@;
                let mut found: Vec<Injectable> = Vec::new();
                for item in it: c.inject
                    invariant
                        it.seq() == items,
                        found@.len() == it.index(),
                        forall|i: int|
                            0 <= i < found@.len() ==> localized(
                                items[i],
                                #[trigger] found@[i],
                                home.deep_view(),
                            ),
                {
                    found.push(
                        Injectable {
                            name: item.name,
                            binary: local(item.binary, home),
                            config: local(item.config, home),
                            target_binary: item.target_binary,
                            target_config: item.target_config,
                            skip_if_exists: item.skip_if_exists,
                            copy_deps: item.copy_deps,
                        },
                    );
                }
                Ok(Config { inject: found, session: c.session, git: c.git, aliases: c.aliases })
            },
            Some(Err(f)) => Err(f),
            None => Ok(Config::default()),
        }
    }
}

/// Where the configuration stands, under the user's configuration directory.
pub fn config_path(config_dir: &Option<String>) -> (r: String)
    ensures
        r@ == path::join_spec(
            path::join_spec(
                match config_dir {
                    Some(d) => d@,
                    None => "~/.config"@,
                },
                "graft"@,
            ),
            "config.toml"@,
        ),
{
    let base = match config_dir {
        Some(d) => d.as_str(),
        None => "~/.config",
    };
    let dir = path::join(base, "graft");
    path::join(dir.as_str(), "config.toml")
}

} // verus!

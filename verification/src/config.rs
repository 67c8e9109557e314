//! Settings: what the command line asks for and what the configuration file says.

use vstd::prelude::*;
use vstd::string::*;

use crate::text::{decimal, decimal_text, join_path, joined_path, opt_text};

verus! {

/// Where the daemon listens unless it is told otherwise.
pub const DEFAULT_ADDR: &'static str = "127.0.0.1:27631";

/// What the configuration file says of one project.
pub struct ProjectConfig {
    pub lsp_server_path: Option<String>,
}

impl Clone for ProjectConfig {
    fn clone(&self) -> (copy: Self)
        ensures
            opt_text(copy.lsp_server_path) == opt_text(self.lsp_server_path),
    {
        ProjectConfig {
            lsp_server_path: match &self.lsp_server_path {
                Some(path) => Some(path.clone()),
                None => None,
            },
        }
    }
}

/// A project directory and the language server that it asks for, if it asks for one.
pub type OverrideView = (Seq<char>, Option<Seq<char>>);

pub open spec fn overrides_view(overrides: Seq<(String, ProjectConfig)>) -> Seq<OverrideView> {
    overrides.map_values(
        |entry: (String, ProjectConfig)| (entry.0@, opt_text(entry.1.lsp_server_path)),
    )
}

/// Whether no project is named twice.
pub open spec fn names_differ(overrides: Seq<OverrideView>) -> bool {
    forall|i: int, j: int|
        0 <= i < j < overrides.len() ==> (#[trigger] overrides[i]).0 != (#[trigger] overrides[j]).0
}

/// The settings of the daemon. Times are in seconds; no project is named twice.
pub struct RadConfig {
    pub lsp_server_path: Option<String>,
    pub path_prepend: Vec<String>,
    pub projects: Vec<(String, ProjectConfig)>,
    pub instance_timeout: u64,
    pub gc_interval: u64,
    pub listen: (String, u16),
}

pub struct ConfigView {
    pub lsp_server_path: Option<Seq<char>>,
    pub path_prepend: Seq<Seq<char>>,
    pub projects: Seq<OverrideView>,
    pub instance_timeout: u64,
    pub gc_interval: u64,
    pub listen: (Seq<char>, u16),
}

impl View for RadConfig {
    type V = ConfigView;

    open spec fn view(&self) -> ConfigView {
        ConfigView {
            lsp_server_path: opt_text(self.lsp_server_path),
            path_prepend: self.path_prepend@.map_values(|path: String| path@),
            projects: overrides_view(self.projects@),
            instance_timeout: self.instance_timeout,
            gc_interval: self.gc_interval,
            listen: (self.listen.0@, self.listen.1),
        }
    }
}

impl ConfigView {
    pub open spec fn well_formed(self) -> bool {
        names_differ(self.projects)
    }

    /// The settings that hold where nothing is said.
    pub open spec fn initial() -> ConfigView {
        ConfigView {
            lsp_server_path: None,
            path_prepend: Seq::empty(),
            projects: Seq::empty(),
            instance_timeout: 300,
            gc_interval: 30,
            listen: ("127.0.0.1"@, 27631),
        }
    }

    pub open spec fn listen_addr(self) -> Seq<char> {
        self.listen.0 + ":"@ + decimal(self.listen.1 as nat)
    }
}

/// Seconds without use after which an instance ends.
pub fn default_instance_timeout() -> (secs: u64)
    ensures
        secs == 300,
{
    300
}

/// Seconds between two looks for instances to end.
pub fn default_gc_interval() -> (secs: u64)
    ensures
        secs == 30,
{
    30
}

/// Host and port to listen on.
pub fn default_listen() -> (listen: (String, u16))
    ensures
        listen.0@ == "127.0.0.1"@,
        listen.1 == 27631,
{
    ("127.0.0.1".to_string(), 27631)
}

impl Default for RadConfig {
    fn default() -> (config: Self)
        ensures
            config@ == ConfigView::initial(),
            config@.well_formed(),
    {
        let config = RadConfig {
            lsp_server_path: None,
            path_prepend: Vec::new(),
            projects: Vec::new(),
            instance_timeout: default_instance_timeout(),
            gc_interval: default_gc_interval(),
            listen: default_listen(),
        };
        assert(config@.path_prepend =~= Seq::empty());
        assert(config@.projects =~= Seq::empty());
        config
    }
}

impl RadConfig {
    /// The address to listen on, as `host:port`.
    pub fn listen_addr(&self) -> (addr: String)
        ensures
            addr@ == self@.listen_addr(),
    {
        self.listen.0.clone().concat(":").concat(decimal_text(self.listen.1 as u64).as_str())
    }
}

/// What the program is to do.
#[derive(Debug, PartialEq, Eq)]
pub enum Mode {
    /// Run the daemon.
    Server,
    /// Tie an editor to the daemon.
    Client,
    /// Show the instances.
    Status,
    /// End the instances that are not in use, or all of them.
    Clean { force: bool },
    /// Keep an instance from ending while it is not in use, or no longer.
    Pin { pid: u32, remove: bool },
}

/// What the command line asks for.
pub struct Args {
    pub mode: Option<Mode>,
    pub config_path: String,
}

/// The configuration file to read where none is given, from the variables `XDG_CONFIG_HOME` and
/// `HOME`.
pub open spec fn config_path_of(xdg_config_home: Option<Seq<char>>, home: Option<Seq<char>>) -> Seq<
    char,
> {
    match xdg_config_home {
        Some(dir) => joined_path(joined_path(dir, "rad"@), "rad.toml"@),
        None => match home {
            Some(dir) => joined_path(
                joined_path(joined_path(dir, ".config"@), "rad"@),
                "rad.toml"@,
            ),
            None => "rad.toml"@,
        },
    }
}

/// The configuration file to read where none is given.
pub fn default_config_path(xdg_config_home: Option<String>, home: Option<String>) -> (path: String)
    ensures
        path@ == config_path_of(opt_text(xdg_config_home), opt_text(home)),
{
    if let Some(dir) = xdg_config_home {
        return join_path(join_path(dir.as_str(), "rad").as_str(), "rad.toml");
    }
    if let Some(dir) = home {
        let config = join_path(dir.as_str(), ".config");
        return join_path(join_path(config.as_str(), "rad").as_str(), "rad.toml");
    }
    "rad.toml".to_string()
}

/// What the help says of the option that names the configuration file.
pub fn config_file_help(default_path: &str) -> (help: String)
    ensures
        help@ == "Path to config file (default: "@ + default_path@ + ")"@,
{
    "Path to config file (default: ".to_string().concat(default_path).concat(")")
}

impl Args {
    /// The arguments, with the configuration file filled in where none is given.
    pub fn new(mode: Option<Mode>, config_path: Option<String>, default_path: String) -> (args: Self)
        ensures
            args.mode == mode,
            args.config_path@ == match config_path {
                Some(path) => path@,
                None => default_path@,
            },
    {
        let config_path = match config_path {
            Some(path) => path,
            None => default_path,
        };
        Args { mode, config_path }
    }
}

/// What came of reading the configuration file.
pub enum ConfigFile {
    /// There is none.
    Missing,
    /// It could not be read.
    Unreadable { reason: String },
    /// It does not hold settings.
    Invalid { reason: String },
    Loaded { config: RadConfig },
}

impl ConfigFile {
    /// The settings that hold.
    pub open spec fn settings(self) -> ConfigView {
        match self {
            ConfigFile::Loaded { config } => config@,
            _ => ConfigView::initial(),
        }
    }

    /// What the user is told of a file that could not be used.
    pub open spec fn complaint(self, path: Seq<char>) -> Option<Seq<char>> {
        match self {
            ConfigFile::Unreadable { reason } => Some(
                "failed to read config file "@ + path + ": "@ + reason@ + ", using defaults"@,
            ),
            ConfigFile::Invalid { reason } => Some(
                "failed to parse config file "@ + path + ": "@ + reason@ + ", using defaults"@,
            ),
            _ => None,
        }
    }
}

/// The settings that hold, and what the user is told where the file could not be used.
pub fn load_config(path: &str, file: ConfigFile) -> (loaded: (RadConfig, Option<String>))
    ensures
        loaded.0@ == file.settings(),
        opt_text(loaded.1) == file.complaint(path@),
        (file matches ConfigFile::Loaded { config } ==> config@.well_formed())
            ==> loaded.0@.well_formed(),
{
    match file {
        ConfigFile::Loaded { config } => (config, None),
        ConfigFile::Missing => (RadConfig::default(), None),
        ConfigFile::Unreadable { reason } => {
            let complaint = "failed to read config file ".to_string().concat(path).concat(
                ": ",
            ).concat(reason.as_str()).concat(", using defaults");
            (RadConfig::default(), Some(complaint))
        },
        ConfigFile::Invalid { reason } => {
            let complaint = "failed to parse config file ".to_string().concat(path).concat(
                ": ",
            ).concat(reason.as_str()).concat(", using defaults");
            (RadConfig::default(), Some(complaint))
        },
    }
}

/// The configuration file is looked for below the directory for configurations where that is known,
/// whatever the home directory, else below the home directory, else where the program runs.
pub proof fn law_config_file_has_its_place(dir: Seq<char>, home: Option<Seq<char>>)
    requires
        dir.len() > 0,
        dir.last() != '/',
    ensures
        config_path_of(Some(dir), home) == dir + "/rad/rad.toml"@,
        config_path_of(None, Some(dir)) == dir + "/.config/rad/rad.toml"@,
        config_path_of(None, None) == "rad.toml"@,
        config_path_of(Some(dir + "/"@), home) == config_path_of(Some(dir), home),
        config_path_of(None, Some(dir + "/"@)) == config_path_of(None, Some(dir)),
{
    reveal_strlit("/");
    reveal_strlit("rad");
    reveal_strlit(".config");
    reveal_strlit("rad.toml");
    reveal_strlit("/rad/rad.toml");
    reveal_strlit("/.config/rad/rad.toml");
    assert("rad"@.last() == 'd');
    assert(".config"@.last() == 'g');
    let below = dir + "/"@ + "rad"@;
    assert(below.last() == 'd');
    assert(below + "/"@ + "rad.toml"@ =~= dir + "/rad/rad.toml"@);
    let config = dir + "/"@ + ".config"@;
    assert(config.last() == 'g');
    let inner = config + "/"@ + "rad"@;
    assert(inner.last() == 'd');
    assert(inner + "/"@ + "rad.toml"@ =~= dir + "/.config/rad/rad.toml"@);
    assert((dir + "/"@).last() == '/');
}

/// The address to listen on is the host, a colon and the port in decimal notation.
pub proof fn law_address_is_host_and_port(config: ConfigView)
    ensures
        ({
            let (host, addr) = (config.listen.0, config.listen_addr());
            &&& addr.take(host.len() as int) == host
            &&& addr[host.len() as int] == ':'
            &&& addr.skip(host.len() as int + 1) == decimal(config.listen.1 as nat)
        }),
{
    reveal_strlit(":");
    let (host, addr) = (config.listen.0, config.listen_addr());
    assert(addr.take(host.len() as int) =~= host);
    assert(addr.skip(host.len() as int + 1) =~= decimal(config.listen.1 as nat));
}

/// The settings that hold are those of the file where it could be used, and else the initial ones,
/// the same for every reason; the user is told of the file and the reason unless there is just no
/// file.
pub proof fn law_file_is_used_or_told_of(config: RadConfig, reason: String, path: Seq<char>)
    ensures
        ({
            let loaded = ConfigFile::Loaded { config };
            let unreadable = ConfigFile::Unreadable { reason };
            let invalid = ConfigFile::Invalid { reason };
            &&& loaded.settings() == config@
            &&& loaded.complaint(path) is None
            &&& ConfigFile::Missing.complaint(path) is None
            &&& unreadable.settings() == ConfigFile::Missing.settings()
            &&& invalid.settings() == ConfigFile::Missing.settings()
            &&& unreadable.complaint(path) == Some(
                "failed to read config file "@ + path + ": "@ + reason@ + ", using defaults"@,
            )
            &&& invalid.complaint(path) == Some(
                "failed to parse config file "@ + path + ": "@ + reason@ + ", using defaults"@,
            )
        }),
{
}

/// Where nothing is said, no language server and no project is set, and nothing stands before the
/// search path.
pub proof fn law_initial_settings_name_nothing(file: ConfigFile)
    requires
        !(file is Loaded),
    ensures
        file.settings().lsp_server_path is None,
        file.settings().path_prepend.len() == 0,
        file.settings().projects.len() == 0,
        file.settings().instance_timeout == 300,
        file.settings().gc_interval == 30,
        file.settings().listen_addr() == "127.0.0.1:27631"@,
{
    reveal_strlit("127.0.0.1");
    reveal_strlit(":");
    reveal_strlit("127.0.0.1:27631");
    reveal_with_fuel(decimal, 6);
    assert(decimal(27631) =~= seq!['2', '7', '6', '3', '1']);
    assert(file.settings().listen_addr() =~= "127.0.0.1:27631"@);
}

} // verus!

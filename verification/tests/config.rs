use rad::config::{
    config_file_help, default_config_path, load_config, Args, ConfigFile, Mode, ProjectConfig,
    RadConfig,
};
use rad::logging::{default_client_options, default_server_options, LogKind, LoggingOptions};

fn text(value: &str) -> Option<String> {
    Some(value.to_string())
}

#[test]
fn default_settings() {
    let config = RadConfig::default();
    assert!(config.lsp_server_path.is_none());
    assert!(config.path_prepend.is_empty());
    assert!(config.projects.is_empty());
    assert_eq!(300, config.instance_timeout);
    assert_eq!(30, config.gc_interval);
    assert_eq!(("127.0.0.1".to_string(), 27631), config.listen);
    assert_eq!("127.0.0.1:27631", config.listen_addr());
}

#[test]
fn listen_addr_joins_host_and_port() {
    let config = RadConfig {
        listen: ("::1".to_string(), 0),
        ..RadConfig::default()
    };
    assert_eq!("::1:0", config.listen_addr());
    let config = RadConfig {
        listen: ("localhost".to_string(), 65535),
        ..RadConfig::default()
    };
    assert_eq!("localhost:65535", config.listen_addr());
}

#[test]
fn config_path_follows_the_environment() {
    assert_eq!(
        "/xdg/rad/rad.toml",
        default_config_path(text("/xdg"), text("/home/user"))
    );
    assert_eq!(
        "/home/user/.config/rad/rad.toml",
        default_config_path(None, text("/home/user"))
    );
    assert_eq!("rad.toml", default_config_path(None, None));
    assert_eq!("/rad/rad.toml", default_config_path(text("/"), None));
    assert_eq!("rad/rad.toml", default_config_path(text(""), text("/h")));
}

#[test]
fn config_path_is_joined_as_std_joins_paths() {
    for dir in ["", "/", "/a", "/a/", "a//", "\u{e9}"] {
        let mut expected = std::path::PathBuf::from(dir);
        expected.push("rad");
        expected.push("rad.toml");
        assert_eq!(
            expected.to_str(),
            Some(default_config_path(text(dir), None).as_str())
        );
    }
}

#[test]
fn help_names_the_default_file() {
    assert_eq!(
        "Path to config file (default: /c/rad.toml)",
        config_file_help("/c/rad.toml")
    );
}

#[test]
fn given_config_path_wins() {
    let args = Args::new(Some(Mode::Server), text("/tmp/rad.toml"), "/d".to_string());
    assert_eq!(Some(Mode::Server), args.mode);
    assert_eq!("/tmp/rad.toml", args.config_path);
    let args = Args::new(None, None, "/d".to_string());
    assert_eq!(None, args.mode);
    assert_eq!("/d", args.config_path);
}

#[test]
fn unusable_config_file_gives_defaults() {
    let (config, complaint) = load_config("/c", ConfigFile::Missing);
    assert_eq!(300, config.instance_timeout);
    assert_eq!(None, complaint);

    let (config, complaint) = load_config(
        "/c",
        ConfigFile::Unreadable {
            reason: "denied".to_string(),
        },
    );
    assert_eq!(30, config.gc_interval);
    assert_eq!(
        text("failed to read config file /c: denied, using defaults"),
        complaint
    );

    let (config, complaint) = load_config(
        "/c",
        ConfigFile::Invalid {
            reason: "bad".to_string(),
        },
    );
    assert_eq!("127.0.0.1:27631", config.listen_addr());
    assert_eq!(
        text("failed to parse config file /c: bad, using defaults"),
        complaint
    );
}

#[test]
fn usable_config_file_is_taken() {
    let (config, complaint) = load_config(
        "/c",
        ConfigFile::Loaded {
            config: RadConfig {
                instance_timeout: 7,
                projects: vec![(
                    "/p".to_string(),
                    ProjectConfig {
                        lsp_server_path: text("ra"),
                    }
                    .clone(),
                )],
                ..RadConfig::default()
            },
        },
    );
    assert_eq!(7, config.instance_timeout);
    assert_eq!("/p", config.projects[0].0);
    assert_eq!(text("ra"), config.projects[0].1.lsp_server_path);
    assert_eq!(None, complaint);
}

#[test]
fn logs_have_their_places() {
    let server = default_server_options();
    assert_eq!("/tmp/rad", server.dir);
    assert_eq!("info", server.level);
    assert_eq!("/tmp/rad/server.log", server.file_path(42));

    let client = default_client_options();
    assert_eq!("/tmp/rad", client.dir);
    assert_eq!("info", client.level);
    assert_eq!("/tmp/rad/client-42/rad.log", client.file_path(42));

    let other = LoggingOptions {
        dir: "/var/log/".to_string(),
        level: "debug".to_string(),
        kind: LogKind::Server,
    };
    assert_eq!("/var/log/server.log", other.file_path(0));
}

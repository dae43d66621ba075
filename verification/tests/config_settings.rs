use shvl::config::{
    config_location, dir_file_location, get_config, stored_dir_path, Config, PartialConfig,
};
use shvl::utils::{get_base_dir, CommandContext};

#[test]
fn with_dir_flag() {
    let base_dir = "/tmp/shvl-test-base".to_owned();

    let ctx = CommandContext {
        base_dir: Some(base_dir.clone()),
        verbose_log: None,
        config_path: None,
    };

    let config = PartialConfig::from(ctx);

    assert!(config.base_dir == Some(base_dir));
    assert!(config.verbose == None);
}

#[test]
fn without_dir_flag() {
    let ctx = CommandContext {
        base_dir: None,
        verbose_log: Some(false),
        config_path: None,
    };

    let config = PartialConfig::from(ctx);

    assert!(config.base_dir == None);
    assert!(config.verbose == Some(false));
}

#[test]
fn merge() {
    let c1 = PartialConfig {
        base_dir: None,
        verbose: Some(true),
    };

    let c2 = PartialConfig {
        base_dir: Some("foo".to_owned()),
        verbose: Some(false),
    };

    let config = c1.merge(c2);

    assert!(config.base_dir == Some("foo".to_owned()));
    assert!(config.verbose == Some(true));
}

#[test]
fn merge_option() {
    let c1 = PartialConfig {
        base_dir: None,
        verbose: Some(true),
    };

    let c2 = Some(PartialConfig {
        base_dir: Some("foo".to_owned()),
        verbose: Some(false),
    });

    let config = c1.merge_option(c2);

    assert!(config.base_dir == Some("foo".to_owned()));
    assert!(config.verbose == Some(true));
}

#[test]
fn merge_option_none_keeps_self() {
    let c1 = PartialConfig { base_dir: Some("a".to_owned()), verbose: None };
    let config = c1.merge_option(None);
    assert_eq!(config.base_dir, Some("a".to_owned()));
    assert_eq!(config.verbose, None);
}

#[test]
fn merge_default_fills_defaults() {
    let config = PartialConfig { base_dir: None, verbose: None }.merge_default();
    assert_eq!(config.base_dir, "/etc/nixos/.shvl");
    assert!(!config.verbose);
    let config = PartialConfig { base_dir: Some("x".to_owned()), verbose: Some(true) }.merge_default();
    assert_eq!(config.base_dir, "x");
    assert!(config.verbose);
}

#[test]
fn test_get_config() {
    let from_file = PartialConfig {
        base_dir: Some("foobar".to_owned()),
        verbose: Some(false),
    };

    let ctx = CommandContext {
        base_dir: None,
        verbose_log: None,
        config_path: Some("config.json".to_owned()),
    };

    let config = get_config(ctx, Some(from_file), None);

    assert!(config.base_dir == "foobar");
    assert!(config.verbose == false);
}

#[test]
fn command_line_wins_over_file() {
    let from_file = PartialConfig { base_dir: Some("file".to_owned()), verbose: Some(false) };
    let ctx = CommandContext { base_dir: Some("flag".to_owned()), verbose_log: Some(true), config_path: None };
    let config = get_config(ctx, Some(from_file), None);
    assert_eq!(config.base_dir, "flag");
    assert!(config.verbose);

    let ctx = CommandContext { base_dir: None, verbose_log: None, config_path: None };
    let config = get_config(ctx, None, None);
    assert_eq!(config.base_dir, "/etc/nixos/.shvl");
    assert!(!config.verbose);
}

#[test]
fn utils_basic() {
    let config = Config { base_dir: "/some/dir".to_owned(), verbose: false };

    let path = get_base_dir(config);

    assert_eq!(path, "/some/dir");
}

fn partial(base_dir: Option<&str>, verbose: Option<bool>) -> PartialConfig {
    PartialConfig { base_dir: base_dir.map(|d| d.to_owned()), verbose }
}

#[test]
fn merge_is_associative() {
    let a = || partial(None, Some(true));
    let b = || partial(Some("b"), None);
    let c = || partial(Some("c"), Some(false));
    let left = a().merge(b()).merge(c());
    let right = a().merge(b().merge(c()));
    assert_eq!(left.base_dir, right.base_dir);
    assert_eq!(left.verbose, right.verbose);
    assert_eq!(left.base_dir, Some("b".to_owned()));
    assert_eq!(left.verbose, Some(true));
}

#[test]
fn merge_with_unset_changes_nothing() {
    let merged = partial(Some("a"), Some(false)).merge(partial(None, None));
    assert_eq!(merged.base_dir, Some("a".to_owned()));
    assert_eq!(merged.verbose, Some(false));
    let merged = partial(None, None).merge(partial(Some("a"), Some(false)));
    assert_eq!(merged.base_dir, Some("a".to_owned()));
    assert_eq!(merged.verbose, Some(false));
}

#[test]
fn config_file_location() {
    assert_eq!(
        config_location(Some("/x/config.json".to_owned()), Some("/home/u".to_owned())),
        Some("/x/config.json".to_owned())
    );
    assert_eq!(
        config_location(None, Some("/home/u".to_owned())),
        Some("/home/u/.local/share/shvl/config.json".to_owned())
    );
    assert_eq!(
        config_location(None, Some("/home/u/".to_owned())),
        Some("/home/u/.local/share/shvl/config.json".to_owned())
    );
    assert_eq!(config_location(None, None), None);
}

#[test]
fn stored_dir_comes_after_the_flag() {
    let stored = || Some("q".to_owned());

    // no --dir, no --config: the stored directory wins over the default
    let ctx = CommandContext { base_dir: None, verbose_log: None, config_path: None };
    assert_eq!(get_config(ctx, None, stored()).base_dir, "q");

    // and over the config file found under the home directory
    let ctx = CommandContext { base_dir: None, verbose_log: None, config_path: None };
    let home_file = PartialConfig { base_dir: Some("from-home-file".to_owned()), verbose: Some(true) };
    let config = get_config(ctx, Some(home_file), stored());
    assert_eq!(config.base_dir, "q");
    assert!(config.verbose);

    // the --dir flag wins over it
    let ctx = CommandContext { base_dir: Some("flag".to_owned()), verbose_log: None, config_path: None };
    assert_eq!(get_config(ctx, None, stored()).base_dir, "flag");

    // and over a config file named by --config
    let ctx = CommandContext {
        base_dir: None,
        verbose_log: None,
        config_path: Some("config.json".to_owned()),
    };
    let named = PartialConfig { base_dir: Some("a".to_owned()), verbose: Some(true) };
    let config = get_config(ctx, Some(named), stored());
    assert_eq!(config.base_dir, "q");
    assert!(config.verbose);

    // a named config file without a base directory changes nothing either
    let ctx = CommandContext {
        base_dir: None,
        verbose_log: None,
        config_path: Some("config.json".to_owned()),
    };
    let named = PartialConfig { base_dir: None, verbose: None };
    assert_eq!(get_config(ctx, Some(named), stored()).base_dir, "q");
}

#[test]
fn dir_file_location_under_home() {
    assert_eq!(
        dir_file_location(Some("/home/u".to_owned())),
        Some("/home/u/.local/share/shvl/dir".to_owned())
    );
    assert_eq!(dir_file_location(None), None);
}

#[test]
fn stored_dir_text() {
    assert_eq!(stored_dir_path("q"), Some("q".to_owned()));
    assert_eq!(stored_dir_path("/srv/shvl\n"), Some("/srv/shvl".to_owned()));
    assert_eq!(stored_dir_path("/srv/shvl\r\n\n"), Some("/srv/shvl".to_owned()));
    assert_eq!(stored_dir_path("a b \n"), Some("a b ".to_owned()));
    assert_eq!(stored_dir_path(""), None);
    assert_eq!(stored_dir_path("\n"), None);
}

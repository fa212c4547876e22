use wrapt::config::{
    describe, home_from_passwd, invoked_by, is_trusted, machine_config_path, refuse, trusted_owner,
    union, user_config_path, validate, write_template, Config, FileState, Source, TEMPLATE,
};

/// A configuration written in TOML, read key by key.
fn config(text: &str) -> Config {
    let table: toml::Table = text.parse().unwrap();
    let number = |key: &str| table.get(key).and_then(|v| v.as_integer()).map(|n| n as usize);
    let switch = |key: &str| table.get(key).and_then(|v| v.as_bool());
    let word = |key: &str| table.get(key).and_then(|v| v.as_str()).map(|s| s.to_string());
    Config {
        parallel: number("parallel"),
        assume_yes: switch("assume_yes"),
        verbose: switch("verbose"),
        color: word("color"),
        repo: word("repo"),
        notify_updates: switch("notify_updates"),
        never_restart: table.get("never_restart").and_then(|v| v.as_array()).map(|v| {
            v.iter().map(|s| s.as_str().unwrap().to_string()).collect()
        }),
        restart: word("restart"),
        keep_kernels: number("keep_kernels"),
        mirror_country: word("mirror_country"),
        history_limit: number("history_limit"),
    }
}

#[test]
fn user_layer_overrides_system_key_by_key() {
    let system = config("parallel = 8\nkeep_kernels = 4\nrestart = \"auto\"\n");
    let user = config("keep_kernels = 2\n");
    let merged = Config::merge(system, user);
    // Overridden by the user.
    assert_eq!(merged.keep_kernels, Some(2));
    // Untouched by the user, so the system value survives.
    assert_eq!(merged.parallel, Some(8));
    assert_eq!(merged.restart.as_deref(), Some("auto"));
    // Set by neither: still unset, for the built-in default to fill.
    assert_eq!(merged.mirror_country, None);
}

#[test]
fn never_restart_unions_both_layers() {
    // A user adding to the list must not silently drop what the machine
    // protects — the merge can only ever protect more, never less.
    let system = config("never_restart = [\"docker\"]\n");
    let user = config("never_restart = [\"nginx\"]\n");
    let merged = Config::merge(system, user);
    assert_eq!(
        merged.never_restart.as_deref(),
        Some(["docker".to_string(), "nginx".to_string()].as_slice())
    );
    // And it must be attributed to both files, not just the user's.
    let system = config("never_restart = [\"docker\"]\n");
    let user = config("never_restart = [\"nginx\"]\n");
    let rows = describe(&merged, &system, &user);
    let (_, value, source) = rows
        .iter()
        .find(|(n, ..)| n == "never_restart")
        .expect("never_restart is shown");
    assert_eq!(value, "docker, nginx");
    assert_eq!(*source, Source::Both);
}

#[test]
fn union_deduplicates_and_tolerates_one_sided_lists() {
    let both = union(
        Some(vec!["docker".into(), "nginx".into()]),
        Some(vec!["nginx".into(), "redis".into()]),
    );
    assert_eq!(
        both.as_deref(),
        Some(
            [
                "docker".to_string(),
                "nginx".to_string(),
                "redis".to_string()
            ]
            .as_slice()
        )
    );
    assert_eq!(union(None, None), None);
    assert_eq!(
        union(Some(vec!["a".into()]), None).as_deref(),
        Some(["a".to_string()].as_slice())
    );
    assert_eq!(
        union(None, Some(vec!["b".into()])).as_deref(),
        Some(["b".to_string()].as_slice())
    );
}

#[test]
fn describe_attributes_each_setting_to_its_layer() {
    let system = config("parallel = 8\nrestart = \"auto\"\n");
    let user = config("restart = \"never\"\n");
    let merged = Config::merge(
        config("parallel = 8\nrestart = \"auto\"\n"),
        config("restart = \"never\"\n"),
    );
    let rows = describe(&merged, &system, &user);
    let find = |name: &str| {
        rows.iter()
            .find(|(n, ..)| n == name)
            .map(|(_, v, s)| (v.clone(), *s))
            .unwrap()
    };
    assert_eq!(find("restart"), ("never".to_string(), Source::User));
    assert_eq!(find("parallel"), ("8".to_string(), Source::System));
    let (value, source) = find("keep_kernels");
    assert_eq!(source, Source::Default);
    assert_eq!(value, "2");
}

#[test]
fn extracts_home_from_passwd_entry() {
    assert_eq!(
        home_from_passwd("marc:x:1000:1000:Marc:/home/marc:/usr/bin/zsh\n").as_deref(),
        Some("/home/marc")
    );
    // Only the first entry is considered, and an empty home is no home.
    assert_eq!(home_from_passwd("bad:x:1:1:x::/bin/sh"), None);
    assert_eq!(home_from_passwd(""), None);
    assert_eq!(home_from_passwd("truncated:x:1"), None);
}

#[test]
fn root_only_trusts_config_it_or_the_invoking_user_owns() {
    let me = Some(1000);
    // Owned by the invoking user, not writable by anyone else: fine.
    assert!(trusted_owner(1000, 0o100644, me));
    // Owned by root: fine.
    assert!(trusted_owner(0, 0o100644, me));
    // Owned by a third party: refused, even with tight permissions.
    assert!(!trusted_owner(1001, 0o100644, me));
    // Group- or world-writable: refused however it's owned, since anyone
    // in that set could have written the file.
    assert!(!trusted_owner(1000, 0o100664, me));
    assert!(!trusted_owner(1000, 0o100646, me));
    assert!(!trusted_owner(0, 0o100662, me));
    // No SUDO_UID (a direct root login): only root's own file is trusted.
    assert!(trusted_owner(0, 0o100644, None));
    assert!(!trusted_owner(1000, 0o100644, None));
}

#[test]
fn only_root_asks_whether_a_file_is_trusted() {
    assert!(is_trusted(false, Some((1001, 0o100666)), None));
    assert!(is_trusted(true, None, None));
    assert!(!is_trusted(true, Some((1001, 0o100644)), None));
}

#[test]
fn an_empty_layer_leaves_the_other_alone() {
    let merged = Config::effective(&config("parallel = 3\ncolor = \"never\"\n"), &Config::default());
    assert_eq!(merged.parallel, Some(3));
    assert_eq!(merged.color.as_deref(), Some("never"));
    assert_eq!(merged.verbose, None);
}

#[test]
fn every_setting_is_described_with_its_default() {
    let none = Config::default();
    let rows = describe(&none, &none, &none);
    let shown: Vec<(&str, &str, &str)> = rows
        .iter()
        .map(|(n, v, s)| (n.as_str(), v.as_str(), s.label()))
        .collect();
    assert_eq!(
        shown,
        [
            ("parallel", "5", "default"),
            ("assume_yes", "false", "default"),
            ("verbose", "false", "default"),
            ("color", "auto", "default"),
            ("restart", "ask", "default"),
            ("never_restart", "(none)", "default"),
            ("keep_kernels", "2", "default"),
            ("history_limit", "1000", "default"),
            ("mirror_country", "(geolocated)", "default"),
            ("repo", "marc-cr1810/wrapt", "default"),
            ("notify_updates", "false", "default"),
        ]
    );
    let empty = config("never_restart = []\nassume_yes = true\n");
    let rows = describe(&empty, &none, &empty);
    assert_eq!(rows[5].1, "(none)");
    assert_eq!(rows[5].2, Source::User);
    assert_eq!(rows[1].1, "true");
    assert_eq!(Source::Both.label(), "system+user");
    assert_eq!(Source::System.label(), "system");
}

#[test]
fn bad_values_are_refused() {
    let check = |text: &str| validate(&config(text), "/c").err();
    assert_eq!(check("color = \"always\"\nrestart = \"never\"\nmirror_country = \"AU\"\n"), None);
    assert_eq!(
        check("color = \"blue\"\n").unwrap(),
        "invalid config at /c: color must be \"auto\", \"always\", or \"never\" (got \"blue\")"
    );
    assert_eq!(
        check("color = \"a\\\"b\"\n").unwrap(),
        "invalid config at /c: color must be \"auto\", \"always\", or \"never\" (got \"a\\\"b\")"
    );
    assert_eq!(
        check("never_restart = [\"docker\", \" \"]\n").unwrap(),
        "invalid config at /c: never_restart must not contain empty names"
    );
    assert_eq!(
        check("restart = \"yes\"\n").unwrap(),
        "invalid config at /c: restart must be \"ask\", \"auto\", or \"never\" (got \"yes\")"
    );
    assert_eq!(
        check("keep_kernels = 0\n").unwrap(),
        "invalid config at /c: keep_kernels must be at least 1"
    );
    assert_eq!(
        check("history_limit = 0\n").unwrap(),
        "invalid config at /c: history_limit must be at least 1"
    );
    for cc in ["A", "AUS", "A1", "é"] {
        assert_eq!(
            check(&format!("mirror_country = \"{cc}\"\n")).unwrap(),
            format!(
                "invalid config at /c: mirror_country must be a two-letter country code like \"AU\" (got {cc:?})"
            )
        );
    }
    assert_eq!(refuse("/c", ": bad (got ", "\"x\""), "invalid config at /c: bad (got \"x\")");
}

#[test]
fn files_are_read_in_turn() {
    let path = "/etc/wrapt/config.toml";
    let user = |state| Some((state, "/u".to_string()));
    let merged = Config::load(
        FileState::Read(config("parallel = 8\n")),
        path,
        user(FileState::Read(config("parallel = 2\n"))),
    );
    assert_eq!(merged.unwrap().parallel, Some(2));
    // Missing and untrusted files say nothing.
    let merged = Config::load(FileState::Missing, path, user(FileState::Untrusted)).unwrap();
    assert_eq!(merged.parallel, None);
    assert!(Config::load(FileState::Missing, path, None).is_ok());
    assert_eq!(
        Config::load(FileState::Unreadable("denied".to_string()), path, None).err().unwrap(),
        "cannot read /etc/wrapt/config.toml: denied"
    );
    assert_eq!(
        Config::load(FileState::Missing, path, user(FileState::Invalid("bad".to_string())))
            .err()
            .unwrap(),
        "invalid config at /u: bad"
    );
    assert!(Config::layers(FileState::Read(config("keep_kernels = 0\n")), path, None).is_err());
}

#[test]
fn the_starter_config_sets_nothing() {
    let table: toml::Table = TEMPLATE.parse().unwrap();
    assert!(table.is_empty());
    assert!(TEMPLATE.starts_with("# wrapt configuration."));
    assert!(TEMPLATE.ends_with("#notify_updates = false\n"));
    assert!(TEMPLATE.contains("#color = \"auto\"\n"));
    // Uncommented, it holds every setting.
    let none = Config::default();
    for (name, ..) in describe(&none, &none, &none) {
        assert!(TEMPLATE.contains(&format!("\n#{name} = ")), "{name}");
    }
    assert_eq!(write_template("/c", false).unwrap(), TEMPLATE);
    assert_eq!(
        write_template("/c", true).err().unwrap(),
        "/c already exists — edit it, or delete it first"
    );
}

#[test]
fn the_config_is_where_the_environment_says() {
    let path = |a, b, c, d| user_config_path(a, b, c, d);
    assert_eq!(
        path(Some("/mine"), Some("/home/a"), Some("/x"), Some("/root")).as_deref(),
        Some("/mine")
    );
    assert_eq!(
        path(None, Some("/home/a"), Some("/x"), Some("/root")).as_deref(),
        Some("/home/a/.config/wrapt/config.toml")
    );
    assert_eq!(path(None, None, Some("/x/"), None).as_deref(), Some("/x/wrapt/config.toml"));
    assert_eq!(
        path(None, None, None, Some("/root")).as_deref(),
        Some("/root/.config/wrapt/config.toml")
    );
    assert_eq!(path(None, None, None, None), None);
    assert_eq!(machine_config_path(None), "/etc/wrapt/config.toml");
    assert_eq!(machine_config_path(Some("/m")), "/m");
    assert!(invoked_by(Some("marc")));
    assert!(!invoked_by(Some("root")) && !invoked_by(Some("")) && !invoked_by(None));
}

#[test]
fn colour_follows_the_setting_and_the_terminal() {
    let always = config("color = \"always\"\n");
    let never = config("color = \"never\"\n");
    let auto = Config::default();
    assert!(always.apply_color(true, false));
    assert!(!never.apply_color(false, true));
    assert!(auto.apply_color(false, true));
    assert!(!auto.apply_color(true, true));
    assert!(!auto.apply_color(false, false));
}

use wrapt::restart::{
    check, is_pid, kernel_outdated, maps_deleted_lib, must_ask, parse_needrestart, restart_now,
    service_from_cgroup, session_ids, session_services, stale_service, Found, Guard, Mode, Policy,
    Report,
};

fn strings(v: &[&str]) -> Vec<String> {
    v.iter().map(|s| s.to_string()).collect()
}

#[test]
fn parses_needrestart_batch() {
    let out = "\
NEEDRESTART-VER: 3.6
NEEDRESTART-KCUR: 6.8.0-40-generic
NEEDRESTART-KEXP: 6.8.0-41-generic
NEEDRESTART-KSTA: 3
NEEDRESTART-SVC: dbus.service
NEEDRESTART-SVC: systemd-logind.service
NEEDRESTART-SVC: dbus.service
";
    let report = parse_needrestart(out);
    assert_eq!(report.services, ["dbus.service", "systemd-logind.service"]);
    assert!(report.kernel_reboot);
}

/// A guard with nothing detected from the live system — exercises the
/// hardcoded backstops alone.
fn bare_guard() -> Guard {
    Guard::default()
}

/// A guard resembling a desktop: gdm is the display manager and owns a live
/// graphical session.
fn desktop_guard() -> Guard {
    Guard::new(&strings(&["gdm.service"]), strings(&["gdm-password"]))
}

#[test]
fn session_critical_services_are_never_restarted() {
    // The exact shape that logged a user out: a display manager reported
    // alongside ordinary services must not land in the restart list.
    let out = "\
NEEDRESTART-SVC: gdm.service
NEEDRESTART-SVC: nginx.service
NEEDRESTART-SVC: dbus.service
NEEDRESTART-SVC: cups.service
";
    let report = parse_needrestart(out).split_deferred(&desktop_guard());
    assert_eq!(report.services, ["cups.service", "nginx.service"]);
    assert_eq!(report.deferred, ["dbus.service", "gdm.service"]);
    // Still worth reporting even though nothing will be auto-restarted.
    assert!(!report.is_empty());
}

#[test]
fn display_manager_symlink_defers_whatever_it_names() {
    // A display manager not on any hardcoded list is still caught, because
    // display-manager.service named it.
    let guard = Guard::new(&strings(&["exoticdm.service"]), Vec::new());
    assert!(guard.is_deferred("exoticdm.service"));
    assert!(!bare_guard().is_deferred("exoticdm.service"));
}

#[test]
fn session_owner_is_deferred_across_naming_mismatch() {
    // Ubuntu's unit is `ssh.service` while the PAM service is `sshd` —
    // restarting it would drop a live remote session.
    let guard = Guard::new(&Vec::new(), strings(&["sshd"]));
    assert!(guard.is_deferred("ssh.service"));
    assert!(guard.is_deferred("sshd.service"));
    // `gdm-password` likewise stands in for `gdm.service`.
    assert!(desktop_guard().is_deferred("gdm.service"));
}

#[test]
fn hardcoded_backstops_hold_without_any_detection() {
    for unit in [
        "gdm.service",
        "gdm3",
        "sddm.service",
        "lightdm.service",
        "display-manager.service",
        "dbus.service",
        "systemd-logind.service",
        "user@1000.service",
    ] {
        assert!(bare_guard().is_deferred(unit), "{unit} should be deferred");
    }
    for unit in ["nginx.service", "cups.service", "ssh.service", "cron"] {
        assert!(
            !bare_guard().is_deferred(unit),
            "{unit} should be restartable"
        );
    }
    // Substring lookalikes must not be caught by the display-manager rules.
    assert!(!bare_guard().is_deferred("gdm-helper.service"));
    assert!(!bare_guard().is_deferred("dbus-monitor-exporter.service"));
}

#[test]
fn mode_parses_from_config_and_defaults_to_ask() {
    assert_eq!(Mode::from_config(Some("auto")), Mode::Auto);
    assert_eq!(Mode::from_config(Some("never")), Mode::Never);
    assert_eq!(Mode::from_config(Some("ask")), Mode::Ask);
    assert_eq!(Mode::from_config(None), Mode::Ask);
    // Validation rejects anything else before it reaches here; falling back
    // to the safe default is better than panicking if one slips through.
    assert_eq!(Mode::from_config(Some("nonsense")), Mode::Ask);
}

#[test]
fn user_configured_services_are_deferred_in_either_naming_form() {
    // `detect()` stores both forms, so config may say "docker" or
    // "docker.service" and either spelling of the unit still matches.
    let guard = Guard::new(&strings(&["docker", "docker.service"]), Vec::new());
    assert!(guard.is_deferred("docker"));
    assert!(guard.is_deferred("docker.service"));
    // Protecting docker must not protect unrelated lookalikes.
    assert!(!guard.is_deferred("docker-proxy.service"));
}

#[test]
fn declared_services_are_detected_in_either_naming_form() {
    for name in ["docker", "docker.service"] {
        let policy = Policy { mode: Mode::Ask, never_restart: strings(&[name]) };
        let guard = Guard::detect(None, None, &policy, Vec::new());
        assert!(guard.is_deferred("docker"), "{name}");
        assert!(guard.is_deferred("docker.service"), "{name}");
        assert!(!guard.is_deferred("docker-proxy.service"), "{name}");
    }
    let policy = Policy { mode: Mode::Ask, never_restart: Vec::new() };
    let guard = Guard::detect(Some("exoticdm.service"), Some("tmux.service"), &policy, Vec::new());
    assert!(guard.is_deferred("exoticdm.service"));
    assert!(guard.is_deferred("tmux.service"));
    assert!(!guard.is_deferred("nginx.service"));
}

#[test]
fn ordinary_daemons_stay_restartable_on_a_desktop() {
    // The feature is worthless if detection over-defers; guard against it.
    let guard = desktop_guard();
    for unit in ["nginx.service", "cups.service", "cron.service", "apache2"] {
        assert!(!guard.is_deferred(unit), "{unit} should be restartable");
    }
}

#[test]
fn no_reboot_when_kernel_matches() {
    let out = "\
NEEDRESTART-KCUR: 6.8.0-41-generic
NEEDRESTART-KEXP: 6.8.0-41-generic
";
    assert!(!parse_needrestart(out).kernel_reboot);
}

#[test]
fn service_from_cgroup_v2() {
    assert_eq!(
        service_from_cgroup("0::/system.slice/nginx.service\n").as_deref(),
        Some("nginx.service")
    );
    // User-session scopes are excluded.
    assert_eq!(
        service_from_cgroup("0::/user.slice/user-1000.slice/session-2.scope"),
        None
    );
    // No service component.
    assert_eq!(service_from_cgroup("0::/system.slice/foo.mount"), None);
}

#[test]
fn never_outranks_yes() {
    assert!(!restart_now(Mode::Never, true, true));
    assert!(!must_ask(Mode::Never, false));
    assert!(restart_now(Mode::Auto, false, false));
    assert!(must_ask(Mode::Ask, false));
    assert!(!must_ask(Mode::Ask, true));
    assert!(restart_now(Mode::Ask, true, false));
    assert!(!restart_now(Mode::Ask, false, false));
}

#[test]
fn sessions_are_read_from_loginctl() {
    assert_eq!(session_ids("  2 1000 marc seat0\n c1 120 gdm seat0\n"), ["2", "c1"]);
    assert_eq!(session_services("Service=gdm-password\nService=\nService=sshd\n"), ["gdm-password", "sshd"]);
}

#[test]
fn stale_processes_are_known_by_their_maps() {
    assert!(maps_deleted_lib("7f00 r-xp 00:00 1 /usr/lib/libssl.so.3 (deleted)\n"));
    assert!(!maps_deleted_lib("7f00 r-xp 00:00 1 /usr/lib/libssl.so.3\n"));
    assert!(is_pid("123") && !is_pid("self") && !is_pid("12a"));
}

#[test]
fn a_service_is_stale_where_its_process_is() {
    let stale = "7f00 r-xp 00:00 1 /usr/lib/libssl.so.3 (deleted)\n";
    let cgroup = "0::/system.slice/nginx.service\n";
    assert_eq!(stale_service(stale, Some(cgroup)).as_deref(), Some("nginx.service"));
    assert_eq!(stale_service("7f00 r-xp 00:00 1 /usr/lib/libssl.so.3\n", Some(cgroup)), None);
    assert_eq!(stale_service(stale, Some("0::/user.slice/user-1000.slice\n")), None);
    assert_eq!(stale_service(stale, None), None);
}

#[test]
fn a_newer_kernel_on_boot_asks_for_a_reboot() {
    let files = strings(&["vmlinuz-6.8.0-40-generic", "vmlinuz-6.8.0-41-generic"]);
    assert!(kernel_outdated("6.8.0-40-generic", &files));
    assert!(!kernel_outdated("6.8.0-41-generic", &files));
}

#[test]
fn what_was_found_is_split_by_the_guard() {
    let found = Found::Scanned {
        services: strings(&["nginx.service", "dbus.service", "nginx.service"]),
        kernel_outdated: true,
    };
    let report = check(found, &bare_guard());
    assert_eq!(report.services, ["nginx.service"]);
    assert_eq!(report.deferred, ["dbus.service"]);
    assert!(report.kernel_reboot);
}

#[test]
fn without_settings_the_user_is_asked() {
    let policy = Policy::default();
    assert!(policy.mode == Mode::Ask && policy.never_restart.is_empty());
    assert!(Report::default().is_empty());
    // Nothing was found on the system, and the core of it is protected anyway.
    let guard = Guard::default();
    assert!(guard.is_deferred("dbus.service") && guard.is_deferred("gdm.service"));
    assert!(!guard.is_deferred("nginx.service"));
}

use std::cmp::Ordering;

use wrapt::apt::Output;
use wrapt::kernels::{
    abi_cmp, abi_of, kernel_abi, old_kernel_packages, running_release, select_removable,
};

#[test]
fn extracts_abi_from_package_names() {
    assert_eq!(
        kernel_abi("linux-image-6.8.0-31-generic").as_deref(),
        Some("6.8.0-31")
    );
    assert_eq!(
        kernel_abi("linux-headers-6.8.0-31").as_deref(),
        Some("6.8.0-31")
    );
    assert_eq!(
        kernel_abi("linux-modules-extra-6.8.0-31-generic").as_deref(),
        Some("6.8.0-31")
    );
    // Multi-word flavour keeps just the ABI.
    assert_eq!(
        kernel_abi("linux-image-6.8.0-31-generic-64k").as_deref(),
        Some("6.8.0-31")
    );
    // Meta-packages have no version and must never match.
    assert_eq!(kernel_abi("linux-image-generic"), None);
    assert_eq!(kernel_abi("linux-headers-generic"), None);
    // Non-kernel packages are ignored.
    assert_eq!(kernel_abi("linux-libc-dev"), None);
    assert_eq!(kernel_abi("htop"), None);
}

#[test]
fn abi_of_strips_flavour() {
    assert_eq!(abi_of("6.8.0-31-generic").as_deref(), Some("6.8.0-31"));
    assert_eq!(abi_of("6.8.0-31").as_deref(), Some("6.8.0-31"));
    assert_eq!(abi_of("not-a-kernel"), None);
}

#[test]
fn abis_order_oldest_first() {
    assert_eq!(abi_cmp("6.8.0-31", "6.8.0-40"), Ordering::Less);
    assert_eq!(abi_cmp("6.8.0-9", "6.8.0-31"), Ordering::Less);
}

/// Three installed kernels, image + headers for each.
fn three_kernels() -> Vec<(String, String, String)> {
    let mut v = Vec::new();
    for (abi, ver) in [
        ("6.8.0-31", "6.8.0-31.31"),
        ("6.8.0-40", "6.8.0-40.40"),
        ("6.8.0-45", "6.8.0-45.45"),
    ] {
        v.push((
            format!("linux-image-{abi}-generic"),
            abi.to_string(),
            ver.to_string(),
        ));
        v.push((
            format!("linux-headers-{abi}"),
            abi.to_string(),
            ver.to_string(),
        ));
    }
    v
}

#[test]
fn running_the_newest_kernel_still_leaves_a_fallback() {
    // The regression this policy exists for: once you reboot into the
    // newest kernel, running == newest, and keeping only "running or
    // newest" would purge every other kernel and leave no fallback.
    let pkgs = three_kernels();
    let removable = select_removable(&pkgs, Some("6.8.0-45"), 2);
    assert_eq!(
        removable,
        ["linux-headers-6.8.0-31", "linux-image-6.8.0-31-generic"]
    );
    // 6.8.0-40 survives as the fallback.
    assert!(!removable.iter().any(|p| p.contains("6.8.0-40")));
}

#[test]
fn running_an_old_kernel_keeps_it_on_top_of_the_newest() {
    // Booted into the oldest: it's kept as well as the two newest, so all
    // three survive.
    let removable = select_removable(&three_kernels(), Some("6.8.0-31"), 2);
    assert!(removable.is_empty());
}

#[test]
fn keep_count_controls_how_many_survive() {
    let pkgs = three_kernels();
    // Keeping one leaves only the newest — running it, so nothing else.
    let one = select_removable(&pkgs, Some("6.8.0-45"), 1);
    assert_eq!(one.len(), 4);
    // Keeping more than exist removes nothing.
    assert!(select_removable(&pkgs, Some("6.8.0-45"), 9).is_empty());
    // Zero is clamped to one — never purge every kernel.
    assert_eq!(select_removable(&pkgs, None, 0).len(), 4);
}

#[test]
fn headers_only_leftovers_cannot_displace_a_bootable_kernel() {
    // A stale headers package for a kernel with no image must not count as
    // one of the newest, or it would push a real kernel out of the keep set.
    let mut pkgs = three_kernels();
    pkgs.push((
        "linux-headers-6.8.0-99".to_string(),
        "6.8.0-99".to_string(),
        "6.8.0-99.99".to_string(),
    ));
    let removable = select_removable(&pkgs, Some("6.8.0-45"), 2);
    assert!(removable.contains(&"linux-headers-6.8.0-99".to_string()));
    // The two newest real kernels are still kept.
    assert!(!removable.iter().any(|p| p.contains("6.8.0-45")));
    assert!(!removable.iter().any(|p| p.contains("6.8.0-40")));
}

#[test]
fn old_kernels_are_found_among_all_packages() {
    let installed: Vec<(String, String)> = [
        ("htop", "3.4.1"),
        ("linux-image-6.8.0-31-generic", "6.8.0-31.31"),
        ("linux-image-6.8.0-40-generic", "6.8.0-40.40"),
        ("linux-image-generic", "6.8.0.40"),
    ]
    .iter()
    .map(|(n, v)| (n.to_string(), v.to_string()))
    .collect();
    assert_eq!(
        old_kernel_packages(&installed, Some("6.8.0-40-generic"), 1),
        ["linux-image-6.8.0-31-generic"]
    );
    // The running kernel is never removed.
    assert!(old_kernel_packages(&installed, Some("6.8.0-31-generic"), 1).is_empty());
}

#[test]
fn the_release_is_what_uname_prints() {
    let out = Output {
        success: true,
        stdout: "6.8.0-31-generic\n".to_string(),
        stderr: String::new(),
    };
    assert_eq!(running_release(Some(&out)).as_deref(), Some("6.8.0-31-generic"));
    assert_eq!(running_release(None), None);
}

use std::cmp::Ordering;

use wrapt::lists::{deb_version_cmp, is_index, search};
use wrapt::names::Names;

#[test]
fn version_ordering() {
    assert_eq!(deb_version_cmp("1.0", "1.0"), Ordering::Equal);
    assert_eq!(deb_version_cmp("1.10", "1.9"), Ordering::Greater);
    assert_eq!(deb_version_cmp("1.0~rc1", "1.0"), Ordering::Less);
    assert_eq!(deb_version_cmp("1:0.5", "2.0"), Ordering::Greater);
    assert_eq!(deb_version_cmp("1.0-2", "1.0-1"), Ordering::Greater);
    assert_eq!(deb_version_cmp("1.0a", "1.0"), Ordering::Greater);
    assert_eq!(deb_version_cmp("1.0+dfsg", "1.0"), Ordering::Greater);
    assert_eq!(deb_version_cmp("3.0.23-1", "3.0.9-2"), Ordering::Greater);
    assert_eq!(deb_version_cmp("1.0-1ubuntu1", "1.0-1"), Ordering::Greater);
    assert_eq!(deb_version_cmp("2.4.1-5build2", "2.4.1-5"), Ordering::Greater);
    assert_eq!(deb_version_cmp("1.0~beta", "1.0~alpha"), Ordering::Greater);
    assert_eq!(deb_version_cmp("0.9", "1:0.1"), Ordering::Less);
}

#[test]
fn a_version_follows_nothing_that_follows_it() {
    let versions = ["1.0~rc1", "1.0", "1.0-1", "1.0-1ubuntu1", "1.0a", "1.9", "1.10", "1:0.5"];
    for (i, a) in versions.iter().enumerate() {
        for (j, b) in versions.iter().enumerate() {
            assert_eq!(deb_version_cmp(a, b), i.cmp(&j), "{a} {b}");
        }
    }
}

const INDEX: &str = "\
Package: htop\nVersion: 3.4.1\nDescription: interactive processes viewer\n\n\
Package: htop\nVersion: 3.10.0\nDescription: interactive processes viewer\n\n\
Package: btop\nVersion: 1.0\nDescription: like HTOP\n\n\
Package: nano\nVersion: 7.2\nDescription: small editor\n";

#[test]
fn a_search_keeps_the_newest_version_of_each_package() {
    let mut installed = Names::new();
    installed.insert("btop".to_string());
    let found = search("HTop", &vec![INDEX.as_bytes().to_vec()], &installed).unwrap();
    assert_eq!(found.len(), 2);
    assert_eq!(found[0].name, "htop");
    assert_eq!(found[0].version.as_deref(), Some("3.10.0"));
    assert!(!found[0].installed);
    assert_eq!(found[1].name, "btop");
    assert!(found[1].installed);
}

#[test]
fn a_search_without_indexes_fails() {
    assert!(search("htop", &Vec::new(), &Names::new()).is_err());
}

#[test]
fn indexes_are_known_by_their_names() {
    assert!(is_index("archive.ubuntu.com_ubuntu_dists_noble_main_binary-amd64_Packages"));
    assert!(!is_index("archive.ubuntu.com_ubuntu_dists_noble_InRelease"));
}

#[test]
fn the_order_of_indexes_makes_no_difference() {
    let x = b"Package: htop\nVersion: 3.4\nDescription: viewer\n\nPackage: htop-dbg\nVersion: 1\n".to_vec();
    let y = b"Package: htop\nVersion: 3.10\nDescription: viewer\n".to_vec();
    let found = |indexes: Vec<Vec<u8>>| -> Vec<(String, Option<String>)> {
        search("htop", &indexes, &Names::new())
            .expect("there are indexes")
            .into_iter()
            .map(|r| (r.name, r.version))
            .collect()
    };
    let one = found(vec![x.clone(), y.clone()]);
    assert_eq!(one[0], ("htop".to_string(), Some("3.10".to_string())));
    assert_eq!(one, found(vec![y.clone(), x.clone()]));
    assert_eq!(one, found(vec![x.clone(), y, x]));
}

use wrapt::install::{assemble, classify, unique_name, url_filename, Given, SpecKind};
use wrapt::names::Names;

#[test]
fn url_filename_takes_a_plain_basename() {
    assert_eq!(
        url_filename("https://x.dev/htop_3.4.1_amd64.deb"),
        "htop_3.4.1_amd64.deb"
    );
    // Query strings and fragments are not part of the name.
    assert_eq!(
        url_filename("https://x.dev/a/htop.deb?token=abc"),
        "htop.deb"
    );
    assert_eq!(url_filename("https://x.dev/htop.deb#sig"), "htop.deb");
    // Anything that isn't a plain file name falls back.
    assert_eq!(url_filename("https://x.dev/pkgs/"), "package.deb");
    assert_eq!(url_filename("https://x.dev/a/.."), "package.deb");
    assert_eq!(url_filename("https://x.dev/a/."), "package.deb");
}

#[test]
fn unique_name_disambiguates_collisions() {
    let mut used = Names::new();
    assert_eq!(unique_name("htop.deb".into(), &mut used), "htop.deb");
    assert_eq!(unique_name("htop.deb".into(), &mut used), "htop-1.deb");
    assert_eq!(unique_name("htop.deb".into(), &mut used), "htop-2.deb");
    // Extensionless names still get a suffix.
    assert_eq!(unique_name("pkg".into(), &mut used), "pkg");
    assert_eq!(unique_name("pkg".into(), &mut used), "pkg-1");
}

#[test]
fn a_variant_that_is_taken_is_skipped() {
    let mut used = Names::new();
    unique_name("a-1.deb".into(), &mut used);
    unique_name("a.deb".into(), &mut used);
    assert_eq!(unique_name("a.deb".into(), &mut used), "a-2.deb");
    assert_eq!(unique_name("x.".into(), &mut used), "x.");
    assert_eq!(unique_name("x.".into(), &mut used), "x-1");
    assert_eq!(used.len(), 5);
}

#[test]
fn words_are_names_files_or_addresses() {
    assert_eq!(classify("https://x.dev/a.deb", true), SpecKind::Url);
    assert_eq!(classify("http://x.dev/a", false), SpecKind::Url);
    assert_eq!(classify("./a.deb", true), SpecKind::File);
    assert_eq!(classify("./a.deb", false), SpecKind::Name);
    assert_eq!(classify("htop", true), SpecKind::Name);
    assert_eq!(url_filename("https://x.dev/a\0b"), "package.deb");
}

#[test]
fn an_install_is_assembled_in_order() {
    let given = vec![
        Given::Name("htop".to_string()),
        Given::Url("https://x.dev/a.deb".to_string()),
        Given::File("/tmp/local.deb".to_string()),
        Given::Url("https://y.dev/a.deb".to_string()),
    ];
    let i = assemble(&given, "/tmp/w");
    assert_eq!(
        i.args,
        ["install", "htop", "/tmp/w/a.deb", "/tmp/local.deb", "/tmp/w/a-1.deb"]
    );
    assert_eq!(i.named, ["htop"]);
    assert_eq!(i.fetch.len(), 2);
    assert_eq!(i.fetch[1].url, "https://y.dev/a.deb");
    assert_eq!(i.fetch[1].filename, "a-1.deb");
    assert_eq!(i.fetch[1].size, 0);
    assert!(i.fetch[1].hash.is_none());
}

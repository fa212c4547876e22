use wrapt::download::{digest_matches, total_size, DownloadItem, ExpectedHash};

fn item(hash: Option<ExpectedHash>) -> DownloadItem {
    DownloadItem {
        url: "https://x.dev/htop_3.4.1_amd64.deb".to_string(),
        filename: "htop_3.4.1_amd64.deb".to_string(),
        size: 11,
        hash,
    }
}

#[test]
fn a_download_is_held_against_its_checksum() {
    let sha = "b94d27b9934d3e08a52e52d7da7dabfac484efe37a5380ee9088f7ace2efcde9";
    let md5 = "5eb63bbbe01eeed093cb22bb8f5acdc3";
    let good = b"hello world";
    assert!(item(Some(ExpectedHash::Sha256(sha.to_string()))).accept(good).is_ok());
    assert!(item(Some(ExpectedHash::Md5(md5.to_string()))).accept(good).is_ok());
    assert!(item(None).accept(b"anything").is_ok());
    for expected in [ExpectedHash::Sha256(sha.to_string()), ExpectedHash::Md5(md5.to_string())] {
        assert_eq!(
            item(Some(expected)).accept(b"hello worle").err().unwrap(),
            "checksum mismatch (corrupted download?)"
        );
    }
    // A checksum of the other kind does not do.
    assert!(item(Some(ExpectedHash::Sha256(md5.to_string()))).accept(good).is_err());
}

#[test]
fn a_digest_is_written_in_lower_case() {
    assert!(digest_matches(&[0x00, 0x0f, 0xa5, 0xff], "000fa5ff"));
    assert!(!digest_matches(&[0x00, 0x0f, 0xa5, 0xff], "000FA5FF"));
    assert!(digest_matches(&[], ""));
}

#[test]
fn a_cached_file_has_the_right_size() {
    let i = item(None);
    assert!(i.is_cached(Some(11)));
    assert!(!i.is_cached(Some(10)));
    assert!(!i.is_cached(None));
    assert_eq!(i.display_name(), "htop");
    assert_eq!(i.failed(), "failed to download htop_3.4.1_amd64.deb");
}

#[test]
fn sizes_add_up_where_they_can() {
    let mut v = vec![item(None), item(None)];
    assert_eq!(total_size(&v), Some(22));
    v[0].size = u64::MAX;
    assert_eq!(total_size(&v), None);
}

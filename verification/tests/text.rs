use nym_client::text::{banner, directory_url, usage};

#[test]
fn banner_shows_the_client() {
    let b = banner();
    assert!(b.starts_with("\n\n      _ __  _   _ _ __ ___\n"));
    assert!(b.contains("             (client)\n"));
    assert!(b.ends_with("\n\n    "));
    assert_eq!(b.lines().count(), 11);
}

#[test]
fn usage_is_the_banner_and_the_hint() {
    assert_eq!(usage(), banner() + "usage: --help to see available options.\n\n");
}

#[test]
fn directory_url_depends_on_the_deployment() {
    assert_eq!(directory_url(true), "http://localhost:8080");
    assert_eq!(directory_url(false), "https://directory.nymtech.net");
}

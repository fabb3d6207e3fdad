use awscredx::version::{check_new_version, extract_os, find_os, get_download_url, os_name, Asset, GithubVersion};

#[test]
fn extract_os_name() {
    assert_eq!(extract_os("awscredx-windows.zip"), "windows");
}

#[test]
fn find_os_needs_a_hyphen_and_an_extension() {
    assert_eq!(find_os("awscredx-linux.zip"), Some("linux".to_owned()));
    assert_eq!(find_os("a-b-osx.zip"), Some("osx".to_owned()));
    assert_eq!(find_os("-.zip"), Some(String::new()));
    assert_eq!(find_os("awscredx.zip"), None);
    assert_eq!(find_os("a-zip"), None);
    assert_eq!(find_os("zip"), None);
    assert_eq!(find_os(""), None);
}

#[test]
fn find_os_counts_the_extension_in_bytes() {
    // 'é' takes two bytes: the last four bytes are "é.z" and one more.
    assert_eq!(find_os("a-linux.zé"), Some("linux".to_owned()));
    // '€' takes three bytes, 'é' two: no number of characters makes four bytes.
    assert_eq!(find_os("a-linux€é"), None);
}

fn release(tag: &str, names: &[&str]) -> GithubVersion {
    GithubVersion {
        tag_name: tag.to_owned(),
        html_url: "https://example.org/notes".to_owned(),
        assets: names
            .iter()
            .map(|n| Asset { name: (*n).to_owned(), browser_download_url: format!("https://example.org/{}", n) })
            .collect(),
    }
}

#[test]
fn running_release_is_not_new() {
    let r = check_new_version("1.0.0", "linux", release("1.0.0", &["no suffix at all"]));
    assert!(matches!(r, Ok(None)));
}

#[test]
fn newer_release_names_the_binary_of_the_system() {
    let names = ["awscredx-osx.zip", "awscredx-linux.zip", "other-linux.zip", "bad name"];
    let v = check_new_version("1.0.0", "linux", release("1.1.0", &names)).unwrap().unwrap();
    assert_eq!(v.tag_name, "1.1.0");
    assert_eq!(v.html_url, "https://example.org/notes");
    assert_eq!(v.binary_download_url, "https://example.org/awscredx-linux.zip");
    let assets = release("x", &names).assets;
    assert_eq!(get_download_url(&assets[..2].iter().map(|a| Asset { name: a.name.clone(), browser_download_url: a.browser_download_url.clone() }).collect(), "windows"), None);
}

#[test]
fn release_without_a_binary_for_the_system() {
    match check_new_version("1.0.0", "windows", release("1.1.0", &["awscredx-osx.zip"])) {
        Err(reason) => assert_eq!(reason, "cannot get download URL for OS=windows"),
        other => panic!("unexpected {:?}", other),
    }
}

#[test]
fn system_of_the_build() {
    assert_eq!(os_name(None), "osx");
    assert_eq!(os_name(Some("linux")), "linux");
}

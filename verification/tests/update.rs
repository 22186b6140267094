use facts::update::{
    detect_install_method, detect_platform, parse_tag_name, release_url, tag_version,
    InstallMethod, VERSION,
};

#[test]
fn test_detect_npm() {
    let p = "/usr/local/lib/node_modules/@avcodes/facts/bin/facts";
    assert!(matches!(detect_install_method(p), InstallMethod::Npm));
}

#[test]
fn test_detect_npm_nvm() {
    let p = "/home/user/.nvm/versions/node/v20/lib/node_modules/@avcodes/facts/bin/facts";
    assert!(matches!(detect_install_method(p), InstallMethod::Npm));
}

#[test]
fn test_detect_pipx() {
    let p = "/home/user/.local/pipx/venvs/facts-cli/bin/facts";
    assert!(matches!(detect_install_method(p), InstallMethod::Pipx));
}

#[test]
fn test_detect_pipx_share_path() {
    let p = "/root/.local/share/pipx/venvs/facts-cli/bin/facts";
    assert!(matches!(detect_install_method(p), InstallMethod::Pipx));
}

#[test]
fn test_detect_direct_usr_local() {
    let p = "/usr/local/bin/facts";
    assert!(matches!(detect_install_method(p), InstallMethod::Direct));
}

#[test]
fn test_detect_direct_cargo() {
    let p = "/home/user/.cargo/bin/facts";
    assert!(matches!(detect_install_method(p), InstallMethod::Direct));
}

#[test]
fn test_detect_platform() {
    let target = detect_platform("linux", "x86_64").unwrap();
    assert!(
        target.contains("linux") || target.contains("darwin"),
        "unexpected target: {target}"
    );
    assert!(
        target.contains("amd64") || target.contains("arm64"),
        "unexpected target: {target}"
    );
}

#[test]
fn test_version_is_set() {
    assert!(!VERSION.is_empty());
    assert!(VERSION.contains('.'));
}

#[test]
fn platform_names_and_errors() {
    assert_eq!(detect_platform("macos", "aarch64").unwrap(), "darwin-arm64");
    assert_eq!(detect_platform("linux", "aarch64").unwrap(), "linux-arm64");
    assert_eq!(
        detect_platform("windows", "x86_64").unwrap_err(),
        "self-update is not supported on Windows; use npm or pip to update"
    );
    assert_eq!(detect_platform("freebsd", "x86_64").unwrap_err(), "unsupported operating system");
    assert_eq!(detect_platform("linux", "riscv64").unwrap_err(), "unsupported architecture");
}

#[test]
fn tag_name_from_release_body() {
    let body = "{\n  \"url\": \"x\",\n  \"tag_name\": \"v1.2.3\",\n  \"name\": \"v1.2.3\"\n}\n";
    assert_eq!(parse_tag_name(body), Some("v1.2.3".to_string()));
    assert_eq!(parse_tag_name("{\"name\": \"x\"}"), None);
    assert_eq!(parse_tag_name("\"tag_name\": 5"), None);
}

#[test]
fn tag_versions_and_urls() {
    assert_eq!(tag_version("v1.2.3"), "1.2.3");
    assert_eq!(tag_version("1.2.3"), "1.2.3");
    assert_eq!(
        release_url("v1.2.3", "linux-amd64"),
        "https://github.com/av/facts/releases/download/v1.2.3/facts-linux-amd64.tar.gz"
    );
}

use ghostty_config::extension::{
    after_download_probe, after_extracted_probe, first_present, DownloadStep,
};
use ghostty_config::extension::{
    arch_name, asset_name, binary_name, binary_stem, custom_server_path,
    existing_binary_candidates, find_asset, is_stale_install, missing_binary_message, os_name,
    version_dir, version_dir_candidates, Architecture, BinaryLocator, LocateStep, Os,
};

#[test]
fn binary_names() {
    assert_eq!(binary_name(Os::Windows), "ghostty-lsp.exe");
    assert_eq!(binary_name(Os::Linux), "ghostty-lsp");
    assert_eq!(binary_stem("ghostty-lsp.exe"), "ghostty-lsp");
    assert_eq!(binary_stem("ghostty-lsp"), "ghostty-lsp");
    assert_eq!(binary_stem(".exe"), "");
}

#[test]
fn candidate_paths() {
    assert_eq!(
        existing_binary_candidates("ghostty-lsp.exe", "ghostty-lsp"),
        vec![
            "ghostty-lsp.exe".to_string(),
            "ghostty-lsp/ghostty-lsp.exe".to_string(),
            "ghostty-lsp.exe/ghostty-lsp.exe".to_string(),
            "ghostty-lsp.exe/ghostty-lsp/ghostty-lsp.exe".to_string(),
        ]
    );
    assert_eq!(
        version_dir_candidates("ghostty-lsp-v1", "ghostty-lsp", "ghostty-lsp"),
        vec![
            "ghostty-lsp-v1/ghostty-lsp".to_string(),
            "ghostty-lsp-v1/ghostty-lsp/ghostty-lsp".to_string(),
            "ghostty-lsp-v1/ghostty-lsp/ghostty-lsp".to_string(),
        ]
    );
}

#[test]
fn asset_names() {
    assert_eq!(os_name(Os::Mac), "darwin");
    assert_eq!(arch_name(Architecture::X8664), Ok("x86_64"));
    assert_eq!(arch_name(Architecture::X86), Err("Unsupported architecture".to_string()));
    assert_eq!(asset_name("linux", "aarch64"), "ghostty-lsp-linux-aarch64.tar.gz");
    assert_eq!(version_dir("v0.2.0"), "ghostty-lsp-v0.2.0");
}

#[test]
fn asset_lookup() {
    let names = vec!["a.tar.gz".to_string(), "b.tar.gz".to_string(), "b.tar.gz".to_string()];
    assert_eq!(find_asset(&names, "b.tar.gz"), Ok(1));
    assert_eq!(find_asset(&names, "c"), Err("No asset found for c".to_string()));
    assert_eq!(
        missing_binary_message("x.tar.gz", "d"),
        "Downloaded x.tar.gz, but couldn't find extracted binary inside d"
    );
}

#[test]
fn stale_installs() {
    assert!(is_stale_install("ghostty-lsp-v1", "ghostty-lsp-v2"));
    assert!(!is_stale_install("ghostty-lsp-v2", "ghostty-lsp-v2"));
    assert!(!is_stale_install("other", "ghostty-lsp-v2"));
    assert!(!is_stale_install("ghostty-lsp", "ghostty-lsp-v2"));
}

#[test]
fn environment_override() {
    let env = vec![
        ("PATH".to_string(), "/bin".to_string()),
        ("GHOSTTY_LSP_PATH".to_string(), "/opt/lsp".to_string()),
        ("GHOSTTY_LSP_PATH".to_string(), "/other".to_string()),
    ];
    assert_eq!(custom_server_path(&env), Some("/opt/lsp".to_string()));
    assert_eq!(custom_server_path(&vec![]), None);
}

#[test]
fn locator_keeps_found_path() {
    let mut l = BinaryLocator::new();
    assert!(matches!(l.start(), LocateStep::ProbeExisting));
    assert!(matches!(l.after_probe(None), LocateStep::Download));
    let p = l.after_download(Err("offline".to_string()), "ghostty-lsp");
    assert_eq!(p, "ghostty-lsp");
    assert!(l.cached.is_none());
    let p = l.after_download(Ok("dir/ghostty-lsp".to_string()), "ghostty-lsp");
    assert_eq!(p, "dir/ghostty-lsp");
    match l.start() {
        LocateStep::Use(p) => assert_eq!(p, "dir/ghostty-lsp"),
        _ => panic!("expected the kept path"),
    }
    let mut m = BinaryLocator::new();
    match m.after_probe(Some("ghostty-lsp".to_string())) {
        LocateStep::Use(p) => assert_eq!(p, "ghostty-lsp"),
        _ => panic!("expected the found path"),
    }
    assert_eq!(m.cached.as_deref(), Some("ghostty-lsp"));
}

#[test]
fn first_present_candidate() {
    let c = vec!["a".to_string(), "b".to_string(), "c".to_string()];
    assert_eq!(first_present(&c, &vec![false, true, true]), Some("b".to_string()));
    assert_eq!(first_present(&c, &vec![false, false, false]), None);
    assert_eq!(first_present(&c, &vec![false]), None);
}

#[test]
fn download_steps() {
    match after_extracted_probe(Some("d/ghostty-lsp".to_string())) {
        DownloadStep::MakeExecutable { path, remove_stale } => {
            assert_eq!(path, "d/ghostty-lsp");
            assert!(!remove_stale);
        }
        _ => panic!("expected the extracted binary"),
    }
    assert!(matches!(after_extracted_probe(None), DownloadStep::Download));
    match after_download_probe(Some("d/x".to_string()), "a.tar.gz", "d") {
        DownloadStep::MakeExecutable { path, remove_stale } => {
            assert_eq!(path, "d/x");
            assert!(remove_stale);
        }
        _ => panic!("expected the downloaded binary"),
    }
    match after_download_probe(None, "a.tar.gz", "d") {
        DownloadStep::Fail(m) => {
            assert_eq!(m, "Downloaded a.tar.gz, but couldn't find extracted binary inside d")
        }
        _ => panic!("expected a failure"),
    }
}

#[test]
fn stale_install_list() {
    let entries = vec![
        "ghostty-lsp-v1".to_string(),
        "ghostty-lsp-v2".to_string(),
        "notes".to_string(),
        "ghostty-lsp-v0".to_string(),
    ];
    assert_eq!(
        ghostty_config::extension::stale_installs(&entries, "ghostty-lsp-v2"),
        vec!["ghostty-lsp-v1".to_string(), "ghostty-lsp-v0".to_string()]
    );
}

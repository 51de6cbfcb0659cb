use toolver::dotnet::{
    all_sdk_versions, channel_urls, dotnet_root, install_cmd, install_script_path,
    install_script_url, remote_versions, ChannelEntry, ChannelReleases, DotnetError,
    DotnetPlugin, DotnetSettings, GlobalJson, GlobalJsonSdk, Release, ReleasesIndex, Sdk,
};
use toolver::install::{next_state, InstallEvent, InstallGate, InstallState};
use toolver::request::{BackendArg, BackendResolution};
use toolver::version::{lex_compare, rank_compare, sort_versions};

fn s(v: &str) -> String {
    v.to_string()
}

#[test]
fn dotnet_identity() {
    let p = DotnetPlugin::new();
    assert_eq!(p.ba().short, "dotnet");
    assert!(!p.is_isolated());
    assert!(!p.supports_lockfile_url());
    assert_eq!(p.idiomatic_filenames(), vec![s("global.json")]);
}

#[test]
fn global_json_versions() {
    let p = DotnetPlugin::new();
    let g = GlobalJson { sdk: Some(GlobalJsonSdk { version: s("8.0.100") }) };
    assert_eq!(p.parse_idiomatic_file(&g), Ok(vec![s("8.0.100")]));
    let g = GlobalJson { sdk: Some(GlobalJsonSdk { version: s("") }) };
    assert_eq!(p.parse_idiomatic_file(&g), Ok(vec![]));
    let g = GlobalJson { sdk: None };
    assert_eq!(p.parse_idiomatic_file(&g), Err(DotnetError::NoSdkVersion));
}

#[test]
fn dotnet_paths() {
    assert_eq!(dotnet_root(&Some(s("/opt/dn")), &Some(s("/env/dn")), "/data"), "/opt/dn");
    assert_eq!(dotnet_root(&None, &Some(s("/env/dn")), "/data"), "/env/dn");
    assert_eq!(dotnet_root(&None, &None, "/data"), "/data/dotnet-root");
    assert_eq!(install_script_path("/cache"), "/cache/dotnet/dotnet-install.sh");
    assert_eq!(install_script_url(), "https://dot.net/v1/dotnet-install.sh");
    assert_eq!(
        install_cmd("/c/dotnet-install.sh", "/r", "8.0.100"),
        vec![s("/c/dotnet-install.sh"), s("--install-dir"), s("/r"), s("--version"), s("8.0.100"), s("--no-path")]
    );
}

#[test]
fn shared_topology() {
    let p = DotnetPlugin::new();
    let root = p.shared_root(&None, "/data");
    assert_eq!(root, "/data/dotnet-root");
    assert_eq!(p.install_dir("/installs/dotnet/8", &root), root);
    assert_eq!(p.install_link("/installs/dotnet/8", &root), Some((root.clone(), s("/installs/dotnet/8"))));
    assert_eq!(p.uninstall_target(&root, "8.0.100"), Some(s("/data/dotnet-root/sdk/8.0.100")));
    assert_eq!(p.list_bin_paths("/installs/dotnet/8", &root), vec![root.clone()]);
    assert_eq!(
        p.exec_env("/installs/dotnet/8", &root),
        vec![(s("DOTNET_MULTILEVEL_LOOKUP"), s("0")), (s("DOTNET_ROOT"), root.clone())]
    );
}

#[test]
fn isolated_topology() {
    let p = DotnetPlugin::with_settings(DotnetSettings {
        isolated: true,
        dotnet_root: None,
        cli_telemetry_optout: Some(true),
    });
    assert!(p.is_isolated());
    assert_eq!(p.install_dir("/i/8", "/r"), "/i/8");
    assert_eq!(p.install_link("/i/8", "/r"), None);
    assert_eq!(p.uninstall_target("/r", "8.0.100"), None);
    assert_eq!(p.list_bin_paths("/i/8", "/r"), vec![s("/i/8")]);
    assert_eq!(
        p.exec_env("/i/8", "/r"),
        vec![
            (s("DOTNET_CLI_TELEMETRY_OPTOUT"), s("1")),
            (s("DOTNET_MULTILEVEL_LOOKUP"), s("0")),
            (s("DOTNET_ROOT"), s("/i/8")),
        ]
    );
}

#[test]
fn release_channels() {
    let index = ReleasesIndex {
        releases_index: vec![
            ChannelEntry { releases_json: Some(s("https://x/8.0/releases.json")) },
            ChannelEntry { releases_json: None },
            ChannelEntry { releases_json: Some(s("")) },
            ChannelEntry { releases_json: Some(s("https://x/6.0/releases.json")) },
        ],
    };
    assert_eq!(channel_urls(&index), vec![s("https://x/8.0/releases.json"), s("https://x/6.0/releases.json")]);
}

fn sdk(v: Option<&str>) -> Sdk {
    Sdk { version: v.map(|x| x.to_string()) }
}

#[test]
fn remote_catalog_is_sorted_and_unique() {
    let channels = vec![
        ChannelReleases {
            releases: vec![
                Release { sdk: Some(sdk(Some("8.0.100"))), sdks: Some(vec![sdk(Some("8.0.100")), sdk(Some("8.0.101"))]) },
                Release { sdk: Some(sdk(None)), sdks: None },
            ],
        },
        ChannelReleases {
            releases: vec![Release { sdk: Some(sdk(Some("6.0.400"))), sdks: Some(vec![sdk(Some("10.0.100-preview.1"))]) }],
        },
    ];
    assert_eq!(
        all_sdk_versions(&channels),
        vec![s("8.0.100"), s("8.0.100"), s("8.0.101"), s("6.0.400"), s("10.0.100-preview.1")]
    );
    let got: Vec<String> = remote_versions(&channels).into_iter().map(|v| v.version).collect();
    assert_eq!(got, vec![s("6.0.400"), s("8.0.100"), s("8.0.101"), s("10.0.100-preview.1")]);
}

#[test]
fn version_rank() {
    assert_eq!(rank_compare("1.2.0", "1.10.0"), -1);
    assert_eq!(rank_compare("1.10.0", "1.2.0"), 1);
    assert_eq!(rank_compare("2.0", "2.0"), 0);
    assert_eq!(lex_compare("abc", "abd"), -1);
    assert_eq!(lex_compare("ab", "abc"), -1);
    assert_eq!(lex_compare("b", "abc"), 1);
    assert_eq!(
        sort_versions(vec![s("1.10.0"), s("1.2.0"), s("1.2.0"), s("1.9.1")]),
        vec![s("1.2.0"), s("1.9.1"), s("1.10.0")]
    );
}

#[test]
fn install_life_cycle() {
    assert_eq!(next_state(InstallState::Requested, InstallEvent::Resolve), Some(InstallState::Resolving));
    assert_eq!(next_state(InstallState::Resolving, InstallEvent::Resolved), Some(InstallState::Installing));
    assert_eq!(next_state(InstallState::Installing, InstallEvent::BackendDone { verify: true }), Some(InstallState::Verifying));
    assert_eq!(next_state(InstallState::Installing, InstallEvent::BackendDone { verify: false }), Some(InstallState::Installed));
    assert_eq!(next_state(InstallState::Verifying, InstallEvent::Verified), Some(InstallState::Installed));
    assert_eq!(next_state(InstallState::Verifying, InstallEvent::Failure), Some(InstallState::Failed));
    assert_eq!(next_state(InstallState::Installing, InstallEvent::Failure), Some(InstallState::Failed));
    assert_eq!(next_state(InstallState::Installed, InstallEvent::Uninstall), Some(InstallState::Uninstalling));
    assert_eq!(next_state(InstallState::Uninstalling, InstallEvent::Uninstalled), Some(InstallState::Removed));
    assert_eq!(next_state(InstallState::Removed, InstallEvent::Request), Some(InstallState::Requested));
    assert_eq!(next_state(InstallState::Failed, InstallEvent::Resolve), None);
    assert_eq!(next_state(InstallState::Requested, InstallEvent::Failure), None);
}

#[test]
fn one_install_per_pair() {
    let node = BackendArg::new(s("node"), None, BackendResolution::new(false));
    let python = BackendArg::new(s("python"), None, BackendResolution::new(false));
    let mut guard = InstallGate::new();
    assert!(guard.try_begin(&node, "20.1.0"));
    assert!(!guard.try_begin(&node, "20.1.0"));
    assert!(guard.try_begin(&node, "18.0.0"));
    assert!(guard.try_begin(&python, "20.1.0"));
    guard.finish(&node, "20.1.0");
    assert!(guard.try_begin(&node, "20.1.0"));
}

use codeg::node_search::{
    is_node_opt_entry, node_bin_candidates, trim_leading_v_str, version_matches_alias,
    BrewPrefixListing, DirEntryName, NodeBinCandidate, NodeSearchInputs,
};
use codeg::order::{bytes_le, sort_desc_by_bytes, sort_newest_first};
use codeg::version::{parse_version, version_le};
use codeg::process::{
    cmd_shim_for, dirs_to_prepend, homebrew_prefixes, homebrew_subdirs, maybe_windows_cmd_shim,
    path_list_contains, set_utf8_env, CommandEnv,
};

#[test]
fn cmd_shim_decisions() {
    assert_eq!(cmd_shim_for("npm", 1, false), Some("npm.cmd".to_string()));
    assert_eq!(cmd_shim_for("Yarn", 1, false), Some("Yarn.cmd".to_string()));
    assert_eq!(cmd_shim_for("COREPACK", 1, false), Some("COREPACK.cmd".to_string()));
    assert_eq!(cmd_shim_for("npm", 2, false), None);
    assert_eq!(cmd_shim_for("npm", 1, true), None);
    assert_eq!(cmd_shim_for("node", 1, false), None);
    assert_eq!(cmd_shim_for("npmx", 1, false), None);
}

#[test]
fn cmd_shim_from_program_name() {
    assert_eq!(maybe_windows_cmd_shim("pnpm"), Some("pnpm.cmd".to_string()));
    assert_eq!(maybe_windows_cmd_shim("npx.exe"), None);
    assert_eq!(maybe_windows_cmd_shim("git"), None);
    assert_eq!(maybe_windows_cmd_shim("bin/npm"), None);
}

#[test]
fn utf8_environment() {
    let mut env = CommandEnv::new();
    env.env("LANG", "en_US");
    set_utf8_env(&mut env);
    let expected: Vec<(String, String)> = vec![
        ("LANG".into(), "en_US".into()),
        ("PYTHONUTF8".into(), "1".into()),
        ("PYTHONIOENCODING".into(), "utf-8".into()),
        ("LANG".into(), "C.UTF-8".into()),
        ("LC_ALL".into(), "C.UTF-8".into()),
    ];
    assert_eq!(env.vars, expected);
}

#[test]
fn path_membership() {
    assert!(path_list_contains("/usr/bin:/opt/homebrew/bin", ':', "/opt/homebrew/bin"));
    assert!(!path_list_contains("/usr/bin:/opt/homebrew/bin/", ':', "/opt/homebrew/bin"));
    assert!(path_list_contains("", ':', ""));
    assert!(!path_list_contains("/usr/bin", ':', "/usr"));
    assert!(path_list_contains("C:\\a;C:\\npm", ';', "C:\\npm"));
}

#[test]
fn homebrew_dirs() {
    assert_eq!(homebrew_prefixes(None), vec!["/opt/homebrew", "/usr/local"]);
    assert_eq!(
        homebrew_prefixes(Some("/brew".to_string())),
        vec!["/brew"]
    );
    assert_eq!(homebrew_subdirs(), vec!["bin", "sbin"]);
    let dirs: Vec<String> = vec![
        "/opt/homebrew/bin".into(),
        "/opt/homebrew/sbin".into(),
        "/usr/local/bin".into(),
        "/usr/local/sbin".into(),
    ];
    let is_dir = vec![true, true, true, false];
    assert_eq!(dirs_to_prepend("/usr/local/bin:/usr/bin", ':', &dirs, &is_dir), vec![0, 1]);
}

#[test]
fn byte_order() {
    assert!(bytes_le(&b"v18".to_vec(), &b"v20".to_vec()));
    assert!(bytes_le(&b"node".to_vec(), &b"node@22".to_vec()));
    assert!(!bytes_le(&b"v9".to_vec(), &b"v10".to_vec()));
    let names = vec![b"v18.1.0".to_vec(), b"v20.0.0".to_vec(), b"v9.0.0".to_vec(), b"v18.10.0".to_vec()];
    assert_eq!(sort_desc_by_bytes(&names), vec![2, 1, 3, 0]);
    let same = vec![b"a".to_vec(), b"a".to_vec()];
    assert_eq!(sort_desc_by_bytes(&same), vec![1, 0]);
    assert_eq!(sort_desc_by_bytes(&vec![]), Vec::<usize>::new());
}

#[test]
fn nvm_alias_matching() {
    assert_eq!(trim_leading_v_str("vv20.1"), "20.1");
    assert!(version_matches_alias("v20.11.0", "20"));
    assert!(version_matches_alias("v20.11.0", "v20"));
    assert!(!version_matches_alias("v18.0.0", "20"));
    assert!(version_matches_alias("v18.0.0", ""));
    assert!(is_node_opt_entry("node"));
    assert!(is_node_opt_entry("node@22"));
    assert!(!is_node_opt_entry("nodejs"));
}

fn entry(name: &str) -> DirEntryName {
    DirEntryName { name: name.to_string(), bytes: name.as_bytes().to_vec() }
}

#[test]
fn node_candidate_order() {
    let inputs = NodeSearchInputs {
        nvm_is_dir: true,
        nvm_default_alias: Some(" 20\n".to_string()),
        nvm_alias_listing: Some(vec!["v18.0.0".into(), "v20.1.0".into(), "v20.3.0".into()]),
        nvm_versions: Some(vec![b"v18.0.0".to_vec(), b"v20.1.0".to_vec(), b"v20.3.0".to_vec()]),
        fnm_versions: Some(vec![b"v16.0.0".to_vec(), b"v22.0.0".to_vec()]),
        volta_bin_is_dir: true,
        brew: vec![
            BrewPrefixListing {
                opt_entries: Some(vec![entry("node"), entry("python"), entry("node@22"), entry("node@18")]),
                bin_is_dir: true,
            },
            BrewPrefixListing { opt_entries: None, bin_is_dir: false },
        ],
    };
    assert_eq!(
        node_bin_candidates(&inputs),
        vec![
            NodeBinCandidate::NvmAliasMatch(1),
            NodeBinCandidate::NvmAliasMatch(2),
            NodeBinCandidate::NvmVersion(2),
            NodeBinCandidate::NvmVersion(1),
            NodeBinCandidate::NvmVersion(0),
            NodeBinCandidate::FnmVersion(1),
            NodeBinCandidate::FnmVersion(0),
            NodeBinCandidate::VoltaBin,
            NodeBinCandidate::BrewOpt(0, 0),
            NodeBinCandidate::BrewOpt(0, 2),
            NodeBinCandidate::BrewOpt(0, 3),
            NodeBinCandidate::BrewBin(0),
        ]
    );
    let none = NodeSearchInputs {
        nvm_is_dir: false,
        nvm_default_alias: Some("20".into()),
        nvm_alias_listing: Some(vec!["v20".into()]),
        nvm_versions: Some(vec![b"v20".to_vec()]),
        fnm_versions: None,
        volta_bin_is_dir: false,
        brew: vec![],
    };
    assert_eq!(node_bin_candidates(&none), vec![]);
}

#[test]
fn newest_version_order() {
    let names = vec![b"v9.11.2".to_vec(), b"v18.19.0".to_vec(), b"system".to_vec(), b"v18.2.1".to_vec()];
    assert_eq!(sort_newest_first(&names), vec![1, 3, 0, 2]);
    let same = vec![b"v18".to_vec(), b"v018".to_vec(), b"v18.0".to_vec()];
    assert_eq!(sort_newest_first(&same), vec![2, 0, 1]);
    assert_eq!(parse_version(&b"v18.19.0".to_vec()), Some(vec![18, 19, 0]));
    assert_eq!(parse_version(&b"22".to_vec()), Some(vec![22]));
    assert_eq!(parse_version(&b"v18.".to_vec()), None);
    assert_eq!(parse_version(&b"v".to_vec()), None);
    assert_eq!(parse_version(&b"v1..2".to_vec()), None);
    assert_eq!(parse_version(&b"18446744073709551616".to_vec()), None);
    assert_eq!(parse_version(&b"18446744073709551615".to_vec()), Some(vec![u64::MAX]));
    assert!(version_le(&vec![9, 11, 2], &vec![18, 19, 0]));
    assert!(version_le(&vec![18], &vec![18, 0]));
    assert!(!version_le(&vec![18, 0], &vec![18]));
}

#[test]
fn nvm_fallback_newest_first_and_brew_node_first() {
    let inputs = NodeSearchInputs {
        nvm_is_dir: true,
        nvm_default_alias: None,
        nvm_alias_listing: None,
        nvm_versions: Some(vec![b"v9.11.2".to_vec(), b"v18.19.0".to_vec()]),
        fnm_versions: None,
        volta_bin_is_dir: false,
        brew: vec![BrewPrefixListing {
            opt_entries: Some(vec![entry("node@8"), entry("node"), entry("node@22")]),
            bin_is_dir: false,
        }],
    };
    assert_eq!(
        node_bin_candidates(&inputs),
        vec![
            NodeBinCandidate::NvmVersion(1),
            NodeBinCandidate::NvmVersion(0),
            NodeBinCandidate::BrewOpt(0, 1),
            NodeBinCandidate::BrewOpt(0, 0),
            NodeBinCandidate::BrewOpt(0, 2),
        ]
    );
}

#[test]
fn path_repair_twice_adds_nothing() {
    let dirs: Vec<String> = vec!["/opt/brew/bin".into(), "/opt/brew/sbin".into()];
    let is_dir = vec![true, true];
    let first = dirs_to_prepend("/usr/bin", ':', &dirs, &is_dir);
    assert_eq!(first, vec![0, 1]);
    let mut path = "/usr/bin".to_string();
    for i in first {
        path = format!("{}:{}", dirs[i], path);
    }
    assert_eq!(path, "/opt/brew/sbin:/opt/brew/bin:/usr/bin");
    assert_eq!(dirs_to_prepend(&path, ':', &dirs, &is_dir), Vec::<usize>::new());
    assert!(path_list_contains(&format!("{}:{}", "/home/u/.codeg/npm-global/bin", "/usr/bin"), ':', "/home/u/.codeg/npm-global/bin"));
}

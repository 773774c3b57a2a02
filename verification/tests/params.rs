use cargo_wipe::params::{FolderNameEnum, WipeParams};

#[test]
fn aliases_normalize_to_canonical_kinds() {
    assert_eq!(FolderNameEnum::Node.normalized(), FolderNameEnum::NodeModules);
    assert_eq!(FolderNameEnum::NodeModules.normalized(), FolderNameEnum::NodeModules);
    assert_eq!(FolderNameEnum::Rust.normalized(), FolderNameEnum::Target);
    assert_eq!(FolderNameEnum::Target.normalized(), FolderNameEnum::Target);
}

#[test]
fn folder_names_follow_the_kind() {
    assert_eq!(FolderNameEnum::Node.folder_name(), "node_modules");
    assert_eq!(FolderNameEnum::NodeModules.folder_name(), "node_modules");
    assert_eq!(FolderNameEnum::Rust.folder_name(), "target");
    assert_eq!(FolderNameEnum::Target.folder_name(), "target");
}

#[test]
fn only_the_build_cache_requires_the_marker() {
    assert!(!FolderNameEnum::Node.requires_marker());
    assert!(!FolderNameEnum::NodeModules.requires_marker());
    assert!(FolderNameEnum::Rust.requires_marker());
    assert!(FolderNameEnum::Target.requires_marker());
}

#[test]
fn params_carry_the_run_configuration() {
    let p = WipeParams {
        wipe: false,
        path: "/work/project".to_string(),
        folder_name: FolderNameEnum::NodeModules,
    };
    assert_eq!(
        p,
        WipeParams {
            wipe: false,
            path: "/work/project".to_string(),
            folder_name: FolderNameEnum::NodeModules,
        }
    );
    assert!(!p.wipe);
}

use toolchain_image::{Error, Image, LayoutDirs, Mode, Source, Sourced, ToolKind, Version};

fn bytes(s: &str) -> Vec<u8> {
    s.as_bytes().to_vec()
}

fn entries(parts: &[&str]) -> Vec<Vec<u8>> {
    parts.iter().map(|p| bytes(p)).collect()
}

fn pinned(major: u64, minor: u64, patch: u64, source: Source) -> Sourced<Version> {
    Sourced { value: Version::new(major, minor, patch), source }
}

fn node_only() -> Image {
    Image {
        node: pinned(18, 0, 0, Source::Project),
        npm: None,
        yarn: None,
    }
}

fn fully_pinned() -> Image {
    Image {
        node: pinned(18, 0, 0, Source::Project),
        npm: Some(pinned(8, 19, 2, Source::Default)),
        yarn: Some(pinned(1, 22, 0, Source::CommandLine)),
    }
}

fn full_layout() -> LayoutDirs {
    LayoutDirs {
        npm_bin: Some(bytes("/tools/npm/8.19.2/bin")),
        yarn_bin: Some(bytes("/tools/yarn/1.22.0/bin")),
        node_bin: Some(bytes("/tools/node/18.0.0/bin")),
    }
}

#[test]
fn bins_with_only_runtime_is_one_entry() {
    let r = node_only().bins(&full_layout()).unwrap();
    assert_eq!(r, entries(&["/tools/node/18.0.0/bin"]));
}

#[test]
fn bins_with_both_companions_is_three_entries_in_order() {
    let r = fully_pinned().bins(&full_layout()).unwrap();
    assert_eq!(
        r,
        entries(&[
            "/tools/npm/8.19.2/bin",
            "/tools/yarn/1.22.0/bin",
            "/tools/node/18.0.0/bin",
        ])
    );
}

#[test]
fn bins_fails_when_a_needed_directory_is_missing() {
    let layout = LayoutDirs {
        npm_bin: None,
        yarn_bin: Some(bytes("/tools/yarn/1.22.0/bin")),
        node_bin: Some(bytes("/tools/node/18.0.0/bin")),
    };
    let r = fully_pinned().bins(&layout);
    assert_eq!(r, Err(Error::LayoutUnavailable { tool: ToolKind::Npm }));

    let layout = LayoutDirs {
        npm_bin: None,
        yarn_bin: None,
        node_bin: None,
    };
    let r = node_only().bins(&layout);
    assert_eq!(r, Err(Error::LayoutUnavailable { tool: ToolKind::Node }));
}

#[test]
fn bin_lookups_render_versions_in_order() {
    let lookups = fully_pinned().bin_lookups();
    let got: Vec<(ToolKind, Vec<u8>)> = lookups.into_iter().map(|l| (l.tool, l.version)).collect();
    assert_eq!(
        got,
        vec![
            (ToolKind::Npm, bytes("8.19.2")),
            (ToolKind::Yarn, bytes("1.22.0")),
            (ToolKind::Node, bytes("18.0.0")),
        ]
    );
}

#[test]
fn path_purges_and_prefixes_in_standard_mode() {
    let img = Image {
        node: pinned(18, 0, 0, Source::Project),
        npm: None,
        yarn: Some(pinned(1, 22, 0, Source::CommandLine)),
    };
    let layout = LayoutDirs {
        npm_bin: None,
        yarn_bin: Some(bytes("/tools/yarn/1.22.0/bin")),
        node_bin: Some(bytes("/tools/node/18.0.0/bin")),
    };
    let env = Some(bytes("/usr/bin:/managed/shim"));
    let purge = entries(&["/managed/shim"]);
    let r = img.path(&env, &purge, &layout, Mode::Standard).unwrap();
    assert_eq!(
        r,
        bytes("/tools/yarn/1.22.0/bin:/tools/node/18.0.0/bin:/usr/bin")
    );
}

#[test]
fn path_keeps_relative_order_of_unpurged_entries() {
    let env = Some(bytes("/c:/managed/shim:/a:/managed/other:/b"));
    let purge = entries(&["/managed/shim", "/managed/other"]);
    let r = node_only()
        .path(&env, &purge, &full_layout(), Mode::Standard)
        .unwrap();
    assert_eq!(r, bytes("/tools/node/18.0.0/bin:/c:/a:/b"));
}

#[test]
fn path_in_global_package_mode_purges_nothing() {
    let env = Some(bytes("/usr/bin:/managed/shim"));
    let purge = entries(&["/managed/shim"]);
    let r = node_only()
        .path(&env, &purge, &full_layout(), Mode::GlobalPackage)
        .unwrap();
    assert_eq!(r, bytes("/tools/node/18.0.0/bin:/usr/bin:/managed/shim"));
}

#[test]
fn path_treats_absent_environment_as_one_empty_entry() {
    let purge: Vec<Vec<u8>> = Vec::new();
    let r = node_only()
        .path(&None, &purge, &full_layout(), Mode::Standard)
        .unwrap();
    assert_eq!(r, bytes("/tools/node/18.0.0/bin:"));
}

#[test]
fn path_is_idempotent_for_unchanged_inputs() {
    let env = Some(bytes("/usr/bin:/managed/shim"));
    let purge = entries(&["/managed/shim"]);
    let first = fully_pinned().path(&env, &purge, &full_layout(), Mode::Standard);
    let second = fully_pinned().path(&env, &purge, &full_layout(), Mode::Standard);
    assert_eq!(first, second);
}

#[test]
fn path_rejects_bin_directory_holding_separator() {
    let layout = LayoutDirs {
        npm_bin: None,
        yarn_bin: None,
        node_bin: Some(bytes("/bad:dir")),
    };
    let purge: Vec<Vec<u8>> = Vec::new();
    let r = node_only().path(&Some(bytes("/usr/bin")), &purge, &layout, Mode::Standard);
    assert_eq!(r, Err(Error::PathBuild { entry: bytes("/bad:dir") }));
}

#[test]
fn path_reports_the_missing_tool() {
    let layout = LayoutDirs {
        npm_bin: Some(bytes("/tools/npm/8.19.2/bin")),
        yarn_bin: None,
        node_bin: Some(bytes("/tools/node/18.0.0/bin")),
    };
    let purge: Vec<Vec<u8>> = Vec::new();
    let r = fully_pinned().path(&Some(bytes("/usr/bin")), &purge, &layout, Mode::Standard);
    assert_eq!(r, Err(Error::LayoutUnavailable { tool: ToolKind::Yarn }));
}

#[test]
fn sourced_equality_is_on_the_value_alone() {
    let a = pinned(1, 2, 3, Source::Project);
    let b = pinned(1, 2, 3, Source::CommandLine);
    assert_eq!(a, b);
    assert_ne!(a, pinned(1, 2, 4, Source::Project));
}

#[test]
fn resolve_npm_returns_explicit_pin_unchanged() {
    let img = fully_pinned();
    let bundled = Some(Version::new(9, 9, 9));
    let r = img.resolve_npm(&bundled).unwrap();
    assert_eq!(r.value, Version::new(8, 19, 2));
    assert_eq!(r.source, Source::Default);
}

#[test]
fn resolve_npm_inherits_bundled_default_with_runtime_provenance() {
    let img = node_only();
    let bundled = Some(Version::new(9, 6, 7));
    let r = img.resolve_npm(&bundled).unwrap();
    assert_eq!(r.value, Version::new(9, 6, 7));
    assert_eq!(r.source, Source::Project);
}

#[test]
fn resolve_npm_fails_when_bundled_lookup_failed() {
    let r = node_only().resolve_npm(&None);
    assert_eq!(
        r,
        Err(Error::DefaultVersionLookup { runtime: Version::new(18, 0, 0) })
    );
}

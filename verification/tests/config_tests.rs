use meow::config::{
    expand_mirror, get_cpu_arch, parse_mirrorlist, resolve_config, validate_mirror, Config,
    General, Mirrors,
};

fn config_with_arch(arch: &str) -> Config {
    Config {
        general: General {
            arch: arch.to_string(),
            db_path: "/var/lib/meow".to_string(),
            download_path: "/var/cache/meow".to_string(),
            no_cache: true,
            enabled_repos: vec!["core".to_string(), "extra".to_string()],
        },
        mirrors: Mirrors { mirrorlist: "/etc/meow.d/mirrorlist".to_string(), max_ping: 300 },
    }
}

#[test]
fn cpu_arch_is_the_hosts() {
    assert_eq!(get_cpu_arch("x86_64"), "x86_64");
    assert_eq!(get_cpu_arch("aarch64"), "aarch64");
}

#[test]
fn mirror_needs_both_placeholders() {
    assert!(validate_mirror("https://geo.mirror.pkgbuild.com/$repo/os/$arch"));
    assert!(validate_mirror("$arch$repo"));
    assert!(!validate_mirror("https://geo.mirror.pkgbuild.com/$repo/os/x86_64"));
    assert!(!validate_mirror("https://geo.mirror.pkgbuild.com/core/os/$arch"));
    assert!(!validate_mirror(""));
    assert!(!validate_mirror("$ARCH $REPO"));
}

#[test]
fn mirrorlist_keeps_valid_lines_in_order() {
    let contents = "https://a/$repo/os/$arch\n\n# comment\nhttps://b/core/os/x86_64\nhttps://c/$repo/$arch\n";
    assert_eq!(
        parse_mirrorlist(contents),
        vec!["https://a/$repo/os/$arch".to_string(), "https://c/$repo/$arch".to_string()]
    );
}

#[test]
fn mirrorlist_empty_and_invalid() {
    assert!(parse_mirrorlist("").is_empty());
    assert!(parse_mirrorlist("\n\n\n").is_empty());
    assert!(parse_mirrorlist("https://b/core/os/x86_64").is_empty());
    assert_eq!(parse_mirrorlist("$repo$arch"), vec!["$repo$arch".to_string()]);
}

#[test]
fn every_listed_mirror_is_valid() {
    let contents = "x\n$repo\n$arch\n$arch/$repo\n\n$repo-$arch-more\n";
    let mirrors = parse_mirrorlist(contents);
    assert_eq!(mirrors.len(), 2);
    for m in &mirrors {
        assert!(!m.is_empty());
        assert!(validate_mirror(m));
    }
}

#[test]
fn any_arch_resolves_to_cpu_arch() {
    let resolved = resolve_config(config_with_arch("any"), "x86_64");
    assert_eq!(resolved.general.arch, "x86_64");
    assert_eq!(resolved.general.db_path, "/var/lib/meow");
    assert_eq!(resolved.general.download_path, "/var/cache/meow");
    assert!(resolved.general.no_cache);
    assert_eq!(resolved.general.enabled_repos, vec!["core".to_string(), "extra".to_string()]);
    assert_eq!(resolved.mirrors.mirrorlist, "/etc/meow.d/mirrorlist");
    assert_eq!(resolved.mirrors.max_ping, 300);
}

#[test]
fn other_arch_stays() {
    assert_eq!(resolve_config(config_with_arch("aarch64"), "x86_64").general.arch, "aarch64");
    assert_eq!(resolve_config(config_with_arch("Any"), "x86_64").general.arch, "Any");
    assert_eq!(resolve_config(config_with_arch("any"), "aarch64").general.arch, "aarch64");
}

#[test]
fn resolving_twice_is_resolving_once() {
    let once = resolve_config(config_with_arch("any"), "aarch64");
    let once_arch = once.general.arch.clone();
    let twice = resolve_config(once, "aarch64");
    assert_eq!(twice.general.arch, once_arch);
}

#[test]
fn mirror_expands_repo_then_arch() {
    assert_eq!(
        expand_mirror("https://m/$repo/os/$arch", "core", "x86_64"),
        "https://m/core/os/x86_64"
    );
    assert_eq!(expand_mirror("https://m/$repo/$repo", "extra", "x"), "https://m/extra/extra");
    assert_eq!(expand_mirror("https://m/$repo", "$arch", "x86_64"), "https://m/x86_64");
}

#[test]
fn added_mirror_is_listed_last() {
    for contents in ["", "https://a/$repo/os/$arch\n", "junk\n\n"] {
        let mirror = "https://b/$repo/os/$arch";
        let mut before = parse_mirrorlist(contents);
        let after = parse_mirrorlist(&format!("{}{}\n", contents, mirror));
        before.push(mirror.to_string());
        assert_eq!(after, before);
    }
}

use meow::api::SearchResult;
use meow::database::{
    desc_is_well_formed, dirs_to_remove, installed_dir_of, match_desc, package_db_dir,
    package_desc_from, parse_desc, pkgdesc_path, repo_db_path, repo_db_url, search_repo,
    RepoSearch,
};

const PACMAN_DESC: &str = "%FILENAME%
pacman-6.0.2-5-x86_64.pkg.tar.zst

%NAME%
pacman

%BASE%
pacman

%VERSION%
6.0.2-5

%DESC%
A library-based package manager with dependency support

%CSIZE%
906416

%ISIZE%
4648521

%MD5SUM%
0c3b39e7a3a1f6e2c0b7a2f1b9b0a6d4

%SHA256SUM%
5a8b4d5a0b0e6c1f3f2e6d7c8b9a0f1e2d3c4b5a69788796a5b4c3d2e1f0a9b8

%PGPSIG%
iQIzBAABCAAdFiEE

%URL%
https://www.archlinux.org/pacman/

%LICENSE%
GPL

%ARCH%
x86_64

%BUILDDATE%
1664539577

%PACKAGER%
Levente Polyak <anthraxx@archlinux.org>

%DEPENDS%
bash
glibc
libarchive

%OPTDEPENDS%
perl-locale-gettext: translation support in makepkg-template

";

fn strings(v: &[&str]) -> Vec<String> {
    v.iter().map(|s| s.to_string()).collect()
}

#[test]
fn parses_repository_desc() {
    assert!(desc_is_well_formed(PACMAN_DESC));
    let d = parse_desc(PACMAN_DESC);
    assert_eq!(d.file_name, "pacman-6.0.2-5-x86_64.pkg.tar.zst");
    assert_eq!(d.name, "pacman");
    assert_eq!(d.base, "pacman");
    assert_eq!(d.version, "6.0.2-5");
    assert_eq!(d.desc, "A library-based package manager with dependency support");
    assert_eq!(d.csize, 906416);
    assert_eq!(d.size, 4648521);
    assert_eq!(d.md5s, "0c3b39e7a3a1f6e2c0b7a2f1b9b0a6d4");
    assert_eq!(d.sha256, "5a8b4d5a0b0e6c1f3f2e6d7c8b9a0f1e2d3c4b5a69788796a5b4c3d2e1f0a9b8");
    assert_eq!(d.pgpsig, "iQIzBAABCAAdFiEE");
    assert_eq!(d.url, "https://www.archlinux.org/pacman/");
    assert_eq!(d.license, "GPL");
    assert_eq!(d.arch, "x86_64");
    assert_eq!(d.build_date, 1664539577);
    assert_eq!(d.packager, "Levente Polyak <anthraxx@archlinux.org>");
    assert_eq!(d.depends, strings(&["bash", "glibc", "libarchive"]));
    assert_eq!(d.opt_depends, strings(&["perl-locale-gettext: translation support in makepkg-template"]));
}

#[test]
fn optional_dependencies_section() {
    let text = "%NAME%\nbash\n\n%OPTDEPENDS%\nbash-completion: for tab completion\n\n";
    assert!(desc_is_well_formed(text));
    let d = parse_desc(text);
    assert_eq!(d.name, "bash");
    assert_eq!(d.opt_depends, strings(&["bash-completion: for tab completion"]));
    assert!(d.depends.is_empty());
    // Without the closing `%` the line is no key.
    let d = parse_desc("%OPTDEPENDS\nbar\n\n");
    assert!(d.opt_depends.is_empty());
}

#[test]
fn leading_unknown_entry_changes_nothing() {
    let prefixed = format!("{}\n{}\n\n{}", "%UNKNOWN%", "some value", PACMAN_DESC);
    assert!(desc_is_well_formed(&prefixed));
    let a = parse_desc(&prefixed);
    let b = parse_desc(PACMAN_DESC);
    assert_eq!(format!("{:?}", a), format!("{:?}", b));
}

#[test]
fn empty_desc_gives_defaults() {
    assert!(desc_is_well_formed(""));
    let d = parse_desc("");
    assert_eq!(d.name, "");
    assert_eq!(d.csize, 0);
    assert_eq!(d.size, 0);
    assert_eq!(d.build_date, 0);
    assert!(d.depends.is_empty());
}

#[test]
fn later_keys_override_and_depends_accumulate() {
    let text = "%NAME%\nfirst\n%DEPENDS%\na\n\n%NAME%\nsecond\n%DEPENDS%\nb\nc\n\n%CSIZE%\n-5\n%ISIZE%\n+12\n";
    assert!(desc_is_well_formed(text));
    let d = parse_desc(text);
    assert_eq!(d.name, "second");
    assert_eq!(d.depends, strings(&["a", "b", "c"]));
    assert_eq!(d.csize, -5);
    assert_eq!(d.size, 12);
}

#[test]
fn key_lines_inside_values_are_read_as_keys() {
    // The value of `%NAME%` is itself the key `%NAME%`, so the line after it is read too.
    let text = "%NAME%\n%NAME%\nreal\n";
    assert!(desc_is_well_formed(text));
    assert_eq!(parse_desc(text).name, "real");
}

#[test]
fn malformed_descs_are_detected() {
    // A key on the last line has no value.
    assert!(!desc_is_well_formed("%NAME%"));
    assert!(!desc_is_well_formed("%NAME%\nfoo\n%URL%"));
    // Sizes and build dates must be numbers that fit their fields.
    assert!(!desc_is_well_formed("%CSIZE%\nbig\n"));
    assert!(!desc_is_well_formed("%ISIZE%\n2147483648\n"));
    assert!(desc_is_well_formed("%BUILDDATE%\n2147483648\n"));
    assert!(!desc_is_well_formed("%BUILDDATE%\n\n"));
    // A dependency list must be closed by an empty line.
    assert!(!desc_is_well_formed("%DEPENDS%\nbash\nglibc"));
    assert!(desc_is_well_formed("%DEPENDS%\nbash\nglibc\n"));
    assert!(!desc_is_well_formed("%DEPENDS%"));
    assert!(!desc_is_well_formed("%OPTDEPENDS%\nperl"));
}

#[test]
fn match_desc_compares_exact_name() {
    assert_eq!(match_desc(PACMAN_DESC, "pacman").map(|d| d.version), Some("6.0.2-5".to_string()));
    assert!(match_desc(PACMAN_DESC, "pacman-contrib").is_none());
    assert!(match_desc(PACMAN_DESC, "pac").is_none());
}

#[test]
fn database_layout_paths() {
    assert_eq!(package_db_dir("/var/lib/meow", "pacman", "6.0.2", "5"), "/var/lib/meow/pacman-6.0.2-5");
    assert_eq!(pkgdesc_path("/var/lib/meow/pacman-6.0.2-5"), "/var/lib/meow/pacman-6.0.2-5/PKGDESC");
    assert_eq!(repo_db_path("/var/lib/meow", "core"), "/var/lib/meow/core.db");
    assert_eq!(
        repo_db_url("https://m/$repo/os/$arch", "core", "x86_64"),
        "https://m/core/os/x86_64/core.db"
    );
}

#[test]
fn installed_dir_of_matches_package_db_dir() {
    let d = parse_desc(PACMAN_DESC);
    assert_eq!(installed_dir_of("/var/lib/meow", &d), package_db_dir("/var/lib/meow", "pacman", "6.0.2", "5"));
}

fn search_result() -> SearchResult {
    SearchResult {
        pkgname: "pacman".to_string(),
        pkgbase: "pacman-base".to_string(),
        repo: "core".to_string(),
        arch: "x86_64".to_string(),
        pkgver: "6.0.2".to_string(),
        pkgrel: "5".to_string(),
        epoch: 0,
        pkgdesc: "A package manager".to_string(),
        url: "https://www.archlinux.org/pacman/".to_string(),
        filename: "pacman-6.0.2-5-x86_64.pkg.tar.zst".to_string(),
        compressed_size: 906416,
        installed_size: 4648521,
        build_date: "2022-09-30T12:06:17Z".to_string(),
        last_update: "2022-10-01T00:00:00Z".to_string(),
        flag_date: serde_json::Value::Null,
        maintainers: strings(&["allan"]),
        packager: "Levente Polyak".to_string(),
        groups: vec![serde_json::Value::String("base-devel".to_string())],
        licenses: strings(&["GPL"]),
        conflicts: vec![],
        provides: strings(&["libalpm.so"]),
        replaces: vec![],
        depends: strings(&["bash", "glibc"]),
        optdepends: strings(&["perl-locale-gettext"]),
        makedepends: vec![],
        checkdepends: vec![],
    }
}

#[test]
fn package_desc_from_search_result() {
    let d = package_desc_from(&search_result());
    assert_eq!(d.pkgname, "pacman");
    assert_eq!(d.pkgbase, "pacman-base");
    assert_eq!(d.pkgver, "6.0.2-5");
    assert_eq!(d.pkgdesc, "A package manager");
    assert_eq!(d.url, "https://www.archlinux.org/pacman/");
    assert_eq!(d.build_date, "2022-09-30T12:06:17Z");
    assert_eq!(d.packager, "Levente Polyak");
    assert_eq!(d.size, 4648521);
    assert_eq!(d.arch, "x86_64");
    assert_eq!(d.licenses, strings(&["GPL"]));
    assert_eq!(d.dependencies, strings(&["bash", "glibc"]));
    assert_eq!(d.dependencies_optional, strings(&["perl-locale-gettext"]));
}

#[test]
fn removal_takes_every_path_naming_the_package() {
    let paths = strings(&[
        "/var/lib/meow/pacman-6.0.2-5",
        "/var/lib/meow/bash-5.1-1",
        "/var/lib/meow/pacman-contrib-1.0-1",
    ]);
    assert_eq!(
        dirs_to_remove(&paths, "pacman"),
        strings(&["/var/lib/meow/pacman-6.0.2-5", "/var/lib/meow/pacman-contrib-1.0-1"])
    );
    assert!(dirs_to_remove(&paths, "zsh").is_empty());
    assert!(dirs_to_remove(&vec![], "bash").is_empty());
}

#[test]
fn removal_covers_the_recorded_directory() {
    let dir = package_db_dir("/var/lib/meow", "bash", "5.1", "1");
    assert_eq!(dirs_to_remove(&vec![dir.clone()], "bash"), vec![dir]);
}

#[test]
fn repository_search_takes_the_first_entry_that_is_the_package() {
    let names = strings(&["pacman-contrib-1.0-1", "glibc-2.36-1", "pacman-6.0.2-5", "pacman-7.0-1"]);
    let contrib = PACMAN_DESC.replace("%NAME%\npacman\n", "%NAME%\npacman-contrib\n");
    let descs = vec![contrib, String::new(), PACMAN_DESC.to_string(), PACMAN_DESC.to_string()];
    match search_repo(&names, &descs, "pacman") {
        RepoSearch::Found(i, d) => {
            assert_eq!(i, 2);
            assert_eq!(d.name, "pacman");
            assert_eq!(d.version, "6.0.2-5");
        }
        other => panic!("unexpected {:?}", other),
    }
    // Entries whose names do not hold the query are not read.
    assert!(matches!(search_repo(&names, &descs, "zsh"), RepoSearch::Missing));
    assert!(matches!(search_repo(&vec![], &vec![], "pacman"), RepoSearch::Missing));
}

#[test]
fn repository_search_stops_at_an_unreadable_candidate() {
    let names = strings(&["glibc-2.36-1", "pacman-6.0.2-5", "pacman-7.0-1"]);
    let descs = vec!["%NAME%".to_string(), "%NAME%".to_string(), PACMAN_DESC.to_string()];
    assert!(matches!(search_repo(&names, &descs, "pacman"), RepoSearch::Malformed(1)));
    let names = strings(&["pacman-6.0.2-5", "pacman-7.0-1"]);
    let descs = vec![PACMAN_DESC.to_string(), "%NAME%".to_string()];
    assert!(matches!(search_repo(&names, &descs, "pacman"), RepoSearch::Found(0, _)));
}

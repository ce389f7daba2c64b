use meow::database::{parse_desc, PackageDesc};
use meow::upgrade::upgradable;

fn installed(name: &str, ver: &str) -> PackageDesc {
    PackageDesc {
        pkgname: name.to_string(),
        pkgbase: name.to_string(),
        pkgver: ver.to_string(),
        pkgdesc: String::new(),
        url: String::new(),
        build_date: String::new(),
        packager: String::new(),
        size: 0,
        arch: "x86_64".to_string(),
        licenses: vec![],
        dependencies: vec![],
        dependencies_optional: vec![],
    }
}

fn available(name: &str, ver: &str) -> meow::database::ArchDesc {
    parse_desc(&format!("%NAME%\n{}\n%VERSION%\n{}\n", name, ver))
}

#[test]
fn outdated_packages_are_upgradable() {
    let inst = vec![installed("bash", "5.1-1"), installed("glibc", "2.36-1"), installed("zsh", "5.9-2")];
    let avail = vec![available("bash", "5.2-1"), available("glibc", "2.36-1"), available("zsh", "5.9-1")];
    let up: Vec<String> = upgradable(&inst, avail).into_iter().map(|d| d.name).collect();
    assert_eq!(up, vec!["bash".to_string(), "zsh".to_string()]);
}

#[test]
fn up_to_date_upgrades_nothing() {
    let inst = vec![installed("bash", "5.1-1"), installed("glibc", "2.36-1")];
    let avail = vec![available("bash", "5.1-1"), available("glibc", "2.36-1")];
    assert!(upgradable(&inst, avail).is_empty());
    assert!(upgradable(&vec![], vec![]).is_empty());
}

use std::io::Write;

use meow::install::{
    decompress_mtree, decompress_package, decompress_repo_db, decompressed_path, install_plan,
    join_path, keep_selected, package_download_url,
};

#[test]
fn plan_skips_installed_dependencies() {
    let plan = install_plan(vec!["a", "b", "c"], &vec![false, true, false], false, "pkg");
    assert_eq!(plan, vec!["a", "c", "pkg"]);
}

#[test]
fn plan_with_reinstall_fetches_every_dependency() {
    let plan = install_plan(vec!["a", "b", "c"], &vec![true, true, false], true, "pkg");
    assert_eq!(plan, vec!["a", "b", "c", "pkg"]);
}

#[test]
fn plan_with_all_installed_fetches_only_the_package() {
    let plan = install_plan(vec!["a", "b"], &vec![true, true], false, "pkg");
    assert_eq!(plan, vec!["pkg"]);
    let plan = install_plan(Vec::<&str>::new(), &vec![], false, "pkg");
    assert_eq!(plan, vec!["pkg"]);
}

#[test]
fn keep_selected_keeps_flagged_in_order() {
    assert_eq!(keep_selected(vec![1, 2, 3, 4], &vec![true, false, false, true]), vec![1, 4]);
}

#[test]
fn download_locations() {
    assert_eq!(
        package_download_url("https://m/$repo/os/$arch", "core", "x86_64", "bash-5.1-1-x86_64.pkg.tar.zst"),
        "https://m/core/os/x86_64/bash-5.1-1-x86_64.pkg.tar.zst"
    );
    assert_eq!(join_path("/var/cache/meow", "bash.pkg.tar.zst"), "/var/cache/meow/bash.pkg.tar.zst");
}

#[test]
fn decompressed_path_drops_zst() {
    assert_eq!(decompressed_path("/c/bash-5.1-1-x86_64.pkg.tar.zst"), "/c/bash-5.1-1-x86_64.pkg.tar");
    assert_eq!(decompressed_path("/c/plain.tar"), "/c/plain.tar");
}

#[test]
fn decompress_package_roundtrip() {
    let data = b"a tarball's worth of bytes, repeated, repeated, repeated".to_vec();
    let compressed = zstd::bulk::compress(&data, 3).unwrap();
    assert_ne!(compressed, data);
    assert_eq!(decompress_package(&compressed), Some(data));
}

#[test]
fn decompress_package_rejects_garbage() {
    assert_eq!(decompress_package(b"not zstd at all"), None);
}

#[test]
fn decompress_mtree_roundtrip() {
    let text = b"#mtree\n/set type=file\n./usr type=dir\n".to_vec();
    let mut enc = flate2::write::GzEncoder::new(Vec::new(), flate2::Compression::default());
    enc.write_all(&text).unwrap();
    let compressed = enc.finish().unwrap();
    assert_ne!(compressed, text);
    assert_eq!(decompress_mtree(&compressed), Some(text));
}

#[test]
fn decompress_mtree_rejects_garbage() {
    assert_eq!(decompress_mtree(b"plain text"), None);
}

#[test]
fn decompress_repo_db_roundtrip() {
    let tarball = b"core.db contents: pacman-6.0.2-5/desc".to_vec();
    let mut enc = flate2::write::GzEncoder::new(Vec::new(), flate2::Compression::default());
    enc.write_all(&tarball).unwrap();
    let compressed = enc.finish().unwrap();
    assert_eq!(decompress_repo_db(&compressed), Some(tarball));
    assert_eq!(decompress_repo_db(b"not gzip"), None);
}

//! Installing packages: which packages an installation fetches, where they
//! come from and go to, and what a downloaded package holds.
use vstd::prelude::*;

use std::io::Read;

use crate::config::{expand_mirror, mirror_url};
use crate::database::path_in;
use crate::text::{replace_all, replace_text};

verus! {

/// The items of `items` whose flag in `keep` is set, in order.
pub open spec fn selected<T>(items: Seq<T>, keep: Seq<bool>) -> Seq<T>
    decreases items.len(),
{
    if items.len() == 0 {
        Seq::empty()
    } else {
        let prev = selected(items.drop_last(), keep.take(items.len() - 1));
        if keep[items.len() - 1] {
            prev.push(items.last())
        } else {
            prev
        }
    }
}

/// The items of `items` whose flag in `keep` is set, in order.
pub fn keep_selected<T>(items: Vec<T>, keep: &Vec<bool>) -> (kept: Vec<T>)
    requires
        items.len() == keep.len(),
    ensures
        kept@ == selected(items@, keep@),
{
    let ghost all = items@;
    let mut items = items;
    let mut kept: Vec<T> = Vec::new();
    let mut k: usize = 0;
    assert(all.take(0) =~= Seq::<T>::empty());
    assert(selected(all.take(0), keep@.take(0)) =~= Seq::<T>::empty());
    while k < keep.len()
        invariant
            k <= keep.len(),
            all.len() == keep.len(),
            items@ == all.skip(k as int),
            kept@ == selected(all.take(k as int), keep@.take(k as int)),
        decreases keep.len() - k,
    {
        let item = items.remove(0);
        assert(item == all[k as int]);
        assert(items@ =~= all.skip(k + 1));
        let ghost prefix = all.take(k + 1);
        assert(prefix.drop_last() =~= all.take(k as int));
        assert(keep@.take(k + 1).take(k as int) =~= keep@.take(k as int));
        assert(prefix.last() == item);
        if keep[k] {
            kept.push(item);
        }
        k = k + 1;
    }
    assert(all.take(k as int) =~= all);
    assert(keep@.take(k as int) =~= keep@);
    kept
}

/// Selecting with every flag set keeps every item.
pub proof fn lemma_selected_all<T>(items: Seq<T>, keep: Seq<bool>)
    requires
        keep.len() == items.len(),
        forall|i: int| 0 <= i < keep.len() ==> #[trigger] keep[i],
    ensures
        selected(items, keep) == items,
    decreases items.len(),
{
    if items.len() > 0 {
        lemma_selected_all(items.drop_last(), keep.take(items.len() - 1));
        assert(items.drop_last().push(items.last()) =~= items);
    }
}

/// Selecting with no flag set keeps nothing.
pub proof fn lemma_selected_none<T>(items: Seq<T>, keep: Seq<bool>)
    requires
        keep.len() == items.len(),
        forall|i: int| 0 <= i < keep.len() ==> !#[trigger] keep[i],
    ensures
        selected(items, keep).len() == 0,
    decreases items.len(),
{
    if items.len() > 0 {
        lemma_selected_none(items.drop_last(), keep.take(items.len() - 1));
    }
}

/// A dependency is fetched unless it is installed already, and installed ones
/// too when dependencies are to be reinstalled.
pub open spec fn fetches_dependency(installed: bool, reinstall_dependencies: bool) -> bool {
    !installed || reinstall_dependencies
}

/// The flags of the dependencies that an installation fetches.
pub open spec fn dependency_flags(installed: Seq<bool>, reinstall_dependencies: bool) -> Seq<bool> {
    installed.map_values(|i: bool| fetches_dependency(i, reinstall_dependencies))
}

/// The packages that installing `package` fetches, in order: its
/// dependencies (with `installed[i]` telling whether `dependencies[i]` is
/// installed already), leaving out the installed ones unless
/// `reinstall_dependencies` is set, and then the package itself.
pub fn install_plan<T>(
    dependencies: Vec<T>,
    installed: &Vec<bool>,
    reinstall_dependencies: bool,
    package: T,
) -> (plan: Vec<T>)
    requires
        dependencies.len() == installed.len(),
    ensures
        plan@ == selected(
            dependencies@,
            dependency_flags(installed@, reinstall_dependencies),
        ).push(package),
{
    let mut flags: Vec<bool> = Vec::new();
    let mut k: usize = 0;
    while k < installed.len()
        invariant
            k <= installed.len(),
            flags@ =~= dependency_flags(installed@, reinstall_dependencies).take(k as int),
        decreases installed.len() - k,
    {
        flags.push(!installed[k] || reinstall_dependencies);
        k = k + 1;
    }
    assert(flags@ =~= dependency_flags(installed@, reinstall_dependencies));
    let mut plan = keep_selected(dependencies, &flags);
    plan.push(package);
    plan
}

/// When dependencies are to be reinstalled, an installation fetches every
/// dependency, in order, and then the package.
pub proof fn lemma_reinstall_fetches_every_dependency<T>(dependencies: Seq<T>, installed: Seq<bool>)
    requires
        dependencies.len() == installed.len(),
    ensures
        selected(dependencies, dependency_flags(installed, true)) == dependencies,
{
    lemma_selected_all(dependencies, dependency_flags(installed, true));
}

/// When every dependency is installed and none is to be reinstalled, an
/// installation fetches the package alone.
pub proof fn lemma_installed_dependencies_skipped<T>(dependencies: Seq<T>, installed: Seq<bool>)
    requires
        dependencies.len() == installed.len(),
        forall|i: int| 0 <= i < installed.len() ==> #[trigger] installed[i],
    ensures
        selected(dependencies, dependency_flags(installed, false)).len() == 0,
{
    lemma_selected_none(dependencies, dependency_flags(installed, false));
}

/// Where a package file is downloaded from: the mirror with its placeholders
/// filled in, then `/{file_name}`.
pub fn package_download_url(mirror: &str, repo: &str, arch: &str, file_name: &str) -> (url: String)
    ensures
        url@ == path_in(mirror_url(mirror@, repo@, arch@), file_name@),
{
    let mut url = expand_mirror(mirror, repo, arch);
    url.append("/");
    url.append(file_name);
    url
}

/// `name` inside the directory `dir`: `{dir}/{name}`.
pub fn join_path(dir: &str, name: &str) -> (path: String)
    ensures
        path@ == path_in(dir@, name@),
{
    let mut path = String::from_str(dir);
    path.append("/");
    path.append(name);
    path
}

/// Where a downloaded package is decompressed to: its path with every
/// `.tar.zst` replaced by `.tar`.
pub fn decompressed_path(pkg_path: &str) -> (path: String)
    ensures
        path@ == replace_all(pkg_path@, ".tar.zst"@, ".tar"@),
{
    proof {
        reveal_strlit(".tar.zst");
    }
    replace_text(pkg_path, ".tar.zst", ".tar")
}

/// The largest package that is decompressed, in bytes.
pub const MAX_PACKAGE_SIZE: usize = 1000000000;

/// The decompressed contents of the zstd frames `data`; `None` where `data`
/// is not a sequence of zstd frames.
pub uninterp spec fn zstd_frames(data: Seq<u8>) -> Option<Seq<u8>>;

/// Calls `zstd::bulk::decompress(data, capacity)`. Claimed: data that are
/// not zstd frames give `None`; frames whose contents are at most `capacity`
/// bytes give those contents (the call decompresses into a buffer made with
/// `Vec::with_capacity(capacity)`, or with the smaller bound the frames
/// declare); and, as the function's documentation says, a result is never
/// longer than `capacity`.
#[verifier::external_body]
fn zstd_bulk_decompress(data: &[u8], capacity: usize) -> (r: Option<Vec<u8>>)
    ensures
        r matches Some(w) ==> zstd_frames(data@) == Some(w@) && w.len() <= capacity,
        zstd_frames(data@) is None ==> r is None,
        zstd_frames(data@) is Some && zstd_frames(data@)->0.len() <= capacity ==> r is Some
            && r->0@ == zstd_frames(data@)->0,
{
    zstd::bulk::decompress(data, capacity).ok()
}

/// The contents of a downloaded package, a zstd-compressed tarball, which may
/// be up to [`MAX_PACKAGE_SIZE`] bytes once decompressed: exactly the contents
/// of the frames where they are at most that long, and `None` where the data
/// are not zstd frames or decompress to more.
pub fn decompress_package(compressed: &[u8]) -> (tarball: Option<Vec<u8>>)
    ensures
        match zstd_frames(compressed@) {
            Some(v) => if v.len() <= MAX_PACKAGE_SIZE {
                tarball matches Some(t) && t@ == v
            } else {
                tarball is None
            },
            None => tarball is None,
        },
{
    zstd_bulk_decompress(compressed, MAX_PACKAGE_SIZE)
}

/// The contents of the first member of the gzip stream `data`.
pub uninterp spec fn gzip_decoded(data: Seq<u8>) -> Option<Seq<u8>>;

/// Calls `flate2::bufread::GzDecoder::new(data)` and reads it to its end.
/// Claimed: the result is `gzip_decoded(data)`; an error of the decoder is
/// `None`.
#[verifier::external_body]
fn gz_decode(data: &[u8]) -> (r: Option<Vec<u8>>)
    ensures
        match r {
            Some(v) => gzip_decoded(data@) == Some(v@),
            None => gzip_decoded(data@) is None,
        },
{
    let mut out = Vec::new();
    match flate2::bufread::GzDecoder::new(data).read_to_end(&mut out) {
        Ok(_) => Some(out),
        Err(_) => None,
    }
}

/// The repository database that a downloaded `.db` file holds, a tarball
/// compressed with gzip; `None` where it is not a gzip stream.
pub fn decompress_repo_db(compressed: &[u8]) -> (tarball: Option<Vec<u8>>)
    ensures
        match tarball {
            Some(v) => gzip_decoded(compressed@) == Some(v@),
            None => gzip_decoded(compressed@) is None,
        },
{
    gz_decode(compressed)
}

/// The text of a package's gzip-compressed `.MTREE` file; `None` where it is
/// not a gzip stream.
pub fn decompress_mtree(compressed: &[u8]) -> (mtree: Option<Vec<u8>>)
    ensures
        match mtree {
            Some(v) => gzip_decoded(compressed@) == Some(v@),
            None => gzip_decoded(compressed@) is None,
        },
{
    gz_decode(compressed)
}

} // verus!

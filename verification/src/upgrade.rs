//! Finding the installed packages that a repository has a newer build of.
use vstd::prelude::*;

use crate::database::{ArchDesc, PackageDesc};
use crate::install::{keep_selected, lemma_selected_all, lemma_selected_none, selected};
use crate::text::text_equals;

verus! {

/// Whether the repository's entry `available` differs in version from the
/// installed package `installed`.
pub open spec fn is_outdated(installed: PackageDesc, available: ArchDesc) -> bool {
    available.version@ != installed.pkgver@
}

/// For each installed package, whether its repository entry is another
/// version.
pub open spec fn outdated_flags(installed: Seq<PackageDesc>, available: Seq<ArchDesc>) -> Seq<bool> {
    Seq::new(installed.len(), |i: int| is_outdated(installed[i], available[i]))
}

/// The repository entries to upgrade to: `available[i]` is the repository's
/// entry for `installed[i]`, and an entry is kept, in order, when its version
/// is not the installed one.
pub fn upgradable(installed: &Vec<PackageDesc>, available: Vec<ArchDesc>) -> (upgrades: Vec<ArchDesc>)
    requires
        installed.len() == available.len(),
    ensures
        upgrades@ == selected(available@, outdated_flags(installed@, available@)),
{
    let mut flags: Vec<bool> = Vec::new();
    let mut k: usize = 0;
    while k < installed.len()
        invariant
            k <= installed.len(),
            installed.len() == available.len(),
            flags@ =~= outdated_flags(installed@, available@).take(k as int),
        decreases installed.len() - k,
    {
        let same = text_equals(available[k].version.as_str(), installed[k].pkgver.as_str());
        flags.push(!same);
        k = k + 1;
    }
    assert(flags@ =~= outdated_flags(installed@, available@));
    keep_selected(available, &flags)
}

/// When every installed package is at the version its repository entry has,
/// there is nothing to upgrade.
pub proof fn lemma_up_to_date_upgrades_nothing(installed: Seq<PackageDesc>, available: Seq<ArchDesc>)
    requires
        installed.len() == available.len(),
        forall|i: int| 0 <= i < installed.len() ==> #[trigger] available[i].version@ == installed[i].pkgver@,
    ensures
        selected(available, outdated_flags(installed, available)).len() == 0,
{
    lemma_selected_none(available, outdated_flags(installed, available));
}

/// An installed package counts as outdated exactly when the repository's
/// version text is not its installed version text: any difference at all,
/// also one that only extends the installed version.
pub proof fn lemma_outdated_iff_version_differs(installed: PackageDesc, available: ArchDesc)
    ensures
        is_outdated(installed, available) <==> available.version@ != installed.pkgver@,
{
}

/// When every repository entry has a version other than the installed one,
/// every entry is upgraded to, in order.
pub proof fn lemma_changed_versions_upgrade_all(installed: Seq<PackageDesc>, available: Seq<ArchDesc>)
    requires
        installed.len() == available.len(),
        forall|i: int| 0 <= i < installed.len() ==> #[trigger] available[i].version@ != installed[i].pkgver@,
    ensures
        selected(available, outdated_flags(installed, available)) == available,
{
    lemma_selected_all(available, outdated_flags(installed, available));
}

} // verus!

//! The program configuration and the mirror list.
use vstd::prelude::*;

use crate::text::{
    lemma_split_lines_extend_last, lemma_split_lines_nonempty,
    replace_all, replace_text, chars_of, contains_text, line_ranges, marks_lines, range_contains, split_lines, text_contains,
    text_equals,
};

verus! {

/// The whole configuration file.
#[derive(Debug)]
pub struct Config {
    pub general: General,
    pub mirrors: Mirrors,
}

/// The `[general]` table of the configuration.
#[derive(Debug)]
pub struct General {
    pub arch: String,
    pub db_path: String,
    pub download_path: String,
    pub no_cache: bool,
    pub enabled_repos: Vec<String>,
}

/// The `[mirrors]` table of the configuration.
#[derive(Debug)]
pub struct Mirrors {
    pub mirrorlist: String,
    pub max_ping: i32,
}

/// The architecture a configuration names, with `any` resolved to the
/// architecture `host_arch` of the CPU the program runs on.
pub open spec fn resolved_arch(arch: Seq<char>, host_arch: Seq<char>) -> Seq<char> {
    if arch == "any"@ {
        host_arch
    } else {
        arch
    }
}

/// A mirror line is usable when it has both the `$arch` and the `$repo`
/// placeholder.
pub open spec fn is_valid_mirror(mirror: Seq<char>) -> bool {
    contains_text(mirror, "$arch"@) && contains_text(mirror, "$repo"@)
}

/// A line of the mirror list is kept when it is not empty and is a valid
/// mirror.
pub open spec fn keeps_mirror_line(line: Seq<char>) -> bool {
    line.len() > 0 && is_valid_mirror(line)
}

/// The mirrors that a mirror list file holds: its lines, in order, without
/// the empty ones and those that are not valid mirrors.
pub open spec fn mirrorlist_mirrors(contents: Seq<char>) -> Seq<Seq<char>> {
    split_lines(contents).filter(|line: Seq<char>| keeps_mirror_line(line))
}

/// The architecture of the CPU this program runs on, as `host_arch` reports
/// it (the program passes in what the running system says).
pub fn get_cpu_arch(host_arch: &str) -> (arch: String)
    ensures
        arch@ == host_arch@,
{
    String::from_str(host_arch)
}

/// Whether `mirror` is structured as a mirror URL: it must hold both the
/// `$arch` and the `$repo` placeholder.
pub fn validate_mirror(mirror: &str) -> (valid: bool)
    ensures
        valid == is_valid_mirror(mirror@),
{
    text_contains(mirror, "$arch") && text_contains(mirror, "$repo")
}

/// The configuration as the program uses it: an architecture of `any` is
/// replaced by the architecture `host_arch` of the CPU the program runs on;
/// everything else stays as read.
pub fn resolve_config(config: Config, host_arch: &str) -> (resolved: Config)
    ensures
        resolved.general.arch@ == resolved_arch(config.general.arch@, host_arch@),
        resolved.general.db_path == config.general.db_path,
        resolved.general.download_path == config.general.download_path,
        resolved.general.no_cache == config.general.no_cache,
        resolved.general.enabled_repos == config.general.enabled_repos,
        resolved.mirrors == config.mirrors,
{
    let mut config = config;
    if text_equals(config.general.arch.as_str(), "any") {
        config.general.arch = get_cpu_arch(host_arch);
    }
    config
}

/// The mirrors listed in the contents of a mirror list file: every line that
/// is not empty and is a valid mirror, in the order of the file.
pub fn parse_mirrorlist(contents: &str) -> (mirrors: Vec<String>)
    ensures
        mirrors.deep_view() == mirrorlist_mirrors(contents@),
{
    let cs = chars_of(contents);
    let ranges = line_ranges(&cs);
    let arch_pat = chars_of("$arch");
    let repo_pat = chars_of("$repo");
    let ghost lines = split_lines(cs@);
    let ghost keep = |line: Seq<char>| keeps_mirror_line(line);
    let mut mirrors: Vec<String> = Vec::new();
    let mut k: usize = 0;
    assert(lines.take(0) =~= Seq::<Seq<char>>::empty());
    assert(mirrors.deep_view() =~= Seq::<Seq<char>>::empty());
    while k < ranges.len()
        invariant
            k <= ranges.len(),
            cs@ == contents@,
            lines == split_lines(cs@),
            marks_lines(cs@, ranges@),
            arch_pat@ == "$arch"@,
            repo_pat@ == "$repo"@,
            keep == (|line: Seq<char>| keeps_mirror_line(line)),
            mirrors.deep_view() == lines.take(k as int).filter(keep),
        decreases ranges.len() - k,
    {
        let (lo, hi) = ranges[k];
        let ghost line = cs@.subrange(lo as int, hi as int);
        assert(line == lines[k as int]);
        let ghost before = mirrors.deep_view();
        assert(lines.take(k + 1).drop_last() =~= lines.take(k as int));
        reveal_with_fuel(Seq::<_>::filter, 1);
        if lo < hi && range_contains(&cs, lo, hi, &arch_pat) && range_contains(
            &cs,
            lo,
            hi,
            &repo_pat,
        ) {
            let piece = contents.substring_char(lo, hi);
            mirrors.push(String::from_str(piece));
            assert(mirrors.deep_view() =~= before.push(line));
        } else {
            assert(mirrors.deep_view() =~= before);
        }
        k = k + 1;
    }
    assert(lines.take(k as int) =~= lines);
    mirrors
}

/// The address that `mirror` gives for the repository `repo` and the
/// architecture `arch`: `$repo` replaced by `repo`, then `$arch` by `arch`.
pub open spec fn mirror_url(mirror: Seq<char>, repo: Seq<char>, arch: Seq<char>) -> Seq<char> {
    replace_all(replace_all(mirror, "$repo"@, repo), "$arch"@, arch)
}

/// The address that `mirror` gives for the repository `repo` and the
/// architecture `arch`.
pub fn expand_mirror(mirror: &str, repo: &str, arch: &str) -> (url: String)
    ensures
        url@ == mirror_url(mirror@, repo@, arch@),
{
    proof {
        reveal_strlit("$repo");
        reveal_strlit("$arch");
    }
    let with_repo = replace_text(mirror, "$repo", repo);
    replace_text(with_repo.as_str(), "$arch", arch)
}

/// Every mirror that a mirror list yields is a non-empty line that holds both
/// placeholders.
pub proof fn lemma_listed_mirrors_are_valid(contents: Seq<char>)
    ensures
        forall|i: int|
            0 <= i < mirrorlist_mirrors(contents).len() ==> {
                &&& (#[trigger] mirrorlist_mirrors(contents)[i]).len() > 0
                &&& is_valid_mirror(mirrorlist_mirrors(contents)[i])
            },
{
    let keep = |line: Seq<char>| keeps_mirror_line(line);
    assert forall|i: int|
        0 <= i < mirrorlist_mirrors(contents).len() implies keeps_mirror_line(
        #[trigger] mirrorlist_mirrors(contents)[i],
    ) by {
        split_lines(contents).lemma_filter_pred(keep, i);
    }
}

/// Appending the line `mirror` (with its line break, as `writeln!` writes
/// it) to a mirror list that is empty or ends with a line break adds
/// `mirror` at the end of the mirrors it lists, when `mirror` is valid and
/// holds no line break.
pub proof fn lemma_added_mirror_is_listed(contents: Seq<char>, mirror: Seq<char>)
    requires
        contents.len() == 0 || contents.last() == '\n',
        forall|i: int| 0 <= i < mirror.len() ==> mirror[i] != '\n',
        mirror.len() > 0,
        is_valid_mirror(mirror),
    ensures
        mirrorlist_mirrors(contents + mirror + seq!['\n']) == mirrorlist_mirrors(contents).push(
            mirror,
        ),
{
    let keep = |line: Seq<char>| keeps_mirror_line(line);
    let ls = split_lines(contents);
    lemma_split_lines_extend_last(contents, mirror);
    if contents.len() > 0 {
        lemma_split_lines_nonempty(contents.drop_last());
    }
    assert(ls.last() =~= Seq::<char>::empty());
    let with_line = split_lines(contents + mirror);
    assert(with_line =~= ls.drop_last().push(mirror)) by {
        assert(ls.last() + mirror =~= mirror);
    }
    let whole = contents + mirror + seq!['\n'];
    assert(whole.drop_last() =~= contents + mirror);
    assert(whole.last() == '\n');
    assert(split_lines(whole) == with_line.push(Seq::<char>::empty()));
    reveal_with_fuel(Seq::<_>::filter, 3);
    assert(ls.drop_last().push(ls.last()) =~= ls);
    assert(with_line.push(Seq::<char>::empty()).drop_last() =~= with_line);
    assert(with_line.drop_last() =~= ls.drop_last());
    assert(split_lines(whole).filter(keep) == with_line.filter(keep));
    assert(with_line.filter(keep) == ls.drop_last().filter(keep).push(mirror));
    assert(ls.filter(keep) == ls.drop_last().filter(keep));
}

/// Resolving the architecture of a resolved configuration on the same host
/// changes nothing, unless the host itself reports the architecture `any`.
pub proof fn lemma_resolve_idempotent(arch: Seq<char>, host_arch: Seq<char>)
    requires
        host_arch != "any"@,
    ensures
        resolved_arch(resolved_arch(arch, host_arch), host_arch) == resolved_arch(arch, host_arch),
{
}

/// A mirror is valid exactly when it holds both the `$arch` and the `$repo`
/// placeholder, whatever else it holds (its scheme, host or path).
pub proof fn lemma_valid_mirror_iff_placeholders(mirror: Seq<char>)
    ensures
        is_valid_mirror(mirror) <==> (contains_text(mirror, "$arch"@) && contains_text(
            mirror,
            "$repo"@,
        )),
{
}

/// A non-empty line that holds both placeholders, appended to a mirror list
/// that is empty or ends with a line break, is listed last, whatever else it
/// holds.
pub proof fn lemma_placeholder_line_is_listed(contents: Seq<char>, mirror: Seq<char>)
    requires
        contents.len() == 0 || contents.last() == '\n',
        forall|i: int| 0 <= i < mirror.len() ==> mirror[i] != '\n',
        mirror.len() > 0,
        contains_text(mirror, "$arch"@),
        contains_text(mirror, "$repo"@),
    ensures
        mirrorlist_mirrors(contents + mirror + seq!['\n']) == mirrorlist_mirrors(contents).push(
            mirror,
        ),
{
    lemma_added_mirror_is_listed(contents, mirror);
}

} // verus!

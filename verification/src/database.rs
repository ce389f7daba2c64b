//! The local package database and the `desc` records of the synced
//! repository databases.
use vstd::prelude::*;

use crate::api::SearchResult;
use crate::config::{expand_mirror, mirror_url};
use crate::text::{
    lemma_split_lines_concat, lemma_split_lines_extend_last,
    chars_of, contains_text, occurs_at, text_contains, text_equals, line_ranges, marks_lines, parse_i32, parse_i32_range, parse_i64, parse_i64_range,
    range_equals, split_lines,
};

verus! {

/// An installed package as the local database records it.
#[derive(Debug)]
pub struct InstalledPackage {
    pub desc: PackageDesc,
    pub files: Vec<String>,
}

/// The description of an installed package.
#[derive(Debug)]
pub struct PackageDesc {
    pub pkgname: String,
    pub pkgbase: String,
    pub pkgver: String,
    pub pkgdesc: String,
    pub url: String,
    pub build_date: String,
    pub packager: String,
    pub size: i64,
    pub arch: String,
    pub licenses: Vec<String>,
    pub dependencies: Vec<String>,
    pub dependencies_optional: Vec<String>,
}

/// A package entry of a repository database, read from its `desc` file.
#[derive(Debug, Clone)]
pub struct ArchDesc {
    pub file_name: String,
    pub name: String,
    pub base: String,
    pub version: String,
    pub desc: String,
    /// Compressed size.
    pub csize: i32,
    /// Installed size.
    pub size: i32,
    pub md5s: String,
    pub sha256: String,
    pub pgpsig: String,
    pub url: String,
    pub license: String,
    pub arch: String,
    pub build_date: i64,
    pub packager: String,
    pub depends: Vec<String>,
    pub opt_depends: Vec<String>,
}

/// The contents of an [`ArchDesc`] as plain values.
#[verifier::ext_equal]
pub struct DescRecord {
    pub file_name: Seq<char>,
    pub name: Seq<char>,
    pub base: Seq<char>,
    pub version: Seq<char>,
    pub desc: Seq<char>,
    pub csize: i32,
    pub size: i32,
    pub md5s: Seq<char>,
    pub sha256: Seq<char>,
    pub pgpsig: Seq<char>,
    pub url: Seq<char>,
    pub license: Seq<char>,
    pub arch: Seq<char>,
    pub build_date: i64,
    pub packager: Seq<char>,
    pub depends: Seq<Seq<char>>,
    pub opt_depends: Seq<Seq<char>>,
}

impl View for ArchDesc {
    type V = DescRecord;

    open spec fn view(&self) -> DescRecord {
        DescRecord {
            file_name: self.file_name@,
            name: self.name@,
            base: self.base@,
            version: self.version@,
            desc: self.desc@,
            csize: self.csize,
            size: self.size,
            md5s: self.md5s@,
            sha256: self.sha256@,
            pgpsig: self.pgpsig@,
            url: self.url@,
            license: self.license@,
            arch: self.arch@,
            build_date: self.build_date,
            packager: self.packager@,
            depends: self.depends.deep_view(),
            opt_depends: self.opt_depends.deep_view(),
        }
    }
}

/// The kinds of line that a `desc` file gives a meaning to.
pub enum DescKey {
    FileName,
    Name,
    Base,
    Version,
    Desc,
    CSize,
    ISize,
    Md5Sum,
    Sha256Sum,
    PgpSig,
    Url,
    License,
    Arch,
    BuildDate,
    Packager,
    Depends,
    OptDepends,
    Other,
}

/// What a line of a `desc` file announces.
pub open spec fn desc_key(line: Seq<char>) -> DescKey {
    if line == "%FILENAME%"@ {
        DescKey::FileName
    } else if line == "%NAME%"@ {
        DescKey::Name
    } else if line == "%BASE%"@ {
        DescKey::Base
    } else if line == "%VERSION%"@ {
        DescKey::Version
    } else if line == "%DESC%"@ {
        DescKey::Desc
    } else if line == "%CSIZE%"@ {
        DescKey::CSize
    } else if line == "%ISIZE%"@ {
        DescKey::ISize
    } else if line == "%MD5SUM%"@ {
        DescKey::Md5Sum
    } else if line == "%SHA256SUM%"@ {
        DescKey::Sha256Sum
    } else if line == "%PGPSIG%"@ {
        DescKey::PgpSig
    } else if line == "%URL%"@ {
        DescKey::Url
    } else if line == "%LICENSE%"@ {
        DescKey::License
    } else if line == "%ARCH%"@ {
        DescKey::Arch
    } else if line == "%BUILDDATE%"@ {
        DescKey::BuildDate
    } else if line == "%PACKAGER%"@ {
        DescKey::Packager
    } else if line == "%DEPENDS%"@ {
        DescKey::Depends
    } else if line == "%OPTDEPENDS%"@ {
        DescKey::OptDepends
    } else {
        DescKey::Other
    }
}

/// The record that a `desc` file starts from before any line is read.
pub open spec fn empty_record() -> DescRecord {
    DescRecord {
        file_name: Seq::empty(),
        name: Seq::empty(),
        base: Seq::empty(),
        version: Seq::empty(),
        desc: Seq::empty(),
        csize: 0,
        size: 0,
        md5s: Seq::empty(),
        sha256: Seq::empty(),
        pgpsig: Seq::empty(),
        url: Seq::empty(),
        license: Seq::empty(),
        arch: Seq::empty(),
        build_date: 0,
        packager: Seq::empty(),
        depends: Seq::empty(),
        opt_depends: Seq::empty(),
    }
}

/// The lines from `j` on, up to (not including) the first empty one.
pub open spec fn block_lines(ls: Seq<Seq<char>>, j: int) -> Seq<Seq<char>>
    decreases ls.len() - j,
{
    if j < 0 || j >= ls.len() || ls[j].len() == 0 {
        Seq::empty()
    } else {
        seq![ls[j]] + block_lines(ls, j + 1)
    }
}

/// Whether an empty line follows, at `j` or later.
pub open spec fn block_closed(ls: Seq<Seq<char>>, j: int) -> bool
    decreases ls.len() - j,
{
    &&& 0 <= j < ls.len()
    &&& (ls[j].len() == 0 || block_closed(ls, j + 1))
}

/// The record after reading line `i` of `ls`: a key line sets its field to
/// the next line (a number for the sizes and the build date), and a
/// dependency key appends the lines up to the next empty line.
pub open spec fn desc_step(ls: Seq<Seq<char>>, i: int, r: DescRecord) -> DescRecord {
    let v = ls[i + 1];
    match desc_key(ls[i]) {
        DescKey::FileName => DescRecord { file_name: v, ..r },
        DescKey::Name => DescRecord { name: v, ..r },
        DescKey::Base => DescRecord { base: v, ..r },
        DescKey::Version => DescRecord { version: v, ..r },
        DescKey::Desc => DescRecord { desc: v, ..r },
        DescKey::CSize => DescRecord { csize: parse_i32(v).unwrap(), ..r },
        DescKey::ISize => DescRecord { size: parse_i32(v).unwrap(), ..r },
        DescKey::Md5Sum => DescRecord { md5s: v, ..r },
        DescKey::Sha256Sum => DescRecord { sha256: v, ..r },
        DescKey::PgpSig => DescRecord { pgpsig: v, ..r },
        DescKey::Url => DescRecord { url: v, ..r },
        DescKey::License => DescRecord { license: v, ..r },
        DescKey::Arch => DescRecord { arch: v, ..r },
        DescKey::BuildDate => DescRecord { build_date: parse_i64(v).unwrap(), ..r },
        DescKey::Packager => DescRecord { packager: v, ..r },
        DescKey::Depends => DescRecord { depends: r.depends + block_lines(ls, i + 1), ..r },
        DescKey::OptDepends => DescRecord {
            opt_depends: r.opt_depends + block_lines(ls, i + 1),
            ..r
        },
        DescKey::Other => r,
    }
}

/// The record after reading the first `n` lines of `ls`, one after another.
pub open spec fn desc_fold(ls: Seq<Seq<char>>, n: int) -> DescRecord
    decreases n,
{
    if n <= 0 {
        empty_record()
    } else {
        desc_step(ls, n - 1, desc_fold(ls, n - 1))
    }
}

/// The record that a `desc` file describes, reading all its lines in turn.
pub open spec fn desc_record(text: Seq<char>) -> DescRecord {
    let ls = split_lines(text);
    desc_fold(ls, ls.len() as int)
}

/// Whether line `i` of `ls` can be read: a key line is followed by its value
/// (a number that fits for the sizes and the build date), and a dependency
/// key by a list that an empty line closes.
pub open spec fn line_readable(ls: Seq<Seq<char>>, i: int) -> bool {
    match desc_key(ls[i]) {
        DescKey::Other => true,
        DescKey::CSize | DescKey::ISize => i + 1 < ls.len() && parse_i32(ls[i + 1]) is Some,
        DescKey::BuildDate => i + 1 < ls.len() && parse_i64(ls[i + 1]) is Some,
        DescKey::Depends | DescKey::OptDepends => block_closed(ls, i + 1),
        _ => i + 1 < ls.len(),
    }
}

/// Whether every line of a `desc` file can be read.
pub open spec fn desc_well_formed(text: Seq<char>) -> bool {
    let ls = split_lines(text);
    forall|i: int| 0 <= i < ls.len() ==> line_readable(ls, i)
}

/// An empty line announces nothing.
proof fn lemma_empty_line_announces_nothing()
    ensures
        desc_key(Seq::<char>::empty()) is Other,
{
    reveal_strlit("%FILENAME%");
    assert("%FILENAME%"@.len() > 0);
    reveal_strlit("%NAME%");
    assert("%NAME%"@.len() > 0);
    reveal_strlit("%BASE%");
    assert("%BASE%"@.len() > 0);
    reveal_strlit("%VERSION%");
    assert("%VERSION%"@.len() > 0);
    reveal_strlit("%DESC%");
    assert("%DESC%"@.len() > 0);
    reveal_strlit("%CSIZE%");
    assert("%CSIZE%"@.len() > 0);
    reveal_strlit("%ISIZE%");
    assert("%ISIZE%"@.len() > 0);
    reveal_strlit("%MD5SUM%");
    assert("%MD5SUM%"@.len() > 0);
    reveal_strlit("%SHA256SUM%");
    assert("%SHA256SUM%"@.len() > 0);
    reveal_strlit("%PGPSIG%");
    assert("%PGPSIG%"@.len() > 0);
    reveal_strlit("%URL%");
    assert("%URL%"@.len() > 0);
    reveal_strlit("%LICENSE%");
    assert("%LICENSE%"@.len() > 0);
    reveal_strlit("%ARCH%");
    assert("%ARCH%"@.len() > 0);
    reveal_strlit("%BUILDDATE%");
    assert("%BUILDDATE%"@.len() > 0);
    reveal_strlit("%PACKAGER%");
    assert("%PACKAGER%"@.len() > 0);
    reveal_strlit("%DEPENDS%");
    assert("%DEPENDS%"@.len() > 0);
    reveal_strlit("%OPTDEPENDS%");
    assert("%OPTDEPENDS%"@.len() > 0);
}

/// Lines in front of `ls` shift its dependency lists without changing them.
proof fn lemma_block_shift(pre: Seq<Seq<char>>, ls: Seq<Seq<char>>, j: int)
    requires
        j >= 0,
    ensures
        block_lines(pre + ls, j + pre.len()) == block_lines(ls, j),
        block_closed(pre + ls, j + pre.len()) == block_closed(ls, j),
    decreases ls.len() - j,
{
    if j < ls.len() {
        assert((pre + ls)[j + pre.len()] == ls[j]);
        lemma_block_shift(pre, ls, j + 1);
    }
}

/// Lines in front of `ls` leave what a line of `ls` reads, and whether it
/// can be read, unchanged.
proof fn lemma_step_shift(pre: Seq<Seq<char>>, ls: Seq<Seq<char>>, k: int, r: DescRecord)
    requires
        0 <= k < ls.len(),
    ensures
        line_readable(pre + ls, k + pre.len()) == line_readable(ls, k),
        line_readable(ls, k) ==> desc_step(pre + ls, k + pre.len(), r) == desc_step(ls, k, r),
{
    let all = pre + ls;
    assert(all[k + pre.len()] == ls[k]);
    if k + 1 < ls.len() {
        assert(all[k + pre.len() + 1] == ls[k + 1]);
    }
    lemma_block_shift(pre, ls, k + 1);
}

/// Three leading lines that announce nothing leave the record of the lines
/// after them unchanged.
proof fn lemma_fold_shift(pre: Seq<Seq<char>>, ls: Seq<Seq<char>>, k: int)
    requires
        pre.len() == 3,
        forall|i: int| 0 <= i < 3 ==> desc_key(#[trigger] pre[i]) is Other,
        forall|i: int| 0 <= i < ls.len() ==> line_readable(ls, i),
        0 <= k <= ls.len(),
    ensures
        desc_fold(pre + ls, k + 3) == desc_fold(ls, k),
    decreases k,
{
    let all = pre + ls;
    if k == 0 {
        assert(all[0] == pre[0] && all[1] == pre[1] && all[2] == pre[2]);
        assert(desc_key(pre[0]) is Other && desc_key(pre[1]) is Other && desc_key(pre[2]) is Other);
        assert(desc_fold(all, 0) == empty_record());
        assert(desc_fold(all, 1) == empty_record());
        assert(desc_fold(all, 2) == empty_record());
        assert(desc_fold(all, 3) == empty_record());
    } else {
        lemma_fold_shift(pre, ls, k - 1);
        lemma_step_shift(pre, ls, k - 1, desc_fold(ls, k - 1));
        assert(desc_fold(all, k + 3) == desc_step(all, k + 2, desc_fold(all, k + 2)));
    }
}

/// A `desc` file that starts with a line that is not a key, any other line
/// that is not a key and an empty line reads as the rest of the file does, and
/// can be read exactly when the rest can.
pub proof fn lemma_unknown_leading_entry_ignored(u: Seq<char>, v: Seq<char>, desc: Seq<char>)
    requires
        forall|i: int| 0 <= i < u.len() ==> u[i] != '\n',
        forall|i: int| 0 <= i < v.len() ==> v[i] != '\n',
        desc_key(u) is Other,
        desc_key(v) is Other,
        desc_well_formed(desc),
    ensures
        desc_well_formed(u + seq!['\n'] + v + seq!['\n', '\n'] + desc),
        desc_record(u + seq!['\n'] + v + seq!['\n', '\n'] + desc) == desc_record(desc),
{
    let e = Seq::<char>::empty();
    let p1 = u + seq!['\n'];
    let p2 = p1 + v;
    let p3 = p2 + seq!['\n'];
    let p4 = p3 + seq!['\n'];
    assert(split_lines(e) == seq![e]);
    lemma_split_lines_extend_last(e, u);
    assert(e + u =~= u);
    assert(split_lines(u) =~= seq![u]);
    assert(p1.drop_last() =~= u);
    assert(split_lines(p1) =~= seq![u, e]);
    lemma_split_lines_extend_last(p1, v);
    assert(e + v =~= v);
    assert(split_lines(p2) =~= seq![u, v]);
    assert(p3.drop_last() =~= p2);
    assert(split_lines(p3) =~= seq![u, v, e]);
    assert(p4.drop_last() =~= p3);
    assert(split_lines(p4) =~= seq![u, v, e, e]);
    let text = u + seq!['\n'] + v + seq!['\n', '\n'] + desc;
    assert(text =~= p4 + desc);
    lemma_split_lines_concat(p4, desc);
    let ls = split_lines(desc);
    let pre = seq![u, v, e];
    assert(seq![u, v, e, e].drop_last() =~= pre);
    assert(split_lines(text) == pre + ls);
    lemma_empty_line_announces_nothing();
    assert(forall|i: int| 0 <= i < 3 ==> desc_key(#[trigger] pre[i]) is Other) by {
        assert(pre[0] == u && pre[1] == v && pre[2] == e);
    }
    lemma_fold_shift(pre, ls, ls.len() as int);
    let all = pre + ls;
    assert forall|i: int| 0 <= i < all.len() implies line_readable(all, i) by {
        if i < 3 {
            assert(all[i] == pre[i]);
        } else {
            lemma_step_shift(pre, ls, i - 3, empty_record());
        }
    }
}

/// Whether the characters of `cs` from `lo` up to `hi` are the text `lit`.
fn range_is(cs: &Vec<char>, lo: usize, hi: usize, lit: &str) -> (b: bool)
    requires
        lo <= hi <= cs.len(),
    ensures
        b == (cs@.subrange(lo as int, hi as int) == lit@),
{
    let l = chars_of(lit);
    range_equals(cs, lo, hi, &l)
}

/// What the line of `cs` from `lo` up to `hi` announces.
fn classify_line(cs: &Vec<char>, lo: usize, hi: usize) -> (k: DescKey)
    requires
        lo <= hi <= cs.len(),
    ensures
        k == desc_key(cs@.subrange(lo as int, hi as int)),
{
    if range_is(cs, lo, hi, "%FILENAME%") {
        DescKey::FileName
    } else if range_is(cs, lo, hi, "%NAME%") {
        DescKey::Name
    } else if range_is(cs, lo, hi, "%BASE%") {
        DescKey::Base
    } else if range_is(cs, lo, hi, "%VERSION%") {
        DescKey::Version
    } else if range_is(cs, lo, hi, "%DESC%") {
        DescKey::Desc
    } else if range_is(cs, lo, hi, "%CSIZE%") {
        DescKey::CSize
    } else if range_is(cs, lo, hi, "%ISIZE%") {
        DescKey::ISize
    } else if range_is(cs, lo, hi, "%MD5SUM%") {
        DescKey::Md5Sum
    } else if range_is(cs, lo, hi, "%SHA256SUM%") {
        DescKey::Sha256Sum
    } else if range_is(cs, lo, hi, "%PGPSIG%") {
        DescKey::PgpSig
    } else if range_is(cs, lo, hi, "%URL%") {
        DescKey::Url
    } else if range_is(cs, lo, hi, "%LICENSE%") {
        DescKey::License
    } else if range_is(cs, lo, hi, "%ARCH%") {
        DescKey::Arch
    } else if range_is(cs, lo, hi, "%BUILDDATE%") {
        DescKey::BuildDate
    } else if range_is(cs, lo, hi, "%PACKAGER%") {
        DescKey::Packager
    } else if range_is(cs, lo, hi, "%DEPENDS%") {
        DescKey::Depends
    } else if range_is(cs, lo, hi, "%OPTDEPENDS%") {
        DescKey::OptDepends
    } else {
        DescKey::Other
    }
}

/// The text of line `j` of `desc`, whose characters are `cs` and whose lines
/// `ranges` marks out.
fn line_text(desc: &str, cs: &Vec<char>, ranges: &Vec<(usize, usize)>, j: usize) -> (t: String)
    requires
        cs@ == desc@,
        marks_lines(cs@, ranges@),
        j < ranges.len(),
    ensures
        t@ == split_lines(cs@)[j as int],
{
    let (lo, hi) = ranges[j];
    String::from_str(desc.substring_char(lo, hi))
}

/// Appends to `list` the lines of `desc` from `start` up to the next empty
/// line.
fn read_block(
    desc: &str,
    cs: &Vec<char>,
    ranges: &Vec<(usize, usize)>,
    start: usize,
    list: &mut Vec<String>,
)
    requires
        cs@ == desc@,
        marks_lines(cs@, ranges@),
        block_closed(split_lines(cs@), start as int),
    ensures
        final(list).deep_view() == old(list).deep_view() + block_lines(split_lines(cs@), start as int),
{
    let ghost ls = split_lines(cs@);
    let ghost base = list.deep_view();
    let mut x = start;
    assert(list.deep_view() + block_lines(ls, start as int) =~= base + block_lines(ls, start as int));
    while ranges[x].0 < ranges[x].1
        invariant
            cs@ == desc@,
            marks_lines(cs@, ranges@),
            ls == split_lines(cs@),
            start <= x,
            block_closed(ls, x as int),
            list.deep_view() + block_lines(ls, x as int) == base + block_lines(ls, start as int),
        decreases ranges.len() - x,
    {
        let ghost before = list.deep_view();
        let t = line_text(desc, cs, ranges, x);
        list.push(t);
        assert(list.deep_view() =~= before.push(ls[x as int]));
        x = x + 1;
        assert(before + block_lines(ls, x - 1) =~= list.deep_view() + block_lines(ls, x as int));
    }
    assert(block_lines(ls, x as int) =~= Seq::<Seq<char>>::empty());
    assert(list.deep_view() =~= list.deep_view() + block_lines(ls, x as int));
}

/// A line that is none of the seventeen key texts announces nothing: such a
/// line (`%MAKEDEPENDS%`, `%CHECKDEPENDS%`, a value) is skipped.
pub proof fn lemma_unknown_line_announces_nothing(line: Seq<char>)
    requires
        line != "%FILENAME%"@,
        line != "%NAME%"@,
        line != "%BASE%"@,
        line != "%VERSION%"@,
        line != "%DESC%"@,
        line != "%CSIZE%"@,
        line != "%ISIZE%"@,
        line != "%MD5SUM%"@,
        line != "%SHA256SUM%"@,
        line != "%PGPSIG%"@,
        line != "%URL%"@,
        line != "%LICENSE%"@,
        line != "%ARCH%"@,
        line != "%BUILDDATE%"@,
        line != "%PACKAGER%"@,
        line != "%DEPENDS%"@,
        line != "%OPTDEPENDS%"@,
    ensures
        desc_key(line) is Other,
{
}

/// Each of the seventeen key texts announces its own field.
pub proof fn lemma_key_texts()
    ensures
        desc_key("%FILENAME%"@) is FileName,
        desc_key("%NAME%"@) is Name,
        desc_key("%BASE%"@) is Base,
        desc_key("%VERSION%"@) is Version,
        desc_key("%DESC%"@) is Desc,
        desc_key("%CSIZE%"@) is CSize,
        desc_key("%ISIZE%"@) is ISize,
        desc_key("%MD5SUM%"@) is Md5Sum,
        desc_key("%SHA256SUM%"@) is Sha256Sum,
        desc_key("%PGPSIG%"@) is PgpSig,
        desc_key("%URL%"@) is Url,
        desc_key("%LICENSE%"@) is License,
        desc_key("%ARCH%"@) is Arch,
        desc_key("%BUILDDATE%"@) is BuildDate,
        desc_key("%PACKAGER%"@) is Packager,
        desc_key("%DEPENDS%"@) is Depends,
        desc_key("%OPTDEPENDS%"@) is OptDepends,
{
    reveal_strlit("%FILENAME%");
    reveal_strlit("%NAME%");
    reveal_strlit("%BASE%");
    reveal_strlit("%VERSION%");
    reveal_strlit("%DESC%");
    reveal_strlit("%CSIZE%");
    reveal_strlit("%ISIZE%");
    reveal_strlit("%MD5SUM%");
    reveal_strlit("%SHA256SUM%");
    reveal_strlit("%PGPSIG%");
    reveal_strlit("%URL%");
    reveal_strlit("%LICENSE%");
    reveal_strlit("%ARCH%");
    reveal_strlit("%BUILDDATE%");
    reveal_strlit("%PACKAGER%");
    reveal_strlit("%DEPENDS%");
    reveal_strlit("%OPTDEPENDS%");
    assert("%NAME%"@.len() != "%FILENAME%"@.len());
    assert("%BASE%"@.len() != "%FILENAME%"@.len());
    assert("%BASE%"@[1] != "%NAME%"@[1]);
    assert("%VERSION%"@.len() != "%FILENAME%"@.len());
    assert("%VERSION%"@.len() != "%NAME%"@.len());
    assert("%VERSION%"@.len() != "%BASE%"@.len());
    assert("%DESC%"@.len() != "%FILENAME%"@.len());
    assert("%DESC%"@[1] != "%NAME%"@[1]);
    assert("%DESC%"@[1] != "%BASE%"@[1]);
    assert("%DESC%"@.len() != "%VERSION%"@.len());
    assert("%CSIZE%"@.len() != "%FILENAME%"@.len());
    assert("%CSIZE%"@.len() != "%NAME%"@.len());
    assert("%CSIZE%"@.len() != "%BASE%"@.len());
    assert("%CSIZE%"@.len() != "%VERSION%"@.len());
    assert("%CSIZE%"@.len() != "%DESC%"@.len());
    assert("%ISIZE%"@.len() != "%FILENAME%"@.len());
    assert("%ISIZE%"@.len() != "%NAME%"@.len());
    assert("%ISIZE%"@.len() != "%BASE%"@.len());
    assert("%ISIZE%"@.len() != "%VERSION%"@.len());
    assert("%ISIZE%"@.len() != "%DESC%"@.len());
    assert("%ISIZE%"@[1] != "%CSIZE%"@[1]);
    assert("%MD5SUM%"@.len() != "%FILENAME%"@.len());
    assert("%MD5SUM%"@.len() != "%NAME%"@.len());
    assert("%MD5SUM%"@.len() != "%BASE%"@.len());
    assert("%MD5SUM%"@.len() != "%VERSION%"@.len());
    assert("%MD5SUM%"@.len() != "%DESC%"@.len());
    assert("%MD5SUM%"@.len() != "%CSIZE%"@.len());
    assert("%MD5SUM%"@.len() != "%ISIZE%"@.len());
    assert("%SHA256SUM%"@.len() != "%FILENAME%"@.len());
    assert("%SHA256SUM%"@.len() != "%NAME%"@.len());
    assert("%SHA256SUM%"@.len() != "%BASE%"@.len());
    assert("%SHA256SUM%"@.len() != "%VERSION%"@.len());
    assert("%SHA256SUM%"@.len() != "%DESC%"@.len());
    assert("%SHA256SUM%"@.len() != "%CSIZE%"@.len());
    assert("%SHA256SUM%"@.len() != "%ISIZE%"@.len());
    assert("%SHA256SUM%"@.len() != "%MD5SUM%"@.len());
    assert("%PGPSIG%"@.len() != "%FILENAME%"@.len());
    assert("%PGPSIG%"@.len() != "%NAME%"@.len());
    assert("%PGPSIG%"@.len() != "%BASE%"@.len());
    assert("%PGPSIG%"@.len() != "%VERSION%"@.len());
    assert("%PGPSIG%"@.len() != "%DESC%"@.len());
    assert("%PGPSIG%"@.len() != "%CSIZE%"@.len());
    assert("%PGPSIG%"@.len() != "%ISIZE%"@.len());
    assert("%PGPSIG%"@[1] != "%MD5SUM%"@[1]);
    assert("%PGPSIG%"@.len() != "%SHA256SUM%"@.len());
    assert("%URL%"@.len() != "%FILENAME%"@.len());
    assert("%URL%"@.len() != "%NAME%"@.len());
    assert("%URL%"@.len() != "%BASE%"@.len());
    assert("%URL%"@.len() != "%VERSION%"@.len());
    assert("%URL%"@.len() != "%DESC%"@.len());
    assert("%URL%"@.len() != "%CSIZE%"@.len());
    assert("%URL%"@.len() != "%ISIZE%"@.len());
    assert("%URL%"@.len() != "%MD5SUM%"@.len());
    assert("%URL%"@.len() != "%SHA256SUM%"@.len());
    assert("%URL%"@.len() != "%PGPSIG%"@.len());
    assert("%LICENSE%"@.len() != "%FILENAME%"@.len());
    assert("%LICENSE%"@.len() != "%NAME%"@.len());
    assert("%LICENSE%"@.len() != "%BASE%"@.len());
    assert("%LICENSE%"@[1] != "%VERSION%"@[1]);
    assert("%LICENSE%"@.len() != "%DESC%"@.len());
    assert("%LICENSE%"@.len() != "%CSIZE%"@.len());
    assert("%LICENSE%"@.len() != "%ISIZE%"@.len());
    assert("%LICENSE%"@.len() != "%MD5SUM%"@.len());
    assert("%LICENSE%"@.len() != "%SHA256SUM%"@.len());
    assert("%LICENSE%"@.len() != "%PGPSIG%"@.len());
    assert("%LICENSE%"@.len() != "%URL%"@.len());
    assert("%ARCH%"@.len() != "%FILENAME%"@.len());
    assert("%ARCH%"@[1] != "%NAME%"@[1]);
    assert("%ARCH%"@[1] != "%BASE%"@[1]);
    assert("%ARCH%"@.len() != "%VERSION%"@.len());
    assert("%ARCH%"@[1] != "%DESC%"@[1]);
    assert("%ARCH%"@.len() != "%CSIZE%"@.len());
    assert("%ARCH%"@.len() != "%ISIZE%"@.len());
    assert("%ARCH%"@.len() != "%MD5SUM%"@.len());
    assert("%ARCH%"@.len() != "%SHA256SUM%"@.len());
    assert("%ARCH%"@.len() != "%PGPSIG%"@.len());
    assert("%ARCH%"@.len() != "%URL%"@.len());
    assert("%ARCH%"@.len() != "%LICENSE%"@.len());
    assert("%BUILDDATE%"@.len() != "%FILENAME%"@.len());
    assert("%BUILDDATE%"@.len() != "%NAME%"@.len());
    assert("%BUILDDATE%"@.len() != "%BASE%"@.len());
    assert("%BUILDDATE%"@.len() != "%VERSION%"@.len());
    assert("%BUILDDATE%"@.len() != "%DESC%"@.len());
    assert("%BUILDDATE%"@.len() != "%CSIZE%"@.len());
    assert("%BUILDDATE%"@.len() != "%ISIZE%"@.len());
    assert("%BUILDDATE%"@.len() != "%MD5SUM%"@.len());
    assert("%BUILDDATE%"@[1] != "%SHA256SUM%"@[1]);
    assert("%BUILDDATE%"@.len() != "%PGPSIG%"@.len());
    assert("%BUILDDATE%"@.len() != "%URL%"@.len());
    assert("%BUILDDATE%"@.len() != "%LICENSE%"@.len());
    assert("%BUILDDATE%"@.len() != "%ARCH%"@.len());
    assert("%PACKAGER%"@[1] != "%FILENAME%"@[1]);
    assert("%PACKAGER%"@.len() != "%NAME%"@.len());
    assert("%PACKAGER%"@.len() != "%BASE%"@.len());
    assert("%PACKAGER%"@.len() != "%VERSION%"@.len());
    assert("%PACKAGER%"@.len() != "%DESC%"@.len());
    assert("%PACKAGER%"@.len() != "%CSIZE%"@.len());
    assert("%PACKAGER%"@.len() != "%ISIZE%"@.len());
    assert("%PACKAGER%"@.len() != "%MD5SUM%"@.len());
    assert("%PACKAGER%"@.len() != "%SHA256SUM%"@.len());
    assert("%PACKAGER%"@.len() != "%PGPSIG%"@.len());
    assert("%PACKAGER%"@.len() != "%URL%"@.len());
    assert("%PACKAGER%"@.len() != "%LICENSE%"@.len());
    assert("%PACKAGER%"@.len() != "%ARCH%"@.len());
    assert("%PACKAGER%"@.len() != "%BUILDDATE%"@.len());
    assert("%DEPENDS%"@.len() != "%FILENAME%"@.len());
    assert("%DEPENDS%"@.len() != "%NAME%"@.len());
    assert("%DEPENDS%"@.len() != "%BASE%"@.len());
    assert("%DEPENDS%"@[1] != "%VERSION%"@[1]);
    assert("%DEPENDS%"@.len() != "%DESC%"@.len());
    assert("%DEPENDS%"@.len() != "%CSIZE%"@.len());
    assert("%DEPENDS%"@.len() != "%ISIZE%"@.len());
    assert("%DEPENDS%"@.len() != "%MD5SUM%"@.len());
    assert("%DEPENDS%"@.len() != "%SHA256SUM%"@.len());
    assert("%DEPENDS%"@.len() != "%PGPSIG%"@.len());
    assert("%DEPENDS%"@.len() != "%URL%"@.len());
    assert("%DEPENDS%"@[1] != "%LICENSE%"@[1]);
    assert("%DEPENDS%"@.len() != "%ARCH%"@.len());
    assert("%DEPENDS%"@.len() != "%BUILDDATE%"@.len());
    assert("%DEPENDS%"@.len() != "%PACKAGER%"@.len());
    assert("%OPTDEPENDS%"@.len() != "%FILENAME%"@.len());
    assert("%OPTDEPENDS%"@.len() != "%NAME%"@.len());
    assert("%OPTDEPENDS%"@.len() != "%BASE%"@.len());
    assert("%OPTDEPENDS%"@.len() != "%VERSION%"@.len());
    assert("%OPTDEPENDS%"@.len() != "%DESC%"@.len());
    assert("%OPTDEPENDS%"@.len() != "%CSIZE%"@.len());
    assert("%OPTDEPENDS%"@.len() != "%ISIZE%"@.len());
    assert("%OPTDEPENDS%"@.len() != "%MD5SUM%"@.len());
    assert("%OPTDEPENDS%"@.len() != "%SHA256SUM%"@.len());
    assert("%OPTDEPENDS%"@.len() != "%PGPSIG%"@.len());
    assert("%OPTDEPENDS%"@.len() != "%URL%"@.len());
    assert("%OPTDEPENDS%"@.len() != "%LICENSE%"@.len());
    assert("%OPTDEPENDS%"@.len() != "%ARCH%"@.len());
    assert("%OPTDEPENDS%"@.len() != "%BUILDDATE%"@.len());
    assert("%OPTDEPENDS%"@.len() != "%PACKAGER%"@.len());
    assert("%OPTDEPENDS%"@.len() != "%DEPENDS%"@.len());
}

/// A dependency list is the lines from `j` on up to the first empty line or
/// the end: each is a line of `ls`, in order, none of them is empty, and the
/// line after them is empty or past the end.
pub proof fn lemma_block_lines_span(ls: Seq<Seq<char>>, j: int)
    requires
        0 <= j <= ls.len(),
    ensures
        j + block_lines(ls, j).len() <= ls.len(),
        forall|k: int|
            0 <= k < block_lines(ls, j).len() ==> #[trigger] block_lines(ls, j)[k] == ls[j + k]
                && ls[j + k].len() > 0,
        j + block_lines(ls, j).len() == ls.len() || ls[j + block_lines(ls, j).len()].len() == 0,
    decreases ls.len() - j,
{
    if j < ls.len() && ls[j].len() > 0 {
        lemma_block_lines_span(ls, j + 1);
        let rest = block_lines(ls, j + 1);
        assert forall|k: int| 0 <= k < block_lines(ls, j).len() implies #[trigger] block_lines(
            ls,
            j,
        )[k] == ls[j + k] && ls[j + k].len() > 0 by {
            if k > 0 {
                assert(block_lines(ls, j)[k] == rest[k - 1]);
            }
        }
    }
}

/// The dependency lists that the first `n` lines of `ls` give: for each line
/// that is exactly `key`, in order, the lines after it up to the next empty
/// line.
pub open spec fn key_blocks(ls: Seq<Seq<char>>, n: int, key: Seq<char>) -> Seq<Seq<char>>
    decreases n,
{
    if n <= 0 {
        Seq::empty()
    } else if ls[n - 1] == key {
        key_blocks(ls, n - 1, key) + block_lines(ls, n)
    } else {
        key_blocks(ls, n - 1, key)
    }
}

/// Only the line `%DEPENDS%` opens a list of dependencies, and only
/// `%OPTDEPENDS%` one of optional dependencies.
proof fn lemma_list_keys(line: Seq<char>)
    ensures
        desc_key(line) is Depends <==> line == "%DEPENDS%"@,
        desc_key(line) is OptDepends <==> line == "%OPTDEPENDS%"@,
{
    reveal_strlit("%FILENAME%");
    reveal_strlit("%NAME%");
    reveal_strlit("%BASE%");
    reveal_strlit("%VERSION%");
    reveal_strlit("%DESC%");
    reveal_strlit("%CSIZE%");
    reveal_strlit("%ISIZE%");
    reveal_strlit("%MD5SUM%");
    reveal_strlit("%SHA256SUM%");
    reveal_strlit("%PGPSIG%");
    reveal_strlit("%URL%");
    reveal_strlit("%LICENSE%");
    reveal_strlit("%ARCH%");
    reveal_strlit("%BUILDDATE%");
    reveal_strlit("%PACKAGER%");
    reveal_strlit("%DEPENDS%");
    reveal_strlit("%OPTDEPENDS%");
    assert("%DEPENDS%"@.len() != "%FILENAME%"@.len());
    assert("%DEPENDS%"@.len() != "%NAME%"@.len());
    assert("%DEPENDS%"@.len() != "%BASE%"@.len());
    assert("%DEPENDS%"@[1] != "%VERSION%"@[1]);
    assert("%DEPENDS%"@.len() != "%DESC%"@.len());
    assert("%DEPENDS%"@.len() != "%CSIZE%"@.len());
    assert("%DEPENDS%"@.len() != "%ISIZE%"@.len());
    assert("%DEPENDS%"@.len() != "%MD5SUM%"@.len());
    assert("%DEPENDS%"@.len() != "%SHA256SUM%"@.len());
    assert("%DEPENDS%"@.len() != "%PGPSIG%"@.len());
    assert("%DEPENDS%"@.len() != "%URL%"@.len());
    assert("%DEPENDS%"@[1] != "%LICENSE%"@[1]);
    assert("%DEPENDS%"@.len() != "%ARCH%"@.len());
    assert("%DEPENDS%"@.len() != "%BUILDDATE%"@.len());
    assert("%DEPENDS%"@.len() != "%PACKAGER%"@.len());
    assert("%DEPENDS%"@.len() != "%OPTDEPENDS%"@.len());
    assert("%OPTDEPENDS%"@.len() != "%FILENAME%"@.len());
    assert("%OPTDEPENDS%"@.len() != "%NAME%"@.len());
    assert("%OPTDEPENDS%"@.len() != "%BASE%"@.len());
    assert("%OPTDEPENDS%"@.len() != "%VERSION%"@.len());
    assert("%OPTDEPENDS%"@.len() != "%DESC%"@.len());
    assert("%OPTDEPENDS%"@.len() != "%CSIZE%"@.len());
    assert("%OPTDEPENDS%"@.len() != "%ISIZE%"@.len());
    assert("%OPTDEPENDS%"@.len() != "%MD5SUM%"@.len());
    assert("%OPTDEPENDS%"@.len() != "%SHA256SUM%"@.len());
    assert("%OPTDEPENDS%"@.len() != "%PGPSIG%"@.len());
    assert("%OPTDEPENDS%"@.len() != "%URL%"@.len());
    assert("%OPTDEPENDS%"@.len() != "%LICENSE%"@.len());
    assert("%OPTDEPENDS%"@.len() != "%ARCH%"@.len());
    assert("%OPTDEPENDS%"@.len() != "%BUILDDATE%"@.len());
    assert("%OPTDEPENDS%"@.len() != "%PACKAGER%"@.len());
    assert("%OPTDEPENDS%"@.len() != "%DEPENDS%"@.len());
}

/// The dependencies that a `desc` file lists are exactly the lines of its
/// `%DEPENDS%` sections, in order, and its optional dependencies exactly
/// those of its `%OPTDEPENDS%` sections; no other section adds to them.
pub proof fn lemma_dependencies_come_from_their_sections(text: Seq<char>)
    ensures
        desc_record(text).depends == key_blocks(
            split_lines(text),
            split_lines(text).len() as int,
            "%DEPENDS%"@,
        ),
        desc_record(text).opt_depends == key_blocks(
            split_lines(text),
            split_lines(text).len() as int,
            "%OPTDEPENDS%"@,
        ),
{
    let ls = split_lines(text);
    lemma_fold_lists(ls, ls.len() as int);
}

/// Reading the first `n` lines gathers the dependency lists of their
/// sections.
proof fn lemma_fold_lists(ls: Seq<Seq<char>>, n: int)
    ensures
        desc_fold(ls, n).depends == key_blocks(ls, n, "%DEPENDS%"@),
        desc_fold(ls, n).opt_depends == key_blocks(ls, n, "%OPTDEPENDS%"@),
    decreases n,
{
    if n > 0 {
        lemma_fold_lists(ls, n - 1);
        lemma_list_keys(ls[n - 1]);
        let r = desc_fold(ls, n - 1);
        assert(desc_fold(ls, n) == desc_step(ls, n - 1, r));
        if ls[n - 1] == "%DEPENDS%"@ {
            assert(desc_fold(ls, n).depends == r.depends + block_lines(ls, n));
        } else if ls[n - 1] == "%OPTDEPENDS%"@ {
            assert(desc_fold(ls, n).opt_depends == r.opt_depends + block_lines(ls, n));
        }
    }
}

/// Whether `line` is one of the seventeen key texts of a `desc` file.
pub open spec fn is_key_line(line: Seq<char>) -> bool {
    ||| line == "%FILENAME%"@
    ||| line == "%NAME%"@
    ||| line == "%BASE%"@
    ||| line == "%VERSION%"@
    ||| line == "%DESC%"@
    ||| line == "%CSIZE%"@
    ||| line == "%ISIZE%"@
    ||| line == "%MD5SUM%"@
    ||| line == "%SHA256SUM%"@
    ||| line == "%PGPSIG%"@
    ||| line == "%URL%"@
    ||| line == "%LICENSE%"@
    ||| line == "%ARCH%"@
    ||| line == "%BUILDDATE%"@
    ||| line == "%PACKAGER%"@
    ||| line == "%DEPENDS%"@
    ||| line == "%OPTDEPENDS%"@
}

/// The lines of a text that is empty or ends with a line break, before the
/// text that follows it.
pub open spec fn lines_before(pre: Seq<char>) -> Seq<Seq<char>> {
    if pre.len() == 0 {
        Seq::empty()
    } else {
        split_lines(pre).drop_last()
    }
}

/// The lines of a text that is empty or starts with a line break, after the
/// line that it ends.
pub open spec fn lines_after(post: Seq<char>) -> Seq<Seq<char>> {
    if post.len() == 0 {
        Seq::empty()
    } else {
        split_lines(post.skip(1))
    }
}

/// A line `v` between a text that ends a line and one that starts a new one
/// stands alone among the lines.
proof fn lemma_split_around(pre: Seq<char>, v: Seq<char>, post: Seq<char>)
    requires
        pre.len() == 0 || pre.last() == '\n',
        forall|i: int| 0 <= i < v.len() ==> v[i] != '\n',
        post.len() == 0 || post[0] == '\n',
    ensures
        split_lines(pre + v + post) == lines_before(pre) + seq![v] + lines_after(post),
{
    let e = Seq::<char>::empty();
    lemma_split_lines_extend_last(e, v);
    assert(e + v =~= v);
    assert(split_lines(e) == seq![e]);
    assert(split_lines(v) =~= seq![v]);
    let vp = v + post;
    if post.len() == 0 {
        assert(vp =~= v);
    } else {
        let vn = v + seq!['\n'];
        assert(vn.drop_last() =~= v);
        assert(split_lines(vn) == split_lines(v).push(e));
        assert(vp =~= vn + post.skip(1));
        lemma_split_lines_concat(vn, post.skip(1));
        assert(split_lines(vn).drop_last() =~= seq![v]);
    }
    assert(split_lines(vp) =~= seq![v] + lines_after(post));
    if pre.len() == 0 {
        assert(pre + v + post =~= vp);
        assert(lines_before(pre) + seq![v] + lines_after(post) =~= seq![v] + lines_after(post));
    } else {
        assert(pre + v + post =~= pre + vp);
        lemma_split_lines_concat(pre, vp);
        assert(lines_before(pre) + seq![v] + lines_after(post) =~= lines_before(pre) + (seq![v]
            + lines_after(post)));
    }
}

/// Whether a dependency list is closed depends only on which lines are
/// empty.
proof fn lemma_block_closed_by_emptiness(a: Seq<Seq<char>>, b: Seq<Seq<char>>, j: int)
    requires
        a.len() == b.len(),
        forall|i: int| 0 <= i < a.len() ==> ((#[trigger] a[i]).len() == 0 <==> b[i].len() == 0),
    ensures
        block_closed(a, j) == block_closed(b, j),
    decreases a.len() - j,
{
    if 0 <= j < a.len() {
        lemma_block_closed_by_emptiness(a, b, j + 1);
    }
}

/// Whether a `desc` file can be read does not depend on the text of a value
/// line: replacing a line that is no key by any other such line (without a
/// line break, and empty exactly when the old one is) leaves it readable or
/// unreadable as it was, unless the line before it is one of the numeric
/// keys `%CSIZE%`, `%ISIZE%` and `%BUILDDATE%`. So the value of `%PGPSIG%`,
/// `%URL%`, `%NAME%` and the other text keys may hold any characters.
pub proof fn lemma_value_text_does_not_matter(
    pre: Seq<char>,
    key: Seq<char>,
    v: Seq<char>,
    w: Seq<char>,
    post: Seq<char>,
)
    requires
        pre.len() == 0 || pre.last() == '\n',
        forall|i: int| 0 <= i < key.len() ==> key[i] != '\n',
        key != "%CSIZE%"@,
        key != "%ISIZE%"@,
        key != "%BUILDDATE%"@,
        forall|i: int| 0 <= i < v.len() ==> v[i] != '\n',
        forall|i: int| 0 <= i < w.len() ==> w[i] != '\n',
        !is_key_line(v),
        !is_key_line(w),
        (v.len() == 0) == (w.len() == 0),
        post.len() == 0 || post[0] == '\n',
    ensures
        desc_well_formed(pre + key + seq!['\n'] + v + post) == desc_well_formed(
            pre + key + seq!['\n'] + w + post,
        ),
{
    let nl = seq!['\n'];
    let p = pre + key + nl;
    lemma_split_around(pre, key, nl);
    assert(nl.skip(1) =~= Seq::<char>::empty());
    assert(split_lines(nl.skip(1)) == seq![Seq::<char>::empty()]);
    let h = lines_before(pre) + seq![key];
    assert(split_lines(p) =~= h.push(Seq::<char>::empty()));
    assert(lines_before(p) =~= h);
    lemma_split_around(p, v, post);
    lemma_split_around(p, w, post);
    let a = split_lines(p + v + post);
    let b = split_lines(p + w + post);
    let m = h.len() as int;
    assert(a.len() == b.len());
    assert(a[m] == v && b[m] == w);
    assert(a[m - 1] == key && b[m - 1] == key);
    assert forall|i: int| 0 <= i < a.len() && i != m implies a[i] == b[i] by {
        if i < m {
            assert(a[i] == h[i] && b[i] == h[i]);
        } else {
            assert(a[i] == lines_after(post)[i - m - 1]);
            assert(b[i] == lines_after(post)[i - m - 1]);
        }
    }
    assert forall|i: int| 0 <= i < a.len() implies ((#[trigger] a[i]).len() == 0 <==> b[i].len()
        == 0) by {
        if i != m {
            assert(a[i] == b[i]);
        }
    }
    lemma_unknown_line_announces_nothing(v);
    lemma_unknown_line_announces_nothing(w);
    assert forall|i: int| 0 <= i < a.len() implies line_readable(a, i) == line_readable(b, i) by {
        lemma_block_closed_by_emptiness(a, b, i + 1);
        if i != m {
            assert(a[i] == b[i]);
            if i + 1 != m && i + 1 < a.len() {
                assert(a[i + 1] == b[i + 1]);
            }
        }
    }
    assert(p + v + post =~= pre + key + nl + v + post);
    assert(p + w + post =~= pre + key + nl + w + post);
}

/// Reads a package entry out of the text of its `desc` file: each line
/// `%KEY%` sets its field to the line that follows (a later key overrides an
/// earlier one), and `%DEPENDS%` and `%OPTDEPENDS%` add the lines up to the
/// next empty line to the dependency lists. Unknown lines are skipped.
pub fn parse_desc(desc: &str) -> (d: ArchDesc)
    requires
        desc_well_formed(desc@),
    ensures
        d@ == desc_record(desc@),
{
    let cs = chars_of(desc);
    let ranges = line_ranges(&cs);
    let ghost ls = split_lines(cs@);
    let n = ranges.len();
    let mut d = ArchDesc {
        file_name: String::new(),
        name: String::new(),
        base: String::new(),
        version: String::new(),
        desc: String::new(),
        csize: 0,
        size: 0,
        md5s: String::new(),
        sha256: String::new(),
        pgpsig: String::new(),
        url: String::new(),
        license: String::new(),
        arch: String::new(),
        build_date: 0,
        packager: String::new(),
        depends: Vec::new(),
        opt_depends: Vec::new(),
    };
    assert(d@ =~= desc_fold(ls, 0));
    let mut i: usize = 0;
    while i < n
        invariant
            i <= n,
            n == ranges.len(),
            cs@ == desc@,
            ls == split_lines(cs@),
            marks_lines(cs@, ranges@),
            desc_well_formed(desc@),
            d@ == desc_fold(ls, i as int),
        decreases n - i,
    {
        assert(line_readable(ls, i as int));
        let (lo, hi) = ranges[i];
        let key = classify_line(&cs, lo, hi);
        let ghost prev = d@;
        match key {
            DescKey::FileName => {
                d.file_name = line_text(desc, &cs, &ranges, i + 1);
            },
            DescKey::Name => {
                d.name = line_text(desc, &cs, &ranges, i + 1);
            },
            DescKey::Base => {
                d.base = line_text(desc, &cs, &ranges, i + 1);
            },
            DescKey::Version => {
                d.version = line_text(desc, &cs, &ranges, i + 1);
            },
            DescKey::Desc => {
                d.desc = line_text(desc, &cs, &ranges, i + 1);
            },
            DescKey::Md5Sum => {
                d.md5s = line_text(desc, &cs, &ranges, i + 1);
            },
            DescKey::Sha256Sum => {
                d.sha256 = line_text(desc, &cs, &ranges, i + 1);
            },
            DescKey::PgpSig => {
                d.pgpsig = line_text(desc, &cs, &ranges, i + 1);
            },
            DescKey::Url => {
                d.url = line_text(desc, &cs, &ranges, i + 1);
            },
            DescKey::License => {
                d.license = line_text(desc, &cs, &ranges, i + 1);
            },
            DescKey::Arch => {
                d.arch = line_text(desc, &cs, &ranges, i + 1);
            },
            DescKey::Packager => {
                d.packager = line_text(desc, &cs, &ranges, i + 1);
            },
            DescKey::CSize => {
                let (vlo, vhi) = ranges[i + 1];
                d.csize = parse_i32_range(&cs, vlo, vhi).unwrap();
            },
            DescKey::ISize => {
                let (vlo, vhi) = ranges[i + 1];
                d.size = parse_i32_range(&cs, vlo, vhi).unwrap();
            },
            DescKey::BuildDate => {
                let (vlo, vhi) = ranges[i + 1];
                d.build_date = parse_i64_range(&cs, vlo, vhi).unwrap();
            },
            DescKey::Depends => {
                read_block(desc, &cs, &ranges, i + 1, &mut d.depends);
            },
            DescKey::OptDepends => {
                read_block(desc, &cs, &ranges, i + 1, &mut d.opt_depends);
            },
            DescKey::Other => {},
        }
        assert(d@ =~= desc_step(ls, i as int, prev));
        i = i + 1;
    }
    assert(ls.len() == n);
    d
}

/// Whether an empty line closes the lines of `cs` from `start` on.
fn block_is_closed(ranges: &Vec<(usize, usize)>, cs: &Vec<char>, start: usize) -> (b: bool)
    requires
        marks_lines(cs@, ranges@),
    ensures
        b == block_closed(split_lines(cs@), start as int),
{
    let ghost ls = split_lines(cs@);
    let mut x = start;
    while x < ranges.len() && ranges[x].0 < ranges[x].1
        invariant
            marks_lines(cs@, ranges@),
            ls == split_lines(cs@),
            start <= x,
            block_closed(ls, start as int) == block_closed(ls, x as int),
        decreases ranges.len() - x,
    {
        x = x + 1;
    }
    x < ranges.len()
}

/// Whether every line of the `desc` file `desc` can be read: a key line is
/// followed by its value, the sizes and the build date are numbers that fit
/// their fields, and each dependency list is closed by an empty line.
pub fn desc_is_well_formed(desc: &str) -> (b: bool)
    ensures
        b == desc_well_formed(desc@),
{
    let cs = chars_of(desc);
    let ranges = line_ranges(&cs);
    let ghost ls = split_lines(cs@);
    let n = ranges.len();
    let mut i: usize = 0;
    while i < n
        invariant
            i <= n,
            n == ranges.len(),
            n == ls.len(),
            cs@ == desc@,
            ls == split_lines(cs@),
            marks_lines(cs@, ranges@),
            forall|j: int| 0 <= j < i ==> line_readable(ls, j),
        decreases n - i,
    {
        let (lo, hi) = ranges[i];
        let key = classify_line(&cs, lo, hi);
        let ok = match key {
            DescKey::Other => true,
            DescKey::CSize | DescKey::ISize => {
                if i + 1 < n {
                    let (vlo, vhi) = ranges[i + 1];
                    parse_i32_range(&cs, vlo, vhi).is_some()
                } else {
                    false
                }
            },
            DescKey::BuildDate => {
                if i + 1 < n {
                    let (vlo, vhi) = ranges[i + 1];
                    parse_i64_range(&cs, vlo, vhi).is_some()
                } else {
                    false
                }
            },
            DescKey::Depends | DescKey::OptDepends => block_is_closed(&ranges, &cs, i + 1),
            _ => i + 1 < n,
        };
        if !ok {
            assert(!line_readable(ls, i as int));
            return false;
        }
        i = i + 1;
    }
    true
}

/// `name` inside the directory `dir`.
pub open spec fn path_in(dir: Seq<char>, name: Seq<char>) -> Seq<char> {
    dir + "/"@ + name
}

/// The directory of the local database that records the package `name` at
/// version `ver` and release `rel`.
pub open spec fn package_dir(db_path: Seq<char>, name: Seq<char>, ver: Seq<char>, rel: Seq<char>) -> Seq<char> {
    path_in(db_path, name + "-"@ + ver + "-"@ + rel)
}

/// The file of a repository database, inside `dir`.
pub open spec fn repo_db_file(dir: Seq<char>, repo: Seq<char>) -> Seq<char> {
    path_in(dir, repo + ".db"@)
}

/// The directory of the local database that records the package `name` at
/// version `ver` and release `rel`: `{db_path}/{name}-{ver}-{rel}`.
pub fn package_db_dir(db_path: &str, name: &str, ver: &str, rel: &str) -> (dir: String)
    ensures
        dir@ == package_dir(db_path@, name@, ver@, rel@),
{
    let mut dir = String::from_str(db_path);
    dir.append("/");
    dir.append(name);
    dir.append("-");
    dir.append(ver);
    dir.append("-");
    dir.append(rel);
    dir
}

/// The directory of the local database that records the repository entry
/// `desc`: `{db_path}/{name}-{version}`. An entry's version is written
/// `{pkgver}-{pkgrel}`, so this is the directory that [`package_db_dir`]
/// names for the same package.
pub fn installed_dir_of(db_path: &str, desc: &ArchDesc) -> (dir: String)
    ensures
        dir@ == path_in(db_path@, desc.name@ + "-"@ + desc.version@),
{
    let mut dir = String::from_str(db_path);
    dir.append("/");
    dir.append(desc.name.as_str());
    dir.append("-");
    dir.append(desc.version.as_str());
    dir
}

/// A package that the database records under its version `ver` and release
/// `rel` is found under the repository entry whose version is
/// `{ver}-{rel}`: both name the same directory.
pub proof fn lemma_recorded_package_is_found(
    db_path: Seq<char>,
    name: Seq<char>,
    ver: Seq<char>,
    rel: Seq<char>,
    version: Seq<char>,
)
    requires
        version == ver + "-"@ + rel,
    ensures
        path_in(db_path, name + "-"@ + version) == package_dir(db_path, name, ver, rel),
{
    assert(path_in(db_path, name + "-"@ + version) =~= package_dir(db_path, name, ver, rel));
}

/// Removing a package by its name removes the directory that the database
/// records it in, whatever its version and release.
pub proof fn lemma_removal_covers_recorded_package(
    db_path: Seq<char>,
    name: Seq<char>,
    ver: Seq<char>,
    rel: Seq<char>,
)
    ensures
        contains_text(package_dir(db_path, name, ver, rel), name),
{
    reveal_strlit("/");
    reveal_strlit("-");
    let dir = package_dir(db_path, name, ver, rel);
    let at: int = db_path.len() as int + 1;
    assert(dir.subrange(at, at + name.len()) =~= name);
    assert(occurs_at(dir, name, at));
}

/// The description file of a package directory of the local database:
/// `{dir}/PKGDESC`.
pub fn pkgdesc_path(dir: &str) -> (path: String)
    ensures
        path@ == path_in(dir@, "PKGDESC"@),
{
    let mut path = String::from_str(dir);
    path.append("/");
    path.append("PKGDESC");
    path
}

/// Where the database of the repository `repo` is kept: `{db_path}/{repo}.db`.
pub fn repo_db_path(db_path: &str, repo: &str) -> (path: String)
    ensures
        path@ == repo_db_file(db_path@, repo@),
{
    let mut path = String::from_str(db_path);
    path.append("/");
    path.append(repo);
    path.append(".db");
    path
}

/// Where the database of the repository `repo` is downloaded from: the
/// mirror with its placeholders filled in, then `/{repo}.db`.
pub fn repo_db_url(mirror: &str, repo: &str, arch: &str) -> (url: String)
    ensures
        url@ == repo_db_file(mirror_url(mirror@, repo@, arch@), repo@),
{
    let mut url = expand_mirror(mirror, repo, arch);
    url.append("/");
    url.append(repo);
    url.append(".db");
    url
}

/// The record that the local database keeps of a package found by a search:
/// its fields, with the version written as `{pkgver}-{pkgrel}` and the
/// installed size as the size.
pub fn package_desc_from(pkg: &SearchResult) -> (desc: PackageDesc)
    ensures
        desc.pkgname@ == pkg.pkgname@,
        desc.pkgbase@ == pkg.pkgbase@,
        desc.pkgver@ == pkg.pkgver@ + "-"@ + pkg.pkgrel@,
        desc.pkgdesc@ == pkg.pkgdesc@,
        desc.url@ == pkg.url@,
        desc.build_date@ == pkg.build_date@,
        desc.packager@ == pkg.packager@,
        desc.size == pkg.installed_size,
        desc.arch@ == pkg.arch@,
        desc.licenses.deep_view() == pkg.licenses.deep_view(),
        desc.dependencies.deep_view() == pkg.depends.deep_view(),
        desc.dependencies_optional.deep_view() == pkg.optdepends.deep_view(),
{
    let mut pkgver = pkg.pkgver.clone();
    pkgver.append("-");
    pkgver.append(pkg.pkgrel.as_str());
    let licenses = pkg.licenses.clone();
    let dependencies = pkg.depends.clone();
    let dependencies_optional = pkg.optdepends.clone();
    proof {
        assert(licenses.deep_view() =~= pkg.licenses.deep_view());
        assert(dependencies.deep_view() =~= pkg.depends.deep_view());
        assert(dependencies_optional.deep_view() =~= pkg.optdepends.deep_view());
    }
    PackageDesc {
        pkgname: pkg.pkgname.clone(),
        pkgbase: pkg.pkgbase.clone(),
        pkgver,
        pkgdesc: pkg.pkgdesc.clone(),
        url: pkg.url.clone(),
        build_date: pkg.build_date.clone(),
        packager: pkg.packager.clone(),
        size: pkg.installed_size,
        arch: pkg.arch.clone(),
        licenses,
        dependencies,
        dependencies_optional,
    }
}

/// The package directories that removing `pkg` deletes: every path of
/// `paths` that mentions `pkg`, in order.
pub fn dirs_to_remove(paths: &Vec<String>, pkg: &str) -> (doomed: Vec<String>)
    ensures
        doomed.deep_view() == paths.deep_view().filter(|p: Seq<char>| contains_text(p, pkg@)),
{
    let ghost all = paths.deep_view();
    let ghost keep = |p: Seq<char>| contains_text(p, pkg@);
    let mut doomed: Vec<String> = Vec::new();
    let mut k: usize = 0;
    assert(all.take(0) =~= Seq::<Seq<char>>::empty());
    assert(doomed.deep_view() =~= Seq::<Seq<char>>::empty());
    while k < paths.len()
        invariant
            k <= paths.len(),
            all == paths.deep_view(),
            keep == (|p: Seq<char>| contains_text(p, pkg@)),
            doomed.deep_view() == all.take(k as int).filter(keep),
        decreases paths.len() - k,
    {
        let ghost before = doomed.deep_view();
        assert(all.take(k + 1).drop_last() =~= all.take(k as int));
        reveal_with_fuel(Seq::<_>::filter, 1);
        if text_contains(paths[k].as_str(), pkg) {
            doomed.push(paths[k].clone());
            assert(doomed.deep_view() =~= before.push(all[k as int]));
        } else {
            assert(doomed.deep_view() =~= before);
        }
        k = k + 1;
    }
    assert(all.take(k as int) =~= all);
    doomed
}

/// The package entry of a repository database whose `desc` file reads
/// `desc`, if it is the package named `pkgname`.
pub fn match_desc(desc: &str, pkgname: &str) -> (found: Option<ArchDesc>)
    requires
        desc_well_formed(desc@),
    ensures
        match found {
            Some(d) => d@ == desc_record(desc@) && desc_record(desc@).name == pkgname@,
            None => desc_record(desc@).name != pkgname@,
        },
{
    let d = parse_desc(desc);
    if text_equals(d.name.as_str(), pkgname) {
        Some(d)
    } else {
        None
    }
}

/// What the search of one repository database finds.
#[derive(Debug)]
pub enum RepoSearch {
    /// The entry at this position is the package, whose desc reads so.
    Found(usize, ArchDesc),
    /// The entry at this position names the query, but its desc file cannot
    /// be read.
    Malformed(usize),
    /// No entry is the package.
    Missing,
}

/// Whether the search for `pkgname` stops at the entry `name` whose desc
/// file reads `desc`: the entry's name holds the query, and its desc either
/// cannot be read or names the package.
pub open spec fn stops_search(name: Seq<char>, desc: Seq<char>, pkgname: Seq<char>) -> bool {
    contains_text(name, pkgname) && (!desc_well_formed(desc) || desc_record(desc).name
        == pkgname)
}

/// Searches the entries of a repository database, in order, for the package
/// `pkgname`: the entries are named `names`, and `descs` holds their desc
/// files (only those of the entries whose names hold the query are read). The
/// search stops at the first entry whose name holds the query and whose desc
/// either names the package (found) or cannot be read (malformed).
pub fn search_repo(names: &Vec<String>, descs: &Vec<String>, pkgname: &str) -> (r: RepoSearch)
    requires
        names.len() == descs.len(),
    ensures
        match r {
            RepoSearch::Found(i, d) => {
                &&& i < names.len()
                &&& desc_well_formed(descs[i as int]@)
                &&& stops_search(names[i as int]@, descs[i as int]@, pkgname@)
                &&& d@ == desc_record(descs[i as int]@)
                &&& forall|j: int|
                    0 <= j < i ==> !stops_search(#[trigger] names[j]@, descs[j]@, pkgname@)
            },
            RepoSearch::Malformed(i) => {
                &&& i < names.len()
                &&& !desc_well_formed(descs[i as int]@)
                &&& stops_search(names[i as int]@, descs[i as int]@, pkgname@)
                &&& forall|j: int|
                    0 <= j < i ==> !stops_search(#[trigger] names[j]@, descs[j]@, pkgname@)
            },
            RepoSearch::Missing => forall|j: int|
                0 <= j < names.len() ==> !stops_search(#[trigger] names[j]@, descs[j]@, pkgname@),
        },
{
    let mut i: usize = 0;
    while i < names.len()
        invariant
            i <= names.len() == descs.len(),
            forall|j: int| 0 <= j < i ==> !stops_search(#[trigger] names[j]@, descs[j]@, pkgname@),
        decreases names.len() - i,
    {
        if text_contains(names[i].as_str(), pkgname) {
            if !desc_is_well_formed(descs[i].as_str()) {
                return RepoSearch::Malformed(i);
            }
            match match_desc(descs[i].as_str(), pkgname) {
                Some(d) => {
                    return RepoSearch::Found(i, d);
                },
                None => {},
            }
        }
        i = i + 1;
    }
    RepoSearch::Missing
}

} // verus!

//! The mtree file of a package: which of its texts the `mtree` crate reads
//! without panicking or consulting the working directory, the entries it
//! reads, and the list of files a package installs.
use vstd::prelude::*;

use mtree::FileType;
use crate::text::chars_of;

verus! {

/// The kinds of filesystem entry that an mtree file records.
#[derive(PartialEq, Eq, Structural, Debug, Clone, Copy)]
pub enum EntryKind {
    BlockDevice,
    CharacterDevice,
    Directory,
    Fifo,
    File,
    SymbolicLink,
    Socket,
}

/// One entry of an mtree file: its path and, where it states one, its kind.
#[derive(Debug)]
pub struct MtreeEntry {
    pub path: String,
    pub kind: Option<EntryKind>,
}

impl View for MtreeEntry {
    type V = (Seq<char>, Option<EntryKind>);

    open spec fn view(&self) -> (Seq<char>, Option<EntryKind>) {
        (self.path@, self.kind)
    }
}

/// The position of the line break that ends the line running from `i`, or
/// the end of `t`.
pub open spec fn line_end(t: Seq<u8>, i: int) -> int
    decreases t.len() - i,
{
    if i < 0 || i >= t.len() || t[i] == 10u8 {
        i
    } else {
        line_end(t, i + 1)
    }
}

/// The first position from `i` on, before `end`, that is not a space.
pub open spec fn skip_spaces(t: Seq<u8>, i: int, end: int) -> int
    decreases end - i,
{
    if i >= end || t[i] != 32u8 {
        i
    } else {
        skip_spaces(t, i + 1, end)
    }
}

/// The end of the word that starts at `i`: the next space, or `end`.
pub open spec fn word_end(t: Seq<u8>, i: int, end: int) -> int
    decreases end - i,
{
    if i >= end || t[i] == 32u8 {
        i
    } else {
        word_end(t, i + 1, end)
    }
}

/// Whether a line of `t` starts at `p`.
pub open spec fn line_start(t: Seq<u8>, p: int) -> bool {
    0 <= p <= t.len() && (p == 0 || t[p - 1] == 10u8)
}

/// Whether every byte of `s` is an ASCII decimal digit.
pub open spec fn dec_digits(s: Seq<u8>) -> bool {
    forall|i: int| 0 <= i < s.len() ==> 48u8 <= #[trigger] s[i] <= 57u8
}

/// The value of the decimal digits `s` (0 for none).
pub open spec fn dec_value(s: Seq<u8>) -> int
    decreases s.len(),
{
    if s.len() == 0 {
        0
    } else {
        dec_value(s.drop_last()) * 10 + (s.last() - 48u8)
    }
}

/// Whether the mtree crate reads `s` as a number of at most `max`: decimal
/// digits only (none reads as 0) whose value fits.
pub open spec fn dec_fits(s: Seq<u8>, max: int) -> bool {
    dec_digits(s) && dec_value(s) <= max
}

/// The position of the first byte `x` in `s` from `i` on, or the length of
/// `s`.
pub open spec fn byte_index(s: Seq<u8>, i: int, x: u8) -> int
    decreases s.len() - i,
{
    if i < 0 || i >= s.len() || s[i] == x {
        i
    } else {
        byte_index(s, i + 1, x)
    }
}

/// The bytes `time=`.
pub open spec fn time_key() -> Seq<u8> {
    seq![116u8, 105u8, 109u8, 101u8, 61u8]
}

/// Whether the keyword `tok` reads without a panic: a `time=S.N` whose
/// seconds and nanoseconds read as numbers must stand for a moment that the
/// system time can hold (seconds, with the whole seconds of `N`, at most
/// `i64::MAX`).
pub open spec fn keyword_readable(tok: Seq<u8>) -> bool {
    if tok.len() >= 5 && tok.take(5) == time_key() {
        let val = tok.skip(5);
        let d = byte_index(val, 0, 46u8);
        if d >= val.len() {
            true
        } else {
            let sec = val.take(d);
            let nano = val.skip(d + 1);
            !(dec_fits(sec, u64::MAX as int) && dec_fits(nano, u32::MAX as int)) || dec_value(sec)
                + dec_value(nano) / 1_000_000_000 <= i64::MAX
        }
    } else {
        true
    }
}

/// Whether the bytes `b` spell the ASCII word `name`.
pub open spec fn spells(b: Seq<u8>, name: Seq<char>) -> bool {
    b.len() == name.len() && forall|i: int| 0 <= i < b.len() ==> #[trigger] b[i] as u32 == name[i] as u32
}

/// Whether `c` is a hexadecimal digit, in either case.
pub open spec fn is_hex(c: u8) -> bool {
    (48u8 <= c <= 57u8) || (97u8 <= c <= 102u8) || (65u8 <= c <= 70u8)
}

/// Whether every byte of `s` is a hexadecimal digit.
pub open spec fn all_hex(s: Seq<u8>) -> bool {
    forall|i: int| 0 <= i < s.len() ==> is_hex(#[trigger] s[i])
}

/// Whether every byte of `s` is an octal digit.
pub open spec fn all_octal(s: Seq<u8>) -> bool {
    forall|i: int| 0 <= i < s.len() ==> 48u8 <= #[trigger] s[i] <= 55u8
}

/// Whether `v` reads as a digest of `n` hexadecimal digits.
pub open spec fn digest_value(v: Seq<u8>, n: int) -> bool {
    v.len() == n && all_hex(v)
}

/// Whether `v` reads as a file mode: three octal digits, possibly after one
/// more byte (the set-id byte).
pub open spec fn mode_value(v: Seq<u8>) -> bool {
    (v.len() == 3 && all_octal(v)) || (v.len() == 4 && all_octal(v.skip(1)))
}

/// Whether `v` reads as a time: seconds, a `.` and nanoseconds, both decimal
/// numbers that fit (64 and 32 bits).
pub open spec fn time_value(v: Seq<u8>) -> bool {
    let d = byte_index(v, 0, 46u8);
    d < v.len() && dec_fits(v.take(d), u64::MAX as int) && dec_fits(v.skip(d + 1), u32::MAX as int)
}

/// Whether `f` names a device number format.
pub open spec fn device_format(f: Seq<u8>) -> bool {
    ||| spells(f, "native"@)
    ||| spells(f, "386bsd"@)
    ||| spells(f, "4bsd"@)
    ||| spells(f, "bsdos"@)
    ||| spells(f, "freebsd"@)
    ||| spells(f, "hpux"@)
    ||| spells(f, "isc"@)
    ||| spells(f, "linux"@)
    ||| spells(f, "netbsd"@)
    ||| spells(f, "osf1"@)
    ||| spells(f, "sco"@)
    ||| spells(f, "solaris"@)
    ||| spells(f, "sunos"@)
    ||| spells(f, "svr3"@)
    ||| spells(f, "svr4"@)
    ||| spells(f, "ultrix"@)
}

/// Whether `v` reads as a device: a format, then at least a major and a
/// minor field, separated by commas.
pub open spec fn device_value(v: Seq<u8>) -> bool {
    let c = byte_index(v, 0, 44u8);
    c < v.len() && byte_index(v, c + 1, 44u8) < v.len() && device_format(v.take(c))
}

/// Whether `v` names a kind of filesystem entry.
pub open spec fn type_value(v: Seq<u8>) -> bool {
    ||| spells(v, "block"@)
    ||| spells(v, "char"@)
    ||| spells(v, "dir"@)
    ||| spells(v, "fifo"@)
    ||| spells(v, "file"@)
    ||| spells(v, "link"@)
    ||| spells(v, "socket"@)
}

/// Whether the keyword `tok` parses: its key (up to the first `=`) is one
/// the mtree format knows, and its value (after that `=`) reads as that key
/// asks. `ignore`, `nochange` and `optional` need no value; the names,
/// paths and flags take any value; the numbers must fit 64 bits.
pub open spec fn keyword_parses(tok: Seq<u8>) -> bool {
    let e = byte_index(tok, 0, 61u8);
    let key = tok.take(e);
    let val = tok.skip(e + 1);
    if spells(key, "ignore"@) || spells(key, "nochange"@) || spells(key, "optional"@) {
        true
    } else if e >= tok.len() {
        false
    } else if spells(key, "contents"@) || spells(key, "flags"@) || spells(key, "gname"@)
        || spells(key, "link"@) || spells(key, "uname"@) {
        true
    } else if spells(key, "cksum"@) || spells(key, "gid"@) || spells(key, "inode"@)
        || spells(key, "nlink"@) || spells(key, "size"@) || spells(key, "uid"@) {
        dec_fits(val, u64::MAX as int)
    } else if spells(key, "device"@) || spells(key, "resdevice"@) {
        device_value(val)
    } else if spells(key, "md5"@) || spells(key, "md5digest"@) {
        digest_value(val, 32)
    } else if spells(key, "rmd160"@) || spells(key, "rmd160digest"@) || spells(
        key,
        "ripemd160digest"@,
    ) || spells(key, "sha1"@) || spells(key, "sha1digest"@) {
        digest_value(val, 40)
    } else if spells(key, "sha256"@) || spells(key, "sha256digest"@) {
        digest_value(val, 64)
    } else if spells(key, "sha384"@) || spells(key, "sha384digest"@) {
        digest_value(val, 96)
    } else if spells(key, "sha512"@) || spells(key, "sha512digest"@) {
        digest_value(val, 128)
    } else if spells(key, "mode"@) {
        mode_value(val)
    } else if spells(key, "time"@) {
        time_value(val)
    } else if spells(key, "type"@) {
        type_value(val)
    } else {
        false
    }
}

/// Whether the mtree crate takes the keyword `tok` without a panic: it
/// parses (a build with debug assertions panics on one that does not), and
/// it is readable.
pub open spec fn keyword_accepted(tok: Seq<u8>) -> bool {
    keyword_parses(tok) && keyword_readable(tok)
}

/// The bytes `mode=`.
pub open spec fn mode_key() -> Seq<u8> {
    seq![109u8, 111u8, 100u8, 101u8, 61u8]
}

/// A `mode=` keyword parses when its value is three octal digits, possibly
/// after one more byte of any kind: the set-id digit of modes such as 4755,
/// 2755 or 1777 does not stop the file from being read.
pub proof fn lemma_mode_keyword_parses(v: Seq<u8>)
    requires
        v.len() == 3 || v.len() == 4,
        forall|i: int| v.len() - 3 <= i < v.len() ==> 48u8 <= #[trigger] v[i] <= 55u8,
    ensures
        keyword_parses(mode_key() + v),
{
    let tok = mode_key() + v;
    assert(tok[0] == 109u8 && tok[1] == 111u8 && tok[2] == 100u8 && tok[3] == 101u8 && tok[4]
        == 61u8);
    reveal_with_fuel(byte_index, 6);
    assert(byte_index(tok, 0, 61u8) == 4);
    let key = tok.take(4);
    assert(key =~= seq![109u8, 111u8, 100u8, 101u8]);
    assert(tok.skip(5) =~= v);
    reveal_strlit("ignore");
    assert(!spells(key, "ignore"@));
    reveal_strlit("nochange");
    assert(!spells(key, "nochange"@));
    reveal_strlit("optional");
    assert(!spells(key, "optional"@));
    reveal_strlit("contents");
    assert(!spells(key, "contents"@));
    reveal_strlit("flags");
    assert(!spells(key, "flags"@));
    reveal_strlit("gname");
    assert(!spells(key, "gname"@));
    reveal_strlit("link");
    assert(!spells(key, "link"@)) by {
        assert(key[0] as u32 != "link"@[0] as u32);
    }
    reveal_strlit("uname");
    assert(!spells(key, "uname"@));
    reveal_strlit("cksum");
    assert(!spells(key, "cksum"@));
    reveal_strlit("gid");
    assert(!spells(key, "gid"@));
    reveal_strlit("inode");
    assert(!spells(key, "inode"@));
    reveal_strlit("nlink");
    assert(!spells(key, "nlink"@));
    reveal_strlit("size");
    assert(!spells(key, "size"@)) by {
        assert(key[0] as u32 != "size"@[0] as u32);
    }
    reveal_strlit("uid");
    assert(!spells(key, "uid"@));
    reveal_strlit("device");
    assert(!spells(key, "device"@));
    reveal_strlit("resdevice");
    assert(!spells(key, "resdevice"@));
    reveal_strlit("md5");
    assert(!spells(key, "md5"@));
    reveal_strlit("md5digest");
    assert(!spells(key, "md5digest"@));
    reveal_strlit("rmd160");
    assert(!spells(key, "rmd160"@));
    reveal_strlit("rmd160digest");
    assert(!spells(key, "rmd160digest"@));
    reveal_strlit("ripemd160digest");
    assert(!spells(key, "ripemd160digest"@));
    reveal_strlit("sha1");
    assert(!spells(key, "sha1"@)) by {
        assert(key[0] as u32 != "sha1"@[0] as u32);
    }
    reveal_strlit("sha1digest");
    assert(!spells(key, "sha1digest"@));
    reveal_strlit("sha256");
    assert(!spells(key, "sha256"@));
    reveal_strlit("sha256digest");
    assert(!spells(key, "sha256digest"@));
    reveal_strlit("sha384");
    assert(!spells(key, "sha384"@));
    reveal_strlit("sha384digest");
    assert(!spells(key, "sha384digest"@));
    reveal_strlit("sha512");
    assert(!spells(key, "sha512"@));
    reveal_strlit("sha512digest");
    assert(!spells(key, "sha512digest"@));
    reveal_strlit("mode");
    assert(spells(key, "mode"@));
    if v.len() == 3 {
        assert(all_octal(v));
    } else {
        assert(all_octal(v.skip(1)));
    }
}

/// The bytes `sha256digest=`.
pub open spec fn sha256digest_key() -> Seq<u8> {
    seq![115u8, 104u8, 97u8, 50u8, 53u8, 54u8, 100u8, 105u8, 103u8, 101u8, 115u8, 116u8, 61u8]
}

/// The bytes `md5digest=`.
pub open spec fn md5digest_key() -> Seq<u8> {
    seq![109u8, 100u8, 53u8, 100u8, 105u8, 103u8, 101u8, 115u8, 116u8, 61u8]
}

/// The bytes `size=`.
pub open spec fn size_key() -> Seq<u8> {
    seq![115u8, 105u8, 122u8, 101u8, 61u8]
}

/// The bytes `link=`.
pub open spec fn link_key() -> Seq<u8> {
    seq![108u8, 105u8, 110u8, 107u8, 61u8]
}

/// The bytes `type=`.
pub open spec fn type_key() -> Seq<u8> {
    seq![116u8, 121u8, 112u8, 101u8, 61u8]
}

/// A `sha256digest=` keyword whose value is 64 hexadecimal digits, in
/// either case, parses.
pub proof fn lemma_sha256_keyword_parses(v: Seq<u8>)
    requires
        v.len() == 64,
        forall|i: int| 0 <= i < v.len() ==> ((48u8 <= #[trigger] v[i] <= 57u8) || (97u8 <= v[i] <= 102u8) || (65u8 <= v[i] <= 70u8)),
    ensures
        keyword_parses(sha256digest_key() + v),
{
    let tok = seq![115u8, 104u8, 97u8, 50u8, 53u8, 54u8, 100u8, 105u8, 103u8, 101u8, 115u8, 116u8, 61u8] + v;
    assert(tok[0] == 115u8 && tok[1] == 104u8 && tok[2] == 97u8 && tok[3] == 50u8 && tok[4] == 53u8 && tok[5] == 54u8 && tok[6] == 100u8 && tok[7] == 105u8 && tok[8] == 103u8 && tok[9] == 101u8 && tok[10] == 115u8 && tok[11] == 116u8 && tok[12] == 61u8);
    reveal_with_fuel(byte_index, 14);
    assert(byte_index(tok, 0, 61u8) == 12);
    let key = tok.take(12);
    assert(key =~= seq![115u8, 104u8, 97u8, 50u8, 53u8, 54u8, 100u8, 105u8, 103u8, 101u8, 115u8, 116u8]);
    assert(tok.skip(13) =~= v);
    reveal_strlit("ignore");
    assert(!spells(key, "ignore"@));
    reveal_strlit("nochange");
    assert(!spells(key, "nochange"@));
    reveal_strlit("optional");
    assert(!spells(key, "optional"@));
    reveal_strlit("contents");
    assert(!spells(key, "contents"@));
    reveal_strlit("flags");
    assert(!spells(key, "flags"@));
    reveal_strlit("gname");
    assert(!spells(key, "gname"@));
    reveal_strlit("link");
    assert(!spells(key, "link"@));
    reveal_strlit("uname");
    assert(!spells(key, "uname"@));
    reveal_strlit("cksum");
    assert(!spells(key, "cksum"@));
    reveal_strlit("gid");
    assert(!spells(key, "gid"@));
    reveal_strlit("inode");
    assert(!spells(key, "inode"@));
    reveal_strlit("nlink");
    assert(!spells(key, "nlink"@));
    reveal_strlit("size");
    assert(!spells(key, "size"@));
    reveal_strlit("uid");
    assert(!spells(key, "uid"@));
    reveal_strlit("device");
    assert(!spells(key, "device"@));
    reveal_strlit("resdevice");
    assert(!spells(key, "resdevice"@));
    reveal_strlit("md5");
    assert(!spells(key, "md5"@));
    reveal_strlit("md5digest");
    assert(!spells(key, "md5digest"@));
    reveal_strlit("rmd160");
    assert(!spells(key, "rmd160"@));
    reveal_strlit("rmd160digest");
    assert(!spells(key, "rmd160digest"@)) by {
        assert(key[0] as u32 != "rmd160digest"@[0] as u32);
    }
    reveal_strlit("ripemd160digest");
    assert(!spells(key, "ripemd160digest"@));
    reveal_strlit("sha1");
    assert(!spells(key, "sha1"@));
    reveal_strlit("sha1digest");
    assert(!spells(key, "sha1digest"@));
    reveal_strlit("sha256digest");
    assert(spells(key, "sha256digest"@));
    assert(all_hex(v));
}

/// An `md5digest=` keyword whose value is 32 hexadecimal digits, in either
/// case, parses.
pub proof fn lemma_md5_keyword_parses(v: Seq<u8>)
    requires
        v.len() == 32,
        forall|i: int| 0 <= i < v.len() ==> ((48u8 <= #[trigger] v[i] <= 57u8) || (97u8 <= v[i] <= 102u8) || (65u8 <= v[i] <= 70u8)),
    ensures
        keyword_parses(md5digest_key() + v),
{
    let tok = seq![109u8, 100u8, 53u8, 100u8, 105u8, 103u8, 101u8, 115u8, 116u8, 61u8] + v;
    assert(tok[0] == 109u8 && tok[1] == 100u8 && tok[2] == 53u8 && tok[3] == 100u8 && tok[4] == 105u8 && tok[5] == 103u8 && tok[6] == 101u8 && tok[7] == 115u8 && tok[8] == 116u8 && tok[9] == 61u8);
    reveal_with_fuel(byte_index, 11);
    assert(byte_index(tok, 0, 61u8) == 9);
    let key = tok.take(9);
    assert(key =~= seq![109u8, 100u8, 53u8, 100u8, 105u8, 103u8, 101u8, 115u8, 116u8]);
    assert(tok.skip(10) =~= v);
    reveal_strlit("ignore");
    assert(!spells(key, "ignore"@));
    reveal_strlit("nochange");
    assert(!spells(key, "nochange"@));
    reveal_strlit("optional");
    assert(!spells(key, "optional"@));
    reveal_strlit("contents");
    assert(!spells(key, "contents"@));
    reveal_strlit("flags");
    assert(!spells(key, "flags"@));
    reveal_strlit("gname");
    assert(!spells(key, "gname"@));
    reveal_strlit("link");
    assert(!spells(key, "link"@));
    reveal_strlit("uname");
    assert(!spells(key, "uname"@));
    reveal_strlit("cksum");
    assert(!spells(key, "cksum"@));
    reveal_strlit("gid");
    assert(!spells(key, "gid"@));
    reveal_strlit("inode");
    assert(!spells(key, "inode"@));
    reveal_strlit("nlink");
    assert(!spells(key, "nlink"@));
    reveal_strlit("size");
    assert(!spells(key, "size"@));
    reveal_strlit("uid");
    assert(!spells(key, "uid"@));
    reveal_strlit("device");
    assert(!spells(key, "device"@));
    reveal_strlit("resdevice");
    assert(!spells(key, "resdevice"@)) by {
        assert(key[0] as u32 != "resdevice"@[0] as u32);
    }
    reveal_strlit("md5digest");
    assert(spells(key, "md5digest"@));
    assert(all_hex(v));
}

/// A `size=` keyword whose value is decimal digits standing for a number
/// that fits 64 bits parses.
pub proof fn lemma_size_keyword_parses(v: Seq<u8>)
    requires
        forall|i: int| 0 <= i < v.len() ==> 48u8 <= #[trigger] v[i] <= 57u8,
        dec_value(v) <= u64::MAX,
    ensures
        keyword_parses(size_key() + v),
{
    let tok = seq![115u8, 105u8, 122u8, 101u8, 61u8] + v;
    assert(tok[0] == 115u8 && tok[1] == 105u8 && tok[2] == 122u8 && tok[3] == 101u8 && tok[4] == 61u8);
    reveal_with_fuel(byte_index, 6);
    assert(byte_index(tok, 0, 61u8) == 4);
    let key = tok.take(4);
    assert(key =~= seq![115u8, 105u8, 122u8, 101u8]);
    assert(tok.skip(5) =~= v);
    reveal_strlit("ignore");
    assert(!spells(key, "ignore"@));
    reveal_strlit("nochange");
    assert(!spells(key, "nochange"@));
    reveal_strlit("optional");
    assert(!spells(key, "optional"@));
    reveal_strlit("contents");
    assert(!spells(key, "contents"@));
    reveal_strlit("flags");
    assert(!spells(key, "flags"@));
    reveal_strlit("gname");
    assert(!spells(key, "gname"@));
    reveal_strlit("link");
    assert(!spells(key, "link"@)) by {
        assert(key[0] as u32 != "link"@[0] as u32);
    }
    reveal_strlit("uname");
    assert(!spells(key, "uname"@));
    reveal_strlit("size");
    assert(spells(key, "size"@));
}

/// A `link=` keyword parses whatever its target.
pub proof fn lemma_link_keyword_parses(v: Seq<u8>)
    ensures
        keyword_parses(link_key() + v),
{
    let tok = seq![108u8, 105u8, 110u8, 107u8, 61u8] + v;
    assert(tok[0] == 108u8 && tok[1] == 105u8 && tok[2] == 110u8 && tok[3] == 107u8 && tok[4] == 61u8);
    reveal_with_fuel(byte_index, 6);
    assert(byte_index(tok, 0, 61u8) == 4);
    let key = tok.take(4);
    assert(key =~= seq![108u8, 105u8, 110u8, 107u8]);
    assert(tok.skip(5) =~= v);
    reveal_strlit("ignore");
    assert(!spells(key, "ignore"@));
    reveal_strlit("nochange");
    assert(!spells(key, "nochange"@));
    reveal_strlit("optional");
    assert(!spells(key, "optional"@));
    reveal_strlit("link");
    assert(spells(key, "link"@));
}

/// A `time=` keyword whose value is seconds, a `.` and nanoseconds, decimal
/// numbers that fit 64 and 32 bits, parses.
pub proof fn lemma_time_keyword_parses(sec: Seq<u8>, nano: Seq<u8>)
    requires
        forall|i: int| 0 <= i < sec.len() ==> 48u8 <= #[trigger] sec[i] <= 57u8,
        forall|i: int| 0 <= i < nano.len() ==> 48u8 <= #[trigger] nano[i] <= 57u8,
        dec_value(sec) <= u64::MAX,
        dec_value(nano) <= u32::MAX,
    ensures
        keyword_parses(time_key() + sec + seq![46u8] + nano),
{
    let v = sec + seq![46u8] + nano;
    assert(time_key() + sec + seq![46u8] + nano =~= time_key() + v);
    let tok = seq![116u8, 105u8, 109u8, 101u8, 61u8] + v;
    assert(tok[0] == 116u8 && tok[1] == 105u8 && tok[2] == 109u8 && tok[3] == 101u8 && tok[4] == 61u8);
    reveal_with_fuel(byte_index, 6);
    assert(byte_index(tok, 0, 61u8) == 4);
    let key = tok.take(4);
    assert(key =~= seq![116u8, 105u8, 109u8, 101u8]);
    assert(tok.skip(5) =~= v);
    reveal_strlit("ignore");
    assert(!spells(key, "ignore"@));
    reveal_strlit("nochange");
    assert(!spells(key, "nochange"@));
    reveal_strlit("optional");
    assert(!spells(key, "optional"@));
    reveal_strlit("contents");
    assert(!spells(key, "contents"@));
    reveal_strlit("flags");
    assert(!spells(key, "flags"@));
    reveal_strlit("gname");
    assert(!spells(key, "gname"@));
    reveal_strlit("link");
    assert(!spells(key, "link"@)) by {
        assert(key[0] as u32 != "link"@[0] as u32);
    }
    reveal_strlit("uname");
    assert(!spells(key, "uname"@));
    reveal_strlit("cksum");
    assert(!spells(key, "cksum"@));
    reveal_strlit("gid");
    assert(!spells(key, "gid"@));
    reveal_strlit("inode");
    assert(!spells(key, "inode"@));
    reveal_strlit("nlink");
    assert(!spells(key, "nlink"@));
    reveal_strlit("size");
    assert(!spells(key, "size"@)) by {
        assert(key[0] as u32 != "size"@[0] as u32);
    }
    reveal_strlit("uid");
    assert(!spells(key, "uid"@));
    reveal_strlit("device");
    assert(!spells(key, "device"@));
    reveal_strlit("resdevice");
    assert(!spells(key, "resdevice"@));
    reveal_strlit("md5");
    assert(!spells(key, "md5"@));
    reveal_strlit("md5digest");
    assert(!spells(key, "md5digest"@));
    reveal_strlit("rmd160");
    assert(!spells(key, "rmd160"@));
    reveal_strlit("rmd160digest");
    assert(!spells(key, "rmd160digest"@));
    reveal_strlit("ripemd160digest");
    assert(!spells(key, "ripemd160digest"@));
    reveal_strlit("sha1");
    assert(!spells(key, "sha1"@)) by {
        assert(key[0] as u32 != "sha1"@[0] as u32);
    }
    reveal_strlit("sha1digest");
    assert(!spells(key, "sha1digest"@));
    reveal_strlit("sha256");
    assert(!spells(key, "sha256"@));
    reveal_strlit("sha256digest");
    assert(!spells(key, "sha256digest"@));
    reveal_strlit("sha384");
    assert(!spells(key, "sha384"@));
    reveal_strlit("sha384digest");
    assert(!spells(key, "sha384digest"@));
    reveal_strlit("sha512");
    assert(!spells(key, "sha512"@));
    reveal_strlit("sha512digest");
    assert(!spells(key, "sha512digest"@));
    reveal_strlit("mode");
    assert(!spells(key, "mode"@)) by {
        assert(key[0] as u32 != "mode"@[0] as u32);
    }
    reveal_strlit("time");
    assert(spells(key, "time"@));
    assert forall|i: int| 0 <= i < sec.len() implies v[i] != 46u8 by {
        assert(v[i] == sec[i]);
    }
    lemma_byte_index_at(v, 0, sec.len() as int, 46u8);
    assert(v.take(sec.len() as int) =~= sec);
    assert(v.skip(sec.len() as int + 1) =~= nano);
}

/// A `type=` keyword parses when its value names a kind of entry: `block`,
/// `char`, `dir`, `fifo`, `file`, `link` or `socket`.
pub proof fn lemma_type_keyword_parses(v: Seq<u8>)
    requires
        v == seq![98u8, 108u8, 111u8, 99u8, 107u8] || v == seq![99u8, 104u8, 97u8, 114u8] || v == seq![100u8, 105u8, 114u8] || v
            == seq![102u8, 105u8, 102u8, 111u8] || v == seq![102u8, 105u8, 108u8, 101u8] || v == seq![108u8, 105u8, 110u8, 107u8] || v
            == seq![115u8, 111u8, 99u8, 107u8, 101u8, 116u8],
    ensures
        keyword_parses(type_key() + v),
{
    let tok = seq![116u8, 121u8, 112u8, 101u8, 61u8] + v;
    assert(tok[0] == 116u8 && tok[1] == 121u8 && tok[2] == 112u8 && tok[3] == 101u8 && tok[4] == 61u8);
    reveal_with_fuel(byte_index, 6);
    assert(byte_index(tok, 0, 61u8) == 4);
    let key = tok.take(4);
    assert(key =~= seq![116u8, 121u8, 112u8, 101u8]);
    assert(tok.skip(5) =~= v);
    reveal_strlit("ignore");
    assert(!spells(key, "ignore"@));
    reveal_strlit("nochange");
    assert(!spells(key, "nochange"@));
    reveal_strlit("optional");
    assert(!spells(key, "optional"@));
    reveal_strlit("contents");
    assert(!spells(key, "contents"@));
    reveal_strlit("flags");
    assert(!spells(key, "flags"@));
    reveal_strlit("gname");
    assert(!spells(key, "gname"@));
    reveal_strlit("link");
    assert(!spells(key, "link"@)) by {
        assert(key[0] as u32 != "link"@[0] as u32);
    }
    reveal_strlit("uname");
    assert(!spells(key, "uname"@));
    reveal_strlit("cksum");
    assert(!spells(key, "cksum"@));
    reveal_strlit("gid");
    assert(!spells(key, "gid"@));
    reveal_strlit("inode");
    assert(!spells(key, "inode"@));
    reveal_strlit("nlink");
    assert(!spells(key, "nlink"@));
    reveal_strlit("size");
    assert(!spells(key, "size"@)) by {
        assert(key[0] as u32 != "size"@[0] as u32);
    }
    reveal_strlit("uid");
    assert(!spells(key, "uid"@));
    reveal_strlit("device");
    assert(!spells(key, "device"@));
    reveal_strlit("resdevice");
    assert(!spells(key, "resdevice"@));
    reveal_strlit("md5");
    assert(!spells(key, "md5"@));
    reveal_strlit("md5digest");
    assert(!spells(key, "md5digest"@));
    reveal_strlit("rmd160");
    assert(!spells(key, "rmd160"@));
    reveal_strlit("rmd160digest");
    assert(!spells(key, "rmd160digest"@));
    reveal_strlit("ripemd160digest");
    assert(!spells(key, "ripemd160digest"@));
    reveal_strlit("sha1");
    assert(!spells(key, "sha1"@)) by {
        assert(key[0] as u32 != "sha1"@[0] as u32);
    }
    reveal_strlit("sha1digest");
    assert(!spells(key, "sha1digest"@));
    reveal_strlit("sha256");
    assert(!spells(key, "sha256"@));
    reveal_strlit("sha256digest");
    assert(!spells(key, "sha256digest"@));
    reveal_strlit("sha384");
    assert(!spells(key, "sha384"@));
    reveal_strlit("sha384digest");
    assert(!spells(key, "sha384digest"@));
    reveal_strlit("sha512");
    assert(!spells(key, "sha512"@));
    reveal_strlit("sha512digest");
    assert(!spells(key, "sha512digest"@));
    reveal_strlit("mode");
    assert(!spells(key, "mode"@)) by {
        assert(key[0] as u32 != "mode"@[0] as u32);
    }
    reveal_strlit("time");
    assert(!spells(key, "time"@)) by {
        assert(key[1] as u32 != "time"@[1] as u32);
    }
    reveal_strlit("type");
    assert(spells(key, "type"@));
    reveal_strlit("block");
    reveal_strlit("char");
    reveal_strlit("dir");
    reveal_strlit("fifo");
    reveal_strlit("file");
    reveal_strlit("link");
    reveal_strlit("socket");
    if v == seq![98u8, 108u8, 111u8, 99u8, 107u8] {
        assert(spells(v, "block"@));
    } else if v == seq![99u8, 104u8, 97u8, 114u8] {
        assert(spells(v, "char"@));
    } else if v == seq![100u8, 105u8, 114u8] {
        assert(spells(v, "dir"@));
    } else if v == seq![102u8, 105u8, 102u8, 111u8] {
        assert(spells(v, "fifo"@));
    } else if v == seq![102u8, 105u8, 108u8, 101u8] {
        assert(spells(v, "file"@));
    } else if v == seq![108u8, 105u8, 110u8, 107u8] {
        assert(spells(v, "link"@));
    } else {
        assert(spells(v, "socket"@));
    }
}

/// The first `x` from `i` on is at `n` when none comes before it.
proof fn lemma_byte_index_at(s: Seq<u8>, i: int, n: int, x: u8)
    requires
        0 <= i <= n < s.len(),
        s[n] == x,
        forall|j: int| i <= j < n ==> s[j] != x,
    ensures
        byte_index(s, i, x) == n,
    decreases n - i,
{
    if i < n {
        lemma_byte_index_at(s, i + 1, n, x);
    }
}

/// The bytes `/unset`.
pub open spec fn unset_command() -> Seq<u8> {
    seq![47u8, 117u8, 110u8, 115u8, 101u8, 116u8]
}

/// Whether the line of `t` that starts at `p` is read without a panic and
/// without the working directory: a blank line, a comment or `..` always is;
/// any other line must have keywords that the crate accepts, and its first
/// word must be a command other than `/unset` or a path that holds a `/`.
pub open spec fn line_supported(t: Seq<u8>, p: int) -> bool {
    let e = line_end(t, p);
    let f = skip_spaces(t, p, e);
    let fe = word_end(t, f, e);
    let first = t.subrange(f, fe);
    ||| f == e
    ||| t[f] == 35u8
    ||| first == seq![46u8, 46u8]
    ||| {
        &&& forall|k: int|
            fe < k < e && t[k - 1] == 32u8 && t[k] != 32u8 ==> keyword_accepted(
                #[trigger] t.subrange(k, word_end(t, k, e)),
            )
        &&& if t[f] == 47u8 {
            first != unset_command()
        } else {
            exists|j: int| f <= j < fe && t[j] == 47u8
        }
    }
}

/// Whether the `mtree` crate reads every line of `t` without a panic and
/// without consulting the working directory.
pub open spec fn mtree_supported(t: Seq<u8>) -> bool {
    forall|p: int| line_start(t, p) ==> line_supported(t, p)
}

/// Where the line from `i` on ends: before its line break, or at the end of
/// `t`; no line break comes before.
proof fn lemma_line_end(t: Seq<u8>, i: int)
    requires
        0 <= i <= t.len(),
    ensures
        i <= line_end(t, i) <= t.len(),
        forall|j: int| i <= j < line_end(t, i) ==> t[j] != 10u8,
        line_end(t, i) < t.len() ==> t[line_end(t, i)] == 10u8,
    decreases t.len() - i,
{
    if i < t.len() && t[i] != 10u8 {
        lemma_line_end(t, i + 1);
    }
}

/// Skipping spaces stops at a byte that is not a space, or at `end`.
proof fn lemma_skip_spaces(t: Seq<u8>, i: int, end: int)
    requires
        0 <= i <= end <= t.len(),
    ensures
        i <= skip_spaces(t, i, end) <= end,
        skip_spaces(t, i, end) < end ==> t[skip_spaces(t, i, end)] != 32u8,
    decreases end - i,
{
    if i < end && t[i] == 32u8 {
        lemma_skip_spaces(t, i + 1, end);
    }
}

/// A word runs up to a space, or to `end`.
proof fn lemma_word_end(t: Seq<u8>, i: int, end: int)
    requires
        0 <= i <= end <= t.len(),
    ensures
        i <= word_end(t, i, end) <= end,
        i < end && t[i] != 32u8 ==> i < word_end(t, i, end),
    decreases end - i,
{
    if i < end && t[i] != 32u8 {
        lemma_word_end(t, i + 1, end);
    }
}

/// The end of the line of `t` that runs from `i`.
fn find_line_end(t: &[u8], i: usize) -> (e: usize)
    requires
        i <= t.len(),
    ensures
        e == line_end(t@, i as int),
{
    let mut k = i;
    while k < t.len() && t[k] != 10u8
        invariant
            i <= k <= t.len(),
            line_end(t@, k as int) == line_end(t@, i as int),
        decreases t.len() - k,
    {
        k = k + 1;
    }
    k
}

/// The first position from `i` on, before `end`, that is not a space.
fn find_non_space(t: &[u8], i: usize, end: usize) -> (f: usize)
    requires
        i <= end <= t.len(),
    ensures
        f == skip_spaces(t@, i as int, end as int),
        i <= f <= end,
{
    let mut k = i;
    while k < end && t[k] == 32u8
        invariant
            i <= k <= end,
            end <= t.len(),
            skip_spaces(t@, k as int, end as int) == skip_spaces(t@, i as int, end as int),
        decreases end - k,
    {
        k = k + 1;
    }
    k
}

/// The end of the word of `t` that starts at `i`, before `end`.
fn find_word_end(t: &[u8], i: usize, end: usize) -> (w: usize)
    requires
        i <= end <= t.len(),
    ensures
        w == word_end(t@, i as int, end as int),
        i <= w <= end,
{
    let mut k = i;
    while k < end && t[k] != 32u8
        invariant
            i <= k <= end,
            end <= t.len(),
            word_end(t@, k as int, end as int) == word_end(t@, i as int, end as int),
        decreases end - k,
    {
        k = k + 1;
    }
    k
}

/// The number the bytes of `t` from `lo` up to `hi` stand for, where they
/// are decimal digits whose value is at most `max`.
fn parse_dec(t: &[u8], lo: usize, hi: usize, max: u64) -> (r: Option<u64>)
    requires
        lo <= hi <= t.len(),
        max >= 9,
    ensures
        r is Some == dec_fits(t@.subrange(lo as int, hi as int), max as int),
        r matches Some(v) ==> v as int == dec_value(t@.subrange(lo as int, hi as int)),
{
    let mut acc: u64 = 0;
    let mut overflow = false;
    let mut k = lo;
    assert(t@.subrange(lo as int, lo as int) =~= Seq::<u8>::empty());
    while k < hi
        invariant
            lo <= k <= hi <= t.len(),
            max >= 9,
            dec_digits(t@.subrange(lo as int, k as int)),
            dec_value(t@.subrange(lo as int, k as int)) >= 0,
            !overflow ==> acc == dec_value(t@.subrange(lo as int, k as int)) && acc <= max,
            overflow ==> dec_value(t@.subrange(lo as int, k as int)) > max,
        decreases hi - k,
    {
        let ghost pre = t@.subrange(lo as int, k as int);
        let ghost next = t@.subrange(lo as int, k + 1);
        assert(next.drop_last() =~= pre);
        assert(t@.subrange(lo as int, hi as int)[k - lo] == t[k as int]);
        let b = t[k];
        if b < 48u8 || b > 57u8 {
            assert(!dec_digits(t@.subrange(lo as int, hi as int)));
            return None;
        }
        let d = (b - 48u8) as u64;
        if !overflow {
            if acc > (max - d) / 10 {
                assert(acc * 10 + d > max) by (nonlinear_arith)
                    requires
                        acc > (max - d) / 10,
                        d <= 9,
                        max >= 9,
                ;
                overflow = true;
            } else {
                assert(acc * 10 + d <= max) by (nonlinear_arith)
                    requires
                        acc <= (max - d) / 10,
                        d <= 9,
                ;
                acc = acc * 10 + d;
            }
        }
        k = k + 1;
    }
    assert(t@.subrange(lo as int, k as int) =~= t@.subrange(lo as int, hi as int));
    if overflow {
        None
    } else {
        Some(acc)
    }
}

/// Whether the keyword of `t` from `lo` up to `hi` reads without a panic.
fn keyword_ok(t: &[u8], lo: usize, hi: usize) -> (b: bool)
    requires
        lo <= hi <= t.len(),
    ensures
        b == keyword_readable(t@.subrange(lo as int, hi as int)),
{
    let ghost tok = t@.subrange(lo as int, hi as int);
    if hi - lo < 5 || !(t[lo] == 116u8 && t[lo + 1] == 105u8 && t[lo + 2] == 109u8 && t[lo + 3]
        == 101u8 && t[lo + 4] == 61u8) {
        assert(hi - lo >= 5 ==> tok.take(5)[0] == t[lo as int] && tok.take(5)[1] == t[lo + 1]
            && tok.take(5)[2] == t[lo + 2] && tok.take(5)[3] == t[lo + 3] && tok.take(5)[4] == t[lo
            + 4]);
        return true;
    }
    assert(tok.take(5) =~= time_key());
    let start = lo + 5;
    let ghost val = tok.skip(5);
    assert(val =~= t@.subrange(start as int, hi as int));
    let mut d = start;
    while d < hi && t[d] != 46u8
        invariant
            start <= d <= hi <= t.len(),
            val == t@.subrange(start as int, hi as int),
            byte_index(val, d - start, 46u8) == byte_index(val, 0, 46u8),
        decreases hi - d,
    {
        d = d + 1;
    }
    assert(byte_index(val, 0, 46u8) == d - start);
    if d >= hi {
        return true;
    }
    assert(val.take(d - start) =~= t@.subrange(start as int, d as int));
    assert(val.skip(d - start + 1) =~= t@.subrange(d + 1, hi as int));
    let sec = parse_dec(t, start, d, 18446744073709551615u64);
    let nano = parse_dec(t, d + 1, hi, 4294967295u64);
    match (sec, nano) {
        (Some(s), Some(n)) => {
            assert(dec_fits(val.take(d - start), u64::MAX as int));
            assert(dec_fits(val.skip(d - start + 1), u32::MAX as int));
            let carry = n / 1000000000;
            s <= 9223372036854775807u64 - carry
        },
        _ => true,
    }
}

/// The position of the first byte `x` of `t` from `from` on, before `hi`,
/// or `hi`.
fn find_byte(t: &[u8], lo: usize, hi: usize, from: usize, x: u8) -> (r: usize)
    requires
        lo <= from <= hi <= t.len(),
    ensures
        r == lo + byte_index(t@.subrange(lo as int, hi as int), from - lo, x),
        from <= r <= hi,
{
    let ghost tok = t@.subrange(lo as int, hi as int);
    let mut k = from;
    while k < hi && t[k] != x
        invariant
            lo <= from <= k <= hi <= t.len(),
            tok == t@.subrange(lo as int, hi as int),
            byte_index(tok, k - lo, x) == byte_index(tok, from - lo, x),
        decreases hi - k,
    {
        k = k + 1;
    }
    k
}

/// Whether the bytes of `t` from `lo` up to `hi` spell `name`.
fn spells_at(t: &[u8], lo: usize, hi: usize, name: &str) -> (b: bool)
    requires
        lo <= hi <= t.len(),
    ensures
        b == spells(t@.subrange(lo as int, hi as int), name@),
{
    let ghost tok = t@.subrange(lo as int, hi as int);
    let cs = chars_of(name);
    if hi - lo != cs.len() {
        return false;
    }
    let mut i: usize = 0;
    while i < cs.len()
        invariant
            i <= cs.len(),
            cs@ == name@,
            hi - lo == cs.len(),
            lo <= hi <= t.len(),
            tok == t@.subrange(lo as int, hi as int),
            forall|j: int| 0 <= j < i ==> #[trigger] tok[j] as u32 == name@[j] as u32,
        decreases cs.len() - i,
    {
        let b = t[lo + i];
        let c = cs[i];
        if (b as u32) != (c as u32) {
            assert(tok[i as int] as u32 != name@[i as int] as u32);
            return false;
        }
        i = i + 1;
    }
    true
}

/// Whether every byte of `t` from `lo` up to `hi` is a hexadecimal digit.
fn all_hex_at(t: &[u8], lo: usize, hi: usize) -> (b: bool)
    requires
        lo <= hi <= t.len(),
    ensures
        b == all_hex(t@.subrange(lo as int, hi as int)),
{
    let ghost tok = t@.subrange(lo as int, hi as int);
    let mut k = lo;
    while k < hi
        invariant
            lo <= k <= hi <= t.len(),
            tok == t@.subrange(lo as int, hi as int),
            forall|j: int| 0 <= j < k - lo ==> is_hex(#[trigger] tok[j]),
        decreases hi - k,
    {
        let c = t[k];
        if !((48u8 <= c && c <= 57u8) || (97u8 <= c && c <= 102u8) || (65u8 <= c && c <= 70u8)) {
            assert(!is_hex(tok[k - lo]));
            return false;
        }
        k = k + 1;
    }
    true
}

/// Whether every byte of `t` from `lo` up to `hi` is an octal digit.
fn all_octal_at(t: &[u8], lo: usize, hi: usize) -> (b: bool)
    requires
        lo <= hi <= t.len(),
    ensures
        b == all_octal(t@.subrange(lo as int, hi as int)),
{
    let ghost tok = t@.subrange(lo as int, hi as int);
    let mut k = lo;
    while k < hi
        invariant
            lo <= k <= hi <= t.len(),
            tok == t@.subrange(lo as int, hi as int),
            forall|j: int| 0 <= j < k - lo ==> 48u8 <= #[trigger] tok[j] <= 55u8,
        decreases hi - k,
    {
        if t[k] < 48u8 || t[k] > 55u8 {
            assert(!(48u8 <= tok[k - lo] <= 55u8));
            return false;
        }
        k = k + 1;
    }
    true
}

/// Whether the bytes of `t` from `lo` up to `hi` read as a time.
fn time_at(t: &[u8], lo: usize, hi: usize) -> (b: bool)
    requires
        lo <= hi <= t.len(),
    ensures
        b == time_value(t@.subrange(lo as int, hi as int)),
{
    let ghost v = t@.subrange(lo as int, hi as int);
    let d = find_byte(t, lo, hi, lo, 46u8);
    if d == hi {
        return false;
    }
    assert(v.take(d - lo) =~= t@.subrange(lo as int, d as int));
    assert(v.skip(d - lo + 1) =~= t@.subrange(d + 1, hi as int));
    parse_dec(t, lo, d, 18446744073709551615u64).is_some() && parse_dec(
        t,
        d + 1,
        hi,
        4294967295u64,
    ).is_some()
}

/// Whether the bytes of `t` from `lo` up to `hi` read as a device.
fn device_at(t: &[u8], lo: usize, hi: usize) -> (b: bool)
    requires
        lo <= hi <= t.len(),
    ensures
        b == device_value(t@.subrange(lo as int, hi as int)),
{
    let ghost v = t@.subrange(lo as int, hi as int);
    let c = find_byte(t, lo, hi, lo, 44u8);
    if c == hi {
        return false;
    }
    let c2 = find_byte(t, lo, hi, c + 1, 44u8);
    if c2 == hi {
        return false;
    }
    assert(v.take(c - lo) =~= t@.subrange(lo as int, c as int));
    spells_at(t, lo, c, "native") || spells_at(t, lo, c, "386bsd") || spells_at(t, lo, c, "4bsd")
        || spells_at(t, lo, c, "bsdos") || spells_at(t, lo, c, "freebsd") || spells_at(
        t,
        lo,
        c,
        "hpux",
    ) || spells_at(t, lo, c, "isc") || spells_at(t, lo, c, "linux") || spells_at(
        t,
        lo,
        c,
        "netbsd",
    ) || spells_at(t, lo, c, "osf1") || spells_at(t, lo, c, "sco") || spells_at(
        t,
        lo,
        c,
        "solaris",
    ) || spells_at(t, lo, c, "sunos") || spells_at(t, lo, c, "svr3") || spells_at(
        t,
        lo,
        c,
        "svr4",
    ) || spells_at(t, lo, c, "ultrix")
}

/// Whether the bytes of `t` from `lo` up to `hi` name a kind of entry.
fn type_at(t: &[u8], lo: usize, hi: usize) -> (b: bool)
    requires
        lo <= hi <= t.len(),
    ensures
        b == type_value(t@.subrange(lo as int, hi as int)),
{
    spells_at(t, lo, hi, "block") || spells_at(t, lo, hi, "char") || spells_at(t, lo, hi, "dir")
        || spells_at(t, lo, hi, "fifo") || spells_at(t, lo, hi, "file") || spells_at(
        t,
        lo,
        hi,
        "link",
    ) || spells_at(t, lo, hi, "socket")
}

/// Whether the keyword of `t` from `lo` up to `hi` parses.
fn keyword_parses_at(t: &[u8], lo: usize, hi: usize) -> (b: bool)
    requires
        lo <= hi <= t.len(),
    ensures
        b == keyword_parses(t@.subrange(lo as int, hi as int)),
{
    let ghost tok = t@.subrange(lo as int, hi as int);
    let e = find_byte(t, lo, hi, lo, 61u8);
    assert(tok.take(e - lo) =~= t@.subrange(lo as int, e as int));
    if spells_at(t, lo, e, "ignore") || spells_at(t, lo, e, "nochange") || spells_at(
        t,
        lo,
        e,
        "optional",
    ) {
        return true;
    }
    if e == hi {
        return false;
    }
    let v = e + 1;
    assert(tok.skip(e - lo + 1) =~= t@.subrange(v as int, hi as int));
    if spells_at(t, lo, e, "contents") || spells_at(t, lo, e, "flags") || spells_at(
        t,
        lo,
        e,
        "gname",
    ) || spells_at(t, lo, e, "link") || spells_at(t, lo, e, "uname") {
        true
    } else if spells_at(t, lo, e, "cksum") || spells_at(t, lo, e, "gid") || spells_at(
        t,
        lo,
        e,
        "inode",
    ) || spells_at(t, lo, e, "nlink") || spells_at(t, lo, e, "size") || spells_at(
        t,
        lo,
        e,
        "uid",
    ) {
        parse_dec(t, v, hi, 18446744073709551615u64).is_some()
    } else if spells_at(t, lo, e, "device") || spells_at(t, lo, e, "resdevice") {
        device_at(t, v, hi)
    } else if spells_at(t, lo, e, "md5") || spells_at(t, lo, e, "md5digest") {
        hi - v == 32 && all_hex_at(t, v, hi)
    } else if spells_at(t, lo, e, "rmd160") || spells_at(t, lo, e, "rmd160digest") || spells_at(
        t,
        lo,
        e,
        "ripemd160digest",
    ) || spells_at(t, lo, e, "sha1") || spells_at(t, lo, e, "sha1digest") {
        hi - v == 40 && all_hex_at(t, v, hi)
    } else if spells_at(t, lo, e, "sha256") || spells_at(t, lo, e, "sha256digest") {
        hi - v == 64 && all_hex_at(t, v, hi)
    } else if spells_at(t, lo, e, "sha384") || spells_at(t, lo, e, "sha384digest") {
        hi - v == 96 && all_hex_at(t, v, hi)
    } else if spells_at(t, lo, e, "sha512") || spells_at(t, lo, e, "sha512digest") {
        hi - v == 128 && all_hex_at(t, v, hi)
    } else if spells_at(t, lo, e, "mode") {
        if hi - v == 3 {
            all_octal_at(t, v, hi)
        } else if hi - v == 4 {
            assert(t@.subrange(v as int, hi as int).skip(1) =~= t@.subrange(v + 1, hi as int));
            all_octal_at(t, v + 1, hi)
        } else {
            false
        }
    } else if spells_at(t, lo, e, "time") {
        time_at(t, v, hi)
    } else if spells_at(t, lo, e, "type") {
        type_at(t, v, hi)
    } else {
        false
    }
}

/// Whether the byte `x` occurs in `t` from `lo` up to `hi`.
fn has_byte(t: &[u8], lo: usize, hi: usize, x: u8) -> (b: bool)
    requires
        lo <= hi <= t.len(),
    ensures
        b == exists|j: int| lo <= j < hi && t@[j] == x,
{
    let mut j = lo;
    while j < hi
        invariant
            lo <= j <= hi <= t.len(),
            forall|i: int| lo <= i < j ==> t@[i] != x,
        decreases hi - j,
    {
        if t[j] == x {
            assert(lo <= j < hi && t@[j as int] == x);
            return true;
        }
        j = j + 1;
    }
    false
}

/// Whether the line of `t` that starts at `p` is read without a panic and
/// without the working directory.
fn line_ok(t: &[u8], p: usize) -> (b: bool)
    requires
        line_start(t@, p as int),
    ensures
        b == line_supported(t@, p as int),
{
    let e = find_line_end(t, p);
    proof {
        lemma_line_end(t@, p as int);
    }
    let f = find_non_space(t, p, e);
    proof {
        lemma_skip_spaces(t@, p as int, e as int);
    }
    if f == e {
        return true;
    }
    if t[f] == 35u8 {
        return true;
    }
    let fe = find_word_end(t, f, e);
    proof {
        lemma_word_end(t@, f as int, e as int);
        assert forall|j: int| 0 <= j <= e implies j <= #[trigger] word_end(t@, j, e as int) <= e by {
            lemma_word_end(t@, j, e as int);
        }
    }
    let ghost first = t@.subrange(f as int, fe as int);
    if fe - f == 2 && t[f] == 46u8 && t[f + 1] == 46u8 {
        assert(first =~= seq![46u8, 46u8]);
        return true;
    }
    assert(f < fe);
    assert(first.len() == fe - f);
    assert(first != seq![46u8, 46u8]) by {
        if first == seq![46u8, 46u8] {
            assert(fe - f == 2);
            assert(first[0] == t@[f as int]);
            assert(first[1] == t@[f + 1]);
        }
    }
    let mut k = fe;
    while k < e
        invariant
            f < fe <= k <= e <= t.len(),
            e == line_end(t@, p as int),
            f == skip_spaces(t@, p as int, e as int),
            fe == word_end(t@, f as int, e as int),
            first == t@.subrange(f as int, fe as int),
            t@[f as int] != 35u8,
            first != seq![46u8, 46u8],
            forall|j: int| 0 <= j <= e ==> j <= #[trigger] word_end(t@, j, e as int) <= e,
            forall|j: int|
                fe < j <= k && j < e && t@[j - 1] == 32u8 && t@[j] != 32u8 ==> keyword_accepted(
                    #[trigger] t@.subrange(j, word_end(t@, j, e as int)),
                ),
        decreases e - k,
    {
        k = k + 1;
        if k < e && t[k - 1] == 32u8 && t[k] != 32u8 {
            let we = find_word_end(t, k, e);
            if !(keyword_parses_at(t, k, we) && keyword_ok(t, k, we)) {
                assert(!keyword_accepted(t@.subrange(k as int, word_end(t@, k as int, e as int))));
                return false;
            }
        }
    }
    assert(k == e);
    assert(forall|j: int|
        fe < j < e && t@[j - 1] == 32u8 && t@[j] != 32u8 ==> keyword_accepted(
            #[trigger] t@.subrange(j, word_end(t@, j, e as int)),
        ));
    if t[f] == 47u8 {
        let is_unset = fe - f == 6 && t[f + 1] == 117u8 && t[f + 2] == 110u8 && t[f + 3] == 115u8
            && t[f + 4] == 101u8 && t[f + 5] == 116u8;
        if is_unset {
            assert(first =~= unset_command());
        } else {
            assert(first != unset_command()) by {
                if first == unset_command() {
                    assert(first.len() == 6);
                    assert(first[1] == t@[f + 1] && first[2] == t@[f + 2] && first[3] == t@[f + 3]
                        && first[4] == t@[f + 4] && first[5] == t@[f + 5]);
                }
            }
        }
        !is_unset
    } else {
        has_byte(t, f, fe, 47u8)
    }
}

/// Whether the `mtree` crate reads every line of `t` without a panic and
/// without consulting the working directory.
pub fn mtree_is_supported(t: &[u8]) -> (b: bool)
    ensures
        b == mtree_supported(t@),
{
    let mut p: usize = 0;
    loop
        invariant
            line_start(t@, p as int),
            forall|q: int| line_start(t@, q) && q < p ==> line_supported(t@, q),
        decreases t.len() - p,
    {
        if !line_ok(t, p) {
            return false;
        }
        let e = find_line_end(t, p);
        proof {
            lemma_line_end(t@, p as int);
        }
        if e == t.len() {
            assert forall|q: int| line_start(t@, q) implies line_supported(t@, q) by {
                if q > p {
                    assert(t@[q - 1] != 10u8);
                }
            }
            return true;
        }
        assert forall|q: int| line_start(t@, q) && q < e + 1 implies line_supported(t@, q) by {
            if q > p {
                assert(t@[q - 1] != 10u8);
            }
        }
        p = e + 1;
    }
}

/// The entries that the `mtree` crate reads from the text `text`, in order,
/// each as its path and the kind it states; `None` where a line does not
/// parse or a path is not UTF-8.
pub uninterp spec fn mtree_entries(text: Seq<u8>) -> Option<Seq<(Seq<char>, Option<EntryKind>)>>;

/// Reads the entries of `text` with `mtree::MTree::from_reader`. Claimed: the
/// result is `mtree_entries(text)`, an entry that does not parse or a path
/// that is not UTF-8 giving `None`. What `mtree_supported` asks keeps the call
/// from panicking: no `/unset` line, no keyword the crate cannot parse (its
/// `debug_assert!`), no time the system clock cannot hold; and no relative
/// entry, so the crate never consults the working directory and the entries
/// depend on `text` alone.
#[verifier::external_body]
fn mtree_read(text: &[u8]) -> (entries: Option<Vec<MtreeEntry>>)
    requires
        mtree_supported(text@),
    ensures
        match entries {
            Some(es) => mtree_entries(text@) == Some(es@.map_values(|e: MtreeEntry| e@)),
            None => mtree_entries(text@) is None,
        },
{
    let mut out = Vec::new();
    for entry in mtree::MTree::from_reader(text) {
        let entry = entry.ok()?;
        out.push(MtreeEntry { path: entry.path().to_str()?.to_string(), kind: match entry.file_type() {
            Some(FileType::BlockDevice) => Some(EntryKind::BlockDevice),
            Some(FileType::CharacterDevice) => Some(EntryKind::CharacterDevice),
            Some(FileType::Directory) => Some(EntryKind::Directory),
            Some(FileType::Fifo) => Some(EntryKind::Fifo),
            Some(FileType::File) => Some(EntryKind::File),
            Some(FileType::SymbolicLink) => Some(EntryKind::SymbolicLink),
            Some(FileType::Socket) => Some(EntryKind::Socket),
            None => None,
        } });
    }
    Some(out)
}

/// The paths of the entries of `entries` that are not directories, in order.
pub open spec fn file_paths_of(entries: Seq<(Seq<char>, Option<EntryKind>)>) -> Seq<Seq<char>>
    decreases entries.len(),
{
    if entries.len() == 0 {
        Seq::empty()
    } else {
        let prev = file_paths_of(entries.drop_last());
        if entries.last().1 != Some(EntryKind::Directory) {
            prev.push(entries.last().0)
        } else {
            prev
        }
    }
}

/// Whether every entry states its kind.
pub open spec fn all_typed(entries: Seq<(Seq<char>, Option<EntryKind>)>) -> bool {
    forall|i: int| 0 <= i < entries.len() ==> (#[trigger] entries[i]).1 is Some
}

/// The list that the database records of what a package installed: the paths
/// of the entries of its mtree that are not directories, in order. Every
/// entry must state its kind.
pub fn file_paths(entries: &Vec<MtreeEntry>) -> (paths: Vec<String>)
    requires
        all_typed(entries@.map_values(|e: MtreeEntry| e@)),
    ensures
        paths.deep_view() == file_paths_of(entries@.map_values(|e: MtreeEntry| e@)),
{
    let ghost all = entries@.map_values(|e: MtreeEntry| e@);
    let mut paths: Vec<String> = Vec::new();
    let mut k: usize = 0;
    assert(all.take(0) =~= Seq::<(Seq<char>, Option<EntryKind>)>::empty());
    assert(paths.deep_view() =~= Seq::<Seq<char>>::empty());
    while k < entries.len()
        invariant
            k <= entries.len(),
            all == entries@.map_values(|e: MtreeEntry| e@),
            paths.deep_view() == file_paths_of(all.take(k as int)),
        decreases entries.len() - k,
    {
        let ghost before = paths.deep_view();
        assert(all.take(k + 1).drop_last() =~= all.take(k as int));
        assert(all.take(k + 1).last() == entries@[k as int]@);
        let is_dir = match entries[k].kind {
            Some(EntryKind::Directory) => true,
            _ => false,
        };
        if !is_dir {
            paths.push(entries[k].path.clone());
            assert(paths.deep_view() =~= before.push(entries@[k as int].path@));
        } else {
            assert(paths.deep_view() =~= before);
        }
        k = k + 1;
    }
    assert(all.take(k as int) =~= all);
    paths
}

/// The list of files that a package installed, from the text of its mtree
/// file: the paths of the entries that are not directories, in order. `None`
/// where the text does not read as entries, or an entry states no kind.
pub fn mtree_file_paths(text: &[u8]) -> (paths: Option<Vec<String>>)
    requires
        mtree_supported(text@),
    ensures
        match mtree_entries(text@) {
            None => paths is None,
            Some(es) => if all_typed(es) {
                paths matches Some(p) && p.deep_view() == file_paths_of(es)
            } else {
                paths is None
            },
        },
{
    let entries = match mtree_read(text) {
        Some(es) => es,
        None => return None,
    };
    let ghost all = entries@.map_values(|e: MtreeEntry| e@);
    let mut k: usize = 0;
    while k < entries.len()
        invariant
            k <= entries.len(),
            all == entries@.map_values(|e: MtreeEntry| e@),
            mtree_entries(text@) == Some(all),
            forall|i: int| 0 <= i < k ==> (#[trigger] all[i]).1 is Some,
        decreases entries.len() - k,
    {
        if entries[k].kind.is_none() {
            assert(all[k as int].1 is None);
            return None;
        }
        k = k + 1;
    }
    Some(file_paths(&entries))
}

} // verus!

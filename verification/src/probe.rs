use vstd::prelude::*;

use crate::strutil::{lower_char, seq_eq_folded, str_eq_folded};

verus! {

/// The position of the last `.` in a name, or `-1` when it has none.
pub open spec fn last_dot(name: Seq<char>) -> int
    decreases name.len(),
{
    if name.len() == 0 {
        -1
    } else if name.last() == '.' {
        name.len() - 1
    } else {
        last_dot(name.drop_last())
    }
}

/// The extension of a name: what follows the last `.`, provided that dot is
/// not the leading character. A name without a dot past its first character
/// has no extension.
pub open spec fn spec_extension(name: Seq<char>) -> Option<Seq<char>> {
    let k = last_dot(name);
    if k >= 1 {
        Some(name.skip(k + 1))
    } else {
        None
    }
}

/// The last dot sits at position `k` exactly when `k` holds a dot and
/// nothing after `k` does (or `k == -1` and the name is dot-free).
pub proof fn lemma_last_dot_scan(name: Seq<char>, k: int)
    requires
        -1 <= k < name.len(),
        k >= 0 ==> name[k] == '.',
        forall|j: int| k < j < name.len() ==> name[j] != '.',
    ensures
        last_dot(name) == k,
    decreases name.len(),
{
    if name.len() > 0 && name.last() != '.' {
        let t = name.drop_last();
        assert(forall|j: int| k < j < t.len() ==> t[j] == name[j]);
        lemma_last_dot_scan(t, k);
    }
}

/// The extension of `name`, as an owned string.
pub fn extension_of(name: &str) -> (r: Option<String>)
    ensures
        match r {
            Some(e) => spec_extension(name@) matches Some(s) && e@ == s,
            None => spec_extension(name@) is None,
        },
{
    let len = name.unicode_len();
    let mut i: usize = len;
    while i > 0
        invariant
            len == name@.len(),
            i <= len,
            forall|j: int| i <= j < len ==> name@[j] != '.',
        decreases i,
    {
        if name.get_char(i - 1) == '.' {
            proof {
                lemma_last_dot_scan(name@, i - 1);
            }
            if i - 1 >= 1 {
                let e = name.substring_char(i, len).to_owned();
                proof {
                    assert(e@ =~= name@.skip(i as int));
                }
                return Some(e);
            } else {
                return None;
            }
        }
        i -= 1;
    }
    proof {
        lemma_last_dot_scan(name@, -1);
    }
    None
}

/// Whether `ext` equals one of the entries of `exts` when both sides are
/// folded to ASCII lower case. Entries are held without their leading dot.
pub open spec fn ext_in_list(ext: Seq<char>, exts: Seq<Seq<char>>) -> bool {
    exists|i: int| 0 <= i < exts.len() && seq_eq_folded(ext, #[trigger] exts[i], true)
}

/// Whether `ext` matches some recognized extension, case-insensitively.
pub fn ext_matches(ext: &str, exts: &Vec<String>) -> (r: bool)
    ensures
        r == ext_in_list(ext@, exts@.map_values(|s: String| s@)),
{
    let ghost exts_v = exts@.map_values(|s: String| s@);
    let n = exts.len();
    let mut i: usize = 0;
    while i < n
        invariant
            n == exts.len(),
            i <= n,
            exts_v == exts@.map_values(|s: String| s@),
            forall|k: int| 0 <= k < i ==> !seq_eq_folded(ext@, #[trigger] exts_v[k], true),
        decreases n - i,
    {
        if str_eq_folded(ext, exts[i].as_str(), true) {
            assert(seq_eq_folded(ext@, exts_v[i as int], true));
            return true;
        }
        i += 1;
    }
    false
}

/// Permission-bits policy: a path is executable exactly when it is a
/// regular file with at least one executor bit (owner, group or other) set
/// in its permission bits.
pub fn executable_by_mode(is_file: bool, mode: u32) -> (r: bool)
    ensures
        r == (is_file && mode & 0o111 != 0),
{
    is_file && mode & 0o111 != 0
}

/// Extension-or-type policy: a regular file is executable when its name's
/// extension matches the recognized list case-insensitively, or, when the
/// name has no extension, when the platform reports the file as a binary
/// executable image (`binary_image`).
pub open spec fn spec_executable_by_extension(
    is_file: bool,
    name: Seq<char>,
    exts: Seq<Seq<char>>,
    binary_image: bool,
) -> bool {
    is_file && match spec_extension(name) {
        Some(e) => ext_in_list(e, exts),
        None => binary_image,
    }
}

/// Extension-or-type policy, decided from plain values the caller read from
/// the platform.
pub fn executable_by_extension(
    is_file: bool,
    name: &str,
    exts: &Vec<String>,
    binary_image: bool,
) -> (r: bool)
    ensures
        r == spec_executable_by_extension(
            is_file,
            name@,
            exts@.map_values(|s: String| s@),
            binary_image,
        ),
{
    if !is_file {
        return false;
    }
    match extension_of(name) {
        Some(e) => ext_matches(e.as_str(), exts),
        None => binary_image,
    }
}

/// What a leading chunk of a file's bytes says under the binary heuristic:
/// a PDF magic header counts as binary, and otherwise any null byte in the
/// chunk does. Advisory only; it is no format parser.
pub open spec fn spec_is_binary_content(b: Seq<u8>) -> bool {
    ||| b.len() >= 4 && b.subrange(0, 4) == seq![0x25u8, 0x50u8, 0x44u8, 0x46u8]
    ||| exists|i: int| 0 <= i < b.len() && b[i] == 0u8
}

/// Relies on memchr::memchr: it returns the index of the first occurrence
/// of `needle` in `haystack`, or `None` when the byte does not occur.
pub assume_specification[ memchr::memchr ](needle: u8, haystack: &[u8]) -> (r: Option<usize>)
    ensures
        match r {
            Some(i) => i < haystack@.len() && haystack@[i as int] == needle && forall|j: int|
                0 <= j < i ==> haystack@[j] != needle,
            None => forall|j: int| 0 <= j < haystack@.len() ==> haystack@[j] != needle,
        },
;

/// The binary heuristic on the first bytes read from a file: true on a PDF
/// magic header, else true exactly when a null byte occurs. The caller
/// reads the bytes; an unreadable or non-regular path never reaches here
/// and reads as not binary.
pub fn is_binary_content(buf: &[u8]) -> (r: bool)
    ensures
        r == spec_is_binary_content(buf@),
{
    if buf.len() >= 4 && buf[0] == 0x25 && buf[1] == 0x50 && buf[2] == 0x44 && buf[3] == 0x46 {
        proof {
            assert(buf@.subrange(0, 4) =~= seq![0x25u8, 0x50u8, 0x44u8, 0x46u8]);
        }
        return true;
    }
    proof {
        if buf@.len() >= 4 {
            let m = seq![0x25u8, 0x50u8, 0x44u8, 0x46u8];
            if buf@.subrange(0, 4) == m {
                assert(buf@[0] == buf@.subrange(0, 4)[0]);
                assert(buf@[1] == buf@.subrange(0, 4)[1]);
                assert(buf@[2] == buf@.subrange(0, 4)[2]);
                assert(buf@[3] == buf@.subrange(0, 4)[3]);
            }
        }
    }
    memchr::memchr(0, buf).is_some()
}

} // verus!

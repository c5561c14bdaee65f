use vstd::prelude::*;

verus! {

/// Whether `c` is an ASCII upper-case letter.
pub open spec fn is_ascii_upper(c: char) -> bool {
    65 <= c as u32 <= 90
}

/// Whether `c` is an ASCII lower-case letter.
pub open spec fn is_ascii_lower(c: char) -> bool {
    97 <= c as u32 <= 122
}

/// Whether `c` is an ASCII letter.
pub open spec fn is_ascii_letter(c: char) -> bool {
    is_ascii_upper(c) || is_ascii_lower(c)
}

/// The ASCII lower-case form of `c`; other characters are unchanged.
pub open spec fn lower_char(c: char) -> char {
    if is_ascii_upper(c) {
        ((c as u8) + 32) as char
    } else {
        c
    }
}

/// `c` folded for comparison: lower-cased when `ci` asks for it.
pub open spec fn fold_char(c: char, ci: bool) -> char {
    if ci {
        lower_char(c)
    } else {
        c
    }
}

/// Whether `needle` occurs in `hay` starting at position `i`, comparing
/// characters folded by `ci`.
pub open spec fn matches_at(hay: Seq<char>, needle: Seq<char>, i: int, ci: bool) -> bool {
    &&& 0 <= i
    &&& i + needle.len() <= hay.len()
    &&& forall|j: int|
        0 <= j < needle.len() ==> fold_char(hay[i + j], ci) == fold_char(
            #[trigger] needle[j],
            ci,
        )
}

/// Whether `needle` occurs somewhere in `hay`, comparing characters folded
/// by `ci`.
pub open spec fn is_substring(hay: Seq<char>, needle: Seq<char>, ci: bool) -> bool {
    exists|i: int| matches_at(hay, needle, i, ci)
}

/// Whether two character sequences are equal once folded by `ci`.
pub open spec fn seq_eq_folded(a: Seq<char>, b: Seq<char>, ci: bool) -> bool {
    a.len() == b.len() && matches_at(a, b, 0, ci)
}

/// The sequence `s` with every character folded to ASCII lower case.
pub open spec fn lower_seq(s: Seq<char>) -> Seq<char> {
    s.map_values(|c: char| lower_char(c))
}

/// Relies on String::push of std: it appends the given character to the end
/// of the string.
pub assume_specification[ String::push ](s: &mut String, c: char)
    ensures
        final(s)@ == old(s)@.push(c),
;

/// The string `s` with every character folded to ASCII lower case.
pub fn lower_str(s: &str) -> (r: String)
    ensures
        r@ == lower_seq(s@),
{
    let len = s.unicode_len();
    let mut out = String::new();
    let mut i: usize = 0;
    while i < len
        invariant
            len == s@.len(),
            i <= len,
            out@ == lower_seq(s@.take(i as int)),
        decreases len - i,
    {
        out.push(lower_char_exec(s.get_char(i)));
        proof {
            assert(lower_seq(s@.take(i + 1)) =~= lower_seq(s@.take(i as int)).push(
                lower_char(s@[i as int]),
            ));
        }
        i += 1;
    }
    proof {
        assert(s@.take(len as int) =~= s@);
    }
    out
}

/// The ASCII lower-case form of `c`; other characters come back unchanged.
pub fn lower_char_exec(c: char) -> (r: char)
    ensures
        r == lower_char(c),
{
    let u = c as u32;
    if 65 <= u && u <= 90 {
        ((u as u8) + 32) as char
    } else {
        c
    }
}

/// Whether `a` and `b` hold the same characters, folded by `ci`.
pub fn str_eq_folded(a: &str, b: &str, ci: bool) -> (r: bool)
    ensures
        r == seq_eq_folded(a@, b@, ci),
{
    let alen = a.unicode_len();
    let blen = b.unicode_len();
    if alen != blen {
        return false;
    }
    let mut j: usize = 0;
    while j < alen
        invariant
            alen == a@.len(),
            blen == b@.len(),
            alen == blen,
            j <= alen,
            forall|k: int| 0 <= k < j ==> fold_char(a@[k], ci) == fold_char(#[trigger] b@[k], ci),
        decreases alen - j,
    {
        let ca = a.get_char(j);
        let cb = b.get_char(j);
        let fa = if ci { lower_char_exec(ca) } else { ca };
        let fb = if ci { lower_char_exec(cb) } else { cb };
        if fa != fb {
            return false;
        }
        j += 1;
    }
    true
}

/// Whether `needle` occurs as a contiguous run of characters in `hay`,
/// folded by `ci`.
pub fn str_contains(hay: &str, needle: &str, ci: bool) -> (r: bool)
    ensures
        r == is_substring(hay@, needle@, ci),
{
    let hlen = hay.unicode_len();
    let nlen = needle.unicode_len();
    if nlen > hlen {
        assert(forall|i: int| !matches_at(hay@, needle@, i, ci));
        return false;
    }
    let mut i: usize = 0;
    while i <= hlen - nlen
        invariant
            hlen == hay@.len(),
            nlen == needle@.len(),
            nlen <= hlen,
            i <= hlen - nlen + 1,
            forall|k: int| 0 <= k < i ==> !matches_at(hay@, needle@, k, ci),
        decreases hlen - nlen - i + 1,
    {
        let mut j: usize = 0;
        let mut all: bool = true;
        while j < nlen
            invariant
                hlen == hay@.len(),
                nlen == needle@.len(),
                i + nlen <= hlen,
                j <= nlen,
                all ==> forall|k: int|
                    0 <= k < j ==> fold_char(hay@[i + k], ci) == fold_char(
                        #[trigger] needle@[k],
                        ci,
                    ),
                !all ==> !matches_at(hay@, needle@, i as int, ci),
            decreases nlen - j,
        {
            let ch = hay.get_char(i + j);
            let cn = needle.get_char(j);
            let fh = if ci { lower_char_exec(ch) } else { ch };
            let fn_ = if ci { lower_char_exec(cn) } else { cn };
            if fh != fn_ {
                all = false;
                assert(fold_char(hay@[i + j], ci) != fold_char(needle@[j as int], ci));
                assert(!matches_at(hay@, needle@, i as int, ci));
                j = nlen;
            } else {
                j += 1;
            }
        }
        if all {
            assert(matches_at(hay@, needle@, i as int, ci));
            return true;
        }
        i += 1;
    }
    assert(forall|k: int| !matches_at(hay@, needle@, k, ci)) by {
        assert(forall|k: int| k > hlen - nlen ==> !matches_at(hay@, needle@, k, ci));
    }
    false
}

/// Whether the glob pattern `pat` matches the whole of `name`, folding by
/// `ci`: `*` matches any run of characters, `?` any one character, and
/// anything else itself.
pub open spec fn glob_match(pat: Seq<char>, name: Seq<char>, ci: bool) -> bool
    decreases pat.len(), name.len(),
{
    if pat.len() == 0 {
        name.len() == 0
    } else if pat[0] == '*' {
        glob_match(pat.skip(1), name, ci) || (name.len() > 0 && glob_match(pat, name.skip(1), ci))
    } else {
        &&& name.len() > 0
        &&& (pat[0] == '?' || fold_char(pat[0], ci) == fold_char(name[0], ci))
        &&& glob_match(pat.skip(1), name.skip(1), ci)
    }
}

/// Whether a pattern uses glob syntax at all: a `*` or `?` anywhere.
pub open spec fn has_wildcard(pat: Seq<char>) -> bool {
    exists|i: int| 0 <= i < pat.len() && (pat[i] == '*' || pat[i] == '?')
}

/// How one pattern reads against a name: as a glob when it carries a
/// wildcard, else as a substring.
pub open spec fn pattern_matches(pat: Seq<char>, name: Seq<char>, ci: bool) -> bool {
    if has_wildcard(pat) {
        glob_match(pat, name, ci)
    } else {
        is_substring(name, pat, ci)
    }
}

/// The glob match from position `pi` of the pattern and `ni` of the name.
fn glob_match_at(pat: &str, pi: usize, name: &str, ni: usize, ci: bool) -> (r: bool)
    requires
        pi <= pat@.len(),
        ni <= name@.len(),
    ensures
        r == glob_match(pat@.skip(pi as int), name@.skip(ni as int), ci),
    decreases pat@.len() - pi, name@.len() - ni,
{
    let plen = pat.unicode_len();
    let nlen = name.unicode_len();
    let ghost sp = pat@.skip(pi as int);
    let ghost sn = name@.skip(ni as int);
    if pi == plen {
        proof {
            assert(sp =~= Seq::<char>::empty());
        }
        return ni == nlen;
    }
    let pc = pat.get_char(pi);
    proof {
        assert(sp[0] == pat@[pi as int]);
        assert(sp.skip(1) =~= pat@.skip(pi as int + 1));
        if ni < nlen {
            assert(sn[0] == name@[ni as int]);
            assert(sn.skip(1) =~= name@.skip(ni as int + 1));
        }
    }
    if pc == '*' {
        if glob_match_at(pat, pi + 1, name, ni, ci) {
            return true;
        }
        if ni < nlen {
            return glob_match_at(pat, pi, name, ni + 1, ci);
        }
        false
    } else {
        if ni == nlen {
            proof {
                assert(sn.len() == 0);
            }
            return false;
        }
        let nc = name.get_char(ni);
        let fp = if ci {
            lower_char_exec(pc)
        } else {
            pc
        };
        let fnm = if ci {
            lower_char_exec(nc)
        } else {
            nc
        };
        if pc == '?' || fp == fnm {
            glob_match_at(pat, pi + 1, name, ni + 1, ci)
        } else {
            false
        }
    }
}

/// How one pattern reads against a name: a pattern with `*` or `?` must
/// match the whole name as a glob; any other pattern matches wherever it
/// occurs in the name. Folding by `ci` applies either way.
pub fn str_pattern_matches(pat: &str, name: &str, ci: bool) -> (r: bool)
    ensures
        r == pattern_matches(pat@, name@, ci),
{
    let plen = pat.unicode_len();
    let mut i: usize = 0;
    let mut wild: bool = false;
    while i < plen
        invariant
            plen == pat@.len(),
            i <= plen,
            wild == exists|k: int| 0 <= k < i && (pat@[k] == '*' || pat@[k] == '?'),
        decreases plen - i,
    {
        let c = pat.get_char(i);
        if c == '*' || c == '?' {
            wild = true;
            i = plen;
        } else {
            i += 1;
        }
    }
    if wild {
        proof {
            assert(pat@.skip(0) =~= pat@);
            assert(name@.skip(0) =~= name@);
        }
        glob_match_at(pat, 0, name, 0, ci)
    } else {
        str_contains(name, pat, ci)
    }
}

} // verus!


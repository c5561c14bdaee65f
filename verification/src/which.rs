use vstd::prelude::*;

use crate::path::{NormalizedPath, PathView};
use crate::probe::{extension_of, spec_extension};
use crate::strutil::{lower_seq, lower_str};

verus! {

/// The file name a candidate carries in extension mode: the folded
/// executable name, a dot, and the folded extension.
pub open spec fn candidate_name(exe: Seq<char>, ext: Seq<char>) -> Seq<char> {
    lower_seq(exe) + seq!['.'] + lower_seq(ext)
}

/// The candidates drawn from one search directory in extension mode: one
/// per recognized extension, in list order.
pub open spec fn dir_candidates(d: PathView, exe: Seq<char>, exts: Seq<Seq<char>>) -> Seq<
    PathView,
> {
    exts.map_values(|e: Seq<char>| d.push_seg(candidate_name(exe, e)))
}

/// Every candidate path for `exe`: in extension mode (and only when the
/// name has no extension of its own), one candidate per directory and
/// recognized extension, directories outermost; otherwise one plain folded
/// candidate per directory. Directory order is authoritative.
pub open spec fn spec_candidates(
    exe: Seq<char>,
    dirs: Seq<PathView>,
    exts: Seq<Seq<char>>,
    use_extensions: bool,
) -> Seq<PathView> {
    if use_extensions && spec_extension(exe) is None {
        dirs.flat_map(|d: PathView| dir_candidates(d, exe, exts))
    } else {
        dirs.map_values(|d: PathView| d.push_seg(lower_seq(exe)))
    }
}

/// The candidate paths for the executable name `exe`, eagerly and in
/// order: each search directory combined with the case-folded name, and,
/// under the extension policy when `exe` carries no extension, with each
/// recognized extension in turn. No filesystem probe runs here.
pub fn executable_candidates(
    exe: &str,
    dirs: &Vec<NormalizedPath>,
    exts: &Vec<String>,
    use_extensions: bool,
) -> (r: Vec<NormalizedPath>)
    ensures
        r@.map_values(|p: NormalizedPath| p@) == spec_candidates(
            exe@,
            dirs@.map_values(|d: NormalizedPath| d@),
            exts@.map_values(|s: String| s@),
            use_extensions,
        ),
{
    let ghost dirs_v = dirs@.map_values(|d: NormalizedPath| d@);
    let ghost exts_v = exts@.map_values(|s: String| s@);
    let lower = lower_str(exe);
    let mut out: Vec<NormalizedPath> = Vec::new();
    let ext_mode = use_extensions && extension_of(exe).is_none();
    let n = dirs.len();
    if ext_mode {
        let ghost f = |d: PathView| dir_candidates(d, exe@, exts_v);
        let m = exts.len();
        let mut i: usize = 0;
        while i < n
            invariant
                n == dirs.len(),
                m == exts.len(),
                i <= n,
                dirs_v == dirs@.map_values(|d: NormalizedPath| d@),
                exts_v == exts@.map_values(|s: String| s@),
                f == (|d: PathView| dir_candidates(d, exe@, exts_v)),
                lower@ == lower_seq(exe@),
                out@.map_values(|p: NormalizedPath| p@) == dirs_v.take(i as int).flat_map(f),
            decreases n - i,
        {
            let ghost g = |e: Seq<char>| dirs_v[i as int].push_seg(candidate_name(exe@, e));
            let mut j: usize = 0;
            while j < m
                invariant
                    n == dirs.len(),
                    m == exts.len(),
                    i < n,
                    j <= m,
                    dirs_v == dirs@.map_values(|d: NormalizedPath| d@),
                    exts_v == exts@.map_values(|s: String| s@),
                    f == (|d: PathView| dir_candidates(d, exe@, exts_v)),
                    g == (|e: Seq<char>| dirs_v[i as int].push_seg(candidate_name(exe@, e))),
                    lower@ == lower_seq(exe@),
                    out@.map_values(|p: NormalizedPath| p@) == dirs_v.take(i as int).flat_map(f)
                        + exts_v.take(j as int).map_values(g),
                decreases m - j,
            {
                let ghost before = out@.map_values(|p: NormalizedPath| p@);
                let mut name = lower.clone();
                name.push('.');
                let le = lower_str(exts[j].as_str());
                name.append(le.as_str());
                let mut cand = dirs[i].duplicate();
                cand.push_segment(name);
                out.push(cand);
                proof {
                    assert(name@ =~= candidate_name(exe@, exts_v[j as int]));
                    assert(out@.map_values(|p: NormalizedPath| p@) =~= before.push(
                        dirs_v[i as int].push_seg(candidate_name(exe@, exts_v[j as int])),
                    ));
                    assert(exts_v.take(j + 1) =~= exts_v.take(j as int).push(exts_v[j as int]));
                    assert(exts_v.take(j + 1).map_values(g) =~= exts_v.take(j as int).map_values(
                        g,
                    ).push(g(exts_v[j as int])));
                    assert(out@.map_values(|p: NormalizedPath| p@) =~= dirs_v.take(
                        i as int,
                    ).flat_map(f) + exts_v.take(j + 1).map_values(g));
                }
                j += 1;
            }
            proof {
                assert(exts_v.take(m as int) =~= exts_v);
                assert(exts_v.map_values(g) =~= f(dirs_v[i as int]));
                dirs_v.lemma_flat_map_take_append(f, i as int);
                assert(out@.map_values(|p: NormalizedPath| p@) =~= dirs_v.take(i + 1).flat_map(
                    f,
                ));
            }
            i += 1;
        }
        proof {
            assert(dirs_v.take(n as int) =~= dirs_v);
        }
    } else {
        let mut i: usize = 0;
        while i < n
            invariant
                n == dirs.len(),
                i <= n,
                dirs_v == dirs@.map_values(|d: NormalizedPath| d@),
                lower@ == lower_seq(exe@),
                out@.map_values(|p: NormalizedPath| p@) == dirs_v.take(i as int).map_values(
                    |d: PathView| d.push_seg(lower_seq(exe@)),
                ),
            decreases n - i,
        {
            let ghost before = out@.map_values(|p: NormalizedPath| p@);
            let mut cand = dirs[i].duplicate();
            cand.push_segment(lower.clone());
            out.push(cand);
            proof {
                let h = |d: PathView| d.push_seg(lower_seq(exe@));
                assert(out@.map_values(|p: NormalizedPath| p@) =~= before.push(
                    h(dirs_v[i as int]),
                ));
                assert(dirs_v.take(i + 1) =~= dirs_v.take(i as int).push(dirs_v[i as int]));
                assert(dirs_v.take(i + 1).map_values(h) =~= dirs_v.take(i as int).map_values(
                    h,
                ).push(h(dirs_v[i as int])));
            }
            i += 1;
        }
        proof {
            assert(dirs_v.take(n as int) =~= dirs_v);
        }
    }
    out
}

/// The candidates that the probe accepted, in candidate order and without
/// deduplication.
pub open spec fn accepted_candidates(c: Seq<PathView>, acc: Seq<bool>) -> Seq<PathView>
    decreases c.len(),
{
    if c.len() == 0 {
        Seq::empty()
    } else {
        let rest = accepted_candidates(c.drop_last(), acc.drop_last());
        if acc[c.len() - 1] {
            rest.push(c.last())
        } else {
            rest
        }
    }
}

/// The first accepted candidate heads the list of all accepted candidates:
/// there is none exactly when no candidate is accepted, and otherwise the
/// earliest accepted index holds it.
pub proof fn lemma_accepted_candidates_first(c: Seq<PathView>, acc: Seq<bool>)
    requires
        c.len() == acc.len(),
    ensures
        (accepted_candidates(c, acc).len() == 0) <==> (forall|i: int|
            0 <= i < acc.len() ==> !acc[i]),
        accepted_candidates(c, acc).len() > 0 ==> exists|i: int|
            {
                &&& 0 <= i < acc.len()
                &&& #[trigger] acc[i]
                &&& (forall|j: int| 0 <= j < i ==> !acc[j])
                &&& accepted_candidates(c, acc)[0] == c[i]
            },
    decreases c.len(),
{
    if c.len() > 0 {
        let ct = c.drop_last();
        let at = acc.drop_last();
        lemma_accepted_candidates_first(ct, at);
        let rest = accepted_candidates(ct, at);
        let whole = accepted_candidates(c, acc);
        let l = c.len() - 1;
        assert(forall|i: int| 0 <= i < l ==> at[i] == acc[i]);
        assert(forall|i: int| 0 <= i < l ==> ct[i] == c[i]);
        if acc[l] {
            assert(whole == rest.push(c[l]));
            assert(whole.len() > 0);
            if rest.len() > 0 {
                let i = choose|i: int|
                    {
                        &&& 0 <= i < at.len()
                        &&& #[trigger] at[i]
                        &&& (forall|j: int| 0 <= j < i ==> !at[j])
                        &&& rest[0] == ct[i]
                    };
                assert(whole[0] == rest[0]);
                assert(acc[i] && (forall|j: int| 0 <= j < i ==> !acc[j]) && whole[0] == c[i]);
            } else {
                assert(whole[0] == c[l]);
                assert(forall|j: int| 0 <= j < l ==> !acc[j]);
                assert(acc[l] && (forall|j: int| 0 <= j < l ==> !acc[j]) && whole[0] == c[l]);
            }
        } else {
            assert(whole == rest);
            if rest.len() > 0 {
                let i = choose|i: int|
                    {
                        &&& 0 <= i < at.len()
                        &&& #[trigger] at[i]
                        &&& (forall|j: int| 0 <= j < i ==> !at[j])
                        &&& rest[0] == ct[i]
                    };
                assert(acc[i] && (forall|j: int| 0 <= j < i ==> !acc[j]) && whole[0] == c[i]);
            } else {
                assert(forall|i: int| 0 <= i < acc.len() ==> !acc[i]) by {
                    assert(forall|i: int| 0 <= i < l ==> !at[i]);
                    assert(!acc[l]);
                }
            }
        }
    }
}

/// The first candidate, in directory-then-extension order, that the probe
/// accepted. `accepted[k]` holds the probe's verdict on `candidates[k]`;
/// the result is `None` exactly when no candidate was accepted, and
/// otherwise it heads what `search_all_executables` returns.
pub fn search_executable(candidates: &Vec<NormalizedPath>, accepted: &Vec<bool>) -> (r: Option<
    NormalizedPath,
>)
    requires
        candidates@.len() == accepted@.len(),
    ensures
        ({
            let c = candidates@.map_values(|p: NormalizedPath| p@);
            match r {
                Some(p) => accepted_candidates(c, accepted@).len() > 0 && p@
                    == accepted_candidates(c, accepted@)[0],
                None => accepted_candidates(c, accepted@).len() == 0,
            }
        }),
{
    let ghost c = candidates@.map_values(|p: NormalizedPath| p@);
    let n = candidates.len();
    let mut i: usize = 0;
    while i < n
        invariant
            n == candidates@.len(),
            candidates@.len() == accepted@.len(),
            i <= n,
            c == candidates@.map_values(|p: NormalizedPath| p@),
            forall|j: int| 0 <= j < i ==> !accepted@[j],
        decreases n - i,
    {
        if accepted[i] {
            proof {
                lemma_accepted_candidates_first(c, accepted@);
                assert(!(forall|k: int| 0 <= k < accepted@.len() ==> !accepted@[k])) by {
                    assert(accepted@[i as int]);
                }
                let w = choose|k: int|
                    {
                        &&& 0 <= k < accepted@.len()
                        &&& #[trigger] accepted@[k]
                        &&& (forall|j: int| 0 <= j < k ==> !accepted@[j])
                        &&& accepted_candidates(c, accepted@)[0] == c[k]
                    };
                assert(w == i as int);
            }
            return Some(candidates[i].duplicate());
        }
        i += 1;
    }
    proof {
        lemma_accepted_candidates_first(c, accepted@);
    }
    None
}

/// Every candidate, in directory-then-extension order, that the probe
/// accepted, without deduplication. `accepted[k]` holds the probe's verdict
/// on `candidates[k]`.
pub fn search_all_executables(candidates: &Vec<NormalizedPath>, accepted: &Vec<bool>) -> (r: Vec<
    NormalizedPath,
>)
    requires
        candidates@.len() == accepted@.len(),
    ensures
        r@.map_values(|p: NormalizedPath| p@) == accepted_candidates(
            candidates@.map_values(|p: NormalizedPath| p@),
            accepted@,
        ),
{
    let ghost c = candidates@.map_values(|p: NormalizedPath| p@);
    let n = candidates.len();
    let mut out: Vec<NormalizedPath> = Vec::new();
    let mut i: usize = 0;
    while i < n
        invariant
            n == candidates@.len(),
            candidates@.len() == accepted@.len(),
            i <= n,
            c == candidates@.map_values(|p: NormalizedPath| p@),
            out@.map_values(|p: NormalizedPath| p@) == accepted_candidates(
                c.take(i as int),
                accepted@.take(i as int),
            ),
        decreases n - i,
    {
        let ghost before = out@.map_values(|p: NormalizedPath| p@);
        if accepted[i] {
            out.push(candidates[i].duplicate());
        }
        proof {
            let cs = c.take(i + 1);
            let as_ = accepted@.take(i + 1);
            assert(cs.drop_last() =~= c.take(i as int));
            assert(as_.drop_last() =~= accepted@.take(i as int));
            assert(cs.last() == c[i as int]);
            assert(as_[cs.len() - 1] == accepted@[i as int]);
            if accepted@[i as int] {
                assert(out@.map_values(|p: NormalizedPath| p@) =~= before.push(c[i as int]));
            }
        }
        i += 1;
    }
    proof {
        assert(c.take(n as int) =~= c);
        assert(accepted@.take(n as int) =~= accepted@);
    }
    out
}

} // verus!

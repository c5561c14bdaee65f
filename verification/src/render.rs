use vstd::prelude::*;

use crate::path::{
    classify, is_sep, lemma_seg_len_scan, parse, seg_len, spec_parse, split_parts,
    NormalizedPath, Part, PartView, PathView, Prefix, PrefixView, RawPath, RawView,
};

verus! {

/// How a path is spelled: POSIX style uses `/` everywhere and `<letter>:/`
/// for drives; Windows style uses `\` and `\\server\share` prefixes.
#[derive(Clone, Copy, PartialEq, Eq, Structural, Debug)]
pub enum Style {
    Posix,
    Windows,
}

/// The separator a style spells components with.
pub open spec fn sep_of(style: Style) -> char {
    if style is Posix {
        '/'
    } else {
        '\\'
    }
}

/// The characters one component contributes: its marker spelling or its
/// name.
pub open spec fn part_chars(p: PartView) -> Seq<char> {
    match p {
        PartView::Cur => seq!['.'],
        PartView::Parent => seq!['.', '.'],
        PartView::Normal(s) => s,
    }
}

/// Components joined by a separator, with no trailing separator.
pub open spec fn join_parts(parts: Seq<PartView>, sep: char) -> Seq<char>
    decreases parts.len(),
{
    if parts.len() == 0 {
        Seq::empty()
    } else if parts.len() == 1 {
        part_chars(parts[0])
    } else {
        part_chars(parts[0]) + seq![sep] + join_parts(parts.drop_first(), sep)
    }
}

/// The spelling of a volume prefix under a style: a drive as
/// `<letter>:`, a server/share pair as `/server/share` in POSIX style and
/// `\\server\share` in Windows style.
pub open spec fn render_prefix(p: Option<PrefixView>, style: Style) -> Seq<char> {
    match p {
        None => Seq::empty(),
        Some(PrefixView::Disk(d)) => d + seq![':'],
        Some(PrefixView::Unc(srv, sh)) => if style is Posix {
            seq!['/'] + srv + seq!['/'] + sh
        } else {
            seq!['\\', '\\'] + srv + seq!['\\'] + sh
        },
    }
}

/// The rendered spelling of a raw path: the prefix, a root separator when
/// the path is rooted, and the components joined by the style's separator.
/// The conversion changes separators and prefix spelling only, never the
/// set of named segments. Trailing separators are trimmed, except that a
/// bare root keeps its one separator (`/`, `c:/`); a bare server/share
/// prefix is already a complete spelling and takes none.
pub open spec fn spec_render(raw: RawView, style: Style) -> Seq<char> {
    let pre = render_prefix(raw.prefix, style);
    let sep = sep_of(style);
    if raw.rooted {
        if raw.parts.len() == 0 {
            if raw.prefix matches Some(PrefixView::Unc(_, _)) {
                pre
            } else {
                pre + seq![sep]
            }
        } else {
            pre + seq![sep] + join_parts(raw.parts, sep)
        }
    } else {
        pre + join_parts(raw.parts, sep)
    }
}

/// A join grown by one component at the end: for a non-empty join, a
/// separator and the component's characters follow.
pub proof fn lemma_join_parts_push(parts: Seq<PartView>, sep: char, x: PartView)
    ensures
        parts.len() == 0 ==> join_parts(parts.push(x), sep) == part_chars(x),
        parts.len() > 0 ==> join_parts(parts.push(x), sep) == join_parts(parts, sep) + seq![sep]
            + part_chars(x),
    decreases parts.len(),
{
    let q = parts.push(x);
    if parts.len() == 0 {
        assert(q.len() == 1);
        assert(q[0] == x);
    } else {
        assert(q[0] == parts[0]);
        assert(q.drop_first() =~= parts.drop_first().push(x));
        lemma_join_parts_push(parts.drop_first(), sep, x);
        if parts.len() == 1 {
            assert(join_parts(q, sep) == part_chars(q[0]) + seq![sep] + join_parts(
                q.drop_first(),
                sep,
            ));
            assert(join_parts(q.drop_first(), sep) == part_chars(x));
        } else {
            assert(join_parts(q, sep) == part_chars(parts[0]) + seq![sep] + join_parts(
                parts.drop_first().push(x),
                sep,
            ));
            assert(part_chars(parts[0]) + seq![sep] + (join_parts(parts.drop_first(), sep)
                + seq![sep] + part_chars(x)) =~= (part_chars(parts[0]) + seq![sep] + join_parts(
                parts.drop_first(),
                sep,
            )) + seq![sep] + part_chars(x));
        }
    }
}

/// The separator a style spells components with.
pub fn sep_char_of(style: Style) -> (r: char)
    ensures
        r == sep_of(style),
{
    match style {
        Style::Posix => '/',
        Style::Windows => '\\',
    }
}

/// The spelling of a raw path under a style, as a display string: native
/// separators under the platform's own style, or the POSIX form with `/`
/// separators, `<letter>:/` drives and `/server/share` prefixes.
pub fn render(raw: &RawPath, style: Style) -> (r: String)
    ensures
        r@ == spec_render(raw@, style),
{
    let sep = sep_char_of(style);
    let mut out = String::new();
    match &raw.prefix {
        None => {},
        Some(Prefix::Disk(d)) => {
            out.append(d.as_str());
            out.push(':');
            proof {
                assert(out@ =~= render_prefix(raw@.prefix, style));
            }
        },
        Some(Prefix::Unc(srv, sh)) => {
            if matches!(style, Style::Posix) {
                out.push('/');
            } else {
                out.push('\\');
                out.push('\\');
            }
            out.append(srv.as_str());
            out.push(sep);
            out.append(sh.as_str());
            proof {
                assert(out@ =~= render_prefix(raw@.prefix, style));
            }
        },
    }
    let ghost pre = render_prefix(raw@.prefix, style);
    assert(out@ == pre);
    let n = raw.parts.len();
    if raw.rooted {
        if n == 0 {
            if !matches!(raw.prefix, Some(Prefix::Unc(_, _))) {
                out.push(sep);
            }
            proof {
                assert(out@ =~= spec_render(raw@, style));
            }
            return out;
        }
        out.push(sep);
    } else if n == 0 {
        proof {
            assert(raw@.parts.len() == 0);
            assert(out@ =~= spec_render(raw@, style));
        }
        return out;
    }
    let ghost base = out@;
    let mut i: usize = 0;
    while i < n
        invariant
            n == raw.parts.len(),
            i <= n,
            i == 0 ==> out@ == base,
            i > 0 ==> out@ == base + join_parts(raw@.parts.take(i as int), sep_of(style)),
            sep == sep_of(style),
        decreases n - i,
    {
        if i > 0 {
            out.push(sep);
        }
        match &raw.parts[i] {
            Part::Cur => {
                out.push('.');
            },
            Part::Parent => {
                out.push('.');
                out.push('.');
            },
            Part::Normal(s) => {
                out.append(s.as_str());
            },
        }
        proof {
            lemma_join_parts_push(raw@.parts.take(i as int), sep_of(style), raw@.parts[i as int]);
            assert(raw@.parts.take(i + 1) =~= raw@.parts.take(i as int).push(raw@.parts[i as int]));
            if i == 0 {
                assert(out@ =~= base + part_chars(raw@.parts[0]));
                assert(join_parts(raw@.parts.take(1), sep_of(style)) == part_chars(raw@.parts[0]));
            } else {
                assert(out@ =~= base + (join_parts(raw@.parts.take(i as int), sep_of(style))
                    + seq![sep_of(style)] + part_chars(raw@.parts[i as int])));
            }
        }
        i += 1;
    }
    proof {
        assert(raw@.parts.take(n as int) =~= raw@.parts);
        assert(out@ =~= spec_render(raw@, style));
    }
    out
}

/// A normalized path read back as a raw path: rooted, with its segments as
/// named components.
pub open spec fn path_to_raw(p: PathView) -> RawView {
    RawView {
        prefix: p.prefix,
        rooted: true,
        parts: p.segments.map_values(|s: Seq<char>| PartView::Normal(s)),
    }
}

/// The spelling of a normalized path under a style.
pub fn render_path(p: &NormalizedPath, style: Style) -> (r: String)
    ensures
        r@ == spec_render(path_to_raw(p@), style),
{
    let mut parts: Vec<Part> = Vec::new();
    let n = p.segments.len();
    let mut i: usize = 0;
    while i < n
        invariant
            n == p.segments.len(),
            i <= n,
            parts@.map_values(|q: Part| q@) == p@.segments.take(i as int).map_values(
                |s: Seq<char>| PartView::Normal(s),
            ),
        decreases n - i,
    {
        let ghost before = parts@.map_values(|q: Part| q@);
        parts.push(Part::Normal(p.segments[i].clone()));
        proof {
            assert(parts@.map_values(|q: Part| q@) =~= before.push(
                PartView::Normal(p@.segments[i as int]),
            ));
            assert(p@.segments.take(i + 1) =~= p@.segments.take(i as int).push(
                p@.segments[i as int],
            ));
            assert(p@.segments.take(i + 1).map_values(|s: Seq<char>| PartView::Normal(s))
                =~= p@.segments.take(i as int).map_values(|s: Seq<char>| PartView::Normal(s)).push(
                PartView::Normal(p@.segments[i as int]),
            ));
        }
        i += 1;
    }
    let raw = RawPath {
        prefix: crate::path::duplicate_prefix_opt(&p.prefix),
        rooted: true,
        parts,
    };
    proof {
        assert(p@.segments.take(n as int) =~= p@.segments);
        assert(raw@ =~= path_to_raw(p@));
    }
    render(&raw, style)
}


/// The spelling of the written path `s` once read back and rendered under
/// a style.
pub fn render_str(s: &str, style: Style) -> (r: String)
    ensures
        r@ == spec_render(spec_parse(s@), style),
{
    let raw = parse(s);
    render(&raw, style)
}

/// A well-formed component's spelling: non-empty, free of separators and
/// colons, and read back as the same component.
proof fn lemma_part_chars_wf(p: PartView)
    requires
        p.wf(),
    ensures
        part_chars(p).len() > 0,
        forall|i: int|
            0 <= i < part_chars(p).len() ==> !is_sep(#[trigger] part_chars(p)[i]) && part_chars(
                p,
            )[i] != ':',
        classify(part_chars(p)) == p,
{
    match p {
        PartView::Cur => {
            assert(part_chars(p) =~= seq!['.']);
            assert(part_chars(p)[0] == '.');
        },
        PartView::Parent => {
            assert(part_chars(p) =~= seq!['.', '.']);
            assert(part_chars(p) != seq!['.']) by {
                assert(part_chars(p).len() != 1);
            }
        },
        PartView::Normal(s) => {},
    }
}

/// A join of well-formed components never holds a colon.
proof fn lemma_join_colon_free(parts: Seq<PartView>)
    requires
        forall|i: int| 0 <= i < parts.len() ==> (#[trigger] parts[i]).wf(),
    ensures
        forall|i: int|
            0 <= i < join_parts(parts, '/').len() ==> #[trigger] join_parts(parts, '/')[i] != ':',
    decreases parts.len(),
{
    let j = join_parts(parts, '/');
    if parts.len() == 0 {
    } else if parts.len() == 1 {
        lemma_part_chars_wf(parts[0]);
    } else {
        let c0 = part_chars(parts[0]);
        let rest = join_parts(parts.drop_first(), '/');
        lemma_part_chars_wf(parts[0]);
        lemma_join_colon_free(parts.drop_first());
        assert forall|i: int| 0 <= i < j.len() implies #[trigger] j[i] != ':' by {
            if i < c0.len() {
                assert(j[i] == c0[i]);
            } else if i == c0.len() {
                assert(j[i] == '/');
            } else {
                assert(j[i] == rest[i - c0.len() - 1]);
            }
        }
    }
}

/// Splitting a join of well-formed components gives the components back.
proof fn lemma_split_join(parts: Seq<PartView>)
    requires
        forall|i: int| 0 <= i < parts.len() ==> (#[trigger] parts[i]).wf(),
    ensures
        split_parts(join_parts(parts, '/')) == parts,
    decreases parts.len(),
{
    let j = join_parts(parts, '/');
    if parts.len() == 0 {
        assert(split_parts(j) =~= parts);
    } else if parts.len() == 1 {
        lemma_part_chars_wf(parts[0]);
        assert(j == part_chars(parts[0]));
        lemma_seg_len_scan(j, j.len() as int);
        assert(j.take(j.len() as int) =~= j);
        assert(j.skip(j.len() as int) =~= Seq::<char>::empty());
        assert(split_parts(j) == seq![classify(j)] + split_parts(Seq::<char>::empty()));
        assert(split_parts(j) =~= parts);
    } else {
        let c0 = part_chars(parts[0]);
        let rest = join_parts(parts.drop_first(), '/');
        assert(j == c0 + seq!['/'] + rest);
        lemma_part_chars_wf(parts[0]);
        let l0 = c0.len() as int;
        assert(forall|k: int| 0 <= k < l0 ==> #[trigger] j[k] == c0[k]);
        assert(j[l0] == '/');
        lemma_seg_len_scan(j, l0);
        assert(!is_sep(j[0]));
        assert(split_parts(j) == seq![classify(j.take(seg_len(j) as int))] + split_parts(
            j.skip(seg_len(j) as int),
        ));
        assert(j.take(l0) =~= c0);
        let tail = j.skip(l0);
        assert(tail[0] == '/');
        assert(tail.len() > 0 && is_sep(tail[0]));
        assert(split_parts(tail) == split_parts(tail.skip(1)));
        assert(tail.skip(1) =~= rest);
        lemma_split_join(parts.drop_first());
        assert(split_parts(j) == seq![parts[0]] + parts.drop_first());
        assert(seq![parts[0]] + parts.drop_first() =~= parts);
    }
}

/// A raw path with its server/share prefix folded into two leading named
/// components; other paths stand unchanged. Under POSIX spelling this is
/// the value the rendered string reads back as.
pub open spec fn canon(raw: RawView) -> RawView {
    match raw.prefix {
        Some(PrefixView::Unc(srv, sh)) => RawView {
            prefix: None,
            rooted: true,
            parts: seq![PartView::Normal(srv), PartView::Normal(sh)] + raw.parts,
        },
        _ => raw,
    }
}

/// Folding the server/share prefix into components does not change the
/// POSIX spelling.
proof fn lemma_render_canon_posix(raw: RawView)
    requires
        raw.wf(),
    ensures
        spec_render(canon(raw), Style::Posix) == spec_render(raw, Style::Posix),
{
    match raw.prefix {
        Some(PrefixView::Unc(srv, sh)) => {
            let pre = render_prefix(raw.prefix, Style::Posix);
            let two = seq![PartView::Normal(srv), PartView::Normal(sh)];
            let parts2 = two + raw.parts;
            assert(raw.rooted);
            assert(parts2.len() >= 2);
            if raw.parts.len() == 0 {
                assert(parts2 =~= two);
                assert(two.drop_first() =~= seq![PartView::Normal(sh)]);
                assert(join_parts(two, '/') == srv + seq!['/'] + join_parts(
                    two.drop_first(),
                    '/',
                ));
                assert(join_parts(seq![PartView::Normal(sh)], '/') == sh);
                assert(spec_render(canon(raw), Style::Posix) =~= pre);
            } else {
                let t1 = parts2.drop_first();
                assert(t1 =~= seq![PartView::Normal(sh)] + raw.parts);
                assert(t1.len() >= 2);
                assert(t1.drop_first() =~= raw.parts);
                assert(join_parts(parts2, '/') == srv + seq!['/'] + join_parts(t1, '/'));
                assert(join_parts(t1, '/') == sh + seq!['/'] + join_parts(raw.parts, '/'));
                assert(spec_render(canon(raw), Style::Posix) =~= spec_render(raw, Style::Posix));
            }
        },
        _ => {},
    }
}

/// What a POSIX-rendered well-formed path reads back as: the same path,
/// with a server/share prefix folded into components.
proof fn lemma_parse_render_posix(raw: RawView)
    requires
        raw.wf(),
    ensures
        spec_parse(spec_render(raw, Style::Posix)) == canon(raw),
{
    let s = spec_render(raw, Style::Posix);
    let j = join_parts(raw.parts, '/');
    assert(forall|i: int| 0 <= i < raw.parts.len() ==> (#[trigger] raw.parts[i]).wf());
    lemma_split_join(raw.parts);
    lemma_join_colon_free(raw.parts);
    if raw.parts.len() > 0 {
        lemma_part_chars_wf(raw.parts[0]);
        assert(j[0] == part_chars(raw.parts[0])[0]) by {
            if raw.parts.len() == 1 {
            } else {
                assert(j == part_chars(raw.parts[0]) + seq!['/'] + join_parts(
                    raw.parts.drop_first(),
                    '/',
                ));
            }
        }
    }
    match raw.prefix {
        None => {
            if raw.rooted {
                if raw.parts.len() == 0 {
                    assert(s =~= seq!['/']);
                    assert(s.len() == 1);
                    assert(is_sep(s[0]));
                    assert(!crate::strutil::is_ascii_letter(s[0]));
                    assert(split_parts(s) == split_parts(s.skip(1)));
                    assert(s.skip(1) =~= Seq::<char>::empty());
                    assert(spec_parse(s) =~= canon(raw));
                } else {
                    assert(s == render_prefix(raw.prefix, Style::Posix) + seq!['/'] + j);
                    assert(s =~= seq!['/'] + j);
                    assert(s[0] == '/');
                    assert(!crate::strutil::is_ascii_letter(s[0]));
                    assert(s.len() >= 2 ==> s[1] != ':') by {
                        if s.len() >= 2 {
                            assert(s[1] == j[0]);
                        }
                    }
                    assert(split_parts(s) == split_parts(s.skip(1)));
                    assert(s.skip(1) =~= j);
                    assert(spec_parse(s) =~= canon(raw));
                }
            } else {
                assert(s =~= j);
                if s.len() == 0 {
                    assert(raw.parts.len() == 0) by {
                        if raw.parts.len() > 0 {
                            lemma_part_chars_wf(raw.parts[0]);
                            if raw.parts.len() == 1 {
                                assert(j == part_chars(raw.parts[0]));
                            } else {
                                assert(j == part_chars(raw.parts[0]) + seq!['/'] + join_parts(
                                    raw.parts.drop_first(),
                                    '/',
                                ));
                            }
                            assert(j.len() > 0);
                        }
                    }
                    assert(spec_parse(s) =~= canon(raw));
                } else {
                    assert(raw.parts.len() > 0) by {
                        if raw.parts.len() == 0 {
                            assert(j =~= Seq::<char>::empty());
                        }
                    }
                    assert(s[0] == j[0]);
                    assert(!is_sep(s[0]));
                    assert(s.len() >= 2 ==> s[1] != ':');
                    assert(spec_parse(s) =~= canon(raw));
                }
            }
        },
        Some(PrefixView::Disk(d)) => {
            let pre = d + seq![':'];
            assert(pre.len() == 2);
            assert(pre[0] == d[0] && pre[1] == ':');
            let rest = if raw.rooted {
                if raw.parts.len() == 0 {
                    seq!['/']
                } else {
                    seq!['/'] + j
                }
            } else {
                j
            };
            assert(s =~= pre + rest);
            assert(s[0] == d[0] && s[1] == ':');
            assert(crate::strutil::is_ascii_letter(s[0]));
            assert(s.skip(2) =~= rest);
            assert(seq![s[0]] =~= d);
            if raw.rooted {
                if raw.parts.len() == 0 {
                    assert(rest[0] == '/');
                    assert(split_parts(rest) == split_parts(rest.skip(1)));
                    assert(rest.skip(1) =~= Seq::<char>::empty());
                    assert(spec_parse(s) =~= canon(raw));
                } else {
                    assert(rest[0] == '/');
                    assert(split_parts(rest) == split_parts(rest.skip(1)));
                    assert(rest.skip(1) =~= j);
                    assert(spec_parse(s) =~= canon(raw));
                }
            } else {
                if raw.parts.len() == 0 {
                    assert(rest =~= Seq::<char>::empty());
                    assert(spec_parse(s) =~= canon(raw));
                } else {
                    assert(rest[0] == j[0]);
                    assert(!is_sep(rest[0]));
                    assert(spec_parse(s) =~= canon(raw));
                }
            }
        },
        Some(PrefixView::Unc(srv, sh)) => {
            let two = seq![PartView::Normal(srv), PartView::Normal(sh)];
            let parts2 = two + raw.parts;
            assert(forall|i: int| 0 <= i < parts2.len() ==> (#[trigger] parts2[i]).wf()) by {
                assert(parts2[0] == PartView::Normal(srv));
                assert(parts2[1] == PartView::Normal(sh));
                assert(forall|i: int|
                    2 <= i < parts2.len() ==> parts2[i] == #[trigger] raw.parts[i - 2]);
            }
            lemma_split_join(parts2);
            lemma_join_colon_free(parts2);
            lemma_render_canon_posix(raw);
            let s2 = spec_render(canon(raw), Style::Posix);
            assert(s2 == s);
            assert(s2 == render_prefix(canon(raw).prefix, Style::Posix) + seq!['/'] + join_parts(
                parts2,
                '/',
            ));
            assert(s =~= seq!['/'] + join_parts(parts2, '/'));
            assert(s[0] == '/');
            assert(!crate::strutil::is_ascii_letter(s[0]));
            let j2 = join_parts(parts2, '/');
            lemma_part_chars_wf(parts2[0]);
            assert(j2 == part_chars(parts2[0]) + seq!['/'] + join_parts(
                parts2.drop_first(),
                '/',
            ));
            assert(j2[0] == part_chars(parts2[0])[0]);
            assert(s.len() >= 2 ==> s[1] != ':') by {
                if s.len() >= 2 {
                    assert(s[1] == j2[0]);
                }
            }
            assert(split_parts(s) == split_parts(s.skip(1)));
            assert(s.skip(1) =~= j2);
            assert(spec_parse(s) =~= canon(raw));
        },
    }
}

/// Rendering in POSIX style is idempotent: reading a rendered spelling
/// back and rendering it again gives the same spelling, for any
/// well-formed raw path.
pub proof fn lemma_render_posix_idempotent(raw: RawView)
    requires
        raw.wf(),
    ensures
        spec_render(spec_parse(spec_render(raw, Style::Posix)), Style::Posix) == spec_render(
            raw,
            Style::Posix,
        ),
{
    lemma_parse_render_posix(raw);
    lemma_render_canon_posix(raw);
}

/// The display class print resolution picks for a path: directories first,
/// then executables, else plain.
#[derive(Clone, Copy, PartialEq, Eq, Structural, Debug)]
pub enum PathColor {
    Dir,
    Exec,
    Plain,
}

/// The display class for a resolved path: a directory shows as `Dir` even
/// when executable; an executable non-directory as `Exec`; anything else
/// plain.
pub fn classify_path_color(is_dir: bool, is_exec: bool) -> (r: PathColor)
    ensures
        is_dir ==> r == PathColor::Dir,
        !is_dir && is_exec ==> r == PathColor::Exec,
        !is_dir && !is_exec ==> r == PathColor::Plain,
{
    if is_dir {
        PathColor::Dir
    } else if is_exec {
        PathColor::Exec
    } else {
        PathColor::Plain
    }
}

} // verus!


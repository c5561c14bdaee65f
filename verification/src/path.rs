use vstd::prelude::*;

use crate::strutil::is_ascii_letter;

verus! {

/// Whether `c` separates path components. Both separator styles are
/// recognized when reading a path, whatever the platform.
pub open spec fn is_sep(c: char) -> bool {
    c == '/' || c == '\\'
}

/// Whether `s` may stand as a named path segment: non-empty, not a `.` or
/// `..` marker, and free of separator and drive-letter punctuation.
pub open spec fn valid_name(s: Seq<char>) -> bool {
    &&& s.len() > 0
    &&& non_dot_name(s)
    &&& forall|i: int| 0 <= i < s.len() ==> !is_sep(#[trigger] s[i]) && s[i] != ':'
}

/// Whether `s` is neither the current-directory nor the parent-directory
/// marker.
pub open spec fn non_dot_name(s: Seq<char>) -> bool {
    s != seq!['.'] && s != seq!['.', '.']
}

/// The mathematical value of a volume prefix.
#[verifier::ext_equal]
pub enum PrefixView {
    /// A drive letter, without its colon.
    Disk(Seq<char>),
    /// A server and a share.
    Unc(Seq<char>, Seq<char>),
}

/// The mathematical value of one raw path component.
#[verifier::ext_equal]
pub enum PartView {
    /// The current-directory marker `.`.
    Cur,
    /// The parent-directory marker `..`.
    Parent,
    /// A named segment.
    Normal(Seq<char>),
}

/// The mathematical value of a raw path: an optional volume prefix, whether
/// a root separator follows it, and the components in written order.
#[verifier::ext_equal]
pub struct RawView {
    pub prefix: Option<PrefixView>,
    pub rooted: bool,
    pub parts: Seq<PartView>,
}

/// The mathematical value of a normalized path: an optional volume prefix
/// and the named segments from the root down. A normalized path is always
/// rooted.
#[verifier::ext_equal]
pub struct PathView {
    pub prefix: Option<PrefixView>,
    pub segments: Seq<Seq<char>>,
}

impl PrefixView {
    /// Well-formedness: a drive is one ASCII letter; server and share are
    /// valid names.
    pub open spec fn wf(self) -> bool {
        match self {
            PrefixView::Disk(d) => d.len() == 1 && is_ascii_letter(d[0]),
            PrefixView::Unc(srv, sh) => valid_name(srv) && valid_name(sh),
        }
    }
}

pub open spec fn prefix_opt_wf(p: Option<PrefixView>) -> bool {
    match p {
        Some(x) => x.wf(),
        None => true,
    }
}

impl PartView {
    /// Well-formedness: a named segment is a valid name.
    pub open spec fn wf(self) -> bool {
        match self {
            PartView::Normal(s) => valid_name(s),
            _ => true,
        }
    }

    /// Whether a named segment is not a `.` or `..` marker; trivially true
    /// of the markers themselves, which are not named segments.
    pub open spec fn non_dot(self) -> bool {
        match self {
            PartView::Normal(s) => non_dot_name(s),
            _ => true,
        }
    }
}

impl RawView {
    /// Well-formedness of a raw path. A server/share prefix only occurs
    /// rooted.
    pub open spec fn wf(self) -> bool {
        &&& prefix_opt_wf(self.prefix)
        &&& forall|i: int| 0 <= i < self.parts.len() ==> (#[trigger] self.parts[i]).wf()
        &&& (self.prefix matches Some(PrefixView::Unc(_, _)) ==> self.rooted)
    }

    /// Whether every named component avoids the `.`/`..` spellings.
    pub open spec fn parts_non_dot(self) -> bool {
        forall|i: int| 0 <= i < self.parts.len() ==> (#[trigger] self.parts[i]).non_dot()
    }
}

impl PathView {
    /// Well-formedness of a normalized path: prefix well-formed, every
    /// segment a valid name.
    pub open spec fn wf(self) -> bool {
        &&& prefix_opt_wf(self.prefix)
        &&& forall|i: int| 0 <= i < self.segments.len() ==> valid_name(#[trigger] self.segments[i])
    }

    /// Whether no segment is a `.` or `..` marker.
    pub open spec fn no_dot_segments(self) -> bool {
        forall|i: int| 0 <= i < self.segments.len() ==> non_dot_name(#[trigger] self.segments[i])
    }

    /// This path with one more segment at the end.
    pub open spec fn push_seg(self, s: Seq<char>) -> PathView {
        PathView { prefix: self.prefix, segments: self.segments.push(s) }
    }

    /// This path without its last segment; at the root this is a no-op.
    pub open spec fn pop_seg(self) -> PathView {
        if self.segments.len() > 0 {
            PathView { prefix: self.prefix, segments: self.segments.drop_last() }
        } else {
            self
        }
    }
}

/// A volume prefix as held at run time.
pub enum Prefix {
    /// A drive letter, held without its colon as a one-character string.
    Disk(String),
    /// A server and a share.
    Unc(String, String),
}

/// One raw path component as held at run time.
pub enum Part {
    Cur,
    Parent,
    Normal(String),
}

/// A path as written: optional prefix, optional root separator, components
/// in written order.
pub struct RawPath {
    pub prefix: Option<Prefix>,
    pub rooted: bool,
    pub parts: Vec<Part>,
}

/// An absolute path whose `.` and `..` components have all been resolved
/// lexically. Building one never touches the filesystem.
pub struct NormalizedPath {
    pub prefix: Option<Prefix>,
    pub segments: Vec<String>,
}

impl View for Prefix {
    type V = PrefixView;

    open spec fn view(&self) -> PrefixView {
        match self {
            Prefix::Disk(d) => PrefixView::Disk(d@),
            Prefix::Unc(srv, sh) => PrefixView::Unc(srv@, sh@),
        }
    }
}

impl View for Part {
    type V = PartView;

    open spec fn view(&self) -> PartView {
        match self {
            Part::Cur => PartView::Cur,
            Part::Parent => PartView::Parent,
            Part::Normal(s) => PartView::Normal(s@),
        }
    }
}

pub open spec fn prefix_opt_view(p: Option<Prefix>) -> Option<PrefixView> {
    match p {
        Some(x) => Some(x@),
        None => None,
    }
}

impl View for RawPath {
    type V = RawView;

    open spec fn view(&self) -> RawView {
        RawView {
            prefix: prefix_opt_view(self.prefix),
            rooted: self.rooted,
            parts: self.parts@.map_values(|p: Part| p@),
        }
    }
}

impl View for NormalizedPath {
    type V = PathView;

    open spec fn view(&self) -> PathView {
        PathView {
            prefix: prefix_opt_view(self.prefix),
            segments: self.segments@.map_values(|s: String| s@),
        }
    }
}

/// One normalization step: `.` is dropped, `..` pops the last segment when
/// one is there (popping past the root is a no-op), and a name is appended.
pub open spec fn apply_part(p: PathView, part: PartView) -> PathView {
    match part {
        PartView::Cur => p,
        PartView::Parent => p.pop_seg(),
        PartView::Normal(s) => p.push_seg(s),
    }
}

/// Normalization steps applied left to right.
pub open spec fn apply_parts(p: PathView, parts: Seq<PartView>) -> PathView
    decreases parts.len(),
{
    if parts.len() == 0 {
        p
    } else {
        apply_parts(apply_part(p, parts[0]), parts.skip(1))
    }
}

/// Where normalization starts: a rooted or prefixed path anchors at its own
/// root; a relative path anchors at the caller's current directory.
pub open spec fn anchor(raw: RawView, cwd: PathView) -> PathView {
    if raw.prefix is Some || raw.rooted {
        PathView { prefix: raw.prefix, segments: Seq::empty() }
    } else {
        cwd
    }
}

/// The normalized form of `raw` against the current directory `cwd`.
pub open spec fn spec_normalize(raw: RawView, cwd: PathView) -> PathView {
    apply_parts(anchor(raw, cwd), raw.parts)
}

/// Applying steps to `parts.push(x)` is applying them to `parts`, then one
/// step for `x`.
pub proof fn lemma_apply_parts_push(p: PathView, parts: Seq<PartView>, x: PartView)
    ensures
        apply_parts(p, parts.push(x)) == apply_part(apply_parts(p, parts), x),
    decreases parts.len(),
{
    let q = parts.push(x);
    if parts.len() == 0 {
        assert(q[0] == x);
        assert(q.skip(1) =~= Seq::<PartView>::empty());
        assert(apply_parts(p, q) == apply_parts(apply_part(p, x), q.skip(1)));
        assert(apply_parts(apply_part(p, x), q.skip(1)) == apply_part(p, x));
        assert(apply_parts(p, parts) == p);
    } else {
        assert(q[0] == parts[0]);
        assert(q.skip(1) =~= parts.skip(1).push(x));
        lemma_apply_parts_push(apply_part(p, parts[0]), parts.skip(1), x);
        assert(apply_parts(p, q) == apply_parts(apply_part(p, parts[0]), q.skip(1)));
    }
}

impl Prefix {
    /// A deep copy with the same value.
    pub fn duplicate(&self) -> (r: Prefix)
        ensures
            r@ == self@,
    {
        match self {
            Prefix::Disk(d) => Prefix::Disk(d.clone()),
            Prefix::Unc(srv, sh) => Prefix::Unc(srv.clone(), sh.clone()),
        }
    }
}

/// A deep copy of an optional prefix.
pub fn duplicate_prefix_opt(p: &Option<Prefix>) -> (r: Option<Prefix>)
    ensures
        prefix_opt_view(r) == prefix_opt_view(*p),
{
    match p {
        Some(x) => Some(x.duplicate()),
        None => None,
    }
}

impl NormalizedPath {
    /// The path holding only the root of `prefix`.
    pub fn root(prefix: Option<Prefix>) -> (r: NormalizedPath)
        ensures
            r@ == (PathView { prefix: prefix_opt_view(prefix), segments: Seq::empty() }),
    {
        let r = NormalizedPath { prefix, segments: Vec::new() };
        proof {
            assert(r@.segments =~= Seq::<Seq<char>>::empty());
        }
        r
    }

    /// A deep copy with the same value.
    pub fn duplicate(&self) -> (r: NormalizedPath)
        ensures
            r@ == self@,
    {
        let mut segs: Vec<String> = Vec::new();
        let n = self.segments.len();
        let mut i: usize = 0;
        while i < n
            invariant
                n == self.segments.len(),
                i <= n,
                segs@.len() == i,
                forall|k: int| 0 <= k < i ==> segs@.map_values(|s: String| s@)[k] == self@.segments[k],
            decreases n - i,
        {
            segs.push(self.segments[i].clone());
            i += 1;
        }
        let r = NormalizedPath { prefix: duplicate_prefix_opt(&self.prefix), segments: segs };
        proof {
            assert(r@.segments =~= self@.segments);
            assert(r@ =~= self@);
        }
        r
    }

    /// The last segment, when one is there: the entry's own name.
    pub fn name(&self) -> (r: Option<&String>)
        ensures
            self@.segments.len() == 0 ==> r is None,
            self@.segments.len() > 0 ==> (r matches Some(s) && s@ == self@.segments.last()),
    {
        let n = self.segments.len();
        if n == 0 {
            None
        } else {
            Some(&self.segments[n - 1])
        }
    }

    /// This path with one more segment at the end.
    pub fn push_segment(&mut self, seg: String)
        ensures
            final(self)@ == old(self)@.push_seg(seg@),
    {
        self.segments.push(seg);
        proof {
            assert(self@.segments =~= old(self)@.segments.push(seg@));
        }
    }

    /// This path without its last segment; at the root this is a no-op.
    pub fn pop_segment(&mut self)
        ensures
            final(self)@ == old(self)@.pop_seg(),
    {
        if self.segments.len() > 0 {
            self.segments.pop();
            proof {
                assert(self@.segments =~= old(self)@.segments.drop_last());
            }
        }
    }
}

/// The absolute, lexically normalized form of `raw` relative to `cwd`: the
/// anchor is `raw`'s own root when it has one, else `cwd`; then `.` is
/// dropped, `..` pops (a no-op at the root), and names are appended in
/// order. No symlink is followed and the filesystem is never consulted.
pub fn normalize(raw: &RawPath, cwd: &NormalizedPath) -> (r: NormalizedPath)
    ensures
        r@ == spec_normalize(raw@, cwd@),
{
    let mut out = if raw.prefix.is_some() || raw.rooted {
        NormalizedPath::root(duplicate_prefix_opt(&raw.prefix))
    } else {
        cwd.duplicate()
    };
    assert(out@ == anchor(raw@, cwd@));
    let n = raw.parts.len();
    let mut i: usize = 0;
    while i < n
        invariant
            n == raw.parts.len(),
            i <= n,
            out@ == apply_parts(anchor(raw@, cwd@), raw@.parts.take(i as int)),
        decreases n - i,
    {
        let ghost pre = out@;
        match &raw.parts[i] {
            Part::Cur => {},
            Part::Parent => {
                out.pop_segment();
            },
            Part::Normal(s) => {
                out.push_segment(s.clone());
            },
        }
        proof {
            assert(out@ == apply_part(pre, raw@.parts[i as int]));
            lemma_apply_parts_push(anchor(raw@, cwd@), raw@.parts.take(i as int), raw@.parts[i as int]);
            assert(raw@.parts.take(i as int + 1) =~= raw@.parts.take(i as int).push(raw@.parts[i as int]));
        }
        i += 1;
    }
    proof {
        assert(raw@.parts.take(n as int) =~= raw@.parts);
    }
    out
}

/// Normalizing a relative path of only `.` markers gives back the current
/// directory unchanged.
pub proof fn lemma_normalize_only_cur(raw: RawView, cwd: PathView)
    requires
        raw.prefix is None,
        !raw.rooted,
        forall|i: int| 0 <= i < raw.parts.len() ==> raw.parts[i] is Cur,
    ensures
        spec_normalize(raw, cwd) == cwd,
{
    lemma_apply_all_cur(cwd, raw.parts);
}

proof fn lemma_apply_all_cur(p: PathView, parts: Seq<PartView>)
    requires
        forall|i: int| 0 <= i < parts.len() ==> parts[i] is Cur,
    ensures
        apply_parts(p, parts) == p,
    decreases parts.len(),
{
    if parts.len() > 0 {
        lemma_apply_all_cur(p, parts.skip(1));
    }
}

/// Normalization never leaves a `.` or `..` segment behind: every step
/// either drops a marker, pops, or appends a name that is not a marker.
pub proof fn lemma_normalize_no_dot_segments(raw: RawView, cwd: PathView)
    requires
        raw.parts_non_dot(),
        cwd.no_dot_segments(),
    ensures
        spec_normalize(raw, cwd).no_dot_segments(),
{
    let start = anchor(raw, cwd);
    assert(start.no_dot_segments());
    lemma_apply_parts_no_dot(start, raw.parts);
}

proof fn lemma_apply_parts_no_dot(p: PathView, parts: Seq<PartView>)
    requires
        p.no_dot_segments(),
        forall|i: int| 0 <= i < parts.len() ==> (#[trigger] parts[i]).non_dot(),
    ensures
        apply_parts(p, parts).no_dot_segments(),
    decreases parts.len(),
{
    if parts.len() > 0 {
        let q = apply_part(p, parts[0]);
        assert(q.no_dot_segments()) by {
            match parts[0] {
                PartView::Normal(s) => {
                    assert(forall|i: int|
                        0 <= i < q.segments.len() ==> non_dot_name(#[trigger] q.segments[i]));
                },
                _ => {},
            }
        }
        lemma_apply_parts_no_dot(q, parts.skip(1));
    }
}

/// Normalization keeps well-formedness: a well-formed raw path against a
/// well-formed current directory yields a well-formed normalized path.
pub proof fn lemma_normalize_wf(raw: RawView, cwd: PathView)
    requires
        raw.wf(),
        cwd.wf(),
    ensures
        spec_normalize(raw, cwd).wf(),
{
    let start = anchor(raw, cwd);
    assert(start.wf());
    lemma_apply_parts_wf(start, raw.parts);
}

proof fn lemma_apply_parts_wf(p: PathView, parts: Seq<PartView>)
    requires
        p.wf(),
        forall|i: int| 0 <= i < parts.len() ==> (#[trigger] parts[i]).wf(),
    ensures
        apply_parts(p, parts).wf(),
    decreases parts.len(),
{
    if parts.len() > 0 {
        let q = apply_part(p, parts[0]);
        assert(q.wf()) by {
            match parts[0] {
                PartView::Normal(s) => {
                    assert(forall|i: int|
                        0 <= i < q.segments.len() ==> valid_name(#[trigger] q.segments[i]));
                },
                _ => {},
            }
        }
        lemma_apply_parts_wf(q, parts.skip(1));
    }
}


/// How one written segment reads: the `.` marker, the `..` marker, or a
/// name.
pub open spec fn classify(seg: Seq<char>) -> PartView {
    if seg == seq!['.'] {
        PartView::Cur
    } else if seg == seq!['.', '.'] {
        PartView::Parent
    } else {
        PartView::Normal(seg)
    }
}

/// How many characters the leading segment of `s` has: the count of
/// characters before the first separator.
pub open spec fn seg_len(s: Seq<char>) -> nat
    decreases s.len(),
{
    if s.len() == 0 || is_sep(s[0]) {
        0
    } else {
        (1 + seg_len(s.skip(1))) as nat
    }
}

pub proof fn lemma_seg_len_le(s: Seq<char>)
    ensures
        seg_len(s) <= s.len(),
    decreases s.len(),
{
    if s.len() > 0 && !is_sep(s[0]) {
        lemma_seg_len_le(s.skip(1));
    }
}

/// The leading segment runs to position `k` exactly when everything before
/// `k` is not a separator and `k` is a separator or the end.
pub proof fn lemma_seg_len_scan(s: Seq<char>, k: int)
    requires
        0 <= k <= s.len(),
        forall|j: int| 0 <= j < k ==> !is_sep(#[trigger] s[j]),
        k < s.len() ==> is_sep(s[k]),
    ensures
        seg_len(s) == k,
    decreases s.len(),
{
    if k > 0 {
        let t = s.skip(1);
        assert(forall|j: int| 0 <= j < k - 1 ==> t[j] == s[j + 1]);
        lemma_seg_len_scan(t, k - 1);
    }
}

/// The components of a written path: separators split it, empty runs are
/// dropped, and each segment reads as a marker or a name.
pub open spec fn split_parts(s: Seq<char>) -> Seq<PartView>
    decreases s.len(),
    via split_parts_dec
{
    if s.len() == 0 {
        Seq::empty()
    } else if is_sep(s[0]) {
        split_parts(s.skip(1))
    } else {
        seq![classify(s.take(seg_len(s) as int))] + split_parts(s.skip(seg_len(s) as int))
    }
}

#[via_fn]
proof fn split_parts_dec(s: Seq<char>) {
    if s.len() > 0 && !is_sep(s[0]) {
        lemma_seg_len_le(s);
    }
}

/// No component that splitting yields spells `.` or `..`: those spellings
/// read as markers instead.
pub proof fn lemma_split_parts_non_dot(s: Seq<char>)
    ensures
        forall|i: int|
            0 <= i < split_parts(s).len() ==> (#[trigger] split_parts(s)[i]).non_dot(),
    decreases s.len(),
{
    if s.len() == 0 {
        assert(split_parts(s).len() == 0);
    } else if is_sep(s[0]) {
        lemma_split_parts_non_dot(s.skip(1));
        assert(split_parts(s) == split_parts(s.skip(1)));
        assert forall|i: int| 0 <= i < split_parts(s).len() implies (#[trigger] split_parts(
            s,
        )[i]).non_dot() by {
            assert(split_parts(s)[i] == split_parts(s.skip(1))[i]);
        }
    } else {
        lemma_seg_len_le(s);
        let k = seg_len(s) as int;
        let head = classify(s.take(k));
        let rest = split_parts(s.skip(k));
        lemma_split_parts_non_dot(s.skip(k));
        assert(split_parts(s) == seq![head] + rest);
        assert(head.non_dot());
        assert forall|i: int| 0 <= i < split_parts(s).len() implies (#[trigger] split_parts(
            s,
        )[i]).non_dot() by {
            if i == 0 {
                assert(split_parts(s)[i] == head);
            } else {
                assert(split_parts(s)[i] == rest[i - 1]);
            }
        }
    }
}

/// The value a written path denotes: an optional leading drive prefix, a
/// root separator when one follows, and the split components.
pub open spec fn spec_parse(s: Seq<char>) -> RawView {
    if s.len() >= 2 && is_ascii_letter(s[0]) && s[1] == ':' {
        let rest = s.skip(2);
        RawView {
            prefix: Some(PrefixView::Disk(seq![s[0]])),
            rooted: rest.len() > 0 && is_sep(rest[0]),
            parts: split_parts(rest),
        }
    } else {
        RawView {
            prefix: None,
            rooted: s.len() > 0 && is_sep(s[0]),
            parts: split_parts(s),
        }
    }
}

/// Whether `c` separates path components.
pub fn is_sep_char(c: char) -> (r: bool)
    ensures
        r == is_sep(c),
{
    c == '/' || c == '\\'
}

/// How one written segment reads, as a held component.
fn classify_seg(seg: &str) -> (p: Part)
    ensures
        p@ == classify(seg@),
{
    let l = seg.unicode_len();
    if l == 1 && seg.get_char(0) == '.' {
        proof {
            assert(seg@ =~= seq!['.']);
        }
        Part::Cur
    } else if l == 2 && seg.get_char(0) == '.' && seg.get_char(1) == '.' {
        proof {
            assert(seg@ =~= seq!['.', '.']);
        }
        Part::Parent
    } else {
        proof {
            assert(seg@ != seq!['.'] && seg@ != seq!['.', '.']) by {
                if l == 1 {
                    assert(seg@[0] != '.');
                } else if l == 2 {
                    assert(seg@[0] != '.' || seg@[1] != '.');
                }
            }
        }
        Part::Normal(seg.to_owned())
    }
}

/// The split components of `s` from character position `start` on.
fn split_str(s: &str, start: usize) -> (parts: Vec<Part>)
    requires
        start <= s@.len(),
    ensures
        parts@.map_values(|p: Part| p@) == split_parts(s@.skip(start as int)),
{
    let len = s.unicode_len();
    let mut parts: Vec<Part> = Vec::new();
    let mut i: usize = start;
    while i < len
        invariant
            len == s@.len(),
            start <= i <= len,
            split_parts(s@.skip(start as int)) == parts@.map_values(|p: Part| p@) + split_parts(
                s@.skip(i as int),
            ),
        decreases len - i,
    {
        let c = s.get_char(i);
        if c == '/' || c == '\\' {
            proof {
                let t = s@.skip(i as int);
                assert(t[0] == s@[i as int]);
                assert(t.skip(1) =~= s@.skip(i as int + 1));
            }
            i += 1;
        } else {
            let mut j: usize = i + 1;
            while j < len && !(s.get_char(j) == '/' || s.get_char(j) == '\\')
                invariant
                    len == s@.len(),
                    i < j <= len,
                    forall|k: int| i <= k < j ==> !is_sep(#[trigger] s@[k]),
                decreases len - j,
            {
                j += 1;
            }
            let seg = s.substring_char(i, j);
            let part = classify_seg(seg);
            let ghost prev = parts@.map_values(|p: Part| p@);
            parts.push(part);
            proof {
                let t = s@.skip(i as int);
                assert(forall|k: int| 0 <= k < j - i ==> t[k] == s@[i + k]);
                assert(j < len ==> t[j - i] == s@[j as int]);
                lemma_seg_len_scan(t, j - i);
                assert(t.take(j - i) =~= seg@);
                assert(t.skip(j - i) =~= s@.skip(j as int));
                assert(split_parts(t) == seq![classify(seg@)] + split_parts(s@.skip(j as int)));
                assert(parts@.map_values(|p: Part| p@) =~= prev.push(part@));
                assert(prev.push(part@) + split_parts(s@.skip(j as int)) =~= prev + (seq![
                    classify(seg@),
                ] + split_parts(s@.skip(j as int))));
            }
            i = j;
        }
    }
    proof {
        assert(s@.skip(len as int) =~= Seq::<char>::empty());
        assert(parts@.map_values(|p: Part| p@) + split_parts(s@.skip(len as int))
            =~= parts@.map_values(|p: Part| p@));
    }
    parts
}

/// The value a written path denotes, read from its text: a leading
/// `<letter>:` becomes a drive prefix, a separator next to the anchor makes
/// it rooted, separators of either style split the components, and `.` and
/// `..` read as markers. Splitting drops empty components, so repeated
/// separators collapse.
pub fn parse(s: &str) -> (r: RawPath)
    ensures
        r@ == spec_parse(s@),
        r@.parts_non_dot(),
{
    let len = s.unicode_len();
    proof {
        if len >= 2 && is_ascii_letter(s@[0]) && s@[1] == ':' {
            lemma_split_parts_non_dot(s@.skip(2));
        } else {
            lemma_split_parts_non_dot(s@.skip(0));
        }
    }
    if len >= 2 {
        let c0 = s.get_char(0);
        let c1 = s.get_char(1);
        let u = c0 as u32;
        if ((65 <= u && u <= 90) || (97 <= u && u <= 122)) && c1 == ':' {
            let d = s.substring_char(0, 1).to_owned();
            let rooted = if len >= 3 {
                is_sep_char(s.get_char(2))
            } else {
                false
            };
            let parts = split_str(s, 2);
            let r = RawPath { prefix: Some(Prefix::Disk(d)), rooted, parts };
            proof {
                let rest = s@.skip(2);
                assert(d@ =~= seq![s@[0]]);
                assert(rest.len() > 0 ==> rest[0] == s@[2]);
                assert(r@ =~= spec_parse(s@));
            }
            return r;
        }
    }
    let rooted = if len >= 1 {
        is_sep_char(s.get_char(0))
    } else {
        false
    };
    let parts = split_str(s, 0);
    let r = RawPath { prefix: None, rooted, parts };
    proof {
        assert(s@.skip(0) =~= s@);
        assert(r@ =~= spec_parse(s@));
    }
    r
}

/// The normalized form of the written path `s` against the current
/// directory `cwd`. When `cwd` has no `.`/`..` segments, neither has the
/// result, whatever `s` says.
pub fn normalize_str(s: &str, cwd: &NormalizedPath) -> (r: NormalizedPath)
    ensures
        r@ == spec_normalize(spec_parse(s@), cwd@),
        cwd@.no_dot_segments() ==> r@.no_dot_segments(),
{
    let raw = parse(s);
    let r = normalize(&raw, cwd);
    proof {
        if cwd@.no_dot_segments() {
            lemma_normalize_no_dot_segments(raw@, cwd@);
        }
    }
    r
}

} // verus!


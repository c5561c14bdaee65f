use vstd::prelude::*;

use crate::errors::ShowError;
use crate::path::{NormalizedPath, PathView};
use crate::strutil::{pattern_matches, str_pattern_matches};

verus! {

/// The file-type classification of one visited filesystem object.
#[derive(Clone, Copy, PartialEq, Eq, Structural, Debug)]
pub enum EntryType {
    Directory,
    RegularFile,
    Symlink,
    Pipe,
    Socket,
    Executable,
    Hidden,
    Empty,
}

/// A metadata snapshot taken at visit time, as plain values: a size in
/// bytes, permission bits, and creation, modification and access times as
/// epoch seconds where the platform reports them.
#[derive(Clone, Copy, PartialEq, Eq, Debug)]
pub struct Metadata {
    pub size: u64,
    pub mode: u32,
    pub created: Option<u64>,
    pub modified: Option<u64>,
    pub accessed: Option<u64>,
}

/// The mathematical value of a directory entry.
#[verifier::ext_equal]
pub struct DirEntryView {
    pub path: PathView,
    pub typ: EntryType,
    pub depth: nat,
    pub follow_link: bool,
    pub metadata: Metadata,
}

/// One filesystem object visited during a walk: its absolute path, type
/// tag, depth below the walk root (roots sit at depth zero), whether it was
/// reached by following a symlink, and its metadata snapshot. Immutable
/// once built.
pub struct DirEntry {
    path: NormalizedPath,
    typ: EntryType,
    depth: usize,
    follow_link: bool,
    metadata: Metadata,
}

impl View for DirEntry {
    type V = DirEntryView;

    closed spec fn view(&self) -> DirEntryView {
        DirEntryView {
            path: self.path@,
            typ: self.typ,
            depth: self.depth as nat,
            follow_link: self.follow_link,
            metadata: self.metadata,
        }
    }
}

impl DirEntry {
    /// An entry built from plain values the caller read at visit time.
    pub fn new(
        path: NormalizedPath,
        typ: EntryType,
        depth: usize,
        follow_link: bool,
        metadata: Metadata,
    ) -> (r: DirEntry)
        ensures
            r@ == (DirEntryView {
                path: path@,
                typ,
                depth: depth as nat,
                follow_link,
                metadata,
            }),
    {
        DirEntry { path, typ, depth, follow_link, metadata }
    }

    /// The entry's path.
    pub fn path(&self) -> (r: &NormalizedPath)
        ensures
            r@ == self@.path,
    {
        &self.path
    }

    /// The entry's file-type classification.
    pub fn file_type(&self) -> (r: EntryType)
        ensures
            r == self@.typ,
    {
        self.typ
    }

    /// Whether the entry is a regular file.
    pub fn is_file(&self) -> (r: bool)
        ensures
            r == (self@.typ is RegularFile),
    {
        matches!(self.typ, EntryType::RegularFile)
    }

    /// Whether the entry is a directory.
    pub fn is_dir(&self) -> (r: bool)
        ensures
            r == (self@.typ is Directory),
    {
        matches!(self.typ, EntryType::Directory)
    }

    /// Whether the entry is itself a symlink or was reached through one.
    pub fn is_symlink(&self) -> (r: bool)
        ensures
            r == (self@.follow_link || self@.typ is Symlink),
    {
        self.follow_link || matches!(self.typ, EntryType::Symlink)
    }

    /// The entry's depth below its walk root.
    pub fn depth(&self) -> (r: usize)
        ensures
            r as nat == self@.depth,
    {
        self.depth
    }

    /// Whether the entry was reached by following a symlink.
    pub fn follow_link(&self) -> (r: bool)
        ensures
            r == self@.follow_link,
    {
        self.follow_link
    }

    /// The metadata snapshot taken when the entry was visited.
    pub fn metadata(&self) -> (r: &Metadata)
        ensures
            *r == self@.metadata,
    {
        &self.metadata
    }
}

/// The mathematical value of a search filter.
#[verifier::ext_equal]
pub struct FilterView {
    pub follow_symlink: bool,
    pub skip_hidden: bool,
    pub ignore_case: bool,
    pub min_depth: Option<usize>,
    pub max_depth: Option<usize>,
    pub include_pattern: Seq<Seq<char>>,
    pub exclude_pattern: Seq<Seq<char>>,
    pub create_before: Option<u64>,
    pub create_after: Option<u64>,
    pub change_before: Option<u64>,
    pub change_after: Option<u64>,
    pub access_before: Option<u64>,
    pub access_after: Option<u64>,
}

/// The declarative predicate configuration of one walk: symlink and hidden
/// policies, case sensitivity, depth bounds, substring patterns, and
/// timestamp bounds as epoch seconds. Exclude patterns take precedence over
/// include patterns.
pub struct SearchFilter {
    pub follow_symlink: bool,
    pub skip_hidden: bool,
    pub ignore_case: bool,
    pub min_depth: Option<usize>,
    pub max_depth: Option<usize>,
    pub include_pattern: Vec<String>,
    pub exclude_pattern: Vec<String>,
    pub create_before: Option<u64>,
    pub create_after: Option<u64>,
    pub change_before: Option<u64>,
    pub change_after: Option<u64>,
    pub access_before: Option<u64>,
    pub access_after: Option<u64>,
}

impl View for SearchFilter {
    type V = FilterView;

    open spec fn view(&self) -> FilterView {
        FilterView {
            follow_symlink: self.follow_symlink,
            skip_hidden: self.skip_hidden,
            ignore_case: self.ignore_case,
            min_depth: self.min_depth,
            max_depth: self.max_depth,
            include_pattern: self.include_pattern@.map_values(|s: String| s@),
            exclude_pattern: self.exclude_pattern@.map_values(|s: String| s@),
            create_before: self.create_before,
            create_after: self.create_after,
            change_before: self.change_before,
            change_after: self.change_after,
            access_before: self.access_before,
            access_after: self.access_after,
        }
    }
}

/// The filter a walk starts from: hidden entries skipped, symlinks not
/// followed, case respected, and no bounds or patterns.
pub open spec fn default_filter() -> FilterView {
    FilterView {
        follow_symlink: false,
        skip_hidden: true,
        ignore_case: false,
        min_depth: None,
        max_depth: None,
        include_pattern: Seq::empty(),
        exclude_pattern: Seq::empty(),
        create_before: None,
        create_after: None,
        change_before: None,
        change_after: None,
        access_before: None,
        access_after: None,
    }
}

impl Default for SearchFilter {
    /// The starting filter: hidden entries skipped, nothing else
    /// constrained.
    fn default() -> (r: SearchFilter)
        ensures
            r@ == default_filter(),
    {
        let r = SearchFilter {
            follow_symlink: false,
            skip_hidden: true,
            ignore_case: false,
            min_depth: None,
            max_depth: None,
            include_pattern: vec![],
            exclude_pattern: vec![],
            create_before: None,
            create_after: None,
            change_before: None,
            change_after: None,
            access_before: None,
            access_after: None,
        };
        proof {
            assert(r@ =~= default_filter());
        }
        r
    }
}

impl SearchFilter {
    /// A deep copy with the same value.
    pub fn duplicate(&self) -> (r: SearchFilter)
        ensures
            r@ == self@,
    {
        let r = SearchFilter {
            follow_symlink: self.follow_symlink,
            skip_hidden: self.skip_hidden,
            ignore_case: self.ignore_case,
            min_depth: self.min_depth,
            max_depth: self.max_depth,
            include_pattern: duplicate_strings(&self.include_pattern),
            exclude_pattern: duplicate_strings(&self.exclude_pattern),
            create_before: self.create_before,
            create_after: self.create_after,
            change_before: self.change_before,
            change_after: self.change_after,
            access_before: self.access_before,
            access_after: self.access_after,
        };
        proof {
            assert(r@ =~= self@);
        }
        r
    }
}

/// A deep copy of a list of strings.
pub fn duplicate_strings(v: &Vec<String>) -> (r: Vec<String>)
    ensures
        r@.map_values(|s: String| s@) == v@.map_values(|s: String| s@),
{
    let mut out: Vec<String> = Vec::new();
    let n = v.len();
    let mut i: usize = 0;
    while i < n
        invariant
            n == v.len(),
            i <= n,
            out@.len() == i,
            forall|k: int| 0 <= k < i ==> (#[trigger] out@[k])@ == v@[k]@,
        decreases n - i,
    {
        out.push(v[i].clone());
        i += 1;
    }
    proof {
        assert(out@.map_values(|s: String| s@) =~= v@.map_values(|s: String| s@));
    }
    out
}

/// Whether a name carries the hidden-file marker: a leading dot.
pub open spec fn hidden_name(name: Seq<char>) -> bool {
    name.len() > 0 && name[0] == '.'
}

/// Whether some pattern of `pats` matches `name`, folded by `ci`: a
/// pattern with `*` or `?` as a whole-name glob, any other wherever it
/// occurs in the name.
pub open spec fn any_pattern_matches(pats: Seq<Seq<char>>, name: Seq<char>, ci: bool) -> bool {
    exists|i: int| 0 <= i < pats.len() && pattern_matches(#[trigger] pats[i], name, ci)
}

/// Whether `v` is at or before the bound, when a bound is set. A bound with
/// no reported timestamp rejects.
pub open spec fn bound_before(bound: Option<u64>, v: Option<u64>) -> bool {
    match bound {
        None => true,
        Some(b) => v matches Some(t) && t <= b,
    }
}

/// Whether `v` is at or after the bound, when a bound is set. A bound with
/// no reported timestamp rejects.
pub open spec fn bound_after(bound: Option<u64>, v: Option<u64>) -> bool {
    match bound {
        None => true,
        Some(b) => v matches Some(t) && t >= b,
    }
}

impl FilterView {
    /// Whether the depth bounds agree: a walk with a minimum above the
    /// maximum is refused before it starts.
    pub open spec fn bounds_ok(self) -> bool {
        match (self.min_depth, self.max_depth) {
            (Some(a), Some(b)) => a <= b,
            _ => true,
        }
    }

    /// Whether `depth` lies within the configured bounds.
    pub open spec fn depth_ok(self, depth: nat) -> bool {
        &&& (self.min_depth matches Some(m) ==> depth >= m)
        &&& (self.max_depth matches Some(m) ==> depth <= m)
    }

    /// Whether some exclude pattern matches the name.
    pub open spec fn excluded(self, name: Seq<char>) -> bool {
        any_pattern_matches(self.exclude_pattern, name, self.ignore_case)
    }

    /// Whether the include patterns let the name through: an empty list
    /// includes everything.
    pub open spec fn included(self, name: Seq<char>) -> bool {
        self.include_pattern.len() == 0 || any_pattern_matches(
            self.include_pattern,
            name,
            self.ignore_case,
        )
    }

    /// Whether the metadata's timestamps lie within the configured bounds.
    pub open spec fn time_ok(self, meta: Metadata) -> bool {
        &&& bound_before(self.create_before, meta.created)
        &&& bound_after(self.create_after, meta.created)
        &&& bound_before(self.change_before, meta.modified)
        &&& bound_after(self.change_after, meta.modified)
        &&& bound_before(self.access_before, meta.accessed)
        &&& bound_after(self.access_after, meta.accessed)
    }

    /// Whether the walk emits an entry: the predicates apply in the fixed
    /// order depth bounds, hidden-file skip, exclude patterns, include
    /// patterns, timestamp bounds, and all must pass.
    pub open spec fn accepts(self, name: Seq<char>, depth: nat, meta: Metadata) -> bool {
        &&& self.depth_ok(depth)
        &&& (self.skip_hidden ==> !hidden_name(name))
        &&& !self.excluded(name)
        &&& self.included(name)
        &&& self.time_ok(meta)
    }

    /// Whether the walk expands a visited entry's children: the entry is a
    /// directory, or a symlink to one while symlinks are followed, and its
    /// own depth lies strictly under the maximum. Acceptance does not gate
    /// descent.
    pub open spec fn descends(self, typ: EntryType, symlink_to_dir: bool, depth: nat) -> bool {
        &&& (typ is Directory || (typ is Symlink && self.follow_symlink && symlink_to_dir))
        &&& (self.max_depth matches Some(m) ==> depth < m)
    }
}

/// Whether some pattern matches `name`, folded by `ci`.
pub fn any_match(pats: &Vec<String>, name: &str, ci: bool) -> (r: bool)
    ensures
        r == any_pattern_matches(pats@.map_values(|s: String| s@), name@, ci),
{
    let ghost pv = pats@.map_values(|s: String| s@);
    let n = pats.len();
    let mut i: usize = 0;
    while i < n
        invariant
            n == pats.len(),
            i <= n,
            pv == pats@.map_values(|s: String| s@),
            forall|k: int| 0 <= k < i ==> !pattern_matches(#[trigger] pv[k], name@, ci),
        decreases n - i,
    {
        if str_pattern_matches(pats[i].as_str(), name, ci) {
            assert(pattern_matches(pv[i as int], name@, ci));
            return true;
        }
        i += 1;
    }
    false
}

impl SearchFilter {
    /// Whether this filter emits an entry named `name` at `depth` with
    /// metadata `meta`, testing the predicates in the fixed order and
    /// stopping at the first that rejects.
    pub fn accepts_entry(&self, name: &str, depth: usize, meta: &Metadata) -> (r: bool)
        ensures
            r == self@.accepts(name@, depth as nat, *meta),
    {
        match self.min_depth {
            Some(m) => {
                if depth < m {
                    return false;
                }
            },
            None => {},
        }
        match self.max_depth {
            Some(m) => {
                if depth > m {
                    return false;
                }
            },
            None => {},
        }
        if self.skip_hidden {
            let hidden = name.unicode_len() > 0 && name.get_char(0) == '.';
            if hidden {
                return false;
            }
        }
        if any_match(&self.exclude_pattern, name, self.ignore_case) {
            return false;
        }
        if self.include_pattern.len() > 0 && !any_match(
            &self.include_pattern,
            name,
            self.ignore_case,
        ) {
            return false;
        }
        time_within(self.create_before, self.create_after, meta.created) && time_within(
            self.change_before,
            self.change_after,
            meta.modified,
        ) && time_within(self.access_before, self.access_after, meta.accessed)
    }

    /// Whether this filter expands the children of an entry of type `typ`
    /// at `depth`.
    pub fn descends_into(&self, typ: EntryType, symlink_to_dir: bool, depth: usize) -> (r: bool)
        ensures
            r == self@.descends(typ, symlink_to_dir, depth as nat),
    {
        let dirlike = matches!(typ, EntryType::Directory) || (matches!(typ, EntryType::Symlink)
            && self.follow_symlink && symlink_to_dir);
        if !dirlike {
            return false;
        }
        match self.max_depth {
            Some(m) => depth < m,
            None => true,
        }
    }
}

/// Whether `v` lies within the two bounds, each applied only when set.
fn time_within(before: Option<u64>, after: Option<u64>, v: Option<u64>) -> (r: bool)
    ensures
        r == (bound_before(before, v) && bound_after(after, v)),
{
    let b_ok = match before {
        None => true,
        Some(b) => match v {
            Some(t) => t <= b,
            None => false,
        },
    };
    let a_ok = match after {
        None => true,
        Some(a) => match v {
            Some(t) => t >= a,
            None => false,
        },
    };
    b_ok && a_ok
}


/// The mathematical value of the print options.
#[verifier::ext_equal]
pub struct OptionView {
    pub ignore_error: bool,
    pub no_color: bool,
    pub type_mask: u8,
    pub absolute_path: bool,
    pub name_only: bool,
    pub min_file_size: Option<usize>,
    pub max_file_size: Option<usize>,
    pub include_file_extension: Seq<Seq<char>>,
    pub exclude_file_extension: Seq<Seq<char>>,
}

/// How results are presented: error suppression, coloring, which type tags
/// to show, path form, and size and extension bounds applied at print time.
pub struct PrintOption {
    pub ignore_error: bool,
    pub no_color: bool,
    pub type_mask: u8,
    pub absolute_path: bool,
    pub name_only: bool,
    pub min_file_size: Option<usize>,
    pub max_file_size: Option<usize>,
    pub include_file_extension: Vec<String>,
    pub exclude_file_extension: Vec<String>,
}

impl View for PrintOption {
    type V = OptionView;

    open spec fn view(&self) -> OptionView {
        OptionView {
            ignore_error: self.ignore_error,
            no_color: self.no_color,
            type_mask: self.type_mask,
            absolute_path: self.absolute_path,
            name_only: self.name_only,
            min_file_size: self.min_file_size,
            max_file_size: self.max_file_size,
            include_file_extension: self.include_file_extension@.map_values(|s: String| s@),
            exclude_file_extension: self.exclude_file_extension@.map_values(|s: String| s@),
        }
    }
}

/// The options a walk starts from: nothing suppressed, nothing bounded.
pub open spec fn default_option() -> OptionView {
    OptionView {
        ignore_error: false,
        no_color: false,
        type_mask: 0,
        absolute_path: false,
        name_only: false,
        min_file_size: None,
        max_file_size: None,
        include_file_extension: Seq::empty(),
        exclude_file_extension: Seq::empty(),
    }
}

impl Default for PrintOption {
    /// The starting options: nothing suppressed, nothing bounded.
    fn default() -> (r: PrintOption)
        ensures
            r@ == default_option(),
    {
        let r = PrintOption {
            ignore_error: false,
            no_color: false,
            type_mask: 0,
            absolute_path: false,
            name_only: false,
            min_file_size: None,
            max_file_size: None,
            include_file_extension: vec![],
            exclude_file_extension: vec![],
        };
        proof {
            assert(r@ =~= default_option());
        }
        r
    }
}

impl OptionView {
    /// Whether the print options let an entry through at print time: its
    /// size within the bounds, no excluded extension, and, when the
    /// include list is not empty, an included extension. Exclude wins.
    pub open spec fn allows(self, name: Seq<char>, size: u64) -> bool {
        &&& (self.min_file_size matches Some(m) ==> size >= m as u64)
        &&& (self.max_file_size matches Some(m) ==> size <= m as u64)
        &&& !(crate::probe::spec_extension(name) matches Some(e) && crate::probe::ext_in_list(
            e,
            self.exclude_file_extension,
        ))
        &&& (self.include_file_extension.len() == 0 || (crate::probe::spec_extension(name)
            matches Some(e) && crate::probe::ext_in_list(e, self.include_file_extension)))
    }
}

impl PrintOption {
    /// The starting options: nothing suppressed, nothing bounded.
    pub fn new() -> (r: PrintOption)
        ensures
            r@ == default_option(),
    {
        PrintOption::default()
    }

    /// Whether these options let an entry named `name` of `size` bytes
    /// through at print time.
    pub fn allows_entry(&self, name: &str, size: u64) -> (r: bool)
        ensures
            r == self@.allows(name@, size),
    {
        match self.min_file_size {
            Some(m) => {
                if size < m as u64 {
                    return false;
                }
            },
            None => {},
        }
        match self.max_file_size {
            Some(m) => {
                if size > m as u64 {
                    return false;
                }
            },
            None => {},
        }
        match crate::probe::extension_of(name) {
            Some(e) => {
                if crate::probe::ext_matches(e.as_str(), &self.exclude_file_extension) {
                    return false;
                }
                self.include_file_extension.len() == 0 || crate::probe::ext_matches(
                    e.as_str(),
                    &self.include_file_extension,
                )
            },
            None => self.include_file_extension.len() == 0,
        }
    }
}

/// One or more roots, a filter and print options: the configuration of one
/// directory walk, built up in the builder style and then run either on the
/// calling thread or across a worker pool.
pub struct Walk {
    pub search_paths: Vec<NormalizedPath>,
    pub threads: usize,
    pub filter: SearchFilter,
    pub option: PrintOption,
}

impl Walk {
    /// A walk with no roots yet, the starting filter and options, and the
    /// thread count left for the runner to pick.
    pub fn new() -> (r: Walk)
        ensures
            r.search_paths@.len() == 0,
            r.threads == 0,
            r.filter@ == default_filter(),
            r.option@ == default_option(),
    {
        Walk {
            search_paths: Vec::new(),
            threads: 0,
            filter: SearchFilter::default(),
            option: PrintOption::new(),
        }
    }

    /// This walk with `n` worker threads.
    pub fn with_threads(self, n: usize) -> (r: Walk)
        ensures
            r.threads == n,
            r.search_paths == self.search_paths,
            r.filter == self.filter,
            r.option == self.option,
    {
        let mut w = self;
        w.threads = n;
        w
    }

    /// This walk run on the calling thread alone.
    pub fn single_thread(self) -> (r: Walk)
        ensures
            r.threads == 1,
            r.search_paths == self.search_paths,
            r.filter == self.filter,
            r.option == self.option,
    {
        let mut w = self;
        w.threads = 1;
        w
    }

    /// This walk with `filter` in place of its filter.
    pub fn with_filter(self, filter: SearchFilter) -> (r: Walk)
        ensures
            r.filter == filter,
            r.search_paths == self.search_paths,
            r.threads == self.threads,
            r.option == self.option,
    {
        let mut w = self;
        w.filter = filter;
        w
    }

    /// This walk with `option` in place of its print options.
    pub fn with_option(self, option: PrintOption) -> (r: Walk)
        ensures
            r.option == option,
            r.search_paths == self.search_paths,
            r.threads == self.threads,
            r.filter == self.filter,
    {
        let mut w = self;
        w.option = option;
        w
    }

    /// This walk with the symlink-follow policy set.
    pub fn follow_symlink(self, follow_symlink: bool) -> (r: Walk)
        ensures
            r.filter@ == (FilterView { follow_symlink, ..self.filter@ }),
            r.search_paths == self.search_paths,
            r.threads == self.threads,
            r.option == self.option,
    {
        let mut w = self;
        w.filter.follow_symlink = follow_symlink;
        w
    }

    /// This walk with the hidden-file policy set.
    pub fn skip_hidden(self, skip_hidden: bool) -> (r: Walk)
        ensures
            r.filter@ == (FilterView { skip_hidden, ..self.filter@ }),
            r.search_paths == self.search_paths,
            r.threads == self.threads,
            r.option == self.option,
    {
        let mut w = self;
        w.filter.skip_hidden = skip_hidden;
        w
    }

    /// This walk with case sensitivity set.
    pub fn ignore_case(self, ignore_case: bool) -> (r: Walk)
        ensures
            r.filter@ == (FilterView { ignore_case, ..self.filter@ }),
            r.search_paths == self.search_paths,
            r.threads == self.threads,
            r.option == self.option,
    {
        let mut w = self;
        w.filter.ignore_case = ignore_case;
        w
    }

    /// This walk with a minimum depth for emitted entries.
    pub fn min_depth(self, depth: usize) -> (r: Walk)
        ensures
            r.filter@ == (FilterView { min_depth: Some(depth), ..self.filter@ }),
            r.search_paths == self.search_paths,
            r.threads == self.threads,
            r.option == self.option,
    {
        let mut w = self;
        w.filter.min_depth = Some(depth);
        w
    }

    /// This walk with a maximum depth for emitted entries and descent.
    pub fn max_depth(self, depth: usize) -> (r: Walk)
        ensures
            r.filter@ == (FilterView { max_depth: Some(depth), ..self.filter@ }),
            r.search_paths == self.search_paths,
            r.threads == self.threads,
            r.option == self.option,
    {
        let mut w = self;
        w.filter.max_depth = Some(depth);
        w
    }
}

/// The mathematical value of one pending work item.
#[verifier::ext_equal]
pub struct PendingView {
    pub path: PathView,
    pub depth: nat,
    pub via_symlink: bool,
}

/// One directory waiting to be expanded: its path, its depth, and whether
/// the walk reached it through a symlink.
pub struct PendingDir {
    pub path: NormalizedPath,
    pub depth: usize,
    pub via_symlink: bool,
}

impl View for PendingDir {
    type V = PendingView;

    open spec fn view(&self) -> PendingView {
        PendingView { path: self.path@, depth: self.depth as nat, via_symlink: self.via_symlink }
    }
}

/// What the caller read about one object when listing a directory: its
/// name, type tag, whether a symlink points at a directory, and a metadata
/// snapshot.
pub struct EntryInfo {
    pub name: String,
    pub typ: EntryType,
    pub symlink_to_dir: bool,
    pub metadata: Metadata,
}

/// The mathematical value of one listed object.
#[verifier::ext_equal]
pub struct EntryInfoView {
    pub name: Seq<char>,
    pub typ: EntryType,
    pub symlink_to_dir: bool,
    pub metadata: Metadata,
}

impl View for EntryInfo {
    type V = EntryInfoView;

    open spec fn view(&self) -> EntryInfoView {
        EntryInfoView {
            name: self.name@,
            typ: self.typ,
            symlink_to_dir: self.symlink_to_dir,
            metadata: self.metadata,
        }
    }
}

/// One outcome of a walk: an emitted entry, or a directory that could not
/// be read, reported once while the walk goes on.
pub enum WalkEvent {
    Entry(DirEntry),
    Unreadable(NormalizedPath),
}

/// The mathematical value of one walk outcome.
#[verifier::ext_equal]
pub enum WalkEventView {
    Entry(DirEntryView),
    Unreadable(PathView),
}

impl View for WalkEvent {
    type V = WalkEventView;

    open spec fn view(&self) -> WalkEventView {
        match self {
            WalkEvent::Entry(e) => WalkEventView::Entry(e@),
            WalkEvent::Unreadable(p) => WalkEventView::Unreadable(p@),
        }
    }
}

/// The entry built for a child of `dir` described by `c`.
pub open spec fn child_entry(dir: PendingView, c: EntryInfoView) -> DirEntryView {
    DirEntryView {
        path: dir.path.push_seg(c.name),
        typ: c.typ,
        depth: (dir.depth + 1) as nat,
        follow_link: dir.via_symlink,
        metadata: c.metadata,
    }
}

/// The work item queued for a child that the walk descends into.
pub open spec fn child_pending(dir: PendingView, c: EntryInfoView) -> PendingView {
    PendingView {
        path: dir.path.push_seg(c.name),
        depth: (dir.depth + 1) as nat,
        via_symlink: dir.via_symlink || c.typ is Symlink,
    }
}

/// The events one child contributes: its entry when the filter accepts it,
/// else nothing.
pub open spec fn child_events_one(f: FilterView, dir: PendingView, c: EntryInfoView) -> Seq<
    WalkEventView,
> {
    if f.accepts(c.name, (dir.depth + 1) as nat, c.metadata) {
        seq![WalkEventView::Entry(child_entry(dir, c))]
    } else {
        Seq::empty()
    }
}

/// The events expanding `dir` over the listing `cs` emits, in listing
/// order.
pub open spec fn spec_expand_events(f: FilterView, dir: PendingView, cs: Seq<EntryInfoView>) -> Seq<
    WalkEventView,
> {
    cs.flat_map(|c: EntryInfoView| child_events_one(f, dir, c))
}

/// The work items one child contributes: itself when the walk descends
/// into it, else nothing.
pub open spec fn child_pending_one(f: FilterView, dir: PendingView, c: EntryInfoView) -> Seq<
    PendingView,
> {
    if f.descends(c.typ, c.symlink_to_dir, (dir.depth + 1) as nat) {
        seq![child_pending(dir, c)]
    } else {
        Seq::empty()
    }
}

/// The work items expanding `dir` over the listing `cs` queues, in listing
/// order.
pub open spec fn spec_expand_pending(f: FilterView, dir: PendingView, cs: Seq<EntryInfoView>) -> Seq<
    PendingView,
> {
    cs.flat_map(|c: EntryInfoView| child_pending_one(f, dir, c))
}

/// The events visiting a root emits: its entry at depth zero when the
/// filter accepts it.
pub open spec fn root_events(f: FilterView, path: PathView, info: EntryInfoView) -> Seq<
    WalkEventView,
> {
    if f.accepts(info.name, 0, info.metadata) {
        seq![
            WalkEventView::Entry(
                DirEntryView {
                    path,
                    typ: info.typ,
                    depth: 0,
                    follow_link: false,
                    metadata: info.metadata,
                },
            ),
        ]
    } else {
        Seq::empty()
    }
}

/// The work items visiting a root queues: the root itself when the walk
/// descends into it.
pub open spec fn root_pending(f: FilterView, path: PathView, info: EntryInfoView) -> Seq<
    PendingView,
> {
    if f.descends(info.typ, info.symlink_to_dir, 0) {
        seq![PendingView { path, depth: 0, via_symlink: false }]
    } else {
        Seq::empty()
    }
}

/// The mathematical value of the engine's state.
#[verifier::ext_equal]
pub struct WalkerView {
    pub filter: FilterView,
    pub pending: Seq<PendingView>,
}

/// The traversal engine between steps: the filter and the directories
/// still to expand. The caller performs the directory reads — on the
/// calling thread for a sequential walk, or on workers for a parallel one —
/// and hands each listing (or its failure) back to the engine, which
/// decides what is emitted and where the walk descends.
pub struct Walker {
    filter: SearchFilter,
    pending: Vec<PendingDir>,
}

impl View for Walker {
    type V = WalkerView;

    closed spec fn view(&self) -> WalkerView {
        WalkerView {
            filter: self.filter@,
            pending: self.pending@.map_values(|d: PendingDir| d@),
        }
    }
}

impl Walk {
    /// Checks the configuration and opens a walk: a minimum depth above the
    /// maximum is refused before anything runs, with
    /// `InvalidConfiguration`; otherwise the engine starts with this walk's
    /// filter and an empty queue, ready for its roots.
    pub fn start(&self) -> (r: Result<Walker, ShowError>)
        ensures
            self.filter@.bounds_ok() <==> r is Ok,
            r matches Err(e) ==> e == ShowError::InvalidConfiguration,
            r matches Ok(w) ==> w@.filter == self.filter@ && w@.pending.len() == 0,
    {
        let ok = match (self.filter.min_depth, self.filter.max_depth) {
            (Some(a), Some(b)) => a <= b,
            _ => true,
        };
        if !ok {
            return Err(ShowError::InvalidConfiguration);
        }
        let w = Walker { filter: self.filter.duplicate(), pending: Vec::new() };
        proof {
            assert(w@.pending =~= Seq::<PendingView>::empty());
        }
        Ok(w)
    }
}

impl Walker {
    /// The walk's filter.
    pub fn filter(&self) -> (r: &SearchFilter)
        ensures
            r@ == self@.filter,
    {
        &self.filter
    }

    /// How many directories wait to be expanded.
    pub fn pending_count(&self) -> (r: usize)
        ensures
            r as nat == self@.pending.len(),
    {
        self.pending.len()
    }

    /// The next directory to expand, newest first; nothing when the walk
    /// has drained its queue.
    pub fn take_pending(&mut self) -> (r: Option<PendingDir>)
        ensures
            final(self)@.filter == old(self)@.filter,
            old(self)@.pending.len() == 0 ==> r is None && final(self)@ == old(self)@,
            old(self)@.pending.len() > 0 ==> (r matches Some(d) && d@ == old(self)@.pending.last()
                && final(self)@.pending == old(self)@.pending.drop_last()),
    {
        let r = self.pending.pop();
        proof {
            if old(self)@.pending.len() == 0 {
                assert(final(self)@ =~= old(self)@);
            } else {
                assert(final(self)@.pending =~= old(self)@.pending.drop_last());
            }
        }
        r
    }

    /// Visits one configured root at depth zero: emits its entry when the
    /// filter accepts it, and queues it for expansion when it is a
    /// directory (or a followed symlink to one) under the depth bound. A
    /// root that cannot be read at all never reaches here: that failure is
    /// fatal to the walk, unlike a failure below a root.
    pub fn visit_root(&mut self, path: NormalizedPath, info: &EntryInfo) -> (evs: Vec<WalkEvent>)
        ensures
            final(self)@.filter == old(self)@.filter,
            evs@.map_values(|e: WalkEvent| e@) == root_events(old(self)@.filter, path@, info@),
            final(self)@.pending == old(self)@.pending + root_pending(
                old(self)@.filter,
                path@,
                info@,
            ),
    {
        let ghost f = self@.filter;
        let mut evs: Vec<WalkEvent> = Vec::new();
        if self.filter.accepts_entry(info.name.as_str(), 0, &info.metadata) {
            evs.push(
                WalkEvent::Entry(DirEntry::new(path.duplicate(), info.typ, 0, false, info.metadata)),
            );
        }
        proof {
            assert(evs@.map_values(|e: WalkEvent| e@) =~= root_events(f, path@, info@));
        }
        let ghost pend0 = self@.pending;
        if self.filter.descends_into(info.typ, info.symlink_to_dir, 0) {
            self.pending.push(PendingDir { path, depth: 0, via_symlink: false });
        }
        proof {
            assert(final(self)@.pending =~= pend0 + root_pending(f, path@, info@));
        }
        evs
    }

    /// Expands one directory over its listing: builds an entry for every
    /// child at the next depth, emits those the filter accepts, and queues
    /// the children the walk descends into, all in listing order. The queue
    /// only grows; nothing already queued is touched.
    pub fn expand(&mut self, dir: &PendingDir, children: &Vec<EntryInfo>) -> (evs: Vec<WalkEvent>)
        requires
            dir.depth < usize::MAX,
        ensures
            final(self)@.filter == old(self)@.filter,
            evs@.map_values(|e: WalkEvent| e@) == spec_expand_events(
                old(self)@.filter,
                dir@,
                children@.map_values(|c: EntryInfo| c@),
            ),
            final(self)@.pending == old(self)@.pending + spec_expand_pending(
                old(self)@.filter,
                dir@,
                children@.map_values(|c: EntryInfo| c@),
            ),
    {
        let ghost f = self@.filter;
        let ghost cs = children@.map_values(|c: EntryInfo| c@);
        let ghost fe = |c: EntryInfoView| child_events_one(f, dir@, c);
        let ghost fp = |c: EntryInfoView| child_pending_one(f, dir@, c);
        let ghost pend0 = self@.pending;
        let mut evs: Vec<WalkEvent> = Vec::new();
        let n = children.len();
        let d = dir.depth + 1;
        let mut i: usize = 0;
        while i < n
            invariant
                n == children.len(),
                i <= n,
                d == dir.depth + 1,
                dir.depth < usize::MAX,
                f == old(self)@.filter,
                pend0 == old(self)@.pending,
                cs == children@.map_values(|c: EntryInfo| c@),
                fe == (|c: EntryInfoView| child_events_one(f, dir@, c)),
                fp == (|c: EntryInfoView| child_pending_one(f, dir@, c)),
                self@.filter == f,
                evs@.map_values(|e: WalkEvent| e@) == cs.take(i as int).flat_map(fe),
                self@.pending == pend0 + cs.take(i as int).flat_map(fp),
            decreases n - i,
        {
            let ghost evs_before = evs@.map_values(|e: WalkEvent| e@);
            let ghost pend_before = self@.pending;
            let c = &children[i];
            let mut cpath = dir.path.duplicate();
            cpath.push_segment(c.name.clone());
            if self.filter.accepts_entry(c.name.as_str(), d, &c.metadata) {
                evs.push(
                    WalkEvent::Entry(
                        DirEntry::new(cpath.duplicate(), c.typ, d, dir.via_symlink, c.metadata),
                    ),
                );
            }
            proof {
                assert(evs@.map_values(|e: WalkEvent| e@) =~= evs_before + fe(cs[i as int]));
            }
            if self.filter.descends_into(c.typ, c.symlink_to_dir, d) {
                let via = dir.via_symlink || matches!(c.typ, EntryType::Symlink);
                self.pending.push(PendingDir { path: cpath, depth: d, via_symlink: via });
            }
            proof {
                assert(self@.pending =~= pend_before + fp(cs[i as int]));
                cs.lemma_flat_map_take_append(fe, i as int);
                cs.lemma_flat_map_take_append(fp, i as int);
                assert(evs@.map_values(|e: WalkEvent| e@) =~= cs.take(i + 1).flat_map(fe));
                assert(self@.pending =~= pend0 + cs.take(i + 1).flat_map(fp));
            }
            i += 1;
        }
        proof {
            assert(cs.take(n as int) =~= cs);
        }
        evs
    }

    /// The per-entry failure record for a directory that could not be
    /// read: the caller reports it once and the walk goes on with what is
    /// queued. Only an unreadable root aborts a walk, before the engine
    /// sees it.
    pub fn unreadable(&self, dir: &PendingDir) -> (ev: WalkEvent)
        ensures
            ev@ == WalkEventView::Unreadable(dir@.path),
    {
        WalkEvent::Unreadable(dir.path.duplicate())
    }
}

} // verus!


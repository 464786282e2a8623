use vstd::prelude::*;

use crate::paths::{filename_or_default, filename_or_empty};
use crate::text::{chars_of, starts_with, starts_with_at};
use crate::version::{counterpart, lemma_version_order, parse_spec, version_less, KernelVersion};

verus! {

/// The five kinds of file or directory that belong to an installed kernel.
#[derive(Clone, Copy, Debug, PartialEq, Eq, Structural)]
pub enum InstalledItemKind {
    KernelImage,
    Config,
    SystemMap,
    SourceDir,
    ModuleDir,
}

/// One file or directory found on disk, with the version its name gives.
#[derive(Debug)]
pub struct InstalledItem {
    pub kind: InstalledItemKind,
    pub version: KernelVersion,
    pub path: String,
}

/// What an item is, for contracts: its kind, version and path.
pub struct ItemView {
    pub kind: InstalledItemKind,
    pub version: KernelVersion,
    pub path: Seq<char>,
}

impl View for InstalledItem {
    type V = ItemView;

    open spec fn view(&self) -> ItemView {
        ItemView { kind: self.kind, version: self.version, path: self.path@ }
    }
}

/// Everything found on disk for one kernel version.
#[derive(Debug)]
pub struct InstalledKernel {
    pub version: KernelVersion,
    pub modules_path: Option<String>,
    pub source_path: Option<String>,
    pub vmlinuz_path: Option<String>,
    pub config_path: Option<String>,
    pub system_map_path: Option<String>,
}

/// What is known of one kernel version, for contracts: the path of each of
/// its five artifacts, where one was found.
pub struct KernelRecord {
    pub version: KernelVersion,
    pub modules_path: Option<Seq<char>>,
    pub source_path: Option<Seq<char>>,
    pub vmlinuz_path: Option<Seq<char>>,
    pub config_path: Option<Seq<char>>,
    pub system_map_path: Option<Seq<char>>,
}

pub open spec fn opt_view(o: Option<String>) -> Option<Seq<char>> {
    match o {
        Some(s) => Some(s@),
        None => None,
    }
}

impl View for InstalledKernel {
    type V = KernelRecord;

    open spec fn view(&self) -> KernelRecord {
        KernelRecord {
            version: self.version,
            modules_path: opt_view(self.modules_path),
            source_path: opt_view(self.source_path),
            vmlinuz_path: opt_view(self.vmlinuz_path),
            config_path: opt_view(self.config_path),
            system_map_path: opt_view(self.system_map_path),
        }
    }
}

pub open spec fn empty_record(v: KernelVersion) -> KernelRecord {
    KernelRecord {
        version: v,
        modules_path: None,
        source_path: None,
        vmlinuz_path: None,
        config_path: None,
        system_map_path: None,
    }
}

/// All five paths are known.
pub open spec fn is_complete(r: KernelRecord) -> bool {
    &&& r.modules_path is Some
    &&& r.source_path is Some
    &&& r.vmlinuz_path is Some
    &&& r.config_path is Some
    &&& r.system_map_path is Some
}

/// The record with the slot of `kind` set to `p`.
pub open spec fn set_slot(r: KernelRecord, kind: InstalledItemKind, p: Seq<char>) -> KernelRecord {
    match kind {
        InstalledItemKind::KernelImage => KernelRecord { vmlinuz_path: Some(p), ..r },
        InstalledItemKind::Config => KernelRecord { config_path: Some(p), ..r },
        InstalledItemKind::SystemMap => KernelRecord { system_map_path: Some(p), ..r },
        InstalledItemKind::SourceDir => KernelRecord { source_path: Some(p), ..r },
        InstalledItemKind::ModuleDir => KernelRecord { modules_path: Some(p), ..r },
    }
}

/// The records that a sequence of items folds into, one per version; a later
/// item of the same version and kind replaces an earlier one.
pub open spec fn fold_spec(items: Seq<ItemView>) -> Map<KernelVersion, KernelRecord>
    decreases items.len(),
{
    if items.len() == 0 {
        Map::empty()
    } else {
        let m = fold_spec(items.drop_last());
        let it = items.last();
        let base = if m.contains_key(it.version) {
            m[it.version]
        } else {
            empty_record(it.version)
        };
        m.insert(it.version, set_slot(base, it.kind, it.path))
    }
}

/// The item that a path gives, if its file name reads as a version.
pub open spec fn classify_spec(kind: InstalledItemKind, p: Seq<char>) -> Option<ItemView> {
    match parse_spec(filename_or_empty(p)) {
        Some(v) => Some(ItemView { kind, version: v, path: p }),
        None => None,
    }
}

/// The items found among `paths`: those whose file name starts with `prefix`
/// and reads as a version, in the order of `paths`.
pub open spec fn scan_items(kind: InstalledItemKind, paths: Seq<Seq<char>>, prefix: Seq<char>) -> Seq<
    ItemView,
>
    decreases paths.len(),
{
    if paths.len() == 0 {
        Seq::empty()
    } else {
        let rest = scan_items(kind, paths.drop_last(), prefix);
        let p = paths.last();
        if starts_with(filename_or_empty(p), prefix) {
            match classify_spec(kind, p) {
                Some(it) => rest.push(it),
                None => rest,
            }
        } else {
            rest
        }
    }
}

pub open spec fn paths_view(v: Vec<String>) -> Seq<Seq<char>> {
    v@.map_values(|s: String| s@)
}

pub open spec fn items_view(v: Seq<InstalledItem>) -> Seq<ItemView> {
    v.map_values(|it: InstalledItem| it@)
}

/// The directory listings a search works on, as read from disk; a listing
/// that could not be read holds the error's text.
pub struct DirScans {
    /// Every entry of the install directory (boot images, configs, symbol maps).
    pub install: Result<Vec<String>, String>,
    /// Every entry of the source directory.
    pub source: Result<Vec<String>, String>,
    /// Every entry of the module directory.
    pub module: Result<Vec<String>, String>,
}

pub open spec fn scans_ok(s: DirScans) -> bool {
    &&& s.install is Ok
    &&& s.source is Ok
    &&& s.module is Ok
}

/// All the items the listings give: boot images, configs and symbol maps from
/// the install directory, sources from the source directory, then modules.
pub open spec fn found_items(s: DirScans) -> Seq<ItemView>
    recommends
        scans_ok(s),
{
    let install = paths_view(s.install->Ok_0);
    scan_items(InstalledItemKind::KernelImage, install, "vmlinuz-"@) + scan_items(
        InstalledItemKind::Config,
        install,
        "config-"@,
    ) + scan_items(InstalledItemKind::SystemMap, install, "System.map-"@) + scan_items(
        InstalledItemKind::SourceDir,
        paths_view(s.source->Ok_0),
        "linux-"@,
    ) + scan_items(InstalledItemKind::ModuleDir, paths_view(s.module->Ok_0), Seq::empty())
}

/// Versions strictly ascending.
pub open spec fn sorted_strict(ks: Seq<InstalledKernel>) -> bool {
    forall|i: int, j: int|
        0 <= i < j < ks.len() ==> version_less(#[trigger] ks[i].version, #[trigger] ks[j].version)
}

/// The sequence holds exactly the records of `m`, one per version.
pub open spec fn represents(ks: Seq<InstalledKernel>, m: Map<KernelVersion, KernelRecord>) -> bool {
    &&& forall|i: int|
        0 <= i < ks.len() ==> m.contains_key(#[trigger] ks[i].version) && m[ks[i].version]
            == ks[i]@
    &&& forall|v: KernelVersion|
        m.contains_key(v) ==> exists|i: int| 0 <= i < ks.len() && #[trigger] ks[i].version == v
}

/// The path of the slot of `kind` in a record.
pub open spec fn slot(r: KernelRecord, kind: InstalledItemKind) -> Option<Seq<char>> {
    match kind {
        InstalledItemKind::KernelImage => r.vmlinuz_path,
        InstalledItemKind::Config => r.config_path,
        InstalledItemKind::SystemMap => r.system_map_path,
        InstalledItemKind::SourceDir => r.source_path,
        InstalledItemKind::ModuleDir => r.modules_path,
    }
}

/// Something a search noticed and worked around, for the user to see.
#[derive(Debug)]
pub enum Diagnostic {
    /// A file whose name does not read as a kernel version; it is left out.
    Unparsable { kind: InstalledItemKind, path: String },
    /// A second file of one kind for one version; the later one is kept.
    Overwritten {
        version: KernelVersion,
        kind: InstalledItemKind,
        old_path: String,
        new_path: String,
    },
}

/// A diagnostic, for contracts.
pub enum NoteView {
    Unparsable { kind: InstalledItemKind, path: Seq<char> },
    Overwritten {
        version: KernelVersion,
        kind: InstalledItemKind,
        old_path: Seq<char>,
        new_path: Seq<char>,
    },
}

impl View for Diagnostic {
    type V = NoteView;

    open spec fn view(&self) -> NoteView {
        match self {
            Diagnostic::Unparsable { kind, path } => NoteView::Unparsable { kind: *kind, path: path@ },
            Diagnostic::Overwritten { version, kind, old_path, new_path } => NoteView::Overwritten {
                version: *version,
                kind: *kind,
                old_path: old_path@,
                new_path: new_path@,
            },
        }
    }
}

pub open spec fn notes_view(v: Seq<Diagnostic>) -> Seq<NoteView> {
    v.map_values(|d: Diagnostic| d@)
}

/// The paths among `paths` whose file name starts with `prefix` but does not
/// read as a version, in order.
pub open spec fn scan_notes(kind: InstalledItemKind, paths: Seq<Seq<char>>, prefix: Seq<char>) -> Seq<
    NoteView,
>
    decreases paths.len(),
{
    if paths.len() == 0 {
        Seq::empty()
    } else {
        let rest = scan_notes(kind, paths.drop_last(), prefix);
        let p = paths.last();
        if starts_with(filename_or_empty(p), prefix) && classify_spec(kind, p) is None {
            rest.push(NoteView::Unparsable { kind, path: p })
        } else {
            rest
        }
    }
}

/// The notes of the listings, in the order of `found_items`.
pub open spec fn found_notes(s: DirScans) -> Seq<NoteView>
    recommends
        scans_ok(s),
{
    let install = paths_view(s.install->Ok_0);
    scan_notes(InstalledItemKind::KernelImage, install, "vmlinuz-"@) + scan_notes(
        InstalledItemKind::Config,
        install,
        "config-"@,
    ) + scan_notes(InstalledItemKind::SystemMap, install, "System.map-"@) + scan_notes(
        InstalledItemKind::SourceDir,
        paths_view(s.source->Ok_0),
        "linux-"@,
    ) + scan_notes(InstalledItemKind::ModuleDir, paths_view(s.module->Ok_0), Seq::empty())
}

/// One note for each item that lands in a slot an earlier item filled: its
/// version and kind, the path it replaces and its own.
pub open spec fn fold_notes(items: Seq<ItemView>) -> Seq<NoteView>
    decreases items.len(),
{
    if items.len() == 0 {
        Seq::empty()
    } else {
        let m = fold_spec(items.drop_last());
        let it = items.last();
        let rest = fold_notes(items.drop_last());
        if m.contains_key(it.version) && slot(m[it.version], it.kind) is Some {
            rest.push(
                NoteView::Overwritten {
                    version: it.version,
                    kind: it.kind,
                    old_path: slot(m[it.version], it.kind)->Some_0,
                    new_path: it.path,
                },
            )
        } else {
            rest
        }
    }
}

impl InstalledItem {
    /// Classifies a path: the version is read from its file name.
    pub fn new(kind: InstalledItemKind, path: String) -> (r: Result<
        InstalledItem,
        crate::version::VersionParseError,
    >)
        ensures
            match r {
                Ok(it) => classify_spec(kind, path@) == Some(it@),
                Err(e) => classify_spec(kind, path@) is None && e.path@ == filename_or_empty(
                    path@,
                ),
            },
    {
        let filename = filename_or_default(path.as_str());
        match KernelVersion::parse(filename.as_str()) {
            Ok(version) => Ok(InstalledItem { kind, version, path }),
            Err(e) => Err(e),
        }
    }
}

/// Appends the items found among `paths` (see `scan_items`), and a note for
/// each path left out because its name does not read as a version.
fn scan_into(
    out: &mut Vec<InstalledItem>,
    notes: &mut Vec<Diagnostic>,
    kind: InstalledItemKind,
    paths: &Vec<String>,
    prefix: &str,
)
    ensures
        items_view(final(out)@) == items_view(old(out)@) + scan_items(
            kind,
            paths_view(*paths),
            prefix@,
        ),
        notes_view(final(notes)@) == notes_view(old(notes)@) + scan_notes(
            kind,
            paths_view(*paths),
            prefix@,
        ),
{
    let ghost start = items_view(out@);
    let ghost nstart = notes_view(notes@);
    let ghost ps = paths_view(*paths);
    let mut i: usize = 0;
    while i < paths.len()
        invariant
            i <= paths@.len(),
            ps == paths_view(*paths),
            items_view(out@) == start + scan_items(kind, ps.take(i as int), prefix@),
            notes_view(notes@) == nstart + scan_notes(kind, ps.take(i as int), prefix@),
        decreases paths@.len() - i,
    {
        let p = &paths[i];
        let ghost before = out@;
        let ghost nbefore = notes@;
        assert(ps.take(i + 1).drop_last() =~= ps.take(i as int));
        assert(ps.take(i + 1).last() == p@);
        let name = filename_or_default(p.as_str());
        let cs = chars_of(name.as_str());
        if starts_with_at(cs.as_slice(), 0, cs.len(), prefix) {
            assert(cs@.subrange(0, cs@.len() as int) =~= cs@);
            match InstalledItem::new(kind, p.clone()) {
                Ok(it) => {
                    out.push(it);
                    assert(items_view(out@) =~= items_view(before).push(it@));
                },
                Err(_) => {
                    let d = Diagnostic::Unparsable { kind, path: p.clone() };
                    notes.push(d);
                    assert(notes_view(notes@) =~= notes_view(nbefore).push(d@));
                },
            }
        } else {
            assert(cs@.subrange(0, cs@.len() as int) =~= cs@);
        }
        i += 1;
        assert(items_view(out@) =~= start + scan_items(kind, ps.take(i as int), prefix@));
        assert(notes_view(notes@) =~= nstart + scan_notes(kind, ps.take(i as int), prefix@));
    }
    assert(ps.take(paths@.len() as int) =~= ps);
}

impl InstalledKernel {
    /// A record for `version` with no path known yet.
    pub fn new(version: KernelVersion) -> (r: InstalledKernel)
        ensures
            r@ == empty_record(version),
    {
        InstalledKernel {
            version,
            modules_path: None,
            source_path: None,
            vmlinuz_path: None,
            config_path: None,
            system_map_path: None,
        }
    }

    /// True if any of the five paths is unknown.
    pub fn files_missing(&self) -> (r: bool)
        ensures
            r == !is_complete(self@),
    {
        self.modules_path.is_none() || self.vmlinuz_path.is_none() || self.source_path.is_none()
            || self.config_path.is_none() || self.system_map_path.is_none()
    }

    /// The path in the slot of `kind`, if any.
    pub fn slot_path(&self, kind: InstalledItemKind) -> (r: Option<String>)
        ensures
            opt_view(r) == slot(self@, kind),
    {
        match kind {
            InstalledItemKind::KernelImage => clone_path(&self.vmlinuz_path),
            InstalledItemKind::Config => clone_path(&self.config_path),
            InstalledItemKind::SystemMap => clone_path(&self.system_map_path),
            InstalledItemKind::SourceDir => clone_path(&self.source_path),
            InstalledItemKind::ModuleDir => clone_path(&self.modules_path),
        }
    }

    /// The record with the slot of `kind` set to `path`.
    pub fn with_item(self, kind: InstalledItemKind, path: String) -> (r: InstalledKernel)
        ensures
            r@ == set_slot(self@, kind, path@),
    {
        let mut k = self;
        match kind {
            InstalledItemKind::KernelImage => k.vmlinuz_path = Some(path),
            InstalledItemKind::Config => k.config_path = Some(path),
            InstalledItemKind::SystemMap => k.system_map_path = Some(path),
            InstalledItemKind::SourceDir => k.source_path = Some(path),
            InstalledItemKind::ModuleDir => k.modules_path = Some(path),
        }
        k
    }
}

proof fn lemma_insert_sorted(s: Seq<InstalledKernel>, k: int, x: InstalledKernel)
    requires
        sorted_strict(s),
        0 <= k <= s.len(),
        forall|j: int| 0 <= j < k ==> version_less(#[trigger] s[j].version, x.version),
        k < s.len() ==> version_less(x.version, s[k].version),
    ensures
        sorted_strict(s.insert(k, x)),
{
    let t = s.insert(k, x);
    assert forall|i: int, j: int| 0 <= i < j < t.len() implies version_less(
        #[trigger] t[i].version,
        #[trigger] t[j].version,
    ) by {
        if j < k {
            assert(t[i] == s[i] && t[j] == s[j]);
        } else if j == k {
            assert(t[i] == s[i]);
        } else if i < k {
            assert(t[i] == s[i] && t[j] == s[j - 1]);
            lemma_version_order(s[i].version, x.version, s[k].version);
            if j - 1 > k {
                lemma_version_order(s[i].version, s[k].version, s[j - 1].version);
            }
        } else if i == k {
            assert(t[j] == s[j - 1]);
            if j - 1 > k {
                lemma_version_order(x.version, s[k].version, s[j - 1].version);
            }
        } else {
            assert(t[i] == s[i - 1] && t[j] == s[j - 1]);
        }
    }
}

/// In a strictly sorted sequence a version stands at one index at most.
proof fn lemma_sorted_distinct(s: Seq<InstalledKernel>, i: int, j: int)
    requires
        sorted_strict(s),
        0 <= i < s.len(),
        0 <= j < s.len(),
        i != j,
    ensures
        s[i].version != s[j].version,
{
    lemma_version_order(s[i].version, s[j].version, s[j].version);
    lemma_version_order(s[j].version, s[i].version, s[i].version);
}

/// A `.old` install whose current counterpart is missing, or lacks the
/// module or source directory that the `.old` install shares.
pub open spec fn link_failure(m: Map<KernelVersion, KernelRecord>, v: KernelVersion) -> bool {
    &&& !v.current
    &&& {
        ||| !m.contains_key(counterpart(v))
        ||| m[counterpart(v)].modules_path is None
        ||| m[counterpart(v)].source_path is None
    }
}

pub open spec fn links_ok(m: Map<KernelVersion, KernelRecord>) -> bool {
    forall|v: KernelVersion| m.contains_key(v) ==> !link_failure(m, v)
}

/// A `.old` install takes the module and source directories of its current
/// counterpart; a current install keeps its own.
pub open spec fn linked_record(m: Map<KernelVersion, KernelRecord>, v: KernelVersion) -> KernelRecord {
    if v.current {
        m[v]
    } else {
        KernelRecord {
            modules_path: m[counterpart(v)].modules_path,
            source_path: m[counterpart(v)].source_path,
            ..m[v]
        }
    }
}

pub open spec fn linked(m: Map<KernelVersion, KernelRecord>) -> Map<KernelVersion, KernelRecord> {
    Map::new(|v: KernelVersion| m.contains_key(v), |v: KernelVersion| linked_record(m, v))
}

/// Why a search failed.
#[derive(Debug)]
pub enum SearchError {
    /// A directory could not be listed.
    ScanFailed { dir: String, message: String },
    /// A `.old` install has no current counterpart.
    MissingCounterpart { old: KernelVersion, current: KernelVersion },
    /// The current counterpart of a `.old` install has no module directory.
    MissingModules { old: KernelVersion, current: KernelVersion },
    /// The current counterpart of a `.old` install has no source directory.
    MissingSources { old: KernelVersion, current: KernelVersion },
}

/// No `.old` install older than the one `e` names fails to link.
pub open spec fn no_earlier_link_failure(e: SearchError, m: Map<KernelVersion, KernelRecord>) -> bool {
    match e {
        SearchError::MissingCounterpart { old, .. } => forall|w: KernelVersion|
            m.contains_key(w) && #[trigger] version_less(w, old) ==> !link_failure(m, w),
        SearchError::MissingModules { old, .. } => forall|w: KernelVersion|
            m.contains_key(w) && #[trigger] version_less(w, old) ==> !link_failure(m, w),
        SearchError::MissingSources { old, .. } => forall|w: KernelVersion|
            m.contains_key(w) && #[trigger] version_less(w, old) ==> !link_failure(m, w),
        SearchError::ScanFailed { .. } => false,
    }
}

/// In a sorted sequence of records, the versions older than the one at `i`
/// stand before it.
proof fn lemma_earlier_links_ok(orig: Seq<InstalledKernel>, m: Map<KernelVersion, KernelRecord>, i: int)
    requires
        represents(orig, m),
        sorted_strict(orig),
        0 <= i < orig.len(),
        forall|k: int| 0 <= k < i ==> !link_failure(m, #[trigger] orig[k].version),
    ensures
        forall|w: KernelVersion|
            m.contains_key(w) && #[trigger] version_less(w, orig[i].version) ==> !link_failure(m, w),
{
    let v = orig[i].version;
    assert forall|w: KernelVersion| m.contains_key(w) && #[trigger] version_less(w, v) implies !link_failure(
        m,
        w,
    ) by {
        let k = choose|k: int| 0 <= k < orig.len() && #[trigger] orig[k].version == w;
        lemma_version_order(w, v, w);
        if k > i {
            assert(version_less(orig[i].version, orig[k].version));
        }
    }
}

/// `e` names a `.old` install of `m` and the way its linking fails.
pub open spec fn describes_link_failure(e: SearchError, m: Map<KernelVersion, KernelRecord>) -> bool {
    match e {
        SearchError::MissingCounterpart { old, current } => {
            &&& m.contains_key(old)
            &&& !old.current
            &&& current == counterpart(old)
            &&& !m.contains_key(current)
        },
        SearchError::MissingModules { old, current } => {
            &&& m.contains_key(old)
            &&& !old.current
            &&& current == counterpart(old)
            &&& m.contains_key(current)
            &&& m[current].modules_path is None
        },
        SearchError::MissingSources { old, current } => {
            &&& m.contains_key(old)
            &&& !old.current
            &&& current == counterpart(old)
            &&& m.contains_key(current)
            &&& m[current].modules_path is Some
            &&& m[current].source_path is None
        },
        SearchError::ScanFailed { .. } => false,
    }
}

fn clone_path(p: &Option<String>) -> (r: Option<String>)
    ensures
        opt_view(r) == opt_view(*p),
{
    match p {
        Some(s) => Some(s.clone()),
        None => None,
    }
}

/// The index of the record for `v`, or the length where there is none.
fn position_of(ks: &Vec<InstalledKernel>, v: &KernelVersion) -> (j: usize)
    ensures
        j <= ks@.len(),
        j < ks@.len() ==> ks@[j as int].version == *v,
        forall|k: int| 0 <= k < j ==> (#[trigger] ks@[k]).version != *v,
{
    let mut j: usize = 0;
    while j < ks.len() && ks[j].version != *v
        invariant
            j <= ks@.len(),
            forall|k: int| 0 <= k < j ==> (#[trigger] ks@[k]).version != *v,
        decreases ks@.len() - j,
    {
        j += 1;
    }
    j
}

/// Searches three directories for installed kernels.
pub struct KernelSearch {
    pub install_search_path: String,
    pub source_search_path: String,
    pub module_search_path: String,
}

/// The first listing that could not be read, in the order install, source,
/// module: its directory and the error's text.
pub open spec fn scan_failure(k: KernelSearch, s: DirScans) -> Option<(Seq<char>, Seq<char>)> {
    if s.install is Err {
        Some((k.install_search_path@, s.install->Err_0@))
    } else if s.source is Err {
        Some((k.source_search_path@, s.source->Err_0@))
    } else if s.module is Err {
        Some((k.module_search_path@, s.module->Err_0@))
    } else {
        None
    }
}

impl KernelSearch {
    pub fn new(install_search_path: &str, source_search_path: &str, module_search_path: &str) -> (r:
        KernelSearch)
        ensures
            r.install_search_path@ == install_search_path@,
            r.source_search_path@ == source_search_path@,
            r.module_search_path@ == module_search_path@,
    {
        KernelSearch {
            install_search_path: String::from_str(install_search_path),
            source_search_path: String::from_str(source_search_path),
            module_search_path: String::from_str(module_search_path),
        }
    }

    /// Folds the items into one record per version, sorted oldest first (see
    /// `fold_spec`), with a note for each slot filled twice (see `fold_notes`).
    pub fn fold_items_to_kernels(items: &Vec<InstalledItem>, notes: &mut Vec<Diagnostic>) -> (r: Vec<
        InstalledKernel,
    >)
        ensures
            sorted_strict(r@),
            represents(r@, fold_spec(items_view(items@))),
            notes_view(final(notes)@) == notes_view(old(notes)@) + fold_notes(items_view(items@)),
    {
        let ghost iv = items_view(items@);
        let ghost nstart = notes_view(notes@);
        let mut out: Vec<InstalledKernel> = Vec::new();
        let mut i: usize = 0;
        while i < items.len()
            invariant
                i <= items@.len(),
                iv == items_view(items@),
                sorted_strict(out@),
                represents(out@, fold_spec(iv.take(i as int))),
                notes_view(notes@) == nstart + fold_notes(iv.take(i as int)),
            decreases items@.len() - i,
        {
            let it = &items[i];
            let ghost m = fold_spec(iv.take(i as int));
            assert(iv.take(i + 1).drop_last() =~= iv.take(i as int));
            assert(iv.take(i + 1).last() == it@);
            let v = it.version;
            let mut k: usize = 0;
            while k < out.len() && out[k].version.less_than(&v)
                invariant
                    k <= out@.len(),
                    forall|j: int| 0 <= j < k ==> version_less(#[trigger] out@[j].version, v),
                decreases out@.len() - k,
            {
                k += 1;
            }
            let ghost before = out@;
            let ghost nbefore = notes@;
            if k < out.len() && out[k].version == v {
                let rec = out.remove(k);
                assert(rec@ == m[v]);
                match rec.slot_path(it.kind) {
                    Some(old_path) => {
                        let d = Diagnostic::Overwritten {
                            version: v,
                            kind: it.kind,
                            old_path,
                            new_path: it.path.clone(),
                        };
                        notes.push(d);
                        assert(notes_view(notes@) =~= notes_view(nbefore).push(d@));
                    },
                    None => {},
                }
                let rec = rec.with_item(it.kind, it.path.clone());
                out.insert(k, rec);
                proof {
                    assert(out@ =~= before.update(k as int, rec));
                    let m2 = fold_spec(iv.take(i + 1));
                    assert(m2 == m.insert(v, set_slot(m[v], it.kind, it.path@)));
                    assert forall|j: int| 0 <= j < out@.len() implies m2.contains_key(
                        #[trigger] out@[j].version,
                    ) && m2[out@[j].version] == out@[j]@ by {
                        if j != k {
                            lemma_sorted_distinct(before, j, k as int);
                        }
                    }
                    assert forall|w: KernelVersion| m2.contains_key(w) implies exists|j: int|
                        0 <= j < out@.len() && #[trigger] out@[j].version == w by {
                        if w == v {
                            assert(out@[k as int].version == w);
                        } else {
                            let j = choose|j: int| 0 <= j < before.len() && #[trigger] before[j].version == w;
                            assert(out@[j].version == w);
                        }
                    }
                }
            } else {
                proof {
                    if k < before.len() {
                        lemma_version_order(before[k as int].version, v, v);
                    }
                    assert(!m.contains_key(v)) by {
                        if m.contains_key(v) {
                            let j = choose|j: int| 0 <= j < before.len() && #[trigger] before[j].version == v;
                            if j < k {
                                lemma_version_order(v, v, v);
                            } else if j > k {
                                lemma_version_order(v, before[k as int].version, before[j].version);
                            }
                        }
                    }
                }
                let rec = InstalledKernel::new(v).with_item(it.kind, it.path.clone());
                out.insert(k, rec);
                proof {
                    lemma_insert_sorted(before, k as int, rec);
                    let m2 = fold_spec(iv.take(i + 1));
                    assert(m2 == m.insert(v, set_slot(empty_record(v), it.kind, it.path@)));
                    assert forall|j: int| 0 <= j < out@.len() implies m2.contains_key(
                        #[trigger] out@[j].version,
                    ) && m2[out@[j].version] == out@[j]@ by {
                        if j < k {
                            assert(out@[j] == before[j]);
                        } else if j > k {
                            assert(out@[j] == before[j - 1]);
                        }
                    }
                    assert forall|w: KernelVersion| m2.contains_key(w) implies exists|j: int|
                        0 <= j < out@.len() && #[trigger] out@[j].version == w by {
                        if w == v {
                            assert(out@[k as int].version == w);
                        } else {
                            let j = choose|j: int| 0 <= j < before.len() && #[trigger] before[j].version == w;
                            if j < k {
                                assert(out@[j].version == w);
                            } else {
                                assert(out@[j + 1].version == w);
                            }
                        }
                    }
                }
            }
            i += 1;
        }
        assert(iv.take(items@.len() as int) =~= iv);
        out
    }

    /// Gives each `.old` install the module and source directories of its current
    /// counterpart, or fails where one cannot have them.
    fn find_src_and_mod_for_old_install(
        ks: &mut Vec<InstalledKernel>,
        Ghost(m): Ghost<Map<KernelVersion, KernelRecord>>,
    ) -> (r: Result<(), SearchError>)
        requires
            represents(old(ks)@, m),
            sorted_strict(old(ks)@),
        ensures
            final(ks)@.len() == old(ks)@.len(),
            forall|i: int|
                0 <= i < final(ks)@.len() ==> (#[trigger] final(ks)@[i]).version == old(ks)@[i].version,
            match r {
                Ok(()) => links_ok(m) && represents(final(ks)@, linked(m)),
                Err(e) => {
                    &&& !links_ok(m)
                    &&& describes_link_failure(e, m)
                    &&& no_earlier_link_failure(e, m)
                },
            },
    {
        let ghost orig = ks@;
        let mut i: usize = 0;
        while i < ks.len()
            invariant
                i <= ks@.len(),
                ks@.len() == orig.len(),
                orig == old(ks)@,
                represents(orig, m),
                sorted_strict(orig),
                forall|k: int| 0 <= k < ks@.len() ==> (#[trigger] ks@[k]).version == orig[k].version,
                forall|k: int| 0 <= k < i ==> #[trigger] ks@[k]@ == linked_record(m, ks@[k].version),
                forall|k: int| i <= k < ks@.len() ==> #[trigger] ks@[k]@ == m[ks@[k].version],
                forall|k: int| 0 <= k < ks@.len() && ks@[k].version.current ==> #[trigger] ks@[k]@ == m[ks@[k].version],
                forall|k: int| 0 <= k < i ==> !link_failure(m, #[trigger] orig[k].version),
            decreases ks@.len() - i,
        {
            let v = ks[i].version;
            assert(m.contains_key(orig[i as int].version));
            proof {
                lemma_earlier_links_ok(orig, m, i as int);
            }
            if !v.current {
                let c = v.current_counterpart();
                let j = position_of(&*ks, &c);
                if j == ks.len() {
                    proof {
                        if m.contains_key(c) {
                            let k = choose|k: int| 0 <= k < orig.len() && #[trigger] orig[k].version == c;
                            assert(ks@[k].version == c);
                        }
                    }
                    assert(link_failure(m, v));
                    return Err(SearchError::MissingCounterpart { old: v, current: c });
                }
                assert(ks@[j as int]@ == m[c]);
                let mp = clone_path(&ks[j].modules_path);
                let sp = clone_path(&ks[j].source_path);
                if mp.is_none() {
                    assert(link_failure(m, v));
                    return Err(SearchError::MissingModules { old: v, current: c });
                }
                if sp.is_none() {
                    assert(link_failure(m, v));
                    return Err(SearchError::MissingSources { old: v, current: c });
                }
                let ghost before = ks@;
                let mut rec = ks.remove(i);
                rec.modules_path = mp;
                rec.source_path = sp;
                ks.insert(i, rec);
                assert(ks@ =~= before.update(i as int, rec));
                assert(ks@[i as int]@ == linked_record(m, v));
            } else {
                assert(ks@[i as int]@ == linked_record(m, v));
            }
            i += 1;
        }
        proof {
            assert forall|v: KernelVersion| m.contains_key(v) implies !link_failure(m, v) by {
                let k = choose|k: int| 0 <= k < orig.len() && #[trigger] orig[k].version == v;
            }
            assert forall|k: int| 0 <= k < ks@.len() implies linked(m).contains_key(
                #[trigger] ks@[k].version,
            ) && linked(m)[ks@[k].version] == ks@[k]@ by {
                assert(m.contains_key(orig[k].version));
            }
            assert forall|v: KernelVersion| linked(m).contains_key(v) implies exists|k: int|
                0 <= k < ks@.len() && #[trigger] ks@[k].version == v by {
                let k = choose|k: int| 0 <= k < orig.len() && #[trigger] orig[k].version == v;
                assert(ks@[k].version == v);
            }
        }
        Ok(())
    }

    /// Every item the listings give (see `found_items`), or the first listing
    /// that could not be read.
    pub fn find_all_installed_items(&self, scans: &DirScans, notes: &mut Vec<Diagnostic>) -> (r:
        Result<Vec<InstalledItem>, SearchError>)
        ensures
            match r {
                Ok(items) => scans_ok(*scans) && items_view(items@) == found_items(*scans)
                    && notes_view(final(notes)@) == notes_view(old(notes)@) + found_notes(*scans),
                Err(SearchError::ScanFailed { dir, message }) => scan_failure(*self, *scans)
                    == Some((dir@, message@)) && final(notes)@ == old(notes)@,
                Err(_) => false,
            },
    {
        let install = match &scans.install {
            Ok(v) => v,
            Err(e) => {
                return Err(
                    SearchError::ScanFailed {
                        dir: self.install_search_path.clone(),
                        message: e.clone(),
                    },
                );
            },
        };
        let source = match &scans.source {
            Ok(v) => v,
            Err(e) => {
                return Err(
                    SearchError::ScanFailed {
                        dir: self.source_search_path.clone(),
                        message: e.clone(),
                    },
                );
            },
        };
        let module = match &scans.module {
            Ok(v) => v,
            Err(e) => {
                return Err(
                    SearchError::ScanFailed {
                        dir: self.module_search_path.clone(),
                        message: e.clone(),
                    },
                );
            },
        };
        let ghost nstart = notes_view(notes@);
        let mut items: Vec<InstalledItem> = Vec::new();
        scan_into(&mut items, notes, InstalledItemKind::KernelImage, install, "vmlinuz-");
        scan_into(&mut items, notes, InstalledItemKind::Config, install, "config-");
        scan_into(&mut items, notes, InstalledItemKind::SystemMap, install, "System.map-");
        scan_into(&mut items, notes, InstalledItemKind::SourceDir, source, "linux-");
        scan_into(&mut items, notes, InstalledItemKind::ModuleDir, module, "");
        proof {
            reveal_strlit("");
            assert(items_view(Seq::<InstalledItem>::empty()) =~= Seq::<ItemView>::empty());
            assert(Seq::<ItemView>::empty() + scan_items(
                InstalledItemKind::KernelImage,
                paths_view(*install),
                "vmlinuz-"@,
            ) =~= scan_items(InstalledItemKind::KernelImage, paths_view(*install), "vmlinuz-"@));
            assert(""@ =~= Seq::<char>::empty());
            assert(notes_view(notes@) =~= nstart + found_notes(*scans));
        }
        Ok(items)
    }

    /// Finds every installed kernel: one record per version, sorted oldest
    /// first, with each `.old` install given the module and source directories
    /// of its current counterpart. Files left out and slots filled twice are
    /// appended to `notes` (see `found_notes` and `fold_notes`); where a
    /// `.old` install cannot be linked, the error names the oldest such one.
    pub fn execute(&self, scans: &DirScans, notes: &mut Vec<Diagnostic>) -> (r: Result<
        Vec<InstalledKernel>,
        SearchError,
    >)
        ensures
            scans_ok(*scans) ==> notes_view(final(notes)@) == notes_view(old(notes)@) + found_notes(
                *scans,
            ) + fold_notes(found_items(*scans)),
            !scans_ok(*scans) ==> final(notes)@ == old(notes)@,
            match r {
                Ok(ks) => {
                    &&& scans_ok(*scans)
                    &&& links_ok(fold_spec(found_items(*scans)))
                    &&& sorted_strict(ks@)
                    &&& represents(ks@, linked(fold_spec(found_items(*scans))))
                },
                Err(SearchError::ScanFailed { dir, message }) => scan_failure(*self, *scans)
                    == Some((dir@, message@)),
                Err(e) => {
                    &&& scans_ok(*scans)
                    &&& !links_ok(fold_spec(found_items(*scans)))
                    &&& describes_link_failure(e, fold_spec(found_items(*scans)))
                    &&& no_earlier_link_failure(e, fold_spec(found_items(*scans)))
                },
            },
    {
        let items = match self.find_all_installed_items(scans, notes) {
            Ok(items) => items,
            Err(e) => {
                return Err(e);
            },
        };
        let mut ks = KernelSearch::fold_items_to_kernels(&items, notes);
        let ghost sorted = ks@;
        let ghost folded = fold_spec(items_view(items@));
        assert(folded == fold_spec(found_items(*scans)));
        match KernelSearch::find_src_and_mod_for_old_install(&mut ks, Ghost(folded)) {
            Ok(()) => {},
            Err(e) => {
                assert(no_earlier_link_failure(e, folded));
                return Err(e);
            },
        }
        assert(sorted_strict(ks@)) by {
            assert forall|i: int, j: int| 0 <= i < j < ks@.len() implies version_less(
                #[trigger] ks@[i].version,
                #[trigger] ks@[j].version,
            ) by {
                assert(ks@[i].version == sorted[i].version);
                assert(ks@[j].version == sorted[j].version);
            }
        }
        Ok(ks)
    }
}

/// Every `.old` install shares the module and source directories of its
/// current counterpart, which is present too: this holds of every result that
/// `execute` returns.
pub proof fn lemma_old_installs_share_paths(ks: Seq<InstalledKernel>, m: Map<KernelVersion, KernelRecord>)
    requires
        links_ok(m),
        represents(ks, linked(m)),
    ensures
        forall|i: int|
            0 <= i < ks.len() && !(#[trigger] ks[i]).version.current ==> exists|j: int|
                0 <= j < ks.len() && ks[j].version == counterpart(ks[i].version) && ks[j]@.modules_path
                    == ks[i]@.modules_path && ks[j]@.source_path == ks[i]@.source_path,
{
    assert forall|i: int| 0 <= i < ks.len() && !(#[trigger] ks[i]).version.current implies exists|
        j: int,
    |
        0 <= j < ks.len() && ks[j].version == counterpart(ks[i].version) && ks[j]@.modules_path
            == ks[i]@.modules_path && ks[j]@.source_path == ks[i]@.source_path by {
        let v = ks[i].version;
        let c = counterpart(v);
        assert(linked(m).contains_key(v));
        assert(!link_failure(m, v));
        assert(linked(m).contains_key(c));
        let j = choose|j: int| 0 <= j < ks.len() && #[trigger] ks[j].version == c;
        assert(ks[j]@ == linked(m)[c]);
    }
}

/// A `.old` install whose current counterpart was not found at all makes the
/// linking fail, so `execute` returns an error that names a `.old` install and
/// its counterpart.
pub proof fn lemma_missing_counterpart_fails(m: Map<KernelVersion, KernelRecord>, v: KernelVersion)
    requires
        m.contains_key(v),
        !v.current,
        !m.contains_key(counterpart(v)),
    ensures
        !links_ok(m),
{
    assert(link_failure(m, v));
}

/// One deletion of a removal plan: a file, or a directory with all it holds.
#[derive(Debug)]
pub struct Removal {
    pub path: String,
    pub recursive: bool,
}

/// One deletion, for contracts.
pub struct RemovalView {
    pub path: Seq<char>,
    pub recursive: bool,
}

impl View for Removal {
    type V = RemovalView;

    open spec fn view(&self) -> RemovalView {
        RemovalView { path: self.path@, recursive: self.recursive }
    }
}

/// What removing a complete record deletes, in order: for a current install
/// the module and source trees, then (for every install) the config, the
/// boot image and the symbol map. A `.old` install shares its trees with its
/// current counterpart, so they are left alone.
pub open spec fn removal_spec(r: KernelRecord) -> Seq<RemovalView>
    recommends
        is_complete(r),
{
    let files = seq![
        RemovalView { path: r.config_path->Some_0, recursive: false },
        RemovalView { path: r.vmlinuz_path->Some_0, recursive: false },
        RemovalView { path: r.system_map_path->Some_0, recursive: false },
    ];
    if r.version.current {
        seq![
            RemovalView { path: r.modules_path->Some_0, recursive: true },
            RemovalView { path: r.source_path->Some_0, recursive: true },
        ] + files
    } else {
        files
    }
}

/// A record that cannot be removed because some of its paths are unknown.
#[derive(Debug)]
pub struct IncompleteRecord {
    pub version: KernelVersion,
}

fn removal_of(p: &Option<String>, recursive: bool) -> (r: Removal)
    requires
        p is Some,
    ensures
        r@ == (RemovalView { path: p->Some_0@, recursive }),
{
    match p {
        Some(s) => Removal { path: s.clone(), recursive },
        None => Removal { path: String::new(), recursive },
    }
}

impl InstalledKernel {
    pub fn with_modules_path(self, dir: String) -> (r: InstalledKernel)
        ensures
            r@ == set_slot(self@, InstalledItemKind::ModuleDir, dir@),
    {
        self.with_item(InstalledItemKind::ModuleDir, dir)
    }

    pub fn with_vmlinuz_path(self, dir: String) -> (r: InstalledKernel)
        ensures
            r@ == set_slot(self@, InstalledItemKind::KernelImage, dir@),
    {
        self.with_item(InstalledItemKind::KernelImage, dir)
    }

    pub fn with_source_path(self, dir: String) -> (r: InstalledKernel)
        ensures
            r@ == set_slot(self@, InstalledItemKind::SourceDir, dir@),
    {
        self.with_item(InstalledItemKind::SourceDir, dir)
    }

    pub fn with_config_path(self, dir: String) -> (r: InstalledKernel)
        ensures
            r@ == set_slot(self@, InstalledItemKind::Config, dir@),
    {
        self.with_item(InstalledItemKind::Config, dir)
    }

    pub fn with_system_map_path(self, dir: String) -> (r: InstalledKernel)
        ensures
            r@ == set_slot(self@, InstalledItemKind::SystemMap, dir@),
    {
        self.with_item(InstalledItemKind::SystemMap, dir)
    }

    /// The deletions that uninstalling this kernel makes (see `removal_spec`);
    /// a record with a path missing cannot be uninstalled. Nothing is deleted
    /// here: the caller carries the plan out, or only reports it.
    pub fn removal_plan(&self) -> (r: Result<Vec<Removal>, IncompleteRecord>)
        ensures
            match r {
                Ok(plan) => is_complete(self@) && plan@.map_values(|x: Removal| x@)
                    == removal_spec(self@),
                Err(e) => !is_complete(self@) && e.version == self.version,
            },
    {
        if self.files_missing() {
            return Err(IncompleteRecord { version: self.version });
        }
        let mut plan: Vec<Removal> = Vec::new();
        if self.version.current {
            plan.push(removal_of(&self.modules_path, true));
            plan.push(removal_of(&self.source_path, true));
        }
        plan.push(removal_of(&self.config_path, false));
        plan.push(removal_of(&self.vmlinuz_path, false));
        plan.push(removal_of(&self.system_map_path, false));
        assert(plan@.map_values(|x: Removal| x@) =~= removal_spec(self@));
        Ok(plan)
    }
}

/// The index of the newest record (the last, as records come oldest first)
/// whose slot of `kind` holds a path, if any does.
pub fn newest_with(ks: &Vec<InstalledKernel>, kind: InstalledItemKind) -> (r: Option<usize>)
    ensures
        match r {
            Some(i) => {
                &&& i < ks@.len()
                &&& slot(ks@[i as int]@, kind) is Some
                &&& forall|j: int| i < j < ks@.len() ==> slot((#[trigger] ks@[j])@, kind) is None
            },
            None => forall|j: int| 0 <= j < ks@.len() ==> slot((#[trigger] ks@[j])@, kind) is None,
        },
{
    let mut i: usize = ks.len();
    while i > 0
        invariant
            i <= ks@.len(),
            forall|j: int| i <= j < ks@.len() ==> slot((#[trigger] ks@[j])@, kind) is None,
        decreases i,
    {
        if ks[i - 1].slot_path(kind).is_some() {
            return Some(i - 1);
        }
        i -= 1;
    }
    None
}

} // verus!

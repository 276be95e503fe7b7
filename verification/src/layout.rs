//! The archive layout: an ordered, write-once sequence of archive entries.
//! The asset tree is bundled under the `publish/` prefix in a sorted,
//! enumeration-order-independent order, and the full package plan appends
//! the executable and the launcher's marker entry.

use crate::paths::{
    lemma_lex_le_antisymmetric, lemma_lex_le_total, lemma_lex_le_transitive, lemma_prefix_lex_le,
    lex_le, marker_entry_path, publish_dir_name, publish_path, rel_of, relativize, str_lex_le,
};
use crate::warning::Warning;
use vstd::prelude::*;
use vstd::relations::{sorted_by, total_ordering};
use vstd::seq_lib::lemma_sorted_unique;
use vstd::string::*;

verus! {

broadcast use {vstd::seq_lib::group_to_multiset_ensures, vstd::multiset::group_multiset_axioms};

/// One entry of the on-disk asset listing: a path relative to the crate
/// root, `/`-separated, and whether it names a directory.
#[derive(Clone, Debug)]
pub struct AssetEntry {
    pub path: String,
    pub is_dir: bool,
}

pub ghost struct AssetEntryV {
    pub path: Seq<char>,
    pub is_dir: bool,
}

impl DeepView for AssetEntry {
    type V = AssetEntryV;

    open spec fn deep_view(&self) -> AssetEntryV {
        AssetEntryV { path: self.path@, is_dir: self.is_dir }
    }
}

/// Where an archive entry's content comes from: a file on disk, bytes the
/// pipeline generated itself (the zero-length launcher marker is generated
/// content with no bytes), or nothing for a directory node.
pub enum FileSource {
    DiskFile { path: String },
    GeneratedImage { bytes: Vec<u8> },
    Directory,
}

pub ghost enum FileSourceV {
    DiskFile { path: Seq<char> },
    GeneratedImage { bytes: Seq<u8> },
    Directory,
}

impl DeepView for FileSource {
    type V = FileSourceV;

    open spec fn deep_view(&self) -> FileSourceV {
        match self {
            FileSource::DiskFile { path } => FileSourceV::DiskFile { path: path@ },
            FileSource::GeneratedImage { bytes } => FileSourceV::GeneratedImage { bytes: bytes@ },
            FileSource::Directory => FileSourceV::Directory,
        }
    }
}

/// One planned archive entry.
pub struct LayoutEntry {
    pub archive_path: String,
    pub source: FileSource,
}

pub ghost struct LayoutEntryV {
    pub archive_path: Seq<char>,
    pub source: FileSourceV,
}

impl DeepView for LayoutEntry {
    type V = LayoutEntryV;

    open spec fn deep_view(&self) -> LayoutEntryV {
        LayoutEntryV { archive_path: self.archive_path@, source: self.source.deep_view() }
    }
}

/// The name under which zip records a directory: the given name with a
/// trailing slash appended when it does not already end in one.
pub open spec fn dir_entry_name(s: Seq<char>) -> Seq<char> {
    if s.len() > 0 && (s.last() == '/' || s.last() == '\\') {
        s
    } else {
        s + "/"@
    }
}

/// The name an entry is recorded under in the archive: a directory gains
/// a trailing slash, everything else keeps its planned path.
pub open spec fn recorded_name(e: LayoutEntryV) -> Seq<char> {
    match e.source {
        FileSourceV::Directory => dir_entry_name(e.archive_path),
        _ => e.archive_path,
    }
}

/// Two entries collide when they claim one planned path or one recorded
/// archive name — a directory planned at `p` is recorded as `p/`, so a
/// file planned at `p/` would land on the same archive name.
pub open spec fn entries_clash(a: LayoutEntryV, b: LayoutEntryV) -> bool {
    a.archive_path == b.archive_path || recorded_name(a) == recorded_name(b)
}

/// No two entries may collide: the layout is write-once, nothing is ever
/// revisited or overwritten, neither as planned nor as recorded.
pub open spec fn paths_distinct(s: Seq<LayoutEntryV>) -> bool {
    forall|i: int, j: int| 0 <= i < j < s.len() ==> !#[trigger] entries_clash(s[i], s[j])
}

/// Adding an entry whose path is already taken is refused.
#[derive(Debug)]
pub enum LayoutError {
    DuplicateArchivePath { path: String },
}

/// Decides `recorded_name` on an entry.
fn recorded_name_exec(e: &LayoutEntry) -> (r: String)
    ensures
        r@ == recorded_name(e.deep_view()),
{
    match &e.source {
        FileSource::Directory => {
            let n = e.archive_path.unicode_len();
            if n > 0 {
                let last = e.archive_path.as_str().get_char(n - 1);
                if last == '/' || last == '\\' {
                    return e.archive_path.clone();
                }
            }
            let mut s = e.archive_path.clone();
            s.append("/");
            s
        },
        _ => e.archive_path.clone(),
    }
}

/// The ordered, write-once archive layout.
pub struct ArchiveLayout {
    entries: Vec<LayoutEntry>,
}

impl View for ArchiveLayout {
    type V = Seq<LayoutEntryV>;

    closed spec fn view(&self) -> Seq<LayoutEntryV> {
        self.entries.deep_view()
    }
}

impl ArchiveLayout {
    pub open spec fn wf(self) -> bool {
        paths_distinct(self@)
    }

    pub open spec fn has_clash(self, e: LayoutEntryV) -> bool {
        exists|i: int| 0 <= i < self@.len() && entries_clash(self@[i], e)
    }

    pub fn new() -> (r: ArchiveLayout)
        ensures
            r@ == Seq::<LayoutEntryV>::empty(),
            r.wf(),
    {
        let l = ArchiveLayout { entries: Vec::new() };
        proof {
            assert(l@ =~= Seq::<LayoutEntryV>::empty());
        }
        l
    }

    pub fn len(&self) -> (r: usize)
        ensures
            r == self@.len(),
    {
        self.entries.len()
    }

    pub fn path_at(&self, i: usize) -> (r: &String)
        requires
            i < self@.len(),
        ensures
            r@ == self@[i as int].archive_path,
    {
        &self.entries[i].archive_path
    }

    pub fn source_at(&self, i: usize) -> (r: &FileSource)
        requires
            i < self@.len(),
        ensures
            r.deep_view() == self@[i as int].source,
    {
        &self.entries[i].source
    }

    /// Appends an entry, refusing one that collides with an entry already
    /// taken, by planned path or by recorded archive name: the layout
    /// stays write-once by construction.
    pub fn push_entry(&mut self, entry: LayoutEntry) -> (r: Result<(), LayoutError>)
        requires
            old(self).wf(),
        ensures
            final(self).wf(),
            r is Ok <==> !old(self).has_clash(entry.deep_view()),
            r is Ok ==> final(self)@ == old(self)@.push(entry.deep_view()),
            r is Err ==> final(self)@ == old(self)@,
            r matches Err(LayoutError::DuplicateArchivePath { path }) ==> path@
                == entry.archive_path@,
    {
        let recorded_new = recorded_name_exec(&entry);
        let n = self.entries.len();
        let mut i: usize = 0;
        while i < n
            invariant
                n == self@.len(),
                i <= n,
                self.wf(),
                recorded_new@ == recorded_name(entry.deep_view()),
                forall|k: int| 0 <= k < i ==> !#[trigger] entries_clash(self@[k], entry.deep_view()),
        decreases n - i,
        {
            if self.entries[i].archive_path == entry.archive_path {
                proof {
                    assert(entries_clash(self@[i as int], entry.deep_view()));
                }
                return Err(
                    LayoutError::DuplicateArchivePath { path: entry.archive_path },
                );
            }
            let recorded_i = recorded_name_exec(&self.entries[i]);
            if recorded_i == recorded_new {
                proof {
                    assert(entries_clash(self@[i as int], entry.deep_view()));
                }
                return Err(
                    LayoutError::DuplicateArchivePath { path: entry.archive_path },
                );
            }
            proof {
                assert(!entries_clash(self@[i as int], entry.deep_view()));
            }
            i += 1;
        }
        let ghost before = self@;
        self.entries.push(entry);
        proof {
            assert(self@ =~= before.push(entry.deep_view()));
        }
        Ok(())
    }
}

/// The order the bundled asset tree is written in: by path, ties (a
/// directory and a file of one name) put the file first.
pub open spec fn entry_le(a: AssetEntryV, b: AssetEntryV) -> bool {
    if a.path == b.path {
        !a.is_dir || b.is_dir
    } else {
        lex_le(a.path, b.path)
    }
}

pub open spec fn entry_le_fn() -> spec_fn(AssetEntryV, AssetEntryV) -> bool {
    |a: AssetEntryV, b: AssetEntryV| entry_le(a, b)
}

pub proof fn lemma_entry_le_total(a: AssetEntryV, b: AssetEntryV)
    ensures
        entry_le(a, b) || entry_le(b, a),
{
    if a.path != b.path {
        lemma_lex_le_total(a.path, b.path);
    }
}

pub proof fn lemma_entry_le_antisymmetric(a: AssetEntryV, b: AssetEntryV)
    requires
        entry_le(a, b),
        entry_le(b, a),
    ensures
        a == b,
{
    if a.path == b.path {
        assert(a.is_dir == b.is_dir);
    } else {
        lemma_lex_le_antisymmetric(a.path, b.path);
    }
}

pub proof fn lemma_entry_le_transitive(a: AssetEntryV, b: AssetEntryV, c: AssetEntryV)
    requires
        entry_le(a, b),
        entry_le(b, c),
    ensures
        entry_le(a, c),
{
    if a.path != b.path && b.path != c.path {
        lemma_lex_le_transitive(a.path, b.path, c.path);
        if a.path == c.path {
            lemma_lex_le_antisymmetric(a.path, b.path);
        }
    }
}

pub proof fn lemma_entry_le_total_ordering()
    ensures
        total_ordering(entry_le_fn()),
{
    let leq = entry_le_fn();
    assert forall|a: AssetEntryV, b: AssetEntryV| #[trigger] leq(a, b) && #[trigger] leq(b, a)
        implies a == b by {
        lemma_entry_le_antisymmetric(a, b);
    }
    assert forall|a: AssetEntryV, b: AssetEntryV, c: AssetEntryV|
        #[trigger] leq(a, b) && #[trigger] leq(b, c) implies leq(a, c) by {
        lemma_entry_le_transitive(a, b, c);
    }
    assert forall|a: AssetEntryV, b: AssetEntryV| true implies #[trigger] leq(a, b) || #[trigger] leq(
        b,
        a,
    ) by {
        lemma_entry_le_total(a, b);
    }
}

fn entry_le_exec(a: &AssetEntry, b: &AssetEntry) -> (r: bool)
    ensures
        r == entry_le(a.deep_view(), b.deep_view()),
{
    if a.path == b.path {
        !a.is_dir || b.is_dir
    } else {
        str_lex_le(a.path.as_str(), b.path.as_str())
    }
}

/// Sorts an asset listing into the one traversal order the bundler uses,
/// whatever order the directory walk produced.
pub fn sort_entries(entries: Vec<AssetEntry>) -> (r: Vec<AssetEntry>)
    ensures
        r.deep_view() == entries.deep_view().sort_by(entry_le_fn()),
{
    let ghost orig = entries.deep_view();
    let mut rest = entries;
    let mut out: Vec<AssetEntry> = Vec::new();
    proof {
        assert(out.deep_view() =~= Seq::<AssetEntryV>::empty());
        assert(out.deep_view().to_multiset().add(rest.deep_view().to_multiset())
            =~= orig.to_multiset());
    }
    while rest.len() > 0
        invariant
            sorted_by(out.deep_view(), entry_le_fn()),
            orig.to_multiset() == out.deep_view().to_multiset().add(
                rest.deep_view().to_multiset(),
            ),
            forall|a: int, b: int|
                0 <= a < out.deep_view().len() && 0 <= b < rest.deep_view().len()
                    ==> #[trigger] entry_le(out.deep_view()[a], rest.deep_view()[b]),
        decreases rest@.len(),
    {
        let mut m: usize = 0;
        let mut k: usize = 1;
        while k < rest.len()
            invariant
                0 < rest@.len(),
                m < k,
                k <= rest@.len(),
                forall|t: int|
                    0 <= t < k ==> #[trigger] entry_le(
                        rest.deep_view()[m as int],
                        rest.deep_view()[t],
                    ),
            decreases rest@.len() - k,
        {
            if entry_le_exec(&rest[k], &rest[m]) {
                proof {
                    assert forall|t: int| 0 <= t < k + 1 implies #[trigger] entry_le(
                        rest.deep_view()[k as int],
                        rest.deep_view()[t],
                    ) by {
                        if t < k {
                            lemma_entry_le_transitive(
                                rest.deep_view()[k as int],
                                rest.deep_view()[m as int],
                                rest.deep_view()[t],
                            );
                        }
                    }
                }
                m = k;
            } else {
                proof {
                    lemma_entry_le_total(rest.deep_view()[m as int], rest.deep_view()[k as int]);
                }
            }
            k += 1;
        }
        let ghost rdv = rest.deep_view();
        let ghost odv = out.deep_view();
        let picked = rest.remove(m);
        out.push(picked);
        proof {
            assert(rest.deep_view() =~= rdv.remove(m as int));
            assert(out.deep_view() =~= odv.push(rdv[m as int]));
            assert(out.deep_view().to_multiset().add(rest.deep_view().to_multiset())
                =~= orig.to_multiset());
            assert forall|a: int, b: int|
                0 <= a < out.deep_view().len() && 0 <= b < rest.deep_view().len()
                    implies #[trigger] entry_le(out.deep_view()[a], rest.deep_view()[b]) by {
                let y = rest.deep_view()[b];
                assert(y == if b < m { rdv[b] } else { rdv[b + 1] });
                if a < odv.len() {
                    assert(entry_le(odv[a], y));
                } else {
                    assert(out.deep_view()[a] == rdv[m as int]);
                    assert(entry_le(rdv[m as int], y));
                }
            }
            assert forall|i: int, j: int| 0 <= i < j < out.deep_view().len()
                implies #[trigger] entry_le_fn()(out.deep_view()[i], out.deep_view()[j]) by {
                if j < odv.len() {
                    assert(entry_le_fn()(odv[i], odv[j]));
                } else {
                    assert(entry_le(odv[i], rdv[m as int]));
                }
            }
        }
    }
    proof {
        assert(rest.deep_view() =~= Seq::<AssetEntryV>::empty());
        assert(out.deep_view().to_multiset() =~= orig.to_multiset());
        lemma_entry_le_total_ordering();
        orig.lemma_sort_by_ensures(entry_le_fn());
        lemma_sorted_unique(out.deep_view(), orig.sort_by(entry_le_fn()), entry_le_fn());
    }
    out
}

/// What one listing entry contributes to the archive: nothing when it is
/// the asset root itself or lies outside it, else one entry at
/// `publish/<path relative to assets/>`.
pub open spec fn spec_bundle_entry(e: AssetEntryV) -> Seq<LayoutEntryV> {
    match rel_of("assets"@, e.path) {
        Some(rel) => seq![
            LayoutEntryV {
                archive_path: "publish/"@ + rel,
                source: if e.is_dir {
                    FileSourceV::Directory
                } else {
                    FileSourceV::DiskFile { path: e.path }
                },
            },
        ],
        None => Seq::empty(),
    }
}

pub open spec fn spec_bundle(s: Seq<AssetEntryV>) -> Seq<LayoutEntryV>
    decreases s.len(),
{
    if s.len() == 0 {
        Seq::empty()
    } else {
        spec_bundle(s.drop_last()) + spec_bundle_entry(s.last())
    }
}

/// Mirrors the `assets/` listing into archive entries under `publish/`,
/// in sorted order. The entry list is a function of the set of listed
/// paths alone, not of the order the walk enumerated them in.
pub fn bundle_assets(listing: Vec<AssetEntry>) -> (r: Vec<LayoutEntry>)
    ensures
        r.deep_view() == spec_bundle(listing.deep_view().sort_by(entry_le_fn())),
{
    let ghost goal = listing.deep_view().sort_by(entry_le_fn());
    let sorted = sort_entries(listing);
    let mut out: Vec<LayoutEntry> = Vec::new();
    let mut i: usize = 0;
    proof {
        assert(out.deep_view() =~= Seq::<LayoutEntryV>::empty());
        assert(goal.take(0) =~= Seq::<AssetEntryV>::empty());
    }
    while i < sorted.len()
        invariant
            i <= sorted@.len(),
            sorted.deep_view() == goal,
            out.deep_view() == spec_bundle(goal.take(i as int)),
        decreases sorted@.len() - i,
    {
        let e = &sorted[i];
        proof {
            assert(goal.take(i + 1).drop_last() =~= goal.take(i as int));
            assert(goal.take(i + 1).last() == goal[i as int]);
            assert(e.deep_view() == goal[i as int]);
        }
        let ghost before = out.deep_view();
        match relativize("assets", e.path.as_str()) {
            Some(rel) => {
                let archive_path = publish_path(rel.as_str());
                let source = if e.is_dir {
                    FileSource::Directory
                } else {
                    FileSource::DiskFile { path: e.path.clone() }
                };
                out.push(LayoutEntry { archive_path, source });
                proof {
                    assert(out.deep_view() =~= before + spec_bundle_entry(goal[i as int]));
                }
            },
            None => {
                proof {
                    assert(out.deep_view() =~= before + spec_bundle_entry(goal[i as int]));
                }
            },
        }
        i += 1;
    }
    proof {
        assert(goal.take(goal.len() as int) =~= goal);
    }
    out
}

/// Bundling is idempotent in structure and independent of enumeration
/// order: two listings holding the same entries, in whatever order the
/// directory walk produced them, bundle to the identical archive entry
/// sequence — the same paths in the same order.
pub proof fn lemma_bundle_order_independent(l1: Seq<AssetEntryV>, l2: Seq<AssetEntryV>)
    requires
        l1.to_multiset() == l2.to_multiset(),
    ensures
        spec_bundle(l1.sort_by(entry_le_fn())) == spec_bundle(l2.sort_by(entry_le_fn())),
{
    lemma_entry_le_total_ordering();
    l1.lemma_sort_by_ensures(entry_le_fn());
    l2.lemma_sort_by_ensures(entry_le_fn());
    lemma_sorted_unique(l1.sort_by(entry_le_fn()), l2.sort_by(entry_le_fn()), entry_le_fn());
}

/// The full package plan, in archive order: the `publish/` directory
/// marker, the bundled asset tree, the executable at `publish/<name>`, and
/// the zero-length `publish/<name>.runtimeconfig.json` launcher marker.
pub open spec fn spec_plan(
    name: Seq<char>,
    listing: Option<Seq<AssetEntryV>>,
    exe_path: Seq<char>,
) -> Seq<LayoutEntryV> {
    seq![LayoutEntryV { archive_path: "publish"@, source: FileSourceV::Directory }] + (match listing {
        Some(s) => spec_bundle(s.sort_by(entry_le_fn())),
        None => Seq::empty(),
    }) + seq![
        LayoutEntryV {
            archive_path: "publish/"@ + name,
            source: FileSourceV::DiskFile { path: exe_path },
        },
        LayoutEntryV {
            archive_path: "publish/"@ + name + ".runtimeconfig.json"@,
            source: FileSourceV::GeneratedImage { bytes: Seq::empty() },
        },
    ]
}

/// Plans the whole archive. A missing asset listing is only a warning and
/// contributes no entries; a path claimed twice is an error, since the
/// layout is write-once.
pub fn plan_package(name: &str, listing: Option<Vec<AssetEntry>>, executable_path: &str) -> (r: (
    Result<ArchiveLayout, LayoutError>,
    Vec<Warning>,
))
    ensures
        ({
            let plan = spec_plan(name@, listing.deep_view(), executable_path@);
            &&& (r.0 is Ok <==> paths_distinct(plan))
            &&& (r.0 matches Ok(layout) ==> layout@ == plan && layout.wf())
            &&& r.1@ == (if listing is Some {
                Seq::<Warning>::empty()
            } else {
                seq![Warning::MissingAssetsDir]
            })
        }),
{
    let ghost plan = spec_plan(name@, listing.deep_view(), executable_path@);
    let ghost had_listing = listing is Some;
    let mut warnings: Vec<Warning> = Vec::new();
    let mut all: Vec<LayoutEntry> = Vec::new();
    all.push(
        LayoutEntry {
            archive_path: String::from_str(publish_dir_name()),
            source: FileSource::Directory,
        },
    );
    match listing {
        Some(l) => {
            let mut bundled = bundle_assets(l);
            all.append(&mut bundled);
            proof {
                assert(warnings@ =~= Seq::<Warning>::empty());
            }
        },
        None => {
            warnings.push(Warning::MissingAssetsDir);
            proof {
                assert(warnings@ =~= seq![Warning::MissingAssetsDir]);
            }
        },
    }
    all.push(
        LayoutEntry {
            archive_path: publish_path(name),
            source: FileSource::DiskFile { path: executable_path.to_owned() },
        },
    );
    all.push(
        LayoutEntry { archive_path: marker_entry_path(name), source: FileSource::GeneratedImage {
            bytes: Vec::new(),
        } },
    );
    proof {
        assert(all.deep_view() =~= plan);
    }
    let mut layout = ArchiveLayout::new();
    let mut k: usize = 0;
    let total: usize = all.len();
    proof {
        assert(layout@ =~= plan.take(0));
        assert(all.deep_view() =~= plan.skip(0));
    }
    while all.len() > 0
        invariant
            layout.wf(),
            k <= plan.len(),
            plan.len() == total,
            layout@ == plan.take(k as int),
            all.deep_view() == plan.skip(k as int),
            had_listing == (listing is Some),
            plan == spec_plan(name@, listing.deep_view(), executable_path@),
            warnings@ == (if had_listing {
                Seq::<Warning>::empty()
            } else {
                seq![Warning::MissingAssetsDir]
            }),
        decreases all@.len(),
    {
        let ghost all_before = all.deep_view();
        let e = all.remove(0);
        let ghost ev = e.deep_view();
        let ghost lbefore = layout@;
        proof {
            assert(plan.skip(k as int).len() == plan.len() - k);
            assert(k < plan.len());
            assert(ev == all_before[0]);
            assert(plan.skip(k as int)[0] == plan[k as int]);
            assert(all_before[0] == plan[k as int]);
            assert(all.deep_view() =~= all_before.remove(0));
            assert(all.deep_view() =~= plan.skip(k + 1));
        }
        match layout.push_entry(e) {
            Ok(()) => {},
            Err(err) => {
                proof {
                    assert(exists|i: int|
                        0 <= i < lbefore.len() && entries_clash(lbefore[i], ev));
                    let w = choose|i: int|
                        0 <= i < lbefore.len() && entries_clash(lbefore[i], ev);
                    assert(entries_clash(plan[w], plan[k as int]));
                    assert(0 <= w < k < plan.len());
                    assert(!paths_distinct(plan));
                    assert(warnings@ == (if had_listing {
                        Seq::<Warning>::empty()
                    } else {
                        seq![Warning::MissingAssetsDir]
                    }));
                }
                return (Err(err), warnings);
            },
        }
        k += 1;
        proof {
            assert(plan.take(k as int) =~= plan.take(k - 1).push(plan[k - 1]));
        }
    }
    proof {
        assert(plan.skip(k as int).len() == plan.len() - k);
        assert(plan.skip(k as int).len() == 0);
        assert(k == plan.len());
        assert(plan.take(k as int) =~= plan);
        assert(paths_distinct(plan));
        assert(warnings@ == (if had_listing {
            Seq::<Warning>::empty()
        } else {
            seq![Warning::MissingAssetsDir]
        }));
    }
    (Ok(layout), warnings)
}

proof fn lemma_bundle_contains(s: Seq<AssetEntryV>, e: AssetEntryV)
    requires
        s.contains(e),
        !e.is_dir,
        rel_of("assets"@, e.path) is Some,
    ensures
        spec_bundle(s).contains(
            LayoutEntryV {
                archive_path: "publish/"@ + rel_of("assets"@, e.path).unwrap(),
                source: FileSourceV::DiskFile { path: e.path },
            },
        ),
    decreases s.len(),
{
    let mapped = LayoutEntryV {
        archive_path: "publish/"@ + rel_of("assets"@, e.path).unwrap(),
        source: FileSourceV::DiskFile { path: e.path },
    };
    if s.last() == e {
        let b = spec_bundle(s);
        assert(b == spec_bundle(s.drop_last()) + spec_bundle_entry(e));
        assert(spec_bundle_entry(e)[0] == mapped);
        assert(b[b.len() - 1] == mapped);
        assert(b.contains(mapped));
    } else {
        let i = choose|i: int| 0 <= i < s.len() && s[i] == e;
        assert(s.drop_last()[i] == e);
        assert(s.drop_last().contains(e));
        lemma_bundle_contains(s.drop_last(), e);
        let j = choose|j: int|
            0 <= j < spec_bundle(s.drop_last()).len() && spec_bundle(s.drop_last())[j] == mapped;
        assert(spec_bundle(s)[j] == mapped);
        assert(spec_bundle(s).contains(mapped));
    }
}

/// Every file of the asset listing that lies inside `assets/` stands in
/// the package plan as a disk-file entry under `publish/` plus its path
/// relative to `assets/`, with its own path as the source — the plan
/// forgets no asset and rewrites no content.
pub proof fn lemma_plan_carries_every_asset(
    name: Seq<char>,
    listing: Seq<AssetEntryV>,
    exe: Seq<char>,
    e: AssetEntryV,
)
    requires
        listing.contains(e),
        !e.is_dir,
        rel_of("assets"@, e.path) is Some,
    ensures
        spec_plan(name, Some(listing), exe).contains(
            LayoutEntryV {
                archive_path: "publish/"@ + rel_of("assets"@, e.path).unwrap(),
                source: FileSourceV::DiskFile { path: e.path },
            },
        ),
{
    let mapped = LayoutEntryV {
        archive_path: "publish/"@ + rel_of("assets"@, e.path).unwrap(),
        source: FileSourceV::DiskFile { path: e.path },
    };
    lemma_entry_le_total_ordering();
    let sorted = listing.sort_by(entry_le_fn());
    listing.lemma_sort_by_ensures(entry_le_fn());
    assert(listing.to_multiset().count(e) > 0);
    assert(sorted.contains(e));
    lemma_bundle_contains(sorted, e);
    let b = spec_bundle(sorted);
    let j = choose|j: int| 0 <= j < b.len() && b[j] == mapped;
    let plan = spec_plan(name, Some(listing), exe);
    assert(plan[1 + j] == mapped);
    assert(plan.contains(mapped));
}

/// In a sorted listing every directory stands before its own contents: an
/// entry whose path strictly extends another entry's path comes later.
pub proof fn lemma_parent_sorts_first(s: Seq<AssetEntryV>, i: int, j: int)
    requires
        sorted_by(s, entry_le_fn()),
        0 <= i < s.len(),
        0 <= j < s.len(),
        s[i].path.len() < s[j].path.len(),
        s[i].path == s[j].path.subrange(0, s[i].path.len() as int),
    ensures
        i < j,
{
    lemma_prefix_lex_le(s[i].path, s[j].path);
    if j < i {
        assert(entry_le_fn()(s[j], s[i]));
        assert(s[i].path != s[j].path);
        assert(lex_le(s[j].path, s[i].path));
        lemma_lex_le_antisymmetric(s[i].path, s[j].path);
    }
}

} // verus!

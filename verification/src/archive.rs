//! Writing the planned layout into a zip archive held in memory. The
//! entries recorded by the writer are modelled exactly: every disk file
//! lands in the archive byte-for-byte as supplied, and the final bytes are
//! a function of the recorded entries alone.
//!
//! The whole archive is buffered in memory before the caller writes it
//! out; callers hand each disk file's bytes over one at a time, so no more
//! than one file is held alongside the buffer. Streaming straight to an
//! output file would move the writing out of verified code; the buffer is
//! the chosen trade-off.

use crate::layout::{dir_entry_name, ArchiveLayout, FileSource, FileSourceV, LayoutEntryV};
use vstd::pervasive::unreached;
use vstd::prelude::*;

verus! {

#[verifier::external_type_specification]
#[verifier::external_body]
pub struct ExZipError(zip::result::ZipError);

/// A zip writer over an in-memory buffer. Opaque to the verifier; what it
/// holds is tracked through `archive_entries`.
#[verifier::external_body]
pub struct ArchiveBuilder {
    inner: zip::ZipWriter<std::io::Cursor<Vec<u8>>>,
}

/// The entries the builder has recorded so far, in order: a name, and its
/// bytes for a file entry or nothing for a directory entry.
pub uninterp spec fn archive_entries(b: ArchiveBuilder) -> Seq<(Seq<char>, Option<Seq<u8>>)>;

/// A healthy writer: open, and with no recorded entry that could still
/// fail the size checks zip defers to the next entry's start or to the
/// final flush.
pub uninterp spec fn writer_ok(b: ArchiveBuilder) -> bool;

/// Entries of at most this many bytes are certain to be written. Without
/// the large-file option zip refuses an entry whose size field crosses the
/// 32-bit limit — for the bytes themselves and for their compressed form,
/// which can be slightly larger. Deflate expands incompressible input by
/// at most five bytes per 64 KiB block, so below this bound both stay
/// under the limit.
pub open spec fn max_entry_bytes() -> nat {
    0xFFF0_0000
}

/// The bytes a finished archive holds for a given entry sequence. With the
/// zip crate's time support off every entry carries one fixed timestamp,
/// so the encoding depends on the entries alone.
pub uninterp spec fn zip_encoding(entries: Seq<(Seq<char>, Option<Seq<u8>>)>) -> Seq<u8>;

impl ArchiveBuilder {
    /// Relies on `zip::ZipWriter::new` over an empty in-memory cursor: a
    /// fresh writer holds no entries and is healthy.
    #[verifier::external_body]
    pub(crate) fn new() -> (r: ArchiveBuilder)
        ensures
            archive_entries(r) == Seq::<(Seq<char>, Option<Seq<u8>>)>::empty(),
            writer_ok(r),
    {
        ArchiveBuilder { inner: zip::ZipWriter::new(std::io::Cursor::new(Vec::new())) }
    }

    /// Relies on `zip::ZipWriter::add_directory` with default options: on
    /// success the archive gains one content-less entry, named with a
    /// trailing slash appended when missing. On a healthy writer the call
    /// succeeds: the entry carries no bytes, and every write and seek into
    /// the in-memory cursor is infallible.
    #[verifier::external_body]
    pub(crate) fn add_directory(&mut self, name: &str) -> (r: Result<(), zip::result::ZipError>)
        ensures
            r is Ok ==> archive_entries(*final(self)) == archive_entries(*old(self)).push(
                (dir_entry_name(name@), None::<Seq<u8>>),
            ),
            writer_ok(*old(self)) ==> r is Ok && writer_ok(*final(self)),
    {
        self.inner.add_directory(name, zip::write::FileOptions::default())
    }

    /// Relies on `zip::ZipWriter::start_file` and
    /// `std::io::Write::write_all`: on success the archive gains one entry
    /// under the given name holding exactly the given bytes. On a healthy
    /// writer the only failure left over the in-memory cursor is an entry
    /// crossing the 32-bit size limit without the large-file option; up to
    /// `max_entry_bytes` neither the bytes nor their deflated form can
    /// cross it, and the call succeeds.
    #[verifier::external_body]
    pub(crate) fn add_file(&mut self, name: &str, data: &[u8]) -> (r: Result<(), zip::result::ZipError>)
        ensures
            r is Ok ==> archive_entries(*final(self)) == archive_entries(*old(self)).push(
                (name@, Some(data@)),
            ),
            writer_ok(*old(self)) && data@.len() <= max_entry_bytes() ==> r is Ok && writer_ok(
                *final(self),
            ),
    {
        if let Err(e) = self.inner.start_file(name, zip::write::FileOptions::default()) {
            return Err(e);
        }
        if let Err(e) = std::io::Write::write_all(&mut self.inner, data) {
            return Err(zip::result::ZipError::Io(e));
        }
        Ok(())
    }

    /// Relies on `zip::ZipWriter::finish`: it writes the central directory
    /// and hands back the buffer with the whole archive. On a healthy
    /// writer it succeeds: the deferred size checks pass, an oversized
    /// directory offset is taken care of in zip64 form, and every write
    /// and seek into the cursor is infallible.
    #[verifier::external_body]
    pub(crate) fn finish(self) -> (r: Result<Vec<u8>, zip::result::ZipError>)
        ensures
            r matches Ok(v) ==> v@ == zip_encoding(archive_entries(self)),
            writer_ok(self) ==> r is Ok,
    {
        let mut zw = self.inner;
        match zw.finish() {
            Ok(cursor) => Ok(cursor.into_inner()),
            Err(e) => Err(e),
        }
    }
}

/// A failed archive write. The pipeline treats it as fatal: a partial
/// archive must never stand as the final output.
#[derive(Debug)]
pub enum ArchiveError {
    Zip { source: zip::result::ZipError },
}

/// How many entries of the layout take their bytes from disk.
pub open spec fn disk_file_count(s: Seq<LayoutEntryV>) -> nat
    decreases s.len(),
{
    if s.len() == 0 {
        0
    } else {
        disk_file_count(s.drop_last()) + (if s.last().source is DiskFile {
            1nat
        } else {
            0nat
        })
    }
}

/// The records a layout leaves in the archive, given the disk files'
/// bytes in layout order: directories become content-less entries under a
/// slashed name, generated content keeps its planned bytes, and a disk
/// file holds exactly the bytes supplied for it.
pub open spec fn archive_records(s: Seq<LayoutEntryV>, disk: Seq<Seq<u8>>) -> Seq<
    (Seq<char>, Option<Seq<u8>>),
>
    decreases s.len(),
{
    if s.len() == 0 {
        Seq::empty()
    } else {
        let e = s.last();
        archive_records(s.drop_last(), disk).push(
            match e.source {
                FileSourceV::Directory => (dir_entry_name(e.archive_path), None),
                FileSourceV::GeneratedImage { bytes } => (e.archive_path, Some(bytes)),
                FileSourceV::DiskFile { .. } => (
                    e.archive_path,
                    Some(disk[disk_file_count(s.drop_last()) as int]),
                ),
            },
        )
    }
}

pub proof fn lemma_records_len(s: Seq<LayoutEntryV>, disk: Seq<Seq<u8>>)
    ensures
        archive_records(s, disk).len() == s.len(),
    decreases s.len(),
{
    if s.len() > 0 {
        lemma_records_len(s.drop_last(), disk);
    }
}

/// Bytes past the ones a layout consumes do not change its records.
proof fn lemma_records_disk_extend(s: Seq<LayoutEntryV>, disk: Seq<Seq<u8>>, x: Seq<u8>)
    requires
        disk_file_count(s) <= disk.len(),
    ensures
        archive_records(s, disk.push(x)) == archive_records(s, disk),
    decreases s.len(),
{
    if s.len() == 0 {
        assert(archive_records(s, disk.push(x)) =~= archive_records(s, disk));
    } else {
        lemma_records_disk_extend(s.drop_last(), disk, x);
        if s.last().source is DiskFile {
            assert(disk_file_count(s.drop_last()) < disk.len());
            assert(disk.push(x)[disk_file_count(s.drop_last()) as int] == disk[disk_file_count(
                s.drop_last(),
            ) as int]);
        }
        assert(archive_records(s, disk.push(x)) =~= archive_records(s, disk));
    }
}

/// A prefix of the layout consumes no more disk files than the whole.
pub proof fn lemma_disk_count_take_le(s: Seq<LayoutEntryV>, m: int)
    requires
        0 <= m <= s.len(),
    ensures
        disk_file_count(s.take(m)) <= disk_file_count(s),
    decreases s.len(),
{
    if m == s.len() {
        assert(s.take(m) =~= s);
    } else {
        assert(s.drop_last().take(m) =~= s.take(m));
        lemma_disk_count_take_le(s.drop_last(), m);
    }
}

/// The round trip, on the library's side: every disk file the layout
/// places in the archive is recorded under its planned path with exactly
/// the bytes that were supplied for it — byte-for-byte, unmodified.
pub proof fn lemma_disk_bytes_verbatim(s: Seq<LayoutEntryV>, disk: Seq<Seq<u8>>, i: int)
    requires
        0 <= i < s.len(),
        s[i].source is DiskFile,
    ensures
        archive_records(s, disk).len() == s.len(),
        archive_records(s, disk)[i] == (
            s[i].archive_path,
            Some(disk[disk_file_count(s.take(i)) as int]),
        ),
    decreases s.len(),
{
    lemma_records_len(s, disk);
    lemma_records_len(s.drop_last(), disk);
    if i == s.len() - 1 {
        assert(s.take(i) =~= s.drop_last());
    } else {
        assert(s.drop_last().take(i) =~= s.take(i));
        lemma_disk_bytes_verbatim(s.drop_last(), disk, i);
    }
}

/// Streams a planned layout into the archive: the caller hands over each
/// disk file's bytes in turn, and the writer's state always matches the
/// records of the layout prefix written so far.
pub struct PackageWriter {
    layout: ArchiveLayout,
    pos: usize,
    builder: ArchiveBuilder,
    supplied: Ghost<Seq<Seq<u8>>>,
}

impl PackageWriter {
    pub closed spec fn layout_v(self) -> Seq<LayoutEntryV> {
        self.layout@
    }

    pub closed spec fn pos_v(self) -> int {
        self.pos as int
    }

    /// The bytes supplied for the disk-file entries written so far.
    pub closed spec fn supplied_v(self) -> Seq<Seq<u8>> {
        self.supplied@
    }

    pub closed spec fn wf(self) -> bool {
        &&& self.pos <= self.layout@.len()
        &&& self.supplied@.len() == disk_file_count(self.layout@.take(self.pos as int))
        &&& archive_entries(self.builder) == archive_records(
            self.layout@.take(self.pos as int),
            self.supplied@,
        )
    }

    /// Success is owed as long as the writer stays healthy: it starts so,
    /// and every entry written within `max_entry_bytes` keeps it so.
    pub closed spec fn healthy(self) -> bool {
        writer_ok(self.builder)
    }

    /// Opens a fresh in-memory archive for the given layout.
    pub fn start(layout: ArchiveLayout) -> (r: PackageWriter)
        ensures
            r.wf(),
            r.healthy(),
            r.layout_v() == layout@,
            r.pos_v() == 0,
            r.supplied_v() == Seq::<Seq<u8>>::empty(),
    {
        let w = PackageWriter {
            layout,
            pos: 0,
            builder: ArchiveBuilder::new(),
            supplied: Ghost(Seq::empty()),
        };
        proof {
            assert(w.layout@.take(0) =~= Seq::<LayoutEntryV>::empty());
        }
        w
    }

    /// The source of the entry to be written next, or `None` when every
    /// entry is written.
    pub fn next_source(&self) -> (r: Option<&FileSource>)
        ensures
            r is Some <==> self.pos_v() < self.layout_v().len(),
            r matches Some(s) ==> s.deep_view() == self.layout_v()[self.pos_v()].source,
    {
        if self.pos < self.layout.len() {
            Some(self.layout.source_at(self.pos))
        } else {
            None
        }
    }

    /// Writes the next planned entry. A disk-file entry takes its bytes
    /// from `data`; every other entry takes none. On a healthy writer an
    /// entry within `max_entry_bytes` is certain to be written, and the
    /// writer stays healthy.
    pub fn write_next(&mut self, data: Option<&Vec<u8>>) -> (r: Result<(), ArchiveError>)
        requires
            old(self).wf(),
            old(self).pos_v() < old(self).layout_v().len(),
            data is Some <==> old(self).layout_v()[old(self).pos_v()].source is DiskFile,
        ensures
            r is Ok ==> {
                &&& final(self).wf()
                &&& final(self).layout_v() == old(self).layout_v()
                &&& final(self).pos_v() == old(self).pos_v() + 1
                &&& final(self).supplied_v() == (match data {
                    Some(d) => old(self).supplied_v().push(d@),
                    None => old(self).supplied_v(),
                })
            },
            ({
                let e = old(self).layout_v()[old(self).pos_v()];
                let fine = r is Ok && final(self).healthy();
                &&& (old(self).healthy() && e.source is Directory ==> fine)
                &&& (e.source matches FileSourceV::GeneratedImage { bytes } ==> (old(self).healthy()
                    && bytes.len() <= max_entry_bytes() ==> fine))
                &&& (data matches Some(d) ==> (old(self).healthy() && d@.len() <= max_entry_bytes()
                    ==> fine))
            }),
    {
        let ghost lv = self.layout@;
        let ghost k = self.pos as int;
        let ghost sup = self.supplied@;
        proof {
            assert(lv.take(k + 1).drop_last() =~= lv.take(k));
            assert(lv.take(k + 1).last() == lv[k]);
        }
        let res = match self.layout.source_at(self.pos) {
            FileSource::Directory => {
                let p = self.layout.path_at(self.pos);
                self.builder.add_directory(p.as_str())
            },
            FileSource::DiskFile { .. } => {
                match data {
                    Some(d) => {
                        let p = self.layout.path_at(self.pos);
                        self.builder.add_file(p.as_str(), d.as_slice())
                    },
                    None => unreached(),
                }
            },
            FileSource::GeneratedImage { bytes } => {
                let p = self.layout.path_at(self.pos);
                self.builder.add_file(p.as_str(), bytes.as_slice())
            },
        };
        match res {
            Ok(()) => {
                let n = self.layout.len();
                proof {
                    assert(self.pos < n);
                }
                self.pos = self.pos + 1;
                match data {
                    Some(d) => {
                        self.supplied = Ghost(sup.push(d@));
                        proof {
                            lemma_records_disk_extend(lv.take(k), sup, d@);
                            assert(sup.push(d@)[sup.len() as int] == d@);
                        }
                    },
                    None => {},
                }
                proof {
                    assert(archive_entries(self.builder) == archive_records(
                        lv.take(k + 1),
                        self.supplied@,
                    ));
                }
                Ok(())
            },
            Err(e) => Err(ArchiveError::Zip { source: e }),
        }
    }

    /// Closes the archive and hands back its bytes: the zip encoding of
    /// exactly the records of the whole layout. A healthy writer finishes
    /// with certainty.
    pub fn finish(self) -> (r: Result<Vec<u8>, ArchiveError>)
        requires
            self.wf(),
            self.pos_v() == self.layout_v().len(),
        ensures
            self.healthy() ==> r is Ok,
            r matches Ok(v) ==> v@ == zip_encoding(
                archive_records(self.layout_v(), self.supplied_v()),
            ),
    {
        proof {
            assert(self.layout@.take(self.pos as int) =~= self.layout@);
        }
        match self.builder.finish() {
            Ok(v) => Ok(v),
            Err(e) => Err(ArchiveError::Zip { source: e }),
        }
    }
}

/// Whether one planned entry's own bytes fit under the per-entry bound.
pub open spec fn entry_size_ok(e: LayoutEntryV) -> bool {
    match e.source {
        FileSourceV::GeneratedImage { bytes } => bytes.len() <= max_entry_bytes(),
        _ => true,
    }
}

/// Every entry's bytes fit under the per-entry bound: the generated
/// contents carried by the layout and the supplied disk files alike.
pub open spec fn entry_sizes_ok(s: Seq<LayoutEntryV>, disk: Seq<Seq<u8>>) -> bool {
    &&& (forall|i: int| 0 <= i < s.len() ==> #[trigger] entry_size_ok(s[i]))
    &&& (forall|i: int| 0 <= i < disk.len() ==> #[trigger] disk[i].len() <= max_entry_bytes())
}

/// Builds the whole archive in memory: the layout's entries in order, with
/// `disk_contents` holding the bytes of each disk-file entry, in layout
/// order. When every entry fits under the per-entry bound, the archive is
/// certain to be produced.
pub fn write_archive(layout: ArchiveLayout, disk_contents: &Vec<Vec<u8>>) -> (r: Result<
    Vec<u8>,
    ArchiveError,
>)
    requires
        disk_contents.deep_view().len() == disk_file_count(layout@),
    ensures
        entry_sizes_ok(layout@, disk_contents.deep_view()) ==> r is Ok,
        r matches Ok(v) ==> v@ == zip_encoding(
            archive_records(layout@, disk_contents.deep_view()),
        ),
{
    let ghost lv = layout@;
    let ghost disk = disk_contents.deep_view();
    let total = layout.len();
    let disk_total = disk_contents.len();
    let mut w = PackageWriter::start(layout);
    let mut i: usize = 0;
    let mut j: usize = 0;
    proof {
        assert(lv.take(0) =~= Seq::<LayoutEntryV>::empty());
        assert(disk.take(0) =~= Seq::<Seq<u8>>::empty());
    }
    while i < total
        invariant
            w.wf(),
            w.layout_v() == lv,
            lv == layout@,
            lv.len() == total,
            w.pos_v() == i,
            i <= total,
            j <= disk.len(),
            disk == disk_contents.deep_view(),
            disk.len() == disk_total,
            disk.len() == disk_file_count(lv),
            j == disk_file_count(lv.take(i as int)),
            w.supplied_v() == disk.take(j as int),
            entry_sizes_ok(lv, disk) ==> w.healthy(),
        decreases total - i,
    {
        proof {
            assert(lv.take(i + 1).drop_last() =~= lv.take(i as int));
            assert(lv.take(i + 1).last() == lv[i as int]);
            lemma_disk_count_take_le(lv, i + 1);
        }
        let src = w.next_source();
        let is_disk = match src {
            Some(FileSource::DiskFile { .. }) => true,
            _ => false,
        };
        if is_disk {
            proof {
                assert(disk_file_count(lv.take(i + 1)) == j + 1);
            }
            let d = &disk_contents[j];
            proof {
                assert(d@ == disk[j as int]);
            }
            match w.write_next(Some(d)) {
                Ok(()) => {
                    proof {
                        if entry_sizes_ok(lv, disk) {
                            assert(disk[j as int].len() <= max_entry_bytes());
                            assert(w.healthy());
                        }
                    }
                },
                Err(e) => {
                    proof {
                        if entry_sizes_ok(lv, disk) {
                            assert(disk[j as int].len() <= max_entry_bytes());
                            assert(false);
                        }
                        assert(!entry_sizes_ok(lv, disk));
                    }
                    return Err(e);
                },
            }
            j += 1;
            proof {
                assert(d@ == disk[j - 1]);
                assert(disk.take(j as int) =~= disk.take(j - 1).push(disk[j - 1]));
            }
        } else {
            match w.write_next(None) {
                Ok(()) => {
                    proof {
                        if entry_sizes_ok(lv, disk) {
                            assert(entry_size_ok(lv[i as int]));
                            assert(w.healthy());
                        }
                    }
                },
                Err(e) => {
                    proof {
                        if entry_sizes_ok(lv, disk) {
                            assert(entry_size_ok(lv[i as int]));
                            if lv[i as int].source is GeneratedImage {
                                assert(false);
                            } else {
                                assert(lv[i as int].source is Directory);
                                assert(false);
                            }
                        }
                        assert(!entry_sizes_ok(lv, disk));
                    }
                    return Err(e);
                },
            }
        }
        i += 1;
    }
    proof {
        assert(lv.take(total as int) =~= lv);
        assert(j == disk.len());
        assert(disk.take(j as int) =~= disk);
        assert(entry_sizes_ok(lv, disk) ==> w.healthy());
    }
    w.finish()
}

} // verus!

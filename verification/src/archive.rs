//! Chapter archives: the pages of one chapter streamed, in scan order,
//! into a single compressed container held in memory.  The surrounding
//! application writes the finished bytes to disk.  [`ChapterBuilder`]
//! takes one page at a time, so no more than one page need be in memory
//! beside the growing container; [`build_chapter_archive`] runs it over
//! a whole chapter at once.

use crate::naming::{
    extension_of, lemma_entry_name_injective, lemma_entry_name_utf8_bound, page_entry_name,
    spec_entry_name, spec_extension_of,
};
use std::io::Write;
use vstd::prelude::*;

verus! {

/// An archive in the making.  The container is built by zip::ZipWriter
/// over an in-memory buffer; Verus sees the writer only through
/// [`spec_writer_entries`], [`spec_writer_open`] and the trusted
/// operations below.
#[verifier::external_body]
pub struct ChapterWriter {
    inner: zip::ZipWriter<std::io::Cursor<Vec<u8>>>,
}

/// The entries a partly built archive holds so far: stored name and byte
/// content of each, oldest first.
pub uninterp spec fn spec_writer_entries(w: ChapterWriter) -> Seq<(Seq<char>, Seq<u8>)>;

/// Whether an entry stands open for appending: true from a successful
/// entry start until the writer is finished.
pub uninterp spec fn spec_writer_open(w: ChapterWriter) -> bool;

/// The entries that standard archive tooling reads back from a finished
/// container's bytes: stored name and byte content of each, in order.
pub uninterp spec fn spec_archive_entries(bytes: Seq<u8>) -> Seq<(Seq<char>, Seq<u8>)>;

/// A raw entry size under which the writer cannot refuse the entry: the
/// container format draws its line at 4 GiB, and this margin of 16 MiB
/// covers the worst case in which compression leaves the stored form a
/// little larger than the content.
pub open spec fn spec_entry_size_cap() -> nat {
    0xFFF0_0000
}

/// Relies on zip::ZipWriter::new: a fresh writer holds no entries.
#[verifier::external_body]
fn archive_new() -> (w: ChapterWriter)
    ensures
        spec_writer_entries(w) == Seq::<(Seq<char>, Seq<u8>)>::empty(),
{
    ChapterWriter { inner: zip::ZipWriter::new(std::io::Cursor::new(Vec::new())) }
}

/// Relies on zip::ZipWriter::start_file: on success a new, empty entry
/// with the given stored name stands open at the end of the archive.
/// Writing into memory, the call refuses only a name over 65535 UTF-8
/// bytes, a name already in the archive, or a previous entry left too
/// large to seal; below those bounds it succeeds.
#[verifier::external_body]
fn archive_start_entry(w: &mut ChapterWriter, name: &str) -> (r: Result<(), ()>)
    ensures
        r is Ok ==> spec_writer_entries(*final(w)) == spec_writer_entries(*old(w)).push(
            (name@, Seq::<u8>::empty()),
        ),
        r is Ok ==> spec_writer_open(*final(w)),
        (vstd::utf8::encode_utf8(name@).len() <= 65535 && (forall|j: int|
            0 <= j < spec_writer_entries(*old(w)).len() ==> spec_writer_entries(*old(w))[j].0
                != name@) && (spec_writer_entries(*old(w)).len() > 0 ==> spec_writer_entries(
            *old(w),
        ).last().1.len() < spec_entry_size_cap())) ==> r is Ok,
{
    match w.inner.start_file(name, zip::write::SimpleFileOptions::default()) {
        Ok(()) => Ok(()),
        Err(_) => Err(()),
    }
}

/// Relies on the std::io::Write impl of zip::ZipWriter: on success the
/// bytes land, verbatim, at the end of the entry standing open.  Writing
/// into memory, the call refuses only an entry grown past the format's
/// 4 GiB line; under the cap, with an entry open, it succeeds.
#[verifier::external_body]
fn archive_append_data(w: &mut ChapterWriter, data: &Vec<u8>) -> (r: Result<(), ()>)
    requires
        spec_writer_entries(*old(w)).len() > 0,
    ensures
        r is Ok ==> spec_writer_entries(*final(w)) == spec_writer_entries(*old(w)).update(
            spec_writer_entries(*old(w)).len() - 1,
            (
                spec_writer_entries(*old(w)).last().0,
                spec_writer_entries(*old(w)).last().1 + data@,
            ),
        ),
        (r is Ok && data@.len() > 0) ==> spec_writer_open(*final(w)),
        (spec_writer_open(*old(w)) && spec_writer_entries(*old(w)).last().1.len() + data@.len()
            < spec_entry_size_cap()) ==> r is Ok,
{
    match w.inner.write_all(data.as_slice()) {
        Ok(()) => Ok(()),
        Err(_) => Err(()),
    }
}

/// Relies on zip::ZipWriter::finish: on success the container is sealed,
/// well formed, and reads back as exactly the entries written.  Writing
/// into memory, sealing refuses only an entry too large for the format;
/// with every entry under the cap it succeeds.
#[verifier::external_body]
fn archive_finish(w: ChapterWriter) -> (r: Result<Vec<u8>, ()>)
    ensures
        r matches Ok(bytes) ==> spec_archive_entries(bytes@) == spec_writer_entries(w),
        (forall|j: int|
            0 <= j < spec_writer_entries(w).len() ==> spec_writer_entries(w)[j].1.len()
                < spec_entry_size_cap()) ==> r is Ok,
{
    match w.inner.finish() {
        Ok(cursor) => Ok(cursor.into_inner()),
        Err(_) => Err(()),
    }
}

/// One page handed in by the caller: the file name it was scanned under
/// and its full byte content.
pub struct Page {
    pub name: String,
    pub data: Vec<u8>,
}

/// Mathematical image of a page.
pub ghost struct PageView {
    pub name: Seq<char>,
    pub data: Seq<u8>,
}

impl View for Page {
    type V = PageView;

    open spec fn view(&self) -> PageView {
        PageView { name: self.name@, data: self.data@ }
    }
}

/// The images of a sequence of pages.
pub open spec fn spec_page_views(pages: Seq<Page>) -> Seq<PageView> {
    Seq::new(pages.len(), |i: int| pages[i]@)
}

/// A page the archive can take: it has an extension to name its entry
/// after, and its content is not empty.
pub open spec fn spec_page_ok(p: PageView) -> bool {
    &&& spec_extension_of(p.name) is Some
    &&& p.data.len() > 0
}

pub open spec fn spec_pages_ok(ps: Seq<PageView>) -> bool {
    forall|i: int| 0 <= i < ps.len() ==> spec_page_ok(ps[i])
}

/// A page within the container format's limits: content under the entry
/// size cap, and an extension short enough that the entry name's UTF-8
/// form fits the format's 16-bit name length whatever the page count.
pub open spec fn spec_page_fits(p: PageView) -> bool {
    &&& p.data.len() < spec_entry_size_cap()
    &&& (spec_extension_of(p.name) matches Some(e) ==> e.len() <= 16000)
}

pub open spec fn spec_pages_fit(ps: Seq<PageView>) -> bool {
    forall|i: int| 0 <= i < ps.len() ==> spec_page_fits(ps[i])
}

/// The position of the first page the archive must refuse; the sequence
/// length when every page passes.
pub open spec fn spec_first_bad_page(ps: Seq<PageView>) -> int
    decreases ps.len(),
{
    if ps.len() == 0 {
        0
    } else if !spec_page_ok(ps[0]) {
        0
    } else {
        1 + spec_first_bad_page(ps.drop_first())
    }
}

proof fn lemma_first_bad_page_nonneg(ps: Seq<PageView>)
    ensures
        spec_first_bad_page(ps) >= 0,
    decreases ps.len(),
{
    if ps.len() > 0 && spec_page_ok(ps[0]) {
        lemma_first_bad_page_nonneg(ps.drop_first());
    }
}

proof fn lemma_first_bad_page_at(ps: Seq<PageView>, i: int)
    requires
        0 <= i < ps.len(),
        !spec_page_ok(ps[i]),
        forall|j: int| 0 <= j < i ==> spec_page_ok(ps[j]),
    ensures
        spec_first_bad_page(ps) == i,
    decreases i,
{
    if i > 0 {
        lemma_first_bad_page_at(ps.drop_first(), i - 1);
    }
}

proof fn lemma_first_bad_page_ge(ps: Seq<PageView>, k: int)
    requires
        0 <= k <= ps.len(),
        forall|j: int| 0 <= j < k ==> spec_page_ok(ps[j]),
    ensures
        spec_first_bad_page(ps) >= k,
    decreases k,
{
    lemma_first_bad_page_nonneg(ps);
    if k > 0 {
        assert(spec_page_ok(ps[0]));
        assert forall|j: int| 0 <= j < k - 1 implies spec_page_ok(ps.drop_first()[j]) by {
            assert(spec_page_ok(ps[j + 1]));
        }
        lemma_first_bad_page_ge(ps.drop_first(), k - 1);
    }
}

/// The archive entry a page becomes: its one-based index, zero-padded to
/// the width of the page count, with the page's own extension; the bytes
/// are the page's bytes, untouched.
pub open spec fn spec_chapter_entry(p: PageView, i: int, total: nat) -> (Seq<char>, Seq<u8>) {
    (spec_entry_name((i + 1) as nat, total, spec_extension_of(p.name)->0), p.data)
}

/// The entries of the first pages of a chapter, numbered for a page
/// count fixed in advance.
pub open spec fn spec_numbered_entries(ps: Seq<PageView>, total: nat) -> Seq<
    (Seq<char>, Seq<u8>),
> {
    Seq::new(ps.len(), |i: int| spec_chapter_entry(ps[i], i, total))
}

/// The full entry listing of a chapter's archive, in page scan order.
pub open spec fn spec_chapter_entries(ps: Seq<PageView>) -> Seq<(Seq<char>, Seq<u8>)> {
    spec_numbered_entries(ps, ps.len())
}

/// A chapter of N pages maps to exactly N entries, in page scan order —
/// never name order: the entry at position i belongs to the page scanned
/// at position i, its stored name is the one-based index i + 1 zero-padded
/// to the decimal width of N, followed by a dot and that page's own
/// extension, and its bytes are the page's bytes, untouched.
pub proof fn lemma_chapter_entries_shape(ps: Seq<PageView>)
    requires
        spec_pages_ok(ps),
    ensures
        spec_chapter_entries(ps).len() == ps.len(),
        forall|i: int|
            0 <= i < ps.len() ==> spec_chapter_entries(ps)[i] == (
                spec_entry_name((i + 1) as nat, ps.len(), spec_extension_of(ps[i].name)->0),
                ps[i].data,
            ),
        forall|i: int|
            0 <= i < ps.len() ==> #[trigger] crate::naming::spec_padded_index(
                (i + 1) as nat,
                ps.len(),
            ).len() == crate::naming::spec_num_digits(ps.len()),
{
    assert forall|i: int|
        0 <= i < ps.len() implies #[trigger] crate::naming::spec_padded_index(
        (i + 1) as nat,
        ps.len(),
    ).len() == crate::naming::spec_num_digits(ps.len()) by {
        crate::naming::lemma_padded_width((i + 1) as nat, ps.len());
    }
}

/// Why a chapter produced no archive.
#[derive(Debug, Clone, Copy, PartialEq, Eq)]
pub enum ChapterError {
    /// The page at this index has no extension to name its entry after.
    MissingExtension { page: usize },
    /// The page at this index has no content at all.
    EmptyPage { page: usize },
    /// The container itself could not be written or sealed.
    Archive,
}

/// One chapter's archive, grown a page at a time, so that no more than
/// the page in hand need be held beside the container.  The page count
/// is fixed at the start: entry numbering is padded to its width.
pub struct ChapterBuilder {
    writer: ChapterWriter,
    total: usize,
    count: usize,
    pages: Ghost<Seq<PageView>>,
}

impl ChapterBuilder {
    /// The pages taken so far, in order.
    pub closed spec fn spec_pages(&self) -> Seq<PageView> {
        self.pages@
    }

    /// The page count the numbering was fixed for.
    pub closed spec fn spec_total(&self) -> nat {
        self.total as nat
    }

    /// A builder the operations keep usable: every page taken so far was
    /// acceptable, and the writer holds exactly their entries.
    pub closed spec fn wf(&self) -> bool {
        &&& self.count == self.pages@.len()
        &&& self.pages@.len() <= self.total
        &&& (forall|i: int| 0 <= i < self.pages@.len() ==> spec_page_ok(self.pages@[i]))
        &&& spec_writer_entries(self.writer) == spec_numbered_entries(
            self.pages@,
            self.total as nat,
        )
        &&& (self.pages@.len() > 0 ==> spec_writer_open(self.writer))
    }

    /// Opens the archive of a chapter with `total` pages.
    pub fn new(total: usize) -> (r: ChapterBuilder)
        ensures
            r.wf(),
            r.spec_total() == total,
            r.spec_pages() == Seq::<PageView>::empty(),
    {
        let r = ChapterBuilder {
            writer: archive_new(),
            total,
            count: 0,
            pages: Ghost(Seq::empty()),
        };
        proof {
            assert(spec_numbered_entries(Seq::<PageView>::empty(), total as nat) =~= Seq::<
                (Seq<char>, Seq<u8>),
            >::empty());
        }
        r
    }

    /// Takes the next page: its entry is numbered by its position, named
    /// by its extension, and holds its bytes unchanged.  A page without
    /// an extension or without content is refused by name and position,
    /// and leaves the builder as it was.  An acceptable page within the
    /// format's limits, after pages within those limits, is never
    /// refused.
    pub fn add_page(&mut self, page: &Page) -> (r: Result<(), ChapterError>)
        requires
            old(self).wf(),
            old(self).spec_pages().len() < old(self).spec_total(),
        ensures
            final(self).spec_total() == old(self).spec_total(),
            r is Ok ==> final(self).wf() && spec_page_ok(page@) && final(self).spec_pages() == old(
                self,
            ).spec_pages().push(page@),
            !spec_page_ok(page@) ==> *final(self) == *old(self) && r == Err::<
                (),
                ChapterError,
            >(
                if spec_extension_of(page@.name) is None {
                    ChapterError::MissingExtension { page: old(self).spec_pages().len() as usize }
                } else {
                    ChapterError::EmptyPage { page: old(self).spec_pages().len() as usize }
                },
            ),
            spec_page_ok(page@) ==> (r is Ok || r == Err::<(), ChapterError>(ChapterError::Archive)),
            (spec_page_ok(page@) && spec_page_fits(page@) && (forall|i: int|
                0 <= i < old(self).spec_pages().len() ==> spec_page_fits(
                    old(self).spec_pages()[i],
                ))) ==> r is Ok,
    {
        let idx = self.count;
        let ext = match extension_of(page.name.as_str()) {
            Some(e) => e,
            None => {
                return Err(ChapterError::MissingExtension { page: idx });
            },
        };
        if page.data.len() == 0 {
            return Err(ChapterError::EmptyPage { page: idx });
        }
        let name = page_entry_name((idx as u64) + 1, self.total as u64, ext.as_str());
        let ghost prior = self.pages@;
        let ghost total_n = self.total as nat;
        proof {
            // The new entry name differs from every name already stored:
            // the zero-padded one-based indices differ.
            assert forall|j: int|
                0 <= j < spec_writer_entries(self.writer).len() implies spec_writer_entries(
                self.writer,
            )[j].0 != name@ by {
                lemma_entry_name_injective(
                    (j + 1) as nat,
                    (idx + 1) as nat,
                    total_n,
                    spec_extension_of(prior[j].name)->0,
                    ext@,
                );
            }
            if spec_page_fits(page@) {
                lemma_entry_name_utf8_bound((idx + 1) as nat, total_n, ext@);
            }
        }
        if archive_start_entry(&mut self.writer, name.as_str()).is_err() {
            return Err(ChapterError::Archive);
        }
        if archive_append_data(&mut self.writer, &page.data).is_err() {
            return Err(ChapterError::Archive);
        }
        self.count = idx + 1;
        proof {
            self.pages@ = prior.push(page@);
            assert(Seq::<u8>::empty() + page.data@ =~= page.data@);
            assert(spec_writer_entries(self.writer) =~= spec_numbered_entries(
                self.pages@,
                total_n,
            ));
        }
        Ok(())
    }

    /// Seals the archive once every page is in.  The finished bytes read
    /// back as exactly the chapter's entries, and sealing never fails
    /// when every page kept within the format's limits.
    pub fn finish(self) -> (r: Result<Vec<u8>, ChapterError>)
        requires
            self.wf(),
            self.spec_pages().len() == self.spec_total(),
        ensures
            r matches Ok(bytes) ==> spec_archive_entries(bytes@) == spec_chapter_entries(
                self.spec_pages(),
            ),
            (forall|i: int|
                0 <= i < self.spec_pages().len() ==> spec_page_fits(self.spec_pages()[i])) ==> r
                is Ok,
            r is Err ==> r == Err::<Vec<u8>, ChapterError>(ChapterError::Archive),
    {
        match archive_finish(self.writer) {
            Ok(bytes) => Ok(bytes),
            Err(()) => Err(ChapterError::Archive),
        }
    }
}

/// Builds one chapter's archive from its pages, in the order given.  On
/// success the returned bytes hold exactly one entry per page, named by
/// its one-based, zero-padded index and the page's extension, with the
/// page's bytes unchanged.  A page without an extension, or without
/// content, aborts the chapter, and the first such page is named; with
/// every page acceptable and within the format's limits, the archive is
/// owed.
pub fn build_chapter_archive(pages: &Vec<Page>) -> (r: Result<Vec<u8>, ChapterError>)
    ensures
        r matches Ok(bytes) ==> spec_pages_ok(spec_page_views(pages@)) && spec_archive_entries(
            bytes@,
        ) == spec_chapter_entries(spec_page_views(pages@)),
        !spec_pages_ok(spec_page_views(pages@)) ==> r is Err,
        (spec_pages_ok(spec_page_views(pages@)) && spec_pages_fit(spec_page_views(pages@))) ==> r
            is Ok,
        spec_pages_ok(spec_page_views(pages@)) ==> (r is Ok || r == Err::<
            Vec<u8>,
            ChapterError,
        >(ChapterError::Archive)),
        (!spec_pages_ok(spec_page_views(pages@)) && (forall|j: int|
            0 <= j < spec_first_bad_page(spec_page_views(pages@)) ==> spec_page_fits(
                spec_page_views(pages@)[j],
            ))) ==> r == Err::<Vec<u8>, ChapterError>(
            if spec_extension_of(
                spec_page_views(pages@)[spec_first_bad_page(spec_page_views(pages@))].name,
            ) is None {
                ChapterError::MissingExtension {
                    page: spec_first_bad_page(spec_page_views(pages@)) as usize,
                }
            } else {
                ChapterError::EmptyPage {
                    page: spec_first_bad_page(spec_page_views(pages@)) as usize,
                }
            },
        ),
        forall|i: usize|
            r == Err::<Vec<u8>, ChapterError>(ChapterError::MissingExtension { page: i }) ==> i
                < pages@.len() && spec_extension_of(pages@[i as int]@.name) is None && (forall|
                j: int,
            | 0 <= j < i ==> spec_page_ok(spec_page_views(pages@)[j])),
        forall|i: usize|
            r == Err::<Vec<u8>, ChapterError>(ChapterError::EmptyPage { page: i }) ==> i
                < pages@.len() && spec_extension_of(pages@[i as int]@.name) is Some
                && pages@[i as int]@.data.len() == 0 && (forall|j: int|
                0 <= j < i ==> spec_page_ok(spec_page_views(pages@)[j])),
{
    let ghost pv = spec_page_views(pages@);
    let total = pages.len();
    let mut builder = ChapterBuilder::new(total);
    let mut idx: usize = 0;
    while idx < total
        invariant
            idx <= total,
            total == pages@.len(),
            pv == spec_page_views(pages@),
            builder.wf(),
            builder.spec_total() == total,
            builder.spec_pages() == pv.take(idx as int),
            forall|j: int| 0 <= j < idx ==> spec_page_ok(pv[j]),
        decreases total - idx,
    {
        let ghost before = builder.spec_pages();
        match builder.add_page(&pages[idx]) {
            Ok(()) => {},
            Err(e) => {
                proof {
                    if !spec_page_ok(pv[idx as int]) {
                        lemma_first_bad_page_at(pv, idx as int);
                    } else {
                        lemma_first_bad_page_ge(pv, idx + 1);
                        assert(!spec_page_fits(pv[idx as int]) || !(forall|i: int|
                            0 <= i < before.len() ==> spec_page_fits(before[i])));
                    }
                }
                return Err(e);
            },
        }
        proof {
            assert(pv.take(idx + 1) =~= pv.take(idx as int).push(pv[idx as int]));
        }
        idx = idx + 1;
    }
    proof {
        assert(pv.take(total as int) =~= pv);
    }
    builder.finish()
}

} // verus!

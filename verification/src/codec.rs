//! The project file: an archive of named entries, every byte of which is
//! combined with one fixed key byte.
//!
//! The archive holds the project as a structured text under a fixed name
//! and, under `assets/`, the files that the project refers to by name.
//! Building and reading the archive is the work of the `zip` crate; which
//! entries are written, what is looked up, what happens where an entry is
//! missing, and the byte transform are decided here.

use std::io::{Cursor, Read, Write};
use vstd::prelude::*;
use vstd::utf8::encode_utf8;
use zip::result::ZipError;
use zip::write::SimpleFileOptions;
use zip::{DateTime, ZipArchive, ZipWriter};
use crate::model::text_of;
use crate::text::push_char;

verus! {

/// The byte that every byte of a project file is combined with.
pub const OBFUSCATION_KEY: u8 = 0xA5;

/// The entry that holds the project itself.
pub const PROJECT_ENTRY: &'static str = "project.json";

/// The most bytes that the name of an entry may take: an archive stores
/// the length of a name in sixteen bits.
pub const MAX_ENTRY_NAME_BYTES: usize = 65535;

/// The bytes of `data`, each combined with the key by exclusive or.
pub open spec fn obfuscated(data: Seq<u8>) -> Seq<u8> {
    Seq::new(data.len(), |i: int| data[i] ^ OBFUSCATION_KEY)
}

/// Applies the byte transform to `buffer` in place.
pub fn obfuscate(buffer: &mut Vec<u8>)
    ensures
        final(buffer)@ == obfuscated(old(buffer)@),
{
    let n = buffer.len();
    let mut i: usize = 0;
    while i < n
        invariant
            i <= n,
            buffer.len() == n,
            n == old(buffer).len(),
            forall|j: int| 0 <= j < i ==> buffer@[j] == old(buffer)@[j] ^ OBFUSCATION_KEY,
            forall|j: int| i <= j < n ==> buffer@[j] == old(buffer)@[j],
        decreases n - i,
    {
        let b = buffer[i];
        buffer[i] = b ^ OBFUSCATION_KEY;
        i += 1;
    }
    proof {
        assert(buffer@ =~= obfuscated(old(buffer)@));
    }
}

/// The transform is its own inverse.
pub proof fn lemma_obfuscation_is_involution(data: Seq<u8>)
    ensures
        obfuscated(obfuscated(data)) == data,
{
    assert forall|i: int| 0 <= i < data.len() implies obfuscated(obfuscated(data))[i]
        == data[i] by {
        let b = data[i];
        assert((b ^ 0xA5u8) ^ 0xA5u8 == b) by (bit_vector);
    }
    assert(obfuscated(obfuscated(data)) =~= data);
}

/// A character that may stand in the name of an asset: a letter or digit
/// of the basic Latin alphabet, a dot, an underscore or a hyphen.
pub open spec fn is_safe_char(c: char) -> bool {
    let u = c as u32;
    ||| 0x61 <= u <= 0x7A
    ||| 0x41 <= u <= 0x5A
    ||| 0x30 <= u <= 0x39
    ||| c == '.'
    ||| c == '_'
    ||| c == '-'
}

/// `c` where it is safe, else an underscore.
pub open spec fn sanitized_char(c: char) -> char {
    if is_safe_char(c) {
        c
    } else {
        '_'
    }
}

/// The name under which a file is stored as an asset: every character
/// that is not safe replaced by an underscore; `asset.bin` for the empty
/// name.
pub open spec fn sanitized(name: Seq<char>) -> Seq<char> {
    if name.len() == 0 {
        "asset.bin"@
    } else {
        name.map_values(|c: char| sanitized_char(c))
    }
}

/// The asset name for a file name.
pub fn sanitize_asset_name(file_name: &str) -> (r: String)
    ensures
        r@ == sanitized(file_name@),
{
    broadcast use vstd::string::axiom_spec_iter;

    if file_name.is_empty() {
        return "asset.bin".to_owned();
    }
    let mut out = String::new();
    for c in it: file_name.chars()
        invariant
            it.seq() == file_name@,
            out@ == file_name@.take(it.index() as int).map_values(|c: char| sanitized_char(c)),
    {
        let ghost i = it.index() as int;
        let u = c as u32;
        let safe = (0x61 <= u && u <= 0x7A) || (0x41 <= u && u <= 0x5A) || (0x30 <= u && u <= 0x39)
            || c == '.' || c == '_' || c == '-';
        let ghost before = out@;
        if safe {
            push_char(&mut out, c);
        } else {
            push_char(&mut out, '_');
        }
        proof {
            assert(file_name@.take(i + 1) =~= file_name@.take(i).push(file_name@[i]));
            assert(file_name@.take(i + 1).map_values(|c: char| sanitized_char(c)) =~= before.push(
                sanitized_char(file_name@[i]),
            ));
        }
    }
    proof {
        assert(file_name@.take(file_name@.len() as int) =~= file_name@);
    }
    out
}

/// The name of the archive entry that holds the asset `name`.
pub open spec fn asset_entry_name(name: Seq<char>) -> Seq<char> {
    "assets/"@ + name
}

/// The name of the archive entry for the asset `name`.
pub fn asset_entry(name: &str) -> (r: String)
    ensures
        r@ == asset_entry_name(name@),
{
    let mut r = "assets/".to_owned();
    r.append(name);
    r
}

/// The error of the `zip` crate; it is handed on unread.
#[verifier::external_type_specification]
#[verifier::external_body]
pub struct ExZipError(ZipError);

/// The error of the standard library's input and output; it is handed on
/// unread.
#[verifier::external_type_specification]
#[verifier::external_body]
pub struct ExIoError(std::io::Error);

/// The standard library's cursor over a buffer in memory.
#[verifier::external_type_specification]
#[verifier::external_body]
#[verifier::reject_recursive_types(T)]
pub struct ExCursor<T>(Cursor<T>);

/// The open archive of the `zip` crate.
#[verifier::external_type_specification]
#[verifier::external_body]
#[verifier::reject_recursive_types(R)]
pub struct ExZipArchive<R>(ZipArchive<R>);

/// An archive under construction in memory: a `ZipWriter` of the `zip`
/// crate over a buffer that was empty at the start.  A writer is made
/// empty and passes from one successful step to the next; after a step
/// that failed there is no writer any more.  What it holds is spoken of as
/// `writer_entries`.
#[verifier::external_body]
pub struct ArchiveWriter {
    inner: ZipWriter<Cursor<Vec<u8>>>,
}

/// An archive that was opened for reading.  There is one way to make one,
/// `open_project_file`, so that every archive of this type is what
/// `ZipArchive::new` made of its bytes.
#[derive(Debug)]
pub struct ProjectArchive {
    inner: ZipArchive<Cursor<Vec<u8>>>,
}

impl ProjectArchive {
    /// The bytes that the archive reads from.
    pub closed spec fn source(&self) -> Seq<u8> {
        archive_source(self.inner)
    }
}

/// Why a project file could not be built or taken apart.
#[derive(Debug)]
pub enum CodecError {
    /// The archive as a whole, or the directory entry of a file in it.
    Zip(ZipError),
    /// The content of an entry.
    Io(std::io::Error),
    /// The name of an entry takes more bytes than an archive can record.
    NameTooLong,
}

/// The kinds of failure, without what the outside errors carry.
#[derive(Debug, Clone, Copy, PartialEq, Eq, Structural)]
pub enum FaultKind {
    Zip,
    Io,
    NameTooLong,
}

impl CodecError {
    /// The kind of the failure.
    pub open spec fn kind_of(self) -> FaultKind {
        match self {
            CodecError::Zip(_) => FaultKind::Zip,
            CodecError::Io(_) => FaultKind::Io,
            CodecError::NameTooLong => FaultKind::NameTooLong,
        }
    }

    /// The kind of the failure.
    pub fn kind(&self) -> (k: FaultKind)
        ensures
            k == self.kind_of(),
    {
        match self {
            CodecError::Zip(_) => FaultKind::Zip,
            CodecError::Io(_) => FaultKind::Io,
            CodecError::NameTooLong => FaultKind::NameTooLong,
        }
    }
}

/// An entry as a value: its name and its content.
pub struct EntryView {
    pub name: Seq<char>,
    pub data: Seq<u8>,
}

/// The entries that were begun in a writer, in their order, each with the
/// content handed to it so far.
pub uninterp spec fn writer_entries(writer: ArchiveWriter) -> Seq<EntryView>;

/// Whether `ZipWriter::start_file` begins an entry of the name `name` in
/// a writer that holds `held`.
pub uninterp spec fn zip_begins(held: Seq<EntryView>, name: Seq<char>) -> bool;

/// Whether `write_all` hands `data` to the last entry of a writer that
/// holds `held`.
pub uninterp spec fn zip_takes(held: Seq<EntryView>, data: Seq<u8>) -> bool;

/// The archive that `ZipWriter::finish` gives for a writer that holds
/// `entries`, `None` where it fails.  Every entry is begun with the
/// default options and the crate's fixed default date, so that the
/// archive depends on the entries alone.
pub uninterp spec fn zip_image(entries: Seq<EntryView>) -> Option<Seq<u8>>;

/// An entry of the name `name` that has no content yet.
pub open spec fn begun_entry(name: Seq<char>) -> EntryView {
    EntryView { name, data: Seq::empty() }
}

/// `entries` with `data` added to the content of the last entry.
pub open spec fn with_more_data(entries: Seq<EntryView>, data: Seq<u8>) -> Seq<EntryView> {
    entries.drop_last().push(
        EntryView { name: entries.last().name, data: entries.last().data + data },
    )
}

/// The name can be recorded in an archive.
pub open spec fn name_fits(name: Seq<char>) -> bool {
    encode_utf8(name).len() <= MAX_ENTRY_NAME_BYTES
}

/// Whether `ZipArchive::new` accepts `archive` as an archive.
pub uninterp spec fn zip_directory_ok(archive: Seq<u8>) -> bool;

/// The bytes that an open archive reads from.
pub uninterp spec fn archive_source(archive: ZipArchive<Cursor<Vec<u8>>>) -> Seq<u8>;

/// Whether `ZipArchive::by_name` finds and opens the entry `name` of
/// `archive`.
pub uninterp spec fn zip_entry_found(archive: Seq<u8>, name: Seq<char>) -> bool;

/// What reading the opened entry `name` of `archive` to its end yields,
/// `None` where the reading fails.
pub uninterp spec fn zip_entry_bytes(archive: Seq<u8>, name: Seq<char>) -> Option<Seq<u8>>;

/// What became of the attempt to read one entry.
enum EntryRead {
    Found(Vec<u8>),
    Missing(ZipError),
    Broken(std::io::Error),
}

/// `ZipArchive::new` of the `zip` crate on a cursor over `bytes`: it reads
/// the central directory and succeeds or fails on the bytes alone.  The
/// archive that comes back reads from these bytes.
#[verifier::external_body]
fn archive_open(bytes: Vec<u8>) -> (r: Result<ProjectArchive, ZipError>)
    ensures
        r is Ok <==> zip_directory_ok(bytes@),
        r matches Ok(a) ==> archive_source(a.inner) == bytes@,
{
    match ZipArchive::new(Cursor::new(bytes)) {
        Ok(archive) => Ok(ProjectArchive { inner: archive }),
        Err(e) => Err(e),
    }
}

/// `ZipArchive::by_name` of the `zip` crate, and `read_to_end` on the entry
/// it opens.  The archive is one that `ZipArchive::new` made, so whether
/// the entry is found and what its content is depends on the archive's
/// bytes and the name alone; the archive goes on reading from the same
/// bytes.
#[verifier::external_body]
fn archive_read(archive: &mut ProjectArchive, name: &str) -> (r: EntryRead)
    ensures
        archive_source(final(archive).inner) == archive_source(old(archive).inner),
        r is Missing <==> !zip_entry_found(archive_source(old(archive).inner), name@),
        r is Broken <==> zip_entry_found(archive_source(old(archive).inner), name@)
            && zip_entry_bytes(archive_source(old(archive).inner), name@) is None,
        r matches EntryRead::Found(b) ==> zip_entry_bytes(
            archive_source(old(archive).inner),
            name@,
        ) == Some(b@),
{
    let mut content = Vec::new();
    match archive.inner.by_name(name) {
        Err(e) => EntryRead::Missing(e),
        Ok(mut file) => match file.read_to_end(&mut content) {
            Ok(_) => EntryRead::Found(content),
            Err(e) => EntryRead::Broken(e),
        },
    }
}

/// `ZipWriter::new` of the `zip` crate on an empty buffer in memory: the
/// writer holds no entry.
#[verifier::external_body]
fn writer_new() -> (writer: ArchiveWriter)
    ensures
        writer_entries(writer).len() == 0,
{
    ArchiveWriter { inner: ZipWriter::new(Cursor::new(Vec::new())) }
}

/// `ZipWriter::start_file` of the `zip` crate, with its default options
/// and its default date.  The name must fit: the crate does not return on
/// a longer one.  Whether the entry is begun depends on what the writer
/// holds and on the name alone; a name that the writer holds already is
/// refused.  Where it is begun, the writer comes back with an entry of
/// that name, without content yet, behind those that were there.
#[verifier::external_body]
fn writer_start_file(writer: ArchiveWriter, name: &str) -> (r: Result<ArchiveWriter, ZipError>)
    requires
        name_fits(name@),
    ensures
        r is Ok <==> zip_begins(writer_entries(writer), name@),
        r matches Ok(w) ==> writer_entries(w) == writer_entries(writer).push(begun_entry(name@)),
{
    let mut writer = writer;
    let options = SimpleFileOptions::default().last_modified_time(DateTime::default());
    match writer.inner.start_file(name, options) {
        Ok(_) => Ok(writer),
        Err(e) => Err(e),
    }
}

/// `write_all` on a `ZipWriter`.  Whether the bytes are taken depends on
/// what the writer holds and on the bytes alone.  Where they are, the
/// writer comes back with all of them in the entry begun last, behind what
/// it held.
#[verifier::external_body]
fn writer_write_all(writer: ArchiveWriter, data: &Vec<u8>) -> (r: Result<
    ArchiveWriter,
    std::io::Error,
>)
    requires
        writer_entries(writer).len() > 0,
    ensures
        r is Ok <==> zip_takes(writer_entries(writer), data@),
        r matches Ok(w) ==> writer_entries(w) == with_more_data(writer_entries(writer), data@),
{
    let mut writer = writer;
    match writer.inner.write_all(data) {
        Ok(_) => Ok(writer),
        Err(e) => Err(e),
    }
}

/// `ZipWriter::finish` of the `zip` crate: it closes the last entry, writes
/// the directory and gives the buffer back.  Whether it succeeds, and the
/// buffer where it does, depend on what the writer holds alone.
#[verifier::external_body]
fn writer_finish(writer: ArchiveWriter) -> (r: Result<Vec<u8>, ZipError>)
    ensures
        r is Ok <==> zip_image(writer_entries(writer)) is Some,
        r matches Ok(archive) ==> zip_image(writer_entries(writer)) == Some(archive@),
{
    match writer.inner.finish() {
        Ok(cursor) => Ok(cursor.into_inner()),
        Err(e) => Err(e),
    }
}

/// A project file that was opened: the archive, ready to hand out assets,
/// and the bytes of the project entry.
#[derive(Debug)]
pub struct OpenedProjectFile {
    pub archive: ProjectArchive,
    pub payload: Vec<u8>,
}

/// One entry that is to be written: its name and its content.
#[derive(Debug)]
pub struct ArchiveEntry<'a> {
    pub name: String,
    pub data: &'a Vec<u8>,
}

impl<'a> View for ArchiveEntry<'a> {
    type V = EntryView;

    open spec fn view(&self) -> EntryView {
        EntryView { name: self.name@, data: self.data@ }
    }
}

/// The entries of a list as values, in order.
pub open spec fn entry_views(entries: Seq<ArchiveEntry>) -> Seq<EntryView> {
    entries.map_values(|e: ArchiveEntry| e@)
}

/// View of optional bytes.
pub open spec fn bytes_of(b: Option<Vec<u8>>) -> Option<Seq<u8>> {
    match b {
        Some(v) => Some(v@),
        None => None,
    }
}

/// The entry of an asset: none unless both its name and its bytes are
/// there.
pub open spec fn asset_entries(name: Option<Seq<char>>, bytes: Option<Seq<u8>>) -> Seq<EntryView> {
    if name is Some && bytes is Some {
        seq![EntryView { name: asset_entry_name(name->0), data: bytes->0 }]
    } else {
        Seq::empty()
    }
}

/// The entries of a project file: the project under its fixed name, then
/// the overview image, then the drawing.
pub open spec fn file_entries(
    payload: Seq<u8>,
    overview_image: Option<Seq<char>>,
    overview_bytes: Option<Seq<u8>>,
    overlay_pdf: Option<Seq<char>>,
    overlay_bytes: Option<Seq<u8>>,
) -> Seq<EntryView> {
    seq![EntryView { name: PROJECT_ENTRY@, data: payload }] + asset_entries(
        overview_image,
        overview_bytes,
    ) + asset_entries(overlay_pdf, overlay_bytes)
}

/// The entries that a project file is made of.
pub fn plan_entries<'a>(
    payload: &'a Vec<u8>,
    overview_image: &Option<String>,
    overview_bytes: &'a Option<Vec<u8>>,
    overlay_pdf: &Option<String>,
    overlay_bytes: &'a Option<Vec<u8>>,
) -> (r: Vec<ArchiveEntry<'a>>)
    ensures
        entry_views(r@) == file_entries(
            payload@,
            text_of(*overview_image),
            bytes_of(*overview_bytes),
            text_of(*overlay_pdf),
            bytes_of(*overlay_bytes),
        ),
{
    let mut entries: Vec<ArchiveEntry<'a>> = Vec::new();
    entries.push(ArchiveEntry { name: PROJECT_ENTRY.to_owned(), data: payload });
    let ghost first = entry_views(entries@);
    match overview_image {
        Some(n) => match overview_bytes {
            Some(b) => {
                entries.push(ArchiveEntry { name: asset_entry(n.as_str()), data: b });
            },
            None => {},
        },
        None => {},
    }
    let ghost second = entry_views(entries@);
    match overlay_pdf {
        Some(n) => match overlay_bytes {
            Some(b) => {
                entries.push(ArchiveEntry { name: asset_entry(n.as_str()), data: b });
            },
            None => {},
        },
        None => {},
    }
    proof {
        let a = seq![EntryView { name: PROJECT_ENTRY@, data: payload@ }];
        let b = asset_entries(text_of(*overview_image), bytes_of(*overview_bytes));
        let c = asset_entries(text_of(*overlay_pdf), bytes_of(*overlay_bytes));
        assert(first =~= a);
        assert(second =~= a + b);
        assert(entry_views(entries@) =~= a + b + c);
    }
    entries
}

/// Every name of `entries` can be recorded in an archive.
pub open spec fn names_fit(entries: Seq<EntryView>) -> bool {
    forall|i: int| 0 <= i < entries.len() ==> name_fits((#[trigger] entries[i]).name)
}

/// What stops the entry `e` from being written behind the entries `held`:
/// the archive error where it cannot be begun, the input and output error
/// where its content is not taken.
pub open spec fn entry_fault(held: Seq<EntryView>, e: EntryView) -> Option<FaultKind> {
    if !zip_begins(held, e.name) {
        Some(FaultKind::Zip)
    } else if !zip_takes(held.push(begun_entry(e.name)), e.data) {
        Some(FaultKind::Io)
    } else {
        None
    }
}

/// What stops the entries from being written one after the other: the
/// fault of the first of them that has one.
pub open spec fn entries_fault(entries: Seq<EntryView>) -> Option<FaultKind>
    decreases entries.len(),
{
    if entries.len() == 0 {
        None
    } else {
        match entries_fault(entries.drop_last()) {
            Some(f) => Some(f),
            None => entry_fault(entries.drop_last(), entries.last()),
        }
    }
}

/// What stops an archive of the entries from being written: a name that
/// does not fit, before anything is written; else the fault of the first
/// entry that has one; else the archive error where the writer cannot be
/// finished.
pub open spec fn write_fault(entries: Seq<EntryView>) -> Option<FaultKind> {
    if !names_fit(entries) {
        Some(FaultKind::NameTooLong)
    } else {
        match entries_fault(entries) {
            Some(f) => Some(f),
            None => if zip_image(entries) is Some {
                None
            } else {
                Some(FaultKind::Zip)
            },
        }
    }
}

/// An archive of the entries can be written: every name fits, and the
/// `zip` crate begins every entry, takes its content and finishes.
pub open spec fn zip_writable(entries: Seq<EntryView>) -> bool {
    write_fault(entries) is None
}

/// A fault among the first entries is the fault of all the entries.
proof fn lemma_fault_stays(entries: Seq<EntryView>, k: int)
    requires
        0 <= k <= entries.len(),
        entries_fault(entries.take(k)) is Some,
    ensures
        entries_fault(entries) == entries_fault(entries.take(k)),
    decreases entries.len() - k,
{
    if k < entries.len() {
        assert(entries.take(k + 1).drop_last() =~= entries.take(k));
        lemma_fault_stays(entries, k + 1);
    } else {
        assert(entries.take(k) =~= entries);
    }
}

/// Whether every name of `entries` can be recorded in an archive.
pub fn all_names_fit(entries: &Vec<ArchiveEntry>) -> (r: bool)
    ensures
        r == names_fit(entry_views(entries@)),
{
    let mut i: usize = 0;
    while i < entries.len()
        invariant
            i <= entries.len(),
            forall|j: int| 0 <= j < i ==> name_fits((#[trigger] entry_views(entries@)[j]).name),
        decreases entries.len() - i,
    {
        if entries[i].name.as_str().as_bytes().len() > MAX_ENTRY_NAME_BYTES {
            assert(!name_fits(entry_views(entries@)[i as int].name));
            return false;
        }
        i += 1;
    }
    true
}

/// Writes the entries into an archive in memory, in their order: each is
/// begun under its name and handed its content, and the writer is
/// finished.  A name that does not fit is refused before anything is
/// written.  Every other step is the `zip` crate's; the first that fails
/// decides the error, and where none fails what comes back is the archive
/// of exactly these entries.
pub fn write_archive(entries: &Vec<ArchiveEntry>) -> (r: Result<Vec<u8>, CodecError>)
    ensures
        r is Ok <==> zip_writable(entry_views(entries@)),
        r matches Ok(archive) ==> zip_image(entry_views(entries@)) == Some(archive@),
        r matches Err(e) ==> Some(e.kind_of()) == write_fault(entry_views(entries@)),
{
    let ghost views = entry_views(entries@);
    if !all_names_fit(entries) {
        return Err(CodecError::NameTooLong);
    }
    let mut writer = writer_new();
    let mut i: usize = 0;
    proof {
        assert(writer_entries(writer) =~= views.take(0));
    }
    while i < entries.len()
        invariant
            i <= entries.len(),
            views == entry_views(entries@),
            names_fit(views),
            writer_entries(writer) == views.take(i as int),
            entries_fault(views.take(i as int)) is None,
        decreases entries.len() - i,
    {
        let ghost held = writer_entries(writer);
        let ghost e = views[i as int];
        proof {
            assert(views.take(i as int + 1).drop_last() =~= held);
            assert(views.take(i as int + 1).last() == e);
            assert(name_fits(e.name));
        }
        writer = match writer_start_file(writer, entries[i].name.as_str()) {
            Ok(w) => w,
            Err(err) => {
                proof {
                    lemma_fault_stays(views, i as int + 1);
                }
                return Err(CodecError::Zip(err));
            },
        };
        writer = match writer_write_all(writer, entries[i].data) {
            Ok(w) => w,
            Err(err) => {
                proof {
                    lemma_fault_stays(views, i as int + 1);
                }
                return Err(CodecError::Io(err));
            },
        };
        proof {
            let begun = held.push(begun_entry(e.name));
            assert(begun.drop_last() =~= held);
            assert(Seq::<u8>::empty() + e.data =~= e.data);
            assert(writer_entries(writer) =~= held.push(e));
            assert(views.take(i as int + 1) =~= held.push(e));
        }
        i += 1;
    }
    proof {
        assert(views.take(i as int) =~= views);
    }
    match writer_finish(writer) {
        Ok(archive) => Ok(archive),
        Err(err) => Err(CodecError::Zip(err)),
    }
}

/// The project file for an archive: the byte transform over all of it.
pub fn seal_archive(archive: Vec<u8>) -> (file: Vec<u8>)
    ensures
        file@ == obfuscated(archive@),
{
    let mut file = archive;
    obfuscate(&mut file);
    file
}

/// The project file for a project text and its assets: the archive of
/// the file's entries, every byte combined with the key; `None` where
/// there is no such archive.
pub open spec fn project_file(
    payload: Seq<u8>,
    overview_image: Option<Seq<char>>,
    overview_bytes: Option<Seq<u8>>,
    overlay_pdf: Option<Seq<char>>,
    overlay_bytes: Option<Seq<u8>>,
) -> Option<Seq<u8>> {
    match zip_image(
        file_entries(payload, overview_image, overview_bytes, overlay_pdf, overlay_bytes),
    ) {
        Some(archive) => Some(obfuscated(archive)),
        None => None,
    }
}

/// Builds a project file: an archive of the entries that `plan_entries`
/// gives, then the byte transform over all of it.  It succeeds exactly
/// where an archive of these entries can be written, and says what stood
/// in the way where it cannot.
pub fn encode_project_file(
    payload: &Vec<u8>,
    overview_image: &Option<String>,
    overview_bytes: &Option<Vec<u8>>,
    overlay_pdf: &Option<String>,
    overlay_bytes: &Option<Vec<u8>>,
) -> (r: Result<Vec<u8>, CodecError>)
    ensures
        r is Ok <==> zip_writable(
            file_entries(
                payload@,
                text_of(*overview_image),
                bytes_of(*overview_bytes),
                text_of(*overlay_pdf),
                bytes_of(*overlay_bytes),
            ),
        ),
        r matches Ok(file) ==> project_file(
            payload@,
            text_of(*overview_image),
            bytes_of(*overview_bytes),
            text_of(*overlay_pdf),
            bytes_of(*overlay_bytes),
        ) == Some(file@),
        r matches Err(e) ==> Some(e.kind_of()) == write_fault(
            file_entries(
                payload@,
                text_of(*overview_image),
                bytes_of(*overview_bytes),
                text_of(*overlay_pdf),
                bytes_of(*overlay_bytes),
            ),
        ),
{
    let entries = plan_entries(payload, overview_image, overview_bytes, overlay_pdf, overlay_bytes);
    match write_archive(&entries) {
        Ok(archive) => Ok(seal_archive(archive)),
        Err(e) => Err(e),
    }
}

/// The file opens: after the byte transform it is an archive whose
/// project entry is found and can be read.
pub open spec fn project_file_opens(content: Seq<u8>) -> bool {
    let plain = obfuscated(content);
    &&& zip_directory_ok(plain)
    &&& zip_entry_found(plain, PROJECT_ENTRY@)
    &&& zip_entry_bytes(plain, PROJECT_ENTRY@) is Some
}

/// Opens a project file: undoes the byte transform, opens the archive and
/// reads the project entry.  It fails with `Zip` where the bytes are no
/// archive or the project entry is not found, with `Io` where the entry
/// cannot be read to its end.
pub fn open_project_file(content: Vec<u8>) -> (r: Result<OpenedProjectFile, CodecError>)
    ensures
        r is Ok <==> project_file_opens(content@),
        r matches Ok(f) ==> f.archive.source() == obfuscated(content@) && Some(f.payload@)
            == zip_entry_bytes(obfuscated(content@), PROJECT_ENTRY@),
        r matches Err(e) ==> e.kind_of() == (if zip_directory_ok(obfuscated(content@))
            && zip_entry_found(obfuscated(content@), PROJECT_ENTRY@) {
            FaultKind::Io
        } else {
            FaultKind::Zip
        }),
{
    let mut content = content;
    obfuscate(&mut content);
    let mut archive = match archive_open(content) {
        Ok(a) => a,
        Err(e) => {
            return Err(CodecError::Zip(e));
        },
    };
    match archive_read(&mut archive, PROJECT_ENTRY) {
        EntryRead::Found(payload) => Ok(OpenedProjectFile { archive, payload }),
        EntryRead::Missing(e) => Err(CodecError::Zip(e)),
        EntryRead::Broken(e) => Err(CodecError::Io(e)),
    }
}

/// What reading the asset `name` from an archive over `source` yields: no
/// asset where the project names none or the archive does not hold it.
pub open spec fn asset_of(source: Seq<u8>, name: Option<Seq<char>>) -> Option<Option<Seq<u8>>> {
    match name {
        None => Some(None),
        Some(n) => if !zip_entry_found(source, asset_entry_name(n)) {
            Some(None)
        } else {
            match zip_entry_bytes(source, asset_entry_name(n)) {
                Some(b) => Some(Some(b)),
                None => None,
            }
        },
    }
}

/// Reads the asset that the project refers to by `name`.  A project that
/// names no asset has none, and an asset that the archive does not hold
/// counts as absent; only an entry that is found and cannot be read to its
/// end is an error.
pub fn read_asset(archive: &mut ProjectArchive, name: &Option<String>) -> (r: Result<
    Option<Vec<u8>>,
    CodecError,
>)
    ensures
        final(archive).source() == old(archive).source(),
        r is Ok <==> asset_of(old(archive).source(), text_of(*name)) is Some,
        r matches Ok(b) ==> Some(bytes_of(b)) == asset_of(old(archive).source(), text_of(*name)),
        r matches Err(e) ==> e is Io,
{
    match name {
        None => Ok(None),
        Some(n) => {
            let entry = asset_entry(n.as_str());
            match archive_read(archive, entry.as_str()) {
                EntryRead::Found(bytes) => Ok(Some(bytes)),
                EntryRead::Missing(_) => Ok(None),
                EntryRead::Broken(e) => Err(CodecError::Io(e)),
            }
        },
    }
}

/// The archive gives back the entries: it opens, each entry is found
/// under its name and read with its content, and no other name is found.
pub open spec fn gives_back(archive: Seq<u8>, entries: Seq<EntryView>) -> bool {
    &&& zip_directory_ok(archive)
    &&& forall|i: int|
        0 <= i < entries.len() ==> zip_entry_found(archive, (#[trigger] entries[i]).name)
            && zip_entry_bytes(archive, entries[i].name) == Some(entries[i].data)
    &&& forall|name: Seq<char>| #[trigger]
        zip_entry_found(archive, name) ==> exists|i: int|
            0 <= i < entries.len() && (#[trigger] entries[i]).name == name
}

/// The name of an asset's entry names the asset, and is never the name of
/// the project's entry.
pub proof fn lemma_asset_entry_names(n: Seq<char>, m: Seq<char>)
    ensures
        asset_entry_name(n) != PROJECT_ENTRY@,
        asset_entry_name(n) == asset_entry_name(m) ==> n == m,
{
    reveal_strlit("assets/");
    reveal_strlit("project.json");
    assert(asset_entry_name(n)[0] == 'a');
    assert(PROJECT_ENTRY@[0] == 'p');
    if asset_entry_name(n) == asset_entry_name(m) {
        assert(asset_entry_name(n).len() == asset_entry_name(m).len());
        assert forall|i: int| 0 <= i < n.len() implies n[i] == m[i] by {
            assert(asset_entry_name(n)[7 + i] == n[i]);
            assert(asset_entry_name(m)[7 + i] == m[i]);
        }
        assert(n =~= m);
    }
}

/// What is read from a project file is what was written into it, as far
/// as the `zip` crate's archive gives back its entries: the file opens,
/// the project entry holds the project text, an asset that was written
/// is read with its bytes, and an asset that was not written is absent.
/// That the archive gives back its entries is the crate's work, and is
/// taken here as the condition, not claimed.
pub proof fn lemma_project_file_reads_back(
    payload: Seq<u8>,
    overview_image: Option<Seq<char>>,
    overview_bytes: Option<Seq<u8>>,
    overlay_pdf: Option<Seq<char>>,
    overlay_bytes: Option<Seq<u8>>,
    archive: Seq<u8>,
)
    ensures
        ({
            let entries = file_entries(
                payload,
                overview_image,
                overview_bytes,
                overlay_pdf,
                overlay_bytes,
            );
            let file = obfuscated(archive);
            let overview_stored = overview_image is Some && overview_bytes is Some;
            let overlay_stored = overlay_pdf is Some && overlay_bytes is Some;
            zip_image(entries) == Some(archive) && gives_back(archive, entries) ==> {
                &&& project_file(
                    payload,
                    overview_image,
                    overview_bytes,
                    overlay_pdf,
                    overlay_bytes,
                ) == Some(file)
                &&& obfuscated(file) == archive
                &&& project_file_opens(file)
                &&& zip_entry_bytes(obfuscated(file), PROJECT_ENTRY@) == Some(payload)
                &&& overview_stored ==> asset_of(obfuscated(file), overview_image) == Some(
                    overview_bytes,
                )
                &&& overlay_stored ==> asset_of(obfuscated(file), overlay_pdf) == Some(
                    overlay_bytes,
                )
                &&& !overview_stored && !(overlay_stored && overlay_pdf == overview_image)
                    ==> asset_of(obfuscated(file), overview_image) == Some(None::<Seq<u8>>)
                &&& !overlay_stored && !(overview_stored && overview_image == overlay_pdf)
                    ==> asset_of(obfuscated(file), overlay_pdf) == Some(None::<Seq<u8>>)
            }
        }),
{
    let entries = file_entries(payload, overview_image, overview_bytes, overlay_pdf, overlay_bytes);
    let file = obfuscated(archive);
    lemma_obfuscation_is_involution(archive);
    let overview_stored = overview_image is Some && overview_bytes is Some;
    let overlay_stored = overlay_pdf is Some && overlay_bytes is Some;
    let first = seq![EntryView { name: PROJECT_ENTRY@, data: payload }];
    let second = asset_entries(overview_image, overview_bytes);
    let third = asset_entries(overlay_pdf, overlay_bytes);
    assert(entries == first + second + third);
    if gives_back(archive, entries) {
        assert(entries[0] == EntryView { name: PROJECT_ENTRY@, data: payload });
        if overview_stored {
            assert(entries[1] == EntryView {
                name: asset_entry_name(overview_image->0),
                data: overview_bytes->0,
            });
        }
        if overlay_stored {
            let at = entries.len() - 1;
            assert(entries[at] == EntryView {
                name: asset_entry_name(overlay_pdf->0),
                data: overlay_bytes->0,
            });
        }
        if overview_image is Some && !overview_stored && !(overlay_stored && overlay_pdf
            == overview_image) {
            let name = asset_entry_name(overview_image->0);
            if zip_entry_found(archive, name) {
                let i = choose|i: int| 0 <= i < entries.len() && (#[trigger] entries[i]).name == name;
                lemma_asset_entry_names(overview_image->0, overview_image->0);
                if overlay_stored {
                    lemma_asset_entry_names(overview_image->0, overlay_pdf->0);
                }
                assert(false);
            }
        }
        if overlay_pdf is Some && !overlay_stored && !(overview_stored && overview_image
            == overlay_pdf) {
            let name = asset_entry_name(overlay_pdf->0);
            if zip_entry_found(archive, name) {
                let i = choose|i: int| 0 <= i < entries.len() && (#[trigger] entries[i]).name == name;
                lemma_asset_entry_names(overlay_pdf->0, overlay_pdf->0);
                if overview_stored {
                    lemma_asset_entry_names(overlay_pdf->0, overview_image->0);
                }
                assert(false);
            }
        }
    }
}

} // verus!

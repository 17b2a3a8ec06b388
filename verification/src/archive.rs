//! The archive codec: turns archive bytes into tree entries and back.
//!
//! Reading an archive never touches the tree: the whole archive is decoded
//! first, so a corrupt archive is refused before anything is written. Every
//! entry handed out has a path that stays below the directory it is
//! extracted to.
//! Packing always produces a gzip-compressed tar stream, and hands it out
//! only after reading it back and finding the entries it was given.
//!
//! Paths are slash-delimited throughout. The zip decoder joins the parts of
//! a member's name by the separator of the platform the crate is built for,
//! so this codec is for platforms whose separator is the slash.

use crate::format::Format;
use crate::path::{confined, is_confined, is_file_name, names_file};
use crate::text::{same_bytes, text_from_utf8};
use crate::tree::{
    overlay, tree_of, views, ContentTree, EntryKind, EntryView, TreeEntry, TreeView,
};
use vstd::prelude::*;
use vstd::utf8::{decode_utf8, encode_utf8, valid_utf8};

verus! {

/// The tar type flag of a regular file, the character `0`.
pub const TAR_REGULAR: u8 = 0x30;

/// The tar type flag of a directory, the character `5`.
pub const TAR_DIRECTORY: u8 = 0x35;

/// The permission bits recorded for a packed file.
pub const FILE_MODE: u32 = 0o644;

/// The permission bits recorded for a packed directory.
pub const DIRECTORY_MODE: u32 = 0o755;

/// The highest compression level the codec accepts.
pub const MAX_LEVEL: u32 = 9;

/// The compression level used for backup snapshots: fastest.
pub const FAST_LEVEL: u32 = 1;

/// Why an archive could not be read or written.
#[derive(Clone, Copy, Debug, PartialEq, Eq, Structural)]
pub enum ArchiveError {
    /// The bytes are not a readable archive of the stated format.
    Malformed,
    /// An entry to extract has a path that is not text.
    UnreadableEntry,
    /// No codec is available for the format.
    UnsupportedFormat,
    /// The compression level is above [`MAX_LEVEL`].
    UnsupportedLevel,
    /// An entry has a path that leaves the directory it is extracted to, is
    /// a file whose path names that directory itself or ends in a slash, or
    /// cannot be stored so that it reads back as it was given.
    UnsupportedEntry,
}

/// One member of a tar stream as it was read: raw path, type flag, content.
#[derive(Debug)]
pub struct TarMember {
    pub path: Vec<u8>,
    pub type_flag: u8,
    pub data: Vec<u8>,
}

impl View for TarMember {
    type V = (Seq<u8>, u8, Seq<u8>);

    open spec fn view(&self) -> (Seq<u8>, u8, Seq<u8>) {
        (self.path@, self.type_flag, self.data@)
    }
}

/// One member to write into a tar stream: path, type flag, permission bits
/// and content.
#[derive(Debug)]
pub struct TarInput {
    pub path: String,
    pub type_flag: u8,
    pub mode: u32,
    pub data: Vec<u8>,
}

impl View for TarInput {
    type V = (Seq<char>, u8, u32, Seq<u8>);

    open spec fn view(&self) -> (Seq<char>, u8, u32, Seq<u8>) {
        (self.path@, self.type_flag, self.mode, self.data@)
    }
}

/// One member of a zip archive as it was read: sanitised path, whether it
/// names a directory, content.
#[derive(Debug)]
pub struct ZipMember {
    pub path: String,
    pub is_dir: bool,
    pub data: Vec<u8>,
}

impl View for ZipMember {
    type V = (Seq<char>, bool, Seq<u8>);

    open spec fn view(&self) -> (Seq<char>, bool, Seq<u8>) {
        (self.path@, self.is_dir, self.data@)
    }
}

/// The models of tar members, in order.
pub open spec fn tar_views(members: Seq<TarMember>) -> Seq<(Seq<u8>, u8, Seq<u8>)> {
    Seq::new(members.len(), |i: int| members[i]@)
}

/// The models of tar inputs, in order.
pub open spec fn input_views(inputs: Seq<TarInput>) -> Seq<(Seq<char>, u8, u32, Seq<u8>)> {
    Seq::new(inputs.len(), |i: int| inputs[i]@)
}

/// The models of zip members, in order.
pub open spec fn zip_views(members: Seq<ZipMember>) -> Seq<(Seq<char>, bool, Seq<u8>)> {
    Seq::new(members.len(), |i: int| members[i]@)
}

/// The members that the tar and gzip decoders find in `archive`, in archive
/// order, or `None` where they report an error.
pub uninterp spec fn tar_gz_members(archive: Seq<u8>) -> Option<Seq<(Seq<u8>, u8, Seq<u8>)>>;

/// The members that the zip decoder finds in `archive` when every member is
/// opened with the empty password, in archive order, or `None` where it
/// reports an error or withholds a member. Each path is the member's name
/// cut down to its plain components and joined by the separator of the
/// platform the crate is built for. This library is for platforms whose
/// separator is `/`: on another, the paths it hands out are not
/// slash-delimited.
pub uninterp spec fn zip_members(archive: Seq<u8>) -> Option<Seq<(Seq<char>, bool, Seq<u8>)>>;

/// The gzip-compressed tar stream that the encoders produce for `members` at
/// `level`, or `None` where they report an error.
pub uninterp spec fn tar_gz_archive(
    members: Seq<(Seq<char>, u8, u32, Seq<u8>)>,
    level: u32,
) -> Option<Seq<u8>>;

/// Decodes a gzip-compressed tar stream held in memory with
/// `flate2::read::GzDecoder` and `tar::Archive::entries`, and reads of every
/// member its `path_bytes`, the byte of its header's `entry_type` and its
/// content. Nothing is claimed of the outcome beyond its name: the same bytes
/// decode to the same members, and any error of the decoders gives `None`.
#[verifier::external_body]
fn read_tar_gz(archive: &[u8]) -> (members: Option<Vec<TarMember>>)
    ensures
        match members {
            Some(found) => tar_gz_members(archive@) == Some(tar_views(found@)),
            None => tar_gz_members(archive@) is None,
        },
{
    let mut reader = tar::Archive::new(flate2::read::GzDecoder::new(archive));
    let mut members = Vec::new();
    for entry in reader.entries().ok()? {
        let mut entry = entry.ok()?;
        let path = entry.path_bytes().into_owned();
        let type_flag = entry.header().entry_type().as_byte();
        let mut data = Vec::new();
        std::io::Read::read_to_end(&mut entry, &mut data).ok()?;
        members.push(TarMember { path, type_flag, data });
    }
    Some(members)
}

/// Decodes a zip archive held in memory with `zip::ZipArchive`, opens every
/// member with `by_index_decrypt` and the empty password, and reads of it
/// its `mangled_name`, its `is_dir` and its content. A member that is not
/// encrypted is read as it is; one that is encrypted is tried with the empty
/// password. Nothing is claimed of the outcome beyond its name: the same
/// bytes decode to the same members, and `None` stands for every other
/// outcome: an error of the decoder, a member that the password does not
/// open, a member that carries information on an encryption the decoder
/// cannot undo, content that fails its checksum.
#[verifier::external_body]
fn read_zip(archive: &[u8]) -> (members: Option<Vec<ZipMember>>)
    ensures
        match members {
            Some(found) => zip_members(archive@) == Some(zip_views(found@)),
            None => zip_members(archive@) is None,
        },
{
    let mut reader = zip::ZipArchive::new(std::io::Cursor::new(archive)).ok()?;
    let mut members = Vec::new();
    for index in 0..reader.len() {
        let mut file = reader.by_index_decrypt(index, b"").ok()?.ok()?;
        let path = file.mangled_name().to_string_lossy().into_owned();
        let is_dir = file.is_dir();
        let mut data = Vec::new();
        std::io::Read::read_to_end(&mut file, &mut data).ok()?;
        members.push(ZipMember { path, is_dir, data });
    }
    Some(members)
}

/// Encodes members as a tar stream with `tar::Builder::append_data`, on
/// headers made by `tar::Header::new_gnu` that carry each member's size, type
/// flag and permission bits, and compresses it with
/// `flate2::write::GzEncoder` at `level`. Nothing is claimed of the outcome
/// beyond its name: the same members and level give the same bytes, and any
/// error of the encoders gives `None`. Levels above nine are left out because
/// the compressor may refuse them by panicking.
#[verifier::external_body]
fn write_tar_gz(inputs: &Vec<TarInput>, level: u32) -> (archive: Option<Vec<u8>>)
    requires
        level <= MAX_LEVEL,
    ensures
        match archive {
            Some(bytes) => tar_gz_archive(input_views(inputs@), level) == Some(bytes@),
            None => tar_gz_archive(input_views(inputs@), level) is None,
        },
{
    let gz = flate2::write::GzEncoder::new(Vec::new(), flate2::Compression::new(level));
    let mut builder = tar::Builder::new(gz);
    for input in inputs.iter() {
        let mut header = tar::Header::new_gnu();
        header.set_size(input.data.len() as u64);
        header.set_entry_type(tar::EntryType::new(input.type_flag));
        header.set_mode(input.mode);
        builder.append_data(&mut header, input.path.as_str(), input.data.as_slice()).ok()?;
    }
    builder.into_inner().ok()?.finish().ok()
}

/// The kind of tree entry a tar type flag stands for. Anything but a regular
/// file or a directory is not extracted.
pub open spec fn tar_kind_spec(type_flag: u8) -> Option<EntryKind> {
    if type_flag == TAR_REGULAR {
        Some(EntryKind::File)
    } else if type_flag == TAR_DIRECTORY {
        Some(EntryKind::Directory)
    } else {
        None
    }
}

/// Returns the kind of tree entry a tar type flag stands for.
pub fn tar_kind(type_flag: u8) -> (kind: Option<EntryKind>)
    ensures
        kind == tar_kind_spec(type_flag),
{
    if type_flag == TAR_REGULAR {
        Some(EntryKind::File)
    } else if type_flag == TAR_DIRECTORY {
        Some(EntryKind::Directory)
    } else {
        None
    }
}

/// The bytes an entry of `kind` carries: a directory carries none.
pub open spec fn payload(kind: EntryKind, data: Seq<u8>) -> Seq<u8> {
    match kind {
        EntryKind::File => data,
        EntryKind::Directory => Seq::empty(),
    }
}

/// An entry of `kind` at `path` can be extracted: the path stays below the
/// directory it is extracted to, and the path of a file names a file there,
/// not the directory itself nor, by a slash at its end, a directory.
pub open spec fn extractable(path: Seq<char>, kind: EntryKind) -> bool {
    match kind {
        EntryKind::File => names_file(path),
        EntryKind::Directory => confined(path),
    }
}

/// Whether an entry of `kind` at `path` can be extracted.
pub fn is_extractable(path: &str, kind: EntryKind) -> (ok: bool)
    ensures
        ok == extractable(path@, kind),
{
    match kind {
        EntryKind::File => is_file_name(path),
        EntryKind::Directory => is_confined(path),
    }
}

/// What one tar member contributes: nothing where its type is not
/// extracted; else an entry, provided its path is text and the entry can be
/// extracted.
pub open spec fn tar_entry_spec(member: (Seq<u8>, u8, Seq<u8>)) -> Result<
    Option<EntryView>,
    ArchiveError,
> {
    match tar_kind_spec(member.1) {
        None => Ok(None),
        Some(kind) => if !valid_utf8(member.0) {
            Err(ArchiveError::UnreadableEntry)
        } else if !extractable(decode_utf8(member.0), kind) {
            Err(ArchiveError::UnsupportedEntry)
        } else {
            Ok(
                Some(
                    EntryView {
                        path: decode_utf8(member.0),
                        kind,
                        data: payload(kind, member.2),
                    },
                ),
            )
        },
    }
}

/// The entries to extract from tar members, in archive order, or the error
/// that refuses the archive as a whole.
pub open spec fn tar_entries_spec(members: Seq<(Seq<u8>, u8, Seq<u8>)>) -> Result<
    Seq<EntryView>,
    ArchiveError,
>
    decreases members.len(),
{
    if members.len() == 0 {
        Ok(Seq::empty())
    } else {
        match tar_entries_spec(members.drop_last()) {
            Err(e) => Err(e),
            Ok(before) => match tar_entry_spec(members.last()) {
                Err(e) => Err(e),
                Ok(None) => Ok(before),
                Ok(Some(entry)) => Ok(before.push(entry)),
            },
        }
    }
}

/// The kind of entry a zip member stands for.
pub open spec fn zip_kind(is_dir: bool) -> EntryKind {
    if is_dir {
        EntryKind::Directory
    } else {
        EntryKind::File
    }
}

/// The entry a zip member stands for.
pub open spec fn zip_entry_spec(member: (Seq<char>, bool, Seq<u8>)) -> EntryView {
    EntryView {
        path: member.0,
        kind: zip_kind(member.1),
        data: payload(zip_kind(member.1), member.2),
    }
}

/// The entries to extract from zip members: every member, in archive order,
/// provided every one of them can be extracted.
pub open spec fn zip_entries_spec(members: Seq<(Seq<char>, bool, Seq<u8>)>) -> Result<
    Seq<EntryView>,
    ArchiveError,
> {
    if forall|i: int|
        0 <= i < members.len() ==> extractable((#[trigger] members[i]).0, zip_kind(members[i].1)) {
        Ok(Seq::new(members.len(), |i: int| zip_entry_spec(members[i])))
    } else {
        Err(ArchiveError::UnsupportedEntry)
    }
}

/// What unpacking `archive` as `format` extracts, in order, or the error that
/// refuses it.
pub open spec fn unpacked(format: Format, archive: Seq<u8>) -> Result<Seq<EntryView>, ArchiveError> {
    match format {
        Format::TarGz => match tar_gz_members(archive) {
            None => Err(ArchiveError::Malformed),
            Some(members) => tar_entries_spec(members),
        },
        Format::Zip => match zip_members(archive) {
            None => Err(ArchiveError::Malformed),
            Some(members) => zip_entries_spec(members),
        },
        Format::Rar => Err(ArchiveError::UnsupportedFormat),
    }
}

/// An archive of a format that no codec reads is refused whatever it holds,
/// and an archive of any other format is never refused for its format.
pub proof fn lemma_format_decides_support(format: Format, archive: Seq<u8>)
    ensures
        !format.readable_spec() ==> unpacked(format, archive) == Err::<
            Seq<EntryView>,
            ArchiveError,
        >(ArchiveError::UnsupportedFormat),
        format.readable_spec() ==> unpacked(format, archive) != Err::<
            Seq<EntryView>,
            ArchiveError,
        >(ArchiveError::UnsupportedFormat),
{
    match format {
        Format::TarGz => {
            if tar_gz_members(archive) is Some {
                lemma_tar_entries_never_blame_format(tar_gz_members(archive)->0);
            }
        },
        _ => {},
    }
}

/// Selecting entries from tar members never fails for the format.
proof fn lemma_tar_entries_never_blame_format(members: Seq<(Seq<u8>, u8, Seq<u8>)>)
    ensures
        tar_entries_spec(members) != Err::<Seq<EntryView>, ArchiveError>(
            ArchiveError::UnsupportedFormat,
        ),
    decreases members.len(),
{
    if members.len() > 0 {
        lemma_tar_entries_never_blame_format(members.drop_last());
    }
}

/// An error among the first members refuses every longer archive too.
proof fn lemma_tar_error_persists(members: Seq<(Seq<u8>, u8, Seq<u8>)>, n: int)
    requires
        0 <= n <= members.len(),
        tar_entries_spec(members.take(n)) is Err,
    ensures
        tar_entries_spec(members) == tar_entries_spec(members.take(n)),
    decreases members.len() - n,
{
    if n < members.len() {
        assert(members.take(n + 1).drop_last() =~= members.take(n));
        lemma_tar_error_persists(members, n + 1);
    } else {
        assert(members.take(n) =~= members);
    }
}

/// Turns one tar member into the entry it contributes, if any.
pub fn tar_entry(member: TarMember) -> (entry: Result<Option<TreeEntry>, ArchiveError>)
    ensures
        match entry {
            Ok(Some(e)) => tar_entry_spec(member@) == Ok::<Option<EntryView>, ArchiveError>(
                Some(e@),
            ),
            Ok(None) => tar_entry_spec(member@) == Ok::<Option<EntryView>, ArchiveError>(None),
            Err(e) => tar_entry_spec(member@) == Err::<Option<EntryView>, ArchiveError>(e),
        },
{
    match tar_kind(member.type_flag) {
        None => Ok(None),
        Some(kind) => match text_from_utf8(member.path) {
            None => Err(ArchiveError::UnreadableEntry),
            Some(path) => if !is_extractable(path.as_str(), kind) {
                Err(ArchiveError::UnsupportedEntry)
            } else {
                match kind {
                    EntryKind::File => Ok(Some(TreeEntry::file(path, member.data))),
                    EntryKind::Directory => Ok(Some(TreeEntry::directory(path))),
                }
            },
        },
    }
}

/// Selects the entries to extract from the members of a tar stream: regular
/// files and directories in archive order, other members skipped. A selected
/// member whose path is not text, or that cannot be extracted below the
/// directory, refuses the whole archive.
pub fn select_tar_entries(members: Vec<TarMember>) -> (entries: Result<
    Vec<TreeEntry>,
    ArchiveError,
>)
    ensures
        match entries {
            Ok(found) => tar_entries_spec(tar_views(members@)) == Ok::<
                Seq<EntryView>,
                ArchiveError,
            >(views(found@)),
            Err(e) => tar_entries_spec(tar_views(members@)) == Err::<Seq<EntryView>, ArchiveError>(
                e,
            ),
        },
{
    let ghost all = tar_views(members@);
    let ghost given = members@;
    let mut found: Vec<TreeEntry> = Vec::new();
    assert(all.take(0) =~= Seq::empty());
    assert(views(found@) =~= Seq::<EntryView>::empty());
    for member in it: members
        invariant
            it.seq() == given,
            all == tar_views(given),
            tar_entries_spec(all.take(it.index())) == Ok::<Seq<EntryView>, ArchiveError>(
                views(found@),
            ),
    {
        let ghost done = it.index();
        let ghost before = views(found@);
        proof {
            assert(all.take(done + 1).drop_last() =~= all.take(done));
            assert(all.take(done + 1).last() == member@);
        }
        match tar_entry(member) {
            Err(e) => {
                proof {
                    lemma_tar_error_persists(all, done + 1);
                }
                return Err(e);
            },
            Ok(None) => {},
            Ok(Some(entry)) => {
                found.push(entry);
                assert(views(found@) =~= before.push(entry@));
            },
        }
    }
    assert(all.take(all.len() as int) =~= all);
    Ok(found)
}

/// Turns the members of a zip archive into entries: all of them, in order.
/// A member that cannot be extracted below the directory refuses the whole
/// archive.
pub fn zip_entries(members: Vec<ZipMember>) -> (entries: Result<Vec<TreeEntry>, ArchiveError>)
    ensures
        match entries {
            Ok(found) => zip_entries_spec(zip_views(members@)) == Ok::<
                Seq<EntryView>,
                ArchiveError,
            >(views(found@)),
            Err(e) => zip_entries_spec(zip_views(members@)) == Err::<Seq<EntryView>, ArchiveError>(
                e,
            ),
        },
{
    let ghost all = zip_views(members@);
    let ghost given = members@;
    let mut entries: Vec<TreeEntry> = Vec::new();
    for member in it: members
        invariant
            it.seq() == given,
            all == zip_views(given),
            entries.len() == it.index(),
            forall|k: int|
                0 <= k < it.index() ==> extractable((#[trigger] all[k]).0, zip_kind(all[k].1)),
            forall|k: int| 0 <= k < it.index() ==> views(entries@)[k] == zip_entry_spec(all[k]),
    {
        let ghost before = views(entries@);
        assert(all[it.index()] == member@);
        let kind = if member.is_dir {
            EntryKind::Directory
        } else {
            EntryKind::File
        };
        if !is_extractable(member.path.as_str(), kind) {
            return Err(ArchiveError::UnsupportedEntry);
        }
        let entry = match kind {
            EntryKind::Directory => TreeEntry::directory(member.path),
            EntryKind::File => TreeEntry::file(member.path, member.data),
        };
        entries.push(entry);
        assert(views(entries@) =~= before.push(entry@));
    }
    assert(views(entries@) =~= Seq::new(all.len(), |i: int| zip_entry_spec(all[i])));
    Ok(entries)
}

/// Reads a gzip-compressed tar stream and returns the entries to extract:
/// its regular files and directories, in archive order.
pub fn unpack_tar_gz(archive: &[u8]) -> (entries: Result<Vec<TreeEntry>, ArchiveError>)
    ensures
        match entries {
            Ok(found) => unpacked(Format::TarGz, archive@) == Ok::<Seq<EntryView>, ArchiveError>(
                views(found@),
            ),
            Err(e) => unpacked(Format::TarGz, archive@) == Err::<Seq<EntryView>, ArchiveError>(e),
        },
{
    match read_tar_gz(archive) {
        None => Err(ArchiveError::Malformed),
        Some(members) => select_tar_entries(members),
    }
}

/// Reads a zip archive and returns the entries to extract: all its members,
/// in archive order.
pub fn unpack_zip(archive: &[u8]) -> (entries: Result<Vec<TreeEntry>, ArchiveError>)
    ensures
        match entries {
            Ok(found) => unpacked(Format::Zip, archive@) == Ok::<Seq<EntryView>, ArchiveError>(
                views(found@),
            ),
            Err(e) => unpacked(Format::Zip, archive@) == Err::<Seq<EntryView>, ArchiveError>(e),
        },
{
    match read_zip(archive) {
        None => Err(ArchiveError::Malformed),
        Some(members) => zip_entries(members),
    }
}

/// Reads an archive of the given format and returns the entries to extract.
/// The one dispatcher over the closed set of formats; no codec is available
/// for RAR.
pub fn unpack_entries(archive: &[u8], format: Format) -> (entries: Result<
    Vec<TreeEntry>,
    ArchiveError,
>)
    ensures
        match entries {
            Ok(found) => unpacked(format, archive@) == Ok::<Seq<EntryView>, ArchiveError>(
                views(found@),
            ),
            Err(e) => unpacked(format, archive@) == Err::<Seq<EntryView>, ArchiveError>(e),
        },
{
    match format {
        Format::TarGz => unpack_tar_gz(archive),
        Format::Zip => unpack_zip(archive),
        Format::Rar => Err(ArchiveError::UnsupportedFormat),
    }
}

/// Unpacks an archive into `tree` and returns the number of entries
/// extracted. An archive that is refused leaves the tree as it was.
pub fn unpack(archive: &[u8], tree: &mut ContentTree, format: Format) -> (count: Result<
    usize,
    ArchiveError,
>)
    ensures
        match unpacked(format, archive@) {
            Ok(entries) => count == Ok::<usize, ArchiveError>(entries.len() as usize)
                && final(tree)@ == overlay(old(tree)@, entries),
            Err(e) => count == Err::<usize, ArchiveError>(e) && final(tree)@ == old(tree)@,
        },
{
    match unpack_entries(archive, format) {
        Err(e) => Err(e),
        Ok(entries) => {
            let count = entries.len();
            assert(views(entries@).len() == count);
            tree.extract(entries);
            Ok(count)
        },
    }
}

/// The tar type flag under which an entry of `kind` is stored.
pub open spec fn type_flag_spec(kind: EntryKind) -> u8 {
    match kind {
        EntryKind::File => TAR_REGULAR,
        EntryKind::Directory => TAR_DIRECTORY,
    }
}

/// The permission bits under which an entry of `kind` is stored.
pub open spec fn mode_spec(kind: EntryKind) -> u32 {
    match kind {
        EntryKind::File => FILE_MODE,
        EntryKind::Directory => DIRECTORY_MODE,
    }
}

/// The tar members written for `entries`: one per entry, in order, under the
/// entry's own path.
pub open spec fn tar_inputs_spec(entries: Seq<EntryView>) -> Seq<(Seq<char>, u8, u32, Seq<u8>)> {
    Seq::new(
        entries.len(),
        |i: int|
            (
                entries[i].path,
                type_flag_spec(entries[i].kind),
                mode_spec(entries[i].kind),
                payload(entries[i].kind, entries[i].data),
            ),
    )
}

/// Builds the tar members to write for `entries`.
pub fn tar_inputs(entries: &Vec<TreeEntry>) -> (inputs: Vec<TarInput>)
    ensures
        input_views(inputs@) == tar_inputs_spec(views(entries@)),
{
    let mut inputs: Vec<TarInput> = Vec::new();
    let mut i: usize = 0;
    while i < entries.len()
        invariant
            i <= entries.len(),
            inputs.len() == i,
            input_views(inputs@) == tar_inputs_spec(views(entries@)).take(i as int),
        decreases entries.len() - i,
    {
        let ghost before = input_views(inputs@);
        let entry = &entries[i];
        let input = match entry.kind {
            EntryKind::File => TarInput {
                path: entry.path.clone(),
                type_flag: TAR_REGULAR,
                mode: FILE_MODE,
                data: entry.data.clone(),
            },
            EntryKind::Directory => TarInput {
                path: entry.path.clone(),
                type_flag: TAR_DIRECTORY,
                mode: DIRECTORY_MODE,
                data: Vec::new(),
            },
        };
        inputs.push(input);
        proof {
            assert(views(entries@)[i as int] == entry@);
            assert(input_views(inputs@) =~= before.push(input@));
            assert(input_views(inputs@) =~= tar_inputs_spec(views(entries@)).take(i as int + 1));
        }
        i += 1;
    }
    assert(tar_inputs_spec(views(entries@)).take(i as int) =~= tar_inputs_spec(views(entries@)));
    inputs
}

/// The members a tar stream must read back as for it to hold `inputs`
/// faithfully: each path as its UTF-8 bytes, with the same flag and content.
pub open spec fn stored(inputs: Seq<(Seq<char>, u8, u32, Seq<u8>)>) -> Seq<(Seq<u8>, u8, Seq<u8>)> {
    Seq::new(inputs.len(), |i: int| (encode_utf8(inputs[i].0), inputs[i].1, inputs[i].3))
}

/// Whether the members read back are the inputs that were written.
pub fn holds_inputs(members: &Vec<TarMember>, inputs: &Vec<TarInput>) -> (faithful: bool)
    ensures
        faithful == (tar_views(members@) == stored(input_views(inputs@))),
{
    if members.len() != inputs.len() {
        assert(tar_views(members@).len() != stored(input_views(inputs@)).len());
        return false;
    }
    let mut i: usize = 0;
    while i < members.len()
        invariant
            members.len() == inputs.len(),
            i <= members.len(),
            forall|k: int|
                0 <= k < i ==> tar_views(members@)[k] == stored(input_views(inputs@))[k],
        decreases members.len() - i,
    {
        let member = &members[i];
        let input = &inputs[i];
        let same = member.type_flag == input.type_flag && same_bytes(
            member.path.as_slice(),
            input.path.as_str().as_bytes(),
        ) && same_bytes(member.data.as_slice(), input.data.as_slice());
        proof {
            assert(tar_views(members@)[i as int] == member@);
            assert(stored(input_views(inputs@))[i as int] == (
                encode_utf8(input.path@),
                input.type_flag,
                input.data@,
            ));
        }
        if !same {
            return false;
        }
        i += 1;
    }
    assert(tar_views(members@) =~= stored(input_views(inputs@)));
    true
}

/// Every entry has a path that stays below the directory it is extracted to.
pub open spec fn all_confined(entries: Seq<EntryView>) -> bool {
    forall|i: int| 0 <= i < entries.len() ==> confined((#[trigger] entries[i]).path)
}

/// Every entry can be extracted below a directory.
pub open spec fn all_extractable(entries: Seq<EntryView>) -> bool {
    forall|i: int|
        0 <= i < entries.len() ==> extractable((#[trigger] entries[i]).path, entries[i].kind)
}

/// Whether every entry can be extracted below a directory.
pub fn entries_extractable(entries: &Vec<TreeEntry>) -> (ok: bool)
    ensures
        ok == all_extractable(views(entries@)),
{
    let mut i: usize = 0;
    while i < entries.len()
        invariant
            i <= entries.len(),
            forall|k: int|
                0 <= k < i ==> extractable(
                    (#[trigger] views(entries@)[k]).path,
                    views(entries@)[k].kind,
                ),
        decreases entries.len() - i,
    {
        assert(views(entries@)[i as int] == entries[i as int]@);
        if !is_extractable(entries[i].path.as_str(), entries[i].kind) {
            return false;
        }
        i += 1;
    }
    true
}

/// What packing `entries` at `level` gives: the stream the encoders produce,
/// provided every entry can be extracted again and the stream reads back as
/// exactly the members written.
pub open spec fn packed(entries: Seq<EntryView>, level: u32) -> Result<Seq<u8>, ArchiveError> {
    if level > MAX_LEVEL {
        Err(ArchiveError::UnsupportedLevel)
    } else if !all_extractable(entries) {
        Err(ArchiveError::UnsupportedEntry)
    } else {
        match tar_gz_archive(tar_inputs_spec(entries), level) {
            Some(archive) => if tar_gz_members(archive) == Some(
                stored(tar_inputs_spec(entries)),
            ) {
                Ok(archive)
            } else {
                Err(ArchiveError::UnsupportedEntry)
            },
            None => Err(ArchiveError::UnsupportedEntry),
        }
    }
}

/// Packs `entries` into a gzip-compressed tar stream, each under its own
/// path with no prefix added or stripped. The stream is read back before it
/// is handed out, so a stream that is returned unpacks to what was packed.
/// Paths are stored as they are given: a path that is not in its plain form
/// may be refused, because the encoder would store it under another. The
/// paths of a [`ContentTree`] are all in their plain form.
pub fn pack_tar_gz(entries: &Vec<TreeEntry>, level: u32) -> (archive: Result<
    Vec<u8>,
    ArchiveError,
>)
    ensures
        match archive {
            Ok(bytes) => packed(views(entries@), level) == Ok::<Seq<u8>, ArchiveError>(bytes@),
            Err(e) => packed(views(entries@), level) == Err::<Seq<u8>, ArchiveError>(e),
        },
{
    if level > MAX_LEVEL {
        return Err(ArchiveError::UnsupportedLevel);
    }
    if !entries_extractable(entries) {
        return Err(ArchiveError::UnsupportedEntry);
    }
    let inputs = tar_inputs(entries);
    match write_tar_gz(&inputs, level) {
        None => Err(ArchiveError::UnsupportedEntry),
        Some(bytes) => match read_tar_gz(bytes.as_slice()) {
            None => Err(ArchiveError::UnsupportedEntry),
            Some(members) => if holds_inputs(&members, &inputs) {
                Ok(bytes)
            } else {
                Err(ArchiveError::UnsupportedEntry)
            },
        },
    }
}

/// Packs a whole tree into a gzip-compressed tar stream: its entries in the
/// order of its listing. A stream that is handed out unpacks, onto an empty
/// tree, to the tree that was packed.
pub fn pack(tree: &ContentTree, level: u32) -> (archive: Result<Vec<u8>, ArchiveError>)
    ensures
        match archive {
            Ok(bytes) => packed(tree.listing(), level) == Ok::<Seq<u8>, ArchiveError>(bytes@),
            Err(e) => packed(tree.listing(), level) == Err::<Seq<u8>, ArchiveError>(e),
        },
        archive matches Ok(bytes) ==> unpacked(Format::TarGz, bytes@) matches Ok(entries)
            && tree_of(entries) == tree@,
{
    let listing = tree.entries();
    let archive = pack_tar_gz(&listing, level);
    proof {
        lemma_pack_then_unpack(views(listing@), level);
    }
    archive
}

/// The entries as they come out of an archive: a directory carries no bytes.
pub open spec fn as_unpacked(entries: Seq<EntryView>) -> Seq<EntryView> {
    Seq::new(
        entries.len(),
        |i: int|
            EntryView {
                path: entries[i].path,
                kind: entries[i].kind,
                data: payload(entries[i].kind, entries[i].data),
            },
    )
}

/// Dropping the bytes of directory entries does not change the tree they
/// are written to.
pub proof fn lemma_overlay_as_unpacked(base: TreeView, entries: Seq<EntryView>)
    ensures
        overlay(base, as_unpacked(entries)) == overlay(base, entries),
    decreases entries.len(),
{
    if entries.len() > 0 {
        lemma_overlay_as_unpacked(base, entries.drop_last());
        assert(as_unpacked(entries).drop_last() =~= as_unpacked(entries.drop_last()));
    }
}

/// Members that read back as they were written select the entries that were
/// packed.
pub proof fn lemma_stored_selects_entries(entries: Seq<EntryView>)
    requires
        all_extractable(entries),
    ensures
        tar_entries_spec(stored(tar_inputs_spec(entries))) == Ok::<Seq<EntryView>, ArchiveError>(
            as_unpacked(entries),
        ),
    decreases entries.len(),
{
    broadcast use vstd::utf8::encode_utf8_valid_utf8, vstd::utf8::encode_utf8_decode_utf8;

    let members = stored(tar_inputs_spec(entries));
    if entries.len() == 0 {
        assert(as_unpacked(entries) =~= Seq::empty());
    } else {
        let rest = entries.drop_last();
        assert(all_extractable(rest)) by {
            assert forall|i: int| 0 <= i < rest.len() implies extractable(
                (#[trigger] rest[i]).path,
                rest[i].kind,
            ) by {
                assert(rest[i] == entries[i]);
            }
        }
        lemma_stored_selects_entries(rest);
        assert(members.drop_last() =~= stored(tar_inputs_spec(rest)));
        let last = entries.last();
        assert(extractable(entries[entries.len() - 1].path, entries[entries.len() - 1].kind));
        assert(members.last() == (
            encode_utf8(last.path),
            type_flag_spec(last.kind),
            payload(last.kind, last.data),
        ));
        assert(as_unpacked(entries) =~= as_unpacked(rest).push(as_unpacked(entries).last()));
    }
}

/// Packing and then unpacking round-trips: a stream that packing hands out
/// unpacks, onto an empty tree, to exactly the tree of the entries packed,
/// with the same paths and the same file contents.
pub proof fn lemma_pack_then_unpack(entries: Seq<EntryView>, level: u32)
    ensures
        packed(entries, level) matches Ok(archive) ==> unpacked(Format::TarGz, archive) == Ok::<
            Seq<EntryView>,
            ArchiveError,
        >(as_unpacked(entries)) && tree_of(as_unpacked(entries)) == tree_of(entries),
{
    if all_extractable(entries) {
        lemma_stored_selects_entries(entries);
    }
    lemma_overlay_as_unpacked(Map::empty(), entries);
}

/// The entries selected from tar members can all be extracted.
proof fn lemma_tar_entries_extractable(members: Seq<(Seq<u8>, u8, Seq<u8>)>)
    ensures
        tar_entries_spec(members) matches Ok(entries) ==> all_extractable(entries),
    decreases members.len(),
{
    if members.len() > 0 {
        lemma_tar_entries_extractable(members.drop_last());
    }
}

/// Whatever is unpacked stays below the directory it is extracted to: every
/// entry that unpacking hands out has a relative path without a step up, and
/// no file among them takes the place of the directory itself.
pub proof fn lemma_unpacked_is_confined(format: Format, archive: Seq<u8>)
    ensures
        unpacked(format, archive) matches Ok(entries) ==> all_confined(entries)
            && all_extractable(entries),
{
    match format {
        Format::TarGz => {
            if tar_gz_members(archive) is Some {
                lemma_tar_entries_extractable(tar_gz_members(archive)->0);
            }
        },
        Format::Zip => {
            if zip_members(archive) is Some {
                let members = zip_members(archive)->0;
                if zip_entries_spec(members) is Ok {
                    let entries = zip_entries_spec(members)->Ok_0;
                    assert forall|i: int| 0 <= i < entries.len() implies extractable(
                        (#[trigger] entries[i]).path,
                        entries[i].kind,
                    ) by {
                        assert(extractable(members[i].0, zip_kind(members[i].1)));
                    }
                }
            }
        },
        Format::Rar => {},
    }
    if unpacked(format, archive) is Ok {
        let entries = unpacked(format, archive)->Ok_0;
        assert forall|i: int| 0 <= i < entries.len() implies confined(
            (#[trigger] entries[i]).path,
        ) by {
            assert(extractable(entries[i].path, entries[i].kind));
        }
    }
}

} // verus!

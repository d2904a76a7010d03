//! The header of an archive and the files that it lists.

use vstd::prelude::*;

use crate::asar::error::{AsarError, AsarErrorSpec};
use crate::digest::{sha256_hex, sha256_hex_bytes};
use crate::json::{lemma_object_view, members_view, parse_json_bytes, parsed_bytes, Json, JsonSpec};
use crate::text::{
    chars_of, concat, eq_ignore_case, joined, lemma_parsed_number, parse_number, parsed_number, str_eq,
    str_eq_ignore_case, texts,
};

verus! {

pub const ASAR_PICKLE_PREFIX_SIZE: usize = 8;

pub const ASAR_MAX_HEADER_SIZE: u32 = 67_108_864;

// ---------------------------------------------------------------------------
// Header

/// The number that four bytes give, the lowest first.
pub open spec fn le32(bytes: Seq<u8>, at: int) -> int {
    bytes[at] as int + 256 * bytes[at + 1] as int + 65_536 * bytes[at + 2] as int + 16_777_216
        * bytes[at + 3] as int
}

pub fn u32_le(bytes: &[u8], offset: usize) -> (value: u32)
    requires
        offset + 4 <= bytes@.len(),
    ensures
        value == le32(bytes@, offset as int),
{
    bytes[offset] as u32 + 256 * bytes[offset + 1] as u32 + 65_536 * bytes[offset + 2] as u32
        + 16_777_216 * bytes[offset + 3] as u32
}

/// The JSON in a header pickle, none where its lengths do not fit.
pub open spec fn header_json_of(pickle: Seq<u8>) -> Option<Seq<u8>> {
    let payload = le32(pickle, 0);
    let length = le32(pickle, 4);
    if payload + 4 > pickle.len() || length > (if payload < 4 {
        0
    } else {
        payload - 4
    }) || 8 + length > pickle.len() {
        None
    } else {
        Some(pickle.subrange(8, 8 + length))
    }
}

/// Header JSON inside the header pickle.
pub fn header_json<'p>(header_pickle: &'p [u8]) -> (json: Result<&'p [u8], AsarError>)
    requires
        header_pickle@.len() >= 8,
    ensures
        match json {
            Ok(json) => header_json_of(header_pickle@) == Some(json@),
            Err(error) => error@ == AsarErrorSpec::InvalidHeaderPickle && header_json_of(
                header_pickle@,
            ) is None,
        },
{
    let payload_size = u32_le(header_pickle, 0);
    let json_size = u32_le(header_pickle, 4);
    let header_size = header_pickle.len() as u64;
    let room: u32 = if payload_size < 4 {
        0
    } else {
        payload_size - 4
    };
    if payload_size as u64 + 4 > header_size || json_size > room || 8 + json_size as u64
        > header_size {
        return Err(AsarError::InvalidHeaderPickle);
    }
    Ok(vstd::slice::slice_subrange(header_pickle, 8, 8 + json_size as usize))
}

// ---------------------------------------------------------------------------
// Entries

/// A file of an archive, for specifications.
pub struct AsarFileSpec {
    pub path: Seq<char>,
    pub size: u64,
    pub offset: u64,
    pub unpacked: bool,
    pub integrity_hash: Option<Seq<char>>,
}

/// A file of an archive.
#[derive(Debug)]
pub struct AsarFile {
    pub path: String,
    pub size: u64,
    pub offset: u64,
    pub unpacked: bool,
    pub integrity_hash: Option<String>,
}

impl View for AsarFile {
    type V = AsarFileSpec;

    open spec fn view(&self) -> AsarFileSpec {
        AsarFileSpec {
            path: self.path@,
            size: self.size,
            offset: self.offset,
            unpacked: self.unpacked,
            integrity_hash: match self.integrity_hash {
                Some(hash) => Some(hash@),
                None => None,
            },
        }
    }
}

pub open spec fn files_view(files: Seq<AsarFile>) -> Seq<AsarFileSpec> {
    files.map_values(|file: AsarFile| file@)
}

/// Files found, up to an error where there is one.
#[verifier::ext_equal]
pub struct Flattened {
    pub files: Seq<AsarFileSpec>,
    pub error: Option<AsarErrorSpec>,
}

/// A name that stands for one file in its directory.
pub open spec fn is_entry_name(name: Seq<char>) -> bool {
    &&& name.len() > 0
    &&& name != "."@
    &&& name != ".."@
    &&& forall|i: int|
        0 <= i < name.len() ==> #[trigger] name[i] != '/' && name[i] != '\\' && name[i] != '\0'
}

pub fn validate_entry_name(name: &str, parent: &str) -> (result: Result<(), AsarError>)
    ensures
        match result {
            Ok(_) => is_entry_name(name@),
            Err(error) => !is_entry_name(name@) && error@ == (AsarErrorSpec::InvalidName {
                name: name@,
                parent: parent@,
            }),
        },
{
    let chars = chars_of(name);
    let mut valid = chars.len() > 0 && !str_eq(name, ".") && !str_eq(name, "..");
    let mut i: usize = 0;
    while i < chars.len() && valid
        invariant
            chars@ == name@,
            i <= chars@.len(),
            valid ==> name@.len() > 0 && name@ != "."@ && name@ != ".."@ && forall|j: int|
                0 <= j < i ==> #[trigger] name@[j] != '/' && name@[j] != '\\' && name@[j] != '\0',
            !valid ==> !is_entry_name(name@),
        decreases chars.len() - i,
    {
        let c = chars[i];
        if c == '/' || c == '\\' || c == '\0' {
            assert(name@[i as int] == c);
            valid = false;
        }
        i += 1;
    }
    if valid {
        Ok(())
    } else {
        Err(AsarError::InvalidName { name: name.to_owned(), parent: parent.to_owned() })
    }
}

/// The path of an entry in its directory.
pub open spec fn entry_path(parent: Seq<char>, name: Seq<char>) -> Seq<char> {
    if parent.len() == 0 {
        name
    } else {
        joined(seq![parent, "/"@, name])
    }
}

fn join_path(parent: &str, name: &str) -> (path: String)
    ensures
        path@ == entry_path(parent@, name@),
{
    if parent.as_bytes().len() == 0 {
        proof {
            crate::text::lemma_encode_injective(parent@, Seq::empty());
        }
        return name.to_owned();
    }
    let parts: [&str; 3] = [parent, "/", name];
    assert(texts(parts@) =~= seq![parent@, "/"@, name@]);
    concat(&parts)
}

/// What the error says with which `str::parse` refuses a text as a `u64`.
pub uninterp spec fn parse_cause(text: Seq<char>) -> Seq<char>;

/// `str::parse` into a `u64`, of a text that it refuses: what its error says, a function of the
/// text.
#[verifier::external_body]
fn parse_problem(text: &str) -> (cause: String)
    requires
        parsed_number(text@, 10, u64::MAX as int) is None,
    ensures
        cause@ == parse_cause(text@),
{
    match text.parse::<u64>() {
        Ok(_) => String::new(),
        Err(error) => error.to_string(),
    }
}

/// The file that a header entry describes.
pub open spec fn described_file(
    entry: JsonSpec,
    path: Seq<char>,
    archive_size: int,
    data_offset: int,
) -> Result<AsarFileSpec, AsarErrorSpec> {
    let size = match entry.get("size"@) {
        Some(size) => size.as_u64(),
        None => None,
    };
    let unpacked = match entry.get("unpacked"@) {
        Some(unpacked) => unpacked.as_bool() == Some(true),
        None => false,
    };
    let offset = if unpacked {
        Some(0int)
    } else {
        match entry.text_at("offset"@) {
            Some(text) => parsed_number(text, 10, u64::MAX as int),
            None => None,
        }
    };
    if size is None {
        Err(AsarErrorSpec::InvalidSize { path })
    } else if !unpacked && entry.text_at("offset"@) is None {
        Err(AsarErrorSpec::MissingOffset { path })
    } else if offset is None {
        Err(
            AsarErrorSpec::InvalidOffset {
                path,
                cause: parse_cause(entry.text_at("offset"@)->0),
            },
        )
    } else if !unpacked && data_offset + offset->0 + size->0 > archive_size {
        Err(AsarErrorSpec::PastArchive { path })
    } else {
        Ok(
            AsarFileSpec {
                path,
                size: size->0,
                offset: offset->0 as u64,
                unpacked,
                integrity_hash: match entry.get("integrity"@) {
                    Some(integrity) => integrity.text_at("hash"@),
                    None => None,
                },
            },
        )
    }
}

fn describe_file(entry: &Json, path: &str, archive_size: u64, data_offset: u64) -> (file: Result<
    AsarFile,
    AsarError,
>)
    ensures
        match file {
            Ok(file) => described_file(
                entry@,
                path@,
                archive_size as int,
                data_offset as int,
            ) == Ok::<AsarFileSpec, AsarErrorSpec>(file@),
            Err(error) => described_file(
                entry@,
                path@,
                archive_size as int,
                data_offset as int,
            ) == Err::<AsarFileSpec, AsarErrorSpec>(error@),
        },
{
    let size = match entry.get("size") {
        Some(size) => size.as_u64(),
        None => None,
    };
    let size = match size {
        Some(size) => size,
        None => {
            return Err(AsarError::InvalidSize { path: path.to_owned() });
        },
    };
    let unpacked = match entry.get("unpacked") {
        Some(unpacked) => match unpacked.as_bool() {
            Some(unpacked) => unpacked,
            None => false,
        },
        None => false,
    };
    let offset: u64 = if unpacked {
        0
    } else {
        match entry.text_at("offset") {
            None => {
                return Err(AsarError::MissingOffset { path: path.to_owned() });
            },
            Some(text) => {
                let digits = chars_of(text);
                assert(digits@.subrange(0, digits@.len() as int) =~= text@);
                match parse_number(&digits, 0, digits.len(), 10, u64::MAX) {
                    Some(offset) => offset,
                    None => {
                        return Err(
                            AsarError::InvalidOffset {
                                path: path.to_owned(),
                                cause: parse_problem(text),
                            },
                        );
                    },
                }
            },
        }
    };
    if !unpacked {
        let fits = match data_offset.checked_add(offset) {
            Some(start) => match start.checked_add(size) {
                Some(end) => end <= archive_size,
                None => false,
            },
            None => false,
        };
        if !fits {
            return Err(AsarError::PastArchive { path: path.to_owned() });
        }
    }
    let integrity_hash = match entry.get("integrity") {
        Some(integrity) => match integrity.text_at("hash") {
            Some(hash) => Some(hash.to_owned()),
            None => None,
        },
        None => None,
    };
    Ok(AsarFile { path: path.to_owned(), size, offset, unpacked, integrity_hash })
}

/// The entries of a directory.
pub open spec fn directory_entries(entry: JsonSpec) -> Option<Seq<(Seq<char>, JsonSpec)>> {
    match entry.get("files"@) {
        Some(files) => files.as_object(),
        None => None,
    }
}

proof fn lemma_member_smaller(members: Seq<(Seq<char>, JsonSpec)>, key: Seq<char>)
    ensures
        crate::json::member(members, key) matches Some(value) ==> exists|k: int|
            0 <= k < members.len() && value == (#[trigger] members[k]).1,
    decreases members.len(),
{
    if members.len() > 0 {
        let rest = members.drop_first();
        lemma_member_smaller(rest, key);
        if members[0].0 != key {
            if let Some(value) = crate::json::member(rest, key) {
                let k = choose|k: int| 0 <= k < rest.len() && value == (#[trigger] rest[k]).1;
                assert(members[k + 1] == rest[k]);
            }
        }
    }
}

/// The entries of a directory are part of it.
pub proof fn lemma_entries_smaller(entry: JsonSpec)
    ensures
        directory_entries(entry) matches Some(entries) ==> decreases_to!(entry => entries),
{
    if let JsonSpec::Object(members) = entry {
        lemma_member_smaller(members, "files"@);
        if let Some(files) = entry.get("files"@) {
            let k = choose|k: int| 0 <= k < members.len() && files == (#[trigger] members[k]).1;
            assert(decreases_to!(entry => entry->Object_0));
            assert(decreases_to!(members => members[k]));
            assert(decreases_to!(members[k] => members[k].1));
            if let JsonSpec::Object(entries) = files {
                assert(decreases_to!(files => files->Object_0));
            }
        }
    }
}

/// The files below a directory, in the order of the header.
pub open spec fn flattened(
    entry: JsonSpec,
    parent: Seq<char>,
    archive_size: int,
    data_offset: int,
) -> Flattened
    decreases entry, 0nat,
{
    match directory_entries(entry) {
        None => Flattened {
            files: Seq::empty(),
            error: Some(AsarErrorSpec::MissingFiles { parent }),
        },
        Some(entries) => {
            proof {
                lemma_entries_smaller(entry);
            }
            flattened_from(entries, 0, parent, archive_size, data_offset)
        },
    }
}

/// The files below the entries of a directory from the `k`-th on.
pub open spec fn flattened_from(
    entries: Seq<(Seq<char>, JsonSpec)>,
    k: int,
    parent: Seq<char>,
    archive_size: int,
    data_offset: int,
) -> Flattened
    decreases entries, (entries.len() - k) as nat,
{
    if !(0 <= k < entries.len()) {
        Flattened { files: Seq::empty(), error: None }
    } else {
        let (name, child) = entries[k];
        let path = entry_path(parent, name);
        let here = if !is_entry_name(name) {
            Flattened {
                files: Seq::empty(),
                error: Some(AsarErrorSpec::InvalidName { name, parent }),
            }
        } else if child.get("files"@) is Some {
            flattened(entries[k].1, path, archive_size, data_offset)
        } else if child.get("link"@) is Some {
            Flattened { files: Seq::empty(), error: None }
        } else {
            match described_file(child, path, archive_size, data_offset) {
                Ok(file) => Flattened { files: seq![file], error: None },
                Err(error) => Flattened { files: Seq::empty(), error: Some(error) },
            }
        };
        if here.error is Some {
            here
        } else {
            let rest = flattened_from(entries, k + 1, parent, archive_size, data_offset);
            Flattened { files: here.files + rest.files, error: rest.error }
        }
    }
}

/// Adds the files below a directory, in the order of the header.
pub fn flatten_files(
    entry: &Json,
    parent: &str,
    archive_size: u64,
    data_offset: u64,
    files: &mut Vec<AsarFile>,
) -> (result: Result<(), AsarError>)
    ensures
        ({
            let found = flattened(entry@, parent@, archive_size as int, data_offset as int);
            &&& files_view(final(files)@) == files_view(old(files)@) + found.files
            &&& match result {
                Ok(_) => found.error is None,
                Err(error) => found.error == Some(error@),
            }
        }),
    decreases entry,
{
    let ghost size = archive_size as int;
    let ghost offset = data_offset as int;
    let ghost first = files_view(files@);
    let ghost found = flattened(entry@, parent@, size, offset);
    let children = match entry.get("files") {
        Some(Json::Object(children)) => children,
        _ => {
            assert(first + Seq::<AsarFileSpec>::empty() =~= first);
            return Err(AsarError::MissingFiles { parent: parent.to_owned() });
        },
    };
    proof {
        lemma_object_view(*children);
    }
    let ghost entries = members_view(children@);
    let mut k: usize = 0;
    assert(found == flattened_from(entries, 0, parent@, size, offset));
    while k < children.len()
        invariant
            size == archive_size,
            offset == data_offset,
            first == files_view(old(files)@),
            found == flattened(entry@, parent@, size, offset),
            entries == members_view(children@),
            decreases_to!(*entry => *children),
            k <= children@.len(),
            first + found.files == files_view(files@) + flattened_from(
                entries,
                k as int,
                parent@,
                size,
                offset,
            ).files,
            found.error == flattened_from(entries, k as int, parent@, size, offset).error,
        decreases children.len() - k,
    {
        let ghost before = files_view(files@);
        let ghost rest = flattened_from(entries, k + 1, parent@, size, offset);
        let name = children[k].0.as_str();
        let child = &children[k].1;
        proof {
            assert(entries[k as int] == (name@, child@));
            assert(decreases_to!(*children => children@));
            assert(decreases_to!(children@ => children@[k as int]));
            assert(decreases_to!(children@[k as int] => children@[k as int].1));
        }
        if let Err(error) = validate_entry_name(name, parent) {
            assert(before + Seq::<AsarFileSpec>::empty() =~= before);
            return Err(error);
        }
        let path = join_path(parent, name);
        if child.get("files").is_some() {
            let result = flatten_files(child, path.as_str(), archive_size, data_offset, files);
            proof {
                let here = flattened(child@, path@, size, offset);
                assert(before + (here.files + rest.files) =~= (before + here.files) + rest.files);
            }
            match result {
                Ok(_) => {},
                Err(error) => {
                    return Err(error);
                },
            }
        } else if child.get("link").is_some() {
            assert(Seq::<AsarFileSpec>::empty() + rest.files =~= rest.files);
        } else {
            match describe_file(child, path.as_str(), archive_size, data_offset) {
                Ok(file) => {
                    let ghost kept = files@;
                    files.push(file);
                    proof {
                        assert(files_view(files@) =~= files_view(kept).push(file@));
                        assert(before + (seq![file@] + rest.files) =~= before.push(file@)
                            + rest.files);
                    }
                },
                Err(error) => {
                    assert(before + Seq::<AsarFileSpec>::empty() =~= before);
                    return Err(error);
                },
            }
        }
        k += 1;
    }
    assert(files_view(files@) + Seq::<AsarFileSpec>::empty() =~= files_view(files@));
    Ok(())
}

/// Every packed file lies inside the archive.
pub proof fn lemma_files_inside(
    entry: JsonSpec,
    parent: Seq<char>,
    archive_size: int,
    data_offset: int,
)
    ensures
        forall|k: int|
            0 <= k < flattened(entry, parent, archive_size, data_offset).files.len() ==> {
                let file = #[trigger] flattened(
                    entry,
                    parent,
                    archive_size,
                    data_offset,
                ).files[k];
                file.unpacked || data_offset + file.offset + file.size <= archive_size
            },
    decreases entry, 0nat,
{
    if let Some(entries) = directory_entries(entry) {
        lemma_entries_smaller(entry);
        lemma_files_inside_from(entries, 0, parent, archive_size, data_offset);
    }
}

proof fn lemma_files_inside_from(
    entries: Seq<(Seq<char>, JsonSpec)>,
    k: int,
    parent: Seq<char>,
    archive_size: int,
    data_offset: int,
)
    requires
        0 <= k,
    ensures
        forall|j: int|
            0 <= j < flattened_from(entries, k, parent, archive_size, data_offset).files.len()
                ==> {
                let file = #[trigger] flattened_from(
                    entries,
                    k,
                    parent,
                    archive_size,
                    data_offset,
                ).files[j];
                file.unpacked || data_offset + file.offset + file.size <= archive_size
            },
    decreases entries, (entries.len() - k) as nat,
{
    if k < entries.len() {
        let path = entry_path(parent, entries[k].0);
        lemma_files_inside(entries[k].1, path, archive_size, data_offset);
        lemma_files_inside_from(entries, k + 1, parent, archive_size, data_offset);
        let below = flattened(entries[k].1, path, archive_size, data_offset).files;
        let rest = flattened_from(entries, k + 1, parent, archive_size, data_offset).files;
        let all = flattened_from(entries, k, parent, archive_size, data_offset).files;
        assert forall|j: int| 0 <= j < all.len() implies {
            let file = #[trigger] all[j];
            file.unpacked || data_offset + file.offset + file.size <= archive_size
        } by {
            let file = all[j];
            if j < below.len() && file == below[j] {
            } else if j >= all.len() - rest.len() {
                assert(file == rest[j - (all.len() - rest.len())]);
            } else {
                if let Some(text) = entries[k].1.text_at("offset"@) {
                    lemma_parsed_number(text, 10, u64::MAX as int);
                }
                assert(described_file(entries[k].1, path, archive_size, data_offset) == Ok::<
                    AsarFileSpec,
                    AsarErrorSpec,
                >(file));
            }
        }
    }
}

// ---------------------------------------------------------------------------
// The whole archive

/// The files of an archive and where their contents start.
pub open spec fn opened(archive: Seq<u8>) -> Result<(Seq<AsarFileSpec>, int), AsarErrorSpec> {
    if archive.len() < 8 {
        Err(AsarErrorSpec::TooShort)
    } else if le32(archive, 0) != 4 {
        Err(AsarErrorSpec::UnsupportedSizePickle)
    } else {
        let size = le32(archive, 4);
        if size < 8 || size > ASAR_MAX_HEADER_SIZE || 8 + size > archive.len() {
            Err(AsarErrorSpec::InvalidHeaderSize { size: size as u32 })
        } else {
            match header_json_of(archive.subrange(8, 8 + size)) {
                None => Err(AsarErrorSpec::InvalidHeaderPickle),
                Some(text) => match parsed_bytes(text) {
                    Err(cause) => Err(AsarErrorSpec::InvalidHeaderJson { cause }),
                    Ok(header) => {
                        let found = flattened(
                            header,
                            Seq::empty(),
                            archive.len() as int,
                            8 + size,
                        );
                        match found.error {
                            Some(error) => Err(error),
                            None => Ok((found.files, 8 + size)),
                        }
                    },
                },
            }
        }
    }
}

/// The files of an archive and where their contents start.
pub struct ReadOnlyAsarArchive {
    pub files: Vec<AsarFile>,
    pub data_offset: u64,
}

/// Lists the files that a parsed header describes.
pub fn index_header(header: &Json, archive_size: u64, data_offset: u64) -> (result: Result<
    Vec<AsarFile>,
    AsarError,
>)
    ensures
        ({
            let found = flattened(header@, Seq::empty(), archive_size as int, data_offset as int);
            match result {
                Ok(files) => found.error is None && files_view(files@) == found.files,
                Err(error) => found.error == Some(error@),
            }
        }),
{
    let mut files: Vec<AsarFile> = Vec::new();
    proof {
        reveal_strlit("");
        assert(""@ =~= Seq::empty());
    }
    match flatten_files(header, "", archive_size, data_offset, &mut files) {
        Ok(_) => {
            proof {
                let found = flattened(
                    header@,
                    Seq::empty(),
                    archive_size as int,
                    data_offset as int,
                );
                assert(Seq::<AsarFileSpec>::empty() + found.files =~= found.files);
                assert(files_view(Seq::<AsarFile>::empty()) =~= Seq::empty());
            }
            Ok(files)
        },
        Err(error) => Err(error),
    }
}

impl ReadOnlyAsarArchive {
    /// Reads the header of an archive.
    pub fn open(archive: &[u8]) -> (result: Result<ReadOnlyAsarArchive, AsarError>)
        ensures
            match result {
                Ok(index) => opened(archive@) == Ok::<(Seq<AsarFileSpec>, int), AsarErrorSpec>(
                    (files_view(index.files@), index.data_offset as int),
                ),
                Err(error) => opened(archive@) == Err::<(Seq<AsarFileSpec>, int), AsarErrorSpec>(
                    error@,
                ),
            },
    {
        let length = archive.len();
        if length < ASAR_PICKLE_PREFIX_SIZE {
            return Err(AsarError::TooShort);
        }
        if u32_le(archive, 0) != 4 {
            return Err(AsarError::UnsupportedSizePickle);
        }
        let header_size = u32_le(archive, 4);
        if header_size < 8 || header_size > ASAR_MAX_HEADER_SIZE || 8 + header_size as u64
            > length as u64 {
            return Err(AsarError::InvalidHeaderSize { size: header_size });
        }
        let header_pickle = vstd::slice::slice_subrange(archive, 8, 8 + header_size as usize);
        let text = match header_json(header_pickle) {
            Ok(text) => text,
            Err(error) => {
                return Err(error);
            },
        };
        let header = match parse_json_bytes(text) {
            Ok(header) => header,
            Err(error) => {
                return Err(AsarError::InvalidHeaderJson { cause: error.cause });
            },
        };
        let data_offset = 8 + header_size as u64;
        match index_header(&header, length as u64, data_offset) {
            Ok(files) => Ok(ReadOnlyAsarArchive { files, data_offset }),
            Err(error) => Err(error),
        }
    }
}

/// What the error says with which `usize::try_from` refuses a `u64`.
pub uninterp spec fn conversion_cause(size: u64) -> Seq<char>;

/// `usize::try_from` of a `u64` that a machine word does not hold: what its error says.
#[verifier::external_body]
fn conversion_problem(size: u64) -> (cause: String)
    requires
        size > usize::MAX,
    ensures
        cause@ == conversion_cause(size),
{
    match usize::try_from(size) {
        Ok(_) => String::new(),
        Err(error) => error.to_string(),
    }
}

/// The content of a packed file.
pub open spec fn packed_content(archive: Seq<u8>, data_offset: int, file: AsarFileSpec) -> Result<
    Seq<u8>,
    AsarErrorSpec,
> {
    let path = file.path;
    let start = data_offset + file.offset;
    if start > u64::MAX {
        Err(AsarErrorSpec::EntryOverflows { path })
    } else if file.size > usize::MAX {
        Err(AsarErrorSpec::EntryTooLarge { path, cause: conversion_cause(file.size as u64) })
    } else if start + file.size > archive.len() {
        Err(AsarErrorSpec::EntryTooShort { path })
    } else {
        let content = archive.subrange(start, start + file.size);
        match file.integrity_hash {
            Some(hash) => if eq_ignore_case(sha256_hex(content), hash) {
                Ok(content)
            } else {
                Err(AsarErrorSpec::EntryCorrupt { path })
            },
            None => Ok(content),
        }
    }
}

/// Reads a packed file and checks its hash.
pub fn read_packed_file<'a>(archive: &'a [u8], data_offset: u64, entry: &AsarFile) -> (result: Result<
    &'a [u8],
    AsarError,
>)
    ensures
        match result {
            Ok(content) => packed_content(archive@, data_offset as int, entry@) == Ok::<
                Seq<u8>,
                AsarErrorSpec,
            >(content@),
            Err(error) => packed_content(archive@, data_offset as int, entry@) == Err::<
                Seq<u8>,
                AsarErrorSpec,
            >(error@),
        },
{
    let start = match data_offset.checked_add(entry.offset) {
        Some(start) => start,
        None => {
            return Err(AsarError::EntryOverflows { path: entry.path.as_str().to_owned() });
        },
    };
    if entry.size > usize::MAX as u64 {
        return Err(
            AsarError::EntryTooLarge {
                path: entry.path.as_str().to_owned(),
                cause: conversion_problem(entry.size),
            },
        );
    }
    let length = archive.len() as u64;
    if start > length || entry.size > length - start {
        return Err(AsarError::EntryTooShort { path: entry.path.as_str().to_owned() });
    }
    let content = vstd::slice::slice_subrange(
        archive,
        start as usize,
        (start + entry.size) as usize,
    );
    if let Some(expected) = &entry.integrity_hash {
        let actual = sha256_hex_bytes(content);
        if !str_eq_ignore_case(actual.as_str(), expected.as_str()) {
            return Err(AsarError::EntryCorrupt { path: entry.path.as_str().to_owned() });
        }
    }
    Ok(content)
}

} // verus!

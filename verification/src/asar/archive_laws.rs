//! What an archive holds, told from its bytes and its header.

use vstd::prelude::*;

use crate::asar::archive::{
    described_file, directory_entries, entry_path, flattened, flattened_from, header_json_of,
    is_entry_name, le32, opened, packed_content, AsarFileSpec,
};
use crate::asar::error::AsarErrorSpec;
use crate::digest::{hex_text, sha256_digest, sha256_hex};
use crate::json::{member, parsed_bytes, JsonSpec};
use crate::text::parsed_number;

verus! {

// ---------------------------------------------------------------------------
// Entries

/// The fields of a header entry say this of a file.
pub open spec fn describes(entry: JsonSpec, file: AsarFileSpec) -> bool {
    &&& entry.get("size"@) == Some(JsonSpec::Unsigned(file.size))
    &&& file.unpacked == (entry.get("unpacked"@) == Some(JsonSpec::Bool(true)))
    &&& if file.unpacked {
        file.offset == 0
    } else {
        entry.text_at("offset"@) matches Some(text) && parsed_number(text, 10, u64::MAX as int)
            == Some(file.offset as int)
    }
    &&& file.integrity_hash == (match entry.get("integrity"@) {
        Some(integrity) => integrity.text_at("hash"@),
        None => None,
    })
}

/// An entry gives the file that its fields describe, under its path, and one whose fields do
/// not describe a file inside the archive is refused for the first field that does not.
pub proof fn lemma_entry_gives_its_file(
    entry: JsonSpec,
    path: Seq<char>,
    archive_size: int,
    data_offset: int,
)
    ensures
        ({
            let result = described_file(entry, path, archive_size, data_offset);
            let unpacked = entry.get("unpacked"@) == Some(JsonSpec::Bool(true));
            let number = match entry.text_at("offset"@) {
                Some(text) => parsed_number(text, 10, u64::MAX as int),
                None => None,
            };
            &&& result matches Ok(file) ==> {
                &&& file.path == path
                &&& describes(entry, file)
                &&& file.unpacked || data_offset + file.offset + file.size <= archive_size
            }
            &&& !(entry.get("size"@) matches Some(JsonSpec::Unsigned(_))) ==> result == Err::<
                AsarFileSpec,
                AsarErrorSpec,
            >(AsarErrorSpec::InvalidSize { path })
            &&& entry.get("size"@) matches Some(JsonSpec::Unsigned(size)) ==> {
                &&& unpacked ==> result is Ok
                &&& !unpacked && entry.text_at("offset"@) is None ==> result == Err::<
                    AsarFileSpec,
                    AsarErrorSpec,
                >(AsarErrorSpec::MissingOffset { path })
                &&& !unpacked && entry.text_at("offset"@) is Some && number is None ==> (
                result matches Err(AsarErrorSpec::InvalidOffset { path: named, .. }) && named
                    == path)
                &&& !unpacked && number is Some && data_offset + number->0 + size > archive_size
                    ==> result == Err::<AsarFileSpec, AsarErrorSpec>(
                    AsarErrorSpec::PastArchive { path },
                )
                &&& !unpacked && number is Some && data_offset + number->0 + size <= archive_size
                    ==> result is Ok
            }
        }),
{
    if let Some(text) = entry.text_at("offset"@) {
        crate::text::lemma_parsed_number(text, 10, u64::MAX as int);
    }
}

/// The entry that some names lead to, from directory to directory.
pub open spec fn entry_under(entry: JsonSpec, names: Seq<Seq<char>>) -> Option<JsonSpec>
    decreases names.len(),
{
    if names.len() == 0 {
        Some(entry)
    } else {
        match entry.get("files"@) {
            Some(files) => match files.get(names[0]) {
                Some(child) => entry_under(child, names.drop_first()),
                None => None,
            },
            None => None,
        }
    }
}

/// The names below a directory, with slashes between them.
pub open spec fn path_under(parent: Seq<char>, names: Seq<Seq<char>>) -> Seq<char>
    decreases names.len(),
{
    if names.len() == 0 {
        parent
    } else {
        path_under(
            if parent.len() == 0 {
                names[0]
            } else {
                parent + seq!['/'] + names[0]
            },
            names.drop_first(),
        )
    }
}

proof fn lemma_entry_path(parent: Seq<char>, name: Seq<char>)
    ensures
        entry_path(parent, name) == if parent.len() == 0 {
            name
        } else {
            parent + seq!['/'] + name
        },
{
    reveal_strlit("/");
    reveal_with_fuel(crate::text::joined, 4);
    assert("/"@ =~= seq!['/']);
    assert(crate::text::joined(seq![parent, "/"@, name]) =~= parent + seq!['/'] + name);
}

proof fn lemma_member_is_entry(members: Seq<(Seq<char>, JsonSpec)>, key: Seq<char>) -> (k: int)
    requires
        member(members, key) is Some,
    ensures
        0 <= k < members.len(),
        members[k].0 == key,
        members[k].1 == member(members, key)->0,
    decreases members.len(),
{
    if members[0].0 == key {
        0
    } else {
        let rest = members.drop_first();
        let k = lemma_member_is_entry(rest, key);
        assert(rest[k] == members[k + 1]);
        k + 1
    }
}

proof fn lemma_entry_is_taken(
    entries: Seq<(Seq<char>, JsonSpec)>,
    i: int,
    k: int,
    parent: Seq<char>,
    archive_size: int,
    data_offset: int,
)
    requires
        0 <= i <= k < entries.len(),
        flattened_from(entries, i, parent, archive_size, data_offset).error is None,
    ensures
        ({
            let found = flattened_from(entries, i, parent, archive_size, data_offset).files;
            let (name, child) = entries[k];
            let path = entry_path(parent, name);
            &&& is_entry_name(name)
            &&& child.get("files"@) is Some ==> {
                let below = flattened(child, path, archive_size, data_offset);
                &&& below.error is None
                &&& forall|file: AsarFileSpec| #[trigger]
                    below.files.contains(file) ==> found.contains(file)
            }
            &&& child.get("files"@) is None && child.get("link"@) is None ==> {
                &&& described_file(child, path, archive_size, data_offset) matches Ok(file)
                &&& found.contains(file)
            }
        }),
    decreases entries.len() - i,
{
    let all = flattened_from(entries, i, parent, archive_size, data_offset);
    let rest = flattened_from(entries, i + 1, parent, archive_size, data_offset);
    let (name, child) = entries[i];
    let path = entry_path(parent, name);
    let count = all.files.len() - rest.files.len();
    assert(rest.error is None);
    assert forall|file: AsarFileSpec| #[trigger] rest.files.contains(file) implies all.files.contains(
        file,
    ) by {
        let j = choose|j: int| 0 <= j < rest.files.len() && rest.files[j] == file;
        assert(all.files[count + j] == file);
    }
    if i < k {
        lemma_entry_is_taken(entries, i + 1, k, parent, archive_size, data_offset);
    } else if child.get("files"@) is Some {
        let below = flattened(child, path, archive_size, data_offset);
        assert forall|file: AsarFileSpec| #[trigger]
            below.files.contains(file) implies all.files.contains(file) by {
            let j = choose|j: int| 0 <= j < below.files.len() && below.files[j] == file;
            assert(all.files[j] == file);
        }
    } else if child.get("link"@) is None {
        assert(all.files[0] == described_file(child, path, archive_size, data_offset)->Ok_0);
    }
}

proof fn lemma_leaf_is_indexed(
    entry: JsonSpec,
    parent: Seq<char>,
    names: Seq<Seq<char>>,
    archive_size: int,
    data_offset: int,
) -> (file: AsarFileSpec)
    requires
        flattened(entry, parent, archive_size, data_offset).error is None,
        names.len() > 0,
        entry_under(entry, names) matches Some(leaf) && leaf.get("files"@) is None && leaf.get(
            "link"@,
        ) is None,
    ensures
        flattened(entry, parent, archive_size, data_offset).files.contains(file),
        file.path == path_under(parent, names),
        describes(entry_under(entry, names)->0, file),
    decreases names.len(),
{
    reveal_with_fuel(entry_under, 2);
    reveal_with_fuel(path_under, 2);
    let entries = directory_entries(entry)->0;
    let k = lemma_member_is_entry(entries, names[0]);
    let child = entries[k].1;
    let path = entry_path(parent, names[0]);
    lemma_entry_path(parent, names[0]);
    lemma_entry_is_taken(entries, 0, k, parent, archive_size, data_offset);
    let rest = names.drop_first();
    if rest.len() == 0 {
        lemma_entry_gives_its_file(child, path, archive_size, data_offset);
        assert(path_under(path, rest) == path);
        described_file(child, path, archive_size, data_offset)->Ok_0
    } else {
        assert(child.get("files"@) is Some);
        lemma_leaf_is_indexed(child, path, rest, archive_size, data_offset)
    }
}

/// Every entry of a header that is neither a directory nor a link is indexed, under the names
/// that lead to it and as its fields describe it.
pub proof fn lemma_every_file_is_indexed(
    header: JsonSpec,
    names: Seq<Seq<char>>,
    archive_size: int,
    data_offset: int,
)
    requires
        flattened(header, Seq::empty(), archive_size, data_offset).error is None,
        names.len() > 0,
        entry_under(header, names) matches Some(leaf) && leaf.get("files"@) is None && leaf.get(
            "link"@,
        ) is None,
    ensures
        exists|file: AsarFileSpec| #[trigger]
            flattened(header, Seq::empty(), archive_size, data_offset).files.contains(file)
                && file.path == path_under(Seq::empty(), names) && describes(
                entry_under(header, names)->0,
                file,
            ),
{
    let file = lemma_leaf_is_indexed(header, Seq::empty(), names, archive_size, data_offset);
}

/// A header without a directory, a directory without entries and a name that is no name are
/// refused or give nothing.
pub proof fn lemma_what_is_no_directory(
    header: JsonSpec,
    parent: Seq<char>,
    archive_size: int,
    data_offset: int,
)
    ensures
        !(header.get("files"@) matches Some(JsonSpec::Object(_))) ==> flattened(
            header,
            parent,
            archive_size,
            data_offset,
        ).error == Some(AsarErrorSpec::MissingFiles { parent }),
        header.get("files"@) matches Some(JsonSpec::Object(entries)) ==> {
            let found = flattened(header, parent, archive_size, data_offset);
            &&& entries.len() == 0 ==> found.error is None && found.files.len() == 0
            &&& entries.len() == 1 && entries[0].1.get("files"@) is None && entries[0].1.get(
                "link"@,
            ) is Some && is_entry_name(entries[0].0) ==> found.error is None && found.files.len()
                == 0
            &&& entries.len() > 0 && (entries[0].0.len() == 0 || entries[0].0.contains('/')
                || entries[0].0.contains('\\') || entries[0].0.contains('\0') || entries[0].0
                == seq!['.'] || entries[0].0 == seq!['.', '.']) ==> found.error == Some(
                AsarErrorSpec::InvalidName { name: entries[0].0, parent },
            )
        },
{
    reveal_strlit(".");
    reveal_strlit("..");
    assert("."@ =~= seq!['.']);
    assert(".."@ =~= seq!['.', '.']);
    if let Some(JsonSpec::Object(entries)) = header.get("files"@) {
        let found = flattened_from(entries, 0, parent, archive_size, data_offset);
        assert(flattened(header, parent, archive_size, data_offset) == found);
        if entries.len() == 1 {
            let rest = flattened_from(entries, 1, parent, archive_size, data_offset);
            assert(rest.error is None && rest.files.len() == 0);
        }
        if entries.len() > 0 {
            let name = entries[0].0;
            assert(name.contains('/') ==> !is_entry_name(name));
            assert(name.contains('\\') ==> !is_entry_name(name));
            assert(name.contains('\0') ==> !is_entry_name(name));
        }
    }
}

// ---------------------------------------------------------------------------
// Contents

/// Two hexadecimal digits are equal but for their case.
pub open spec fn same_digit(a: char, b: char) -> bool {
    ||| a == b
    ||| 'a' <= a <= 'z' && b as int == a as int - 32
    ||| 'A' <= a <= 'Z' && b as int == a as int + 32
}

/// Two texts are equal but for the case of their letters.
pub open spec fn same_digits(a: Seq<char>, b: Seq<char>) -> bool {
    a.len() == b.len() && forall|i: int| 0 <= i < a.len() ==> #[trigger] same_digit(a[i], b[i])
}

proof fn lemma_same_digits(a: Seq<char>, b: Seq<char>)
    ensures
        same_digits(a, b) <==> crate::text::eq_ignore_case(a, b),
{
    if same_digits(a, b) {
        assert forall|i: int| 0 <= i < a.len() implies #[trigger] crate::text::fold_case(a[i])
            == crate::text::fold_case(b[i]) by {
            assert(same_digit(a[i], b[i]));
        }
    }
    if crate::text::eq_ignore_case(a, b) {
        assert forall|i: int| 0 <= i < a.len() implies #[trigger] same_digit(a[i], b[i]) by {
            assert(crate::text::fold_case(a[i]) == crate::text::fold_case(b[i]));
        }
    }
}

/// A packed file is read back whole: the bytes of its size from its place on, where its entry
/// names no digest or that of these bytes. Where it names another, it is refused.
pub proof fn lemma_file_is_read_back(
    archive: Seq<u8>,
    data_offset: int,
    entry: JsonSpec,
    file: AsarFileSpec,
)
    requires
        0 <= data_offset <= u64::MAX,
        describes(entry, file),
        !file.unpacked,
        data_offset + file.offset + file.size <= archive.len() <= usize::MAX,
    ensures
        ({
            let start = data_offset + file.offset;
            let content = archive.subrange(start, start + file.size);
            let named = match entry.get("integrity"@) {
                Some(integrity) => integrity.text_at("hash"@),
                None => None,
            };
            let result = packed_content(archive, data_offset, file);
            match named {
                None => result == Ok::<Seq<u8>, AsarErrorSpec>(content),
                Some(hash) => if same_digits(hash, hex_text(sha256_digest(content))) {
                    result == Ok::<Seq<u8>, AsarErrorSpec>(content)
                } else {
                    result == Err::<Seq<u8>, AsarErrorSpec>(
                        AsarErrorSpec::EntryCorrupt { path: file.path },
                    )
                },
            }
        }),
{
    let start = data_offset + file.offset;
    let content = archive.subrange(start, start + file.size);
    if let Some(hash) = file.integrity_hash {
        lemma_same_digits(hash, hex_text(sha256_digest(content)));
        assert(crate::text::eq_ignore_case(sha256_hex(content), hash)
            == crate::text::eq_ignore_case(hash, sha256_hex(content))) by {
            lemma_case_is_symmetric(sha256_hex(content), hash);
            lemma_case_is_symmetric(hash, sha256_hex(content));
        }
    }
}

proof fn lemma_case_is_symmetric(a: Seq<char>, b: Seq<char>)
    ensures
        crate::text::eq_ignore_case(a, b) ==> crate::text::eq_ignore_case(b, a),
{
    if crate::text::eq_ignore_case(a, b) {
        assert forall|i: int| 0 <= i < b.len() implies #[trigger] crate::text::fold_case(b[i])
            == crate::text::fold_case(a[i]) by {
            assert(crate::text::fold_case(a[i]) == crate::text::fold_case(b[i]));
        }
    }
}

/// A file that does not lie inside the bytes at hand is refused.
pub proof fn lemma_file_past_the_end_is_refused(
    archive: Seq<u8>,
    data_offset: int,
    file: AsarFileSpec,
)
    requires
        0 <= data_offset,
        data_offset + file.offset <= u64::MAX,
        file.size <= usize::MAX,
        data_offset + file.offset + file.size > archive.len(),
    ensures
        packed_content(archive, data_offset, file) == Err::<Seq<u8>, AsarErrorSpec>(
            AsarErrorSpec::EntryTooShort { path: file.path },
        ),
{
}

// ---------------------------------------------------------------------------
// The header

/// A number in four bytes, the lowest first.
pub open spec fn four_bytes(n: int) -> Seq<u8> {
    seq![
        (n % 256) as u8,
        (n / 256 % 256) as u8,
        (n / 65_536 % 256) as u8,
        (n / 16_777_216 % 256) as u8,
    ]
}

proof fn lemma_four_bytes(bytes: Seq<u8>, at: int, n: int)
    requires
        0 <= n <= u32::MAX,
        0 <= at,
        at + 4 <= bytes.len(),
        bytes.subrange(at, at + 4) == four_bytes(n),
    ensures
        le32(bytes, at) == n,
{
    let part = bytes.subrange(at, at + 4);
    assert(part[0] == bytes[at]);
    assert(part[1] == bytes[at + 1]);
    assert(part[2] == bytes[at + 2]);
    assert(part[3] == bytes[at + 3]);
}

/// An archive as it is written: the length of the header's pickle in one of its own, the pickle
/// with the length of its payload and of the JSON, the JSON, padding, and the contents.
pub open spec fn written_archive(json: Seq<u8>, padding: Seq<u8>, data: Seq<u8>) -> Seq<u8> {
    let payload = 4 + json.len() + padding.len();
    four_bytes(4) + four_bytes(4 + payload as int) + four_bytes(payload as int) + four_bytes(
        json.len() as int,
    ) + json + padding + data
}

proof fn lemma_written_numbers(json: Seq<u8>, padding: Seq<u8>, data: Seq<u8>)
    requires
        8 + json.len() + padding.len() <= 64 * 1024 * 1024,
    ensures
        ({
            let archive = written_archive(json, padding, data);
            let size: int = (8 + json.len() + padding.len()) as int;
            let pickle = archive.subrange(8, 8 + size);
            &&& archive.len() == 8 + size + data.len()
            &&& le32(archive, 0) == 4
            &&& le32(archive, 4) == size
            &&& le32(pickle, 0) == size - 4
            &&& le32(pickle, 4) == json.len()
            &&& pickle.subrange(8, 8 + json.len() as int) == json
        }),
{
    let archive = written_archive(json, padding, data);
    let size: int = (8 + json.len() + padding.len()) as int;
    let pickle = archive.subrange(8, 8 + size);
    assert(archive.len() == 8 + size + data.len());
    assert(archive.subrange(0, 4) == four_bytes(4)) by {
        assert(archive.subrange(0, 4) =~= four_bytes(4));
    }
    assert(archive.subrange(4, 8) == four_bytes(size)) by {
        assert(archive.subrange(4, 8) =~= four_bytes(size));
    }
    assert(pickle.subrange(0, 4) == four_bytes(size - 4)) by {
        assert(pickle.subrange(0, 4) =~= four_bytes(size - 4));
    }
    assert(pickle.subrange(4, 8) == four_bytes(json.len() as int)) by {
        assert(pickle.subrange(4, 8) =~= four_bytes(json.len() as int));
    }
    assert(pickle.subrange(8, 8 + json.len() as int) =~= json);
    lemma_four_bytes(archive, 0, 4);
    lemma_four_bytes(archive, 4, size);
    lemma_four_bytes(pickle, 0, size - 4);
    lemma_four_bytes(pickle, 4, json.len() as int);
}

/// The header of an archive is the JSON that was written into it, and its contents start behind
/// the padding.
pub proof fn lemma_header_is_found(json: Seq<u8>, padding: Seq<u8>, data: Seq<u8>)
    requires
        8 + json.len() + padding.len() <= 64 * 1024 * 1024,
    ensures
        ({
            let archive = written_archive(json, padding, data);
            let data_offset = 16 + json.len() + padding.len();
            match parsed_bytes(json) {
                Err(cause) => opened(archive) == Err::<(Seq<AsarFileSpec>, int), AsarErrorSpec>(
                    AsarErrorSpec::InvalidHeaderJson { cause },
                ),
                Ok(header) => {
                    let found = flattened(
                        header,
                        Seq::empty(),
                        archive.len() as int,
                        data_offset as int,
                    );
                    match found.error {
                        Some(error) => opened(archive) == Err::<
                            (Seq<AsarFileSpec>, int),
                            AsarErrorSpec,
                        >(error),
                        None => opened(archive) == Ok::<(Seq<AsarFileSpec>, int), AsarErrorSpec>(
                            (found.files, data_offset as int),
                        ),
                    }
                },
            }
        }),
{
    let archive = written_archive(json, padding, data);
    let size: int = (8 + json.len() + padding.len()) as int;
    lemma_written_numbers(json, padding, data);
    let pickle = archive.subrange(8, 8 + size);
    assert(header_json_of(pickle) == Some(json));
}

/// What is too short, has another first number, or a header that leaves the archive, is
/// refused.
pub proof fn lemma_broken_header_is_refused(archive: Seq<u8>, first: int, size: int)
    requires
        0 <= first <= u32::MAX,
        0 <= size <= u32::MAX,
        archive.len() >= 8,
        archive.subrange(0, 4) == four_bytes(first),
        archive.subrange(4, 8) == four_bytes(size),
    ensures
        first != 4 ==> opened(archive) == Err::<(Seq<AsarFileSpec>, int), AsarErrorSpec>(
            AsarErrorSpec::UnsupportedSizePickle,
        ),
        first == 4 && (size < 8 || size > 67_108_864 || 8 + size > archive.len()) ==> opened(
            archive,
        ) == Err::<(Seq<AsarFileSpec>, int), AsarErrorSpec>(
            AsarErrorSpec::InvalidHeaderSize { size: size as u32 },
        ),
        opened(archive.take(7)) == Err::<(Seq<AsarFileSpec>, int), AsarErrorSpec>(
            AsarErrorSpec::TooShort,
        ),
{
    lemma_four_bytes(archive, 0, first);
    lemma_four_bytes(archive, 4, size);
}

} // verus!

//! Why an archive could not be inspected or planned.

use vstd::prelude::*;

use crate::text::{concat, debug_format, debug_text, decimal, decimal_text, joined, texts};

verus! {

/// Why an archive could not be inspected or planned, for specifications.
pub enum AsarErrorSpec {
    TooShort,
    UnsupportedSizePickle,
    InvalidHeaderSize { size: u32 },
    InvalidHeaderPickle,
    InvalidHeaderJson { cause: Seq<char> },
    MissingFiles { parent: Seq<char> },
    InvalidName { name: Seq<char>, parent: Seq<char> },
    InvalidSize { path: Seq<char> },
    MissingOffset { path: Seq<char> },
    InvalidOffset { path: Seq<char>, cause: Seq<char> },
    PastArchive { path: Seq<char> },
    EntryOverflows { path: Seq<char> },
    EntryTooLarge { path: Seq<char>, cause: Seq<char> },
    EntryTooShort { path: Seq<char> },
    EntryCorrupt { path: Seq<char> },
    EntryRepeated { path: Seq<char> },
    MissingTarget { path: Seq<char> },
    UnpackedTarget { path: Seq<char> },
    NoRequestPath { path: Seq<char> },
    AmbiguousPath { path: Seq<char> },
    Changed { label: Seq<char> },
}

/// Why an archive could not be inspected or planned.
#[derive(Debug)]
pub enum AsarError {
    TooShort,
    UnsupportedSizePickle,
    InvalidHeaderSize { size: u32 },
    InvalidHeaderPickle,
    InvalidHeaderJson { cause: String },
    MissingFiles { parent: String },
    InvalidName { name: String, parent: String },
    InvalidSize { path: String },
    MissingOffset { path: String },
    InvalidOffset { path: String, cause: String },
    PastArchive { path: String },
    EntryOverflows { path: String },
    EntryTooLarge { path: String, cause: String },
    EntryTooShort { path: String },
    EntryCorrupt { path: String },
    EntryRepeated { path: String },
    MissingTarget { path: String },
    UnpackedTarget { path: String },
    NoRequestPath { path: String },
    AmbiguousPath { path: String },
    Changed { label: String },
}

impl View for AsarError {
    type V = AsarErrorSpec;

    open spec fn view(&self) -> AsarErrorSpec {
        match *self {
            AsarError::TooShort => AsarErrorSpec::TooShort,
            AsarError::UnsupportedSizePickle => AsarErrorSpec::UnsupportedSizePickle,
            AsarError::InvalidHeaderSize { size } => AsarErrorSpec::InvalidHeaderSize { size },
            AsarError::InvalidHeaderPickle => AsarErrorSpec::InvalidHeaderPickle,
            AsarError::InvalidHeaderJson { cause } => AsarErrorSpec::InvalidHeaderJson { cause: cause@ },
            AsarError::MissingFiles { parent } => AsarErrorSpec::MissingFiles { parent: parent@ },
            AsarError::InvalidName { name, parent } => AsarErrorSpec::InvalidName { name: name@, parent: parent@ },
            AsarError::InvalidSize { path } => AsarErrorSpec::InvalidSize { path: path@ },
            AsarError::MissingOffset { path } => AsarErrorSpec::MissingOffset { path: path@ },
            AsarError::InvalidOffset { path, cause } => AsarErrorSpec::InvalidOffset { path: path@, cause: cause@ },
            AsarError::PastArchive { path } => AsarErrorSpec::PastArchive { path: path@ },
            AsarError::EntryOverflows { path } => AsarErrorSpec::EntryOverflows { path: path@ },
            AsarError::EntryTooLarge { path, cause } => AsarErrorSpec::EntryTooLarge { path: path@, cause: cause@ },
            AsarError::EntryTooShort { path } => AsarErrorSpec::EntryTooShort { path: path@ },
            AsarError::EntryCorrupt { path } => AsarErrorSpec::EntryCorrupt { path: path@ },
            AsarError::EntryRepeated { path } => AsarErrorSpec::EntryRepeated { path: path@ },
            AsarError::MissingTarget { path } => AsarErrorSpec::MissingTarget { path: path@ },
            AsarError::UnpackedTarget { path } => AsarErrorSpec::UnpackedTarget { path: path@ },
            AsarError::NoRequestPath { path } => AsarErrorSpec::NoRequestPath { path: path@ },
            AsarError::AmbiguousPath { path } => AsarErrorSpec::AmbiguousPath { path: path@ },
            AsarError::Changed { label } => AsarErrorSpec::Changed { label: label@ },
        }
    }
}

/// What an error says.
pub open spec fn error_message(error: AsarErrorSpec) -> Seq<char> {
    match error {
        AsarErrorSpec::TooShort => "failed to fill whole buffer"@,
        AsarErrorSpec::UnsupportedSizePickle => "unsupported ASAR size pickle format"@,
        AsarErrorSpec::InvalidHeaderSize { size } => joined(
            seq!["invalid ASAR header size "@, decimal(size as nat)],
        ),
        AsarErrorSpec::InvalidHeaderPickle => "invalid ASAR header pickle lengths"@,
        AsarErrorSpec::InvalidHeaderJson { cause } => joined(
            seq!["invalid ASAR header JSON: "@, cause],
        ),
        AsarErrorSpec::MissingFiles { parent } => joined(
            seq!["ASAR header missing files object under "@, parent],
        ),
        AsarErrorSpec::InvalidName { name, parent } => joined(
            seq!["invalid ASAR entry name "@, debug_format(name), " under "@, parent],
        ),
        AsarErrorSpec::InvalidSize { path } => joined(
            seq!["invalid ASAR size for "@, path],
        ),
        AsarErrorSpec::MissingOffset { path } => joined(
            seq!["missing ASAR offset for "@, path],
        ),
        AsarErrorSpec::InvalidOffset { path, cause } => joined(
            seq!["invalid ASAR offset for "@, path, ": "@, cause],
        ),
        AsarErrorSpec::PastArchive { path } => joined(
            seq!["ASAR entry "@, path, " extends past the archive"@],
        ),
        AsarErrorSpec::EntryOverflows { path } => joined(
            seq!["read ASAR entry "@, path, ": ASAR entry offset overflows: "@, path],
        ),
        AsarErrorSpec::EntryTooLarge { path, cause } => joined(
            seq![
                "read ASAR entry "@,
                path,
                ": ASAR entry is too large to read: "@,
                path,
                ": "@,
                cause,
            ],
        ),
        AsarErrorSpec::EntryTooShort { path } => joined(
            seq!["read ASAR entry "@, path, ": failed to fill whole buffer"@],
        ),
        AsarErrorSpec::EntryCorrupt { path } => joined(
            seq!["read ASAR entry "@, path, ": integrity check failed for ASAR entry "@, path],
        ),
        AsarErrorSpec::EntryRepeated { path } => joined(
            seq!["inspect ASAR entry "@, path, ": duplicate patch resource: "@, path],
        ),
        AsarErrorSpec::MissingTarget { path } => joined(
            seq!["missing ASAR patch target "@, path],
        ),
        AsarErrorSpec::UnpackedTarget { path } => joined(
            seq!["unpacked ASAR patch target is not snapshot-safe: "@, path],
        ),
        AsarErrorSpec::NoRequestPath { path } => joined(
            seq!["could not derive a request path for "@, path],
        ),
        AsarErrorSpec::AmbiguousPath { path } => joined(
            seq!["ambiguous request path "@, path],
        ),
        AsarErrorSpec::Changed { label } => joined(
            seq![label, " changed after compatibility inspection"@],
        ),
    }
}

impl AsarError {
    pub fn message(&self) -> (message: String)
        ensures
            message@ == error_message(self@),
    {
        match self {
            AsarError::TooShort => "failed to fill whole buffer".to_owned(),
            AsarError::UnsupportedSizePickle => "unsupported ASAR size pickle format".to_owned(),
            AsarError::InvalidHeaderSize { size } => {
                let number = decimal_text(*size as u64);
                let parts: [&str; 2] = ["invalid ASAR header size ", number.as_str()];
                assert(texts(parts@) =~= seq!["invalid ASAR header size "@, decimal(*size as nat)]);
                concat(&parts)
            },
            AsarError::InvalidHeaderPickle => "invalid ASAR header pickle lengths".to_owned(),
            AsarError::InvalidHeaderJson { cause } => {
                let parts: [&str; 2] = ["invalid ASAR header JSON: ", cause.as_str()];
                assert(texts(parts@) =~= seq!["invalid ASAR header JSON: "@, cause@]);
                concat(&parts)
            },
            AsarError::MissingFiles { parent } => {
                let parts: [&str; 2] = ["ASAR header missing files object under ", parent.as_str()];
                assert(texts(parts@) =~= seq!["ASAR header missing files object under "@, parent@]);
                concat(&parts)
            },
            AsarError::InvalidName { name, parent } => {
                let quoted = debug_text(name.as_str());
                let parts: [&str; 4] = ["invalid ASAR entry name ", quoted.as_str(), " under ", parent.as_str()];
                assert(texts(parts@) =~= seq!["invalid ASAR entry name "@, debug_format(name@), " under "@, parent@]);
                concat(&parts)
            },
            AsarError::InvalidSize { path } => {
                let parts: [&str; 2] = ["invalid ASAR size for ", path.as_str()];
                assert(texts(parts@) =~= seq!["invalid ASAR size for "@, path@]);
                concat(&parts)
            },
            AsarError::MissingOffset { path } => {
                let parts: [&str; 2] = ["missing ASAR offset for ", path.as_str()];
                assert(texts(parts@) =~= seq!["missing ASAR offset for "@, path@]);
                concat(&parts)
            },
            AsarError::InvalidOffset { path, cause } => {
                let parts: [&str; 4] = ["invalid ASAR offset for ", path.as_str(), ": ", cause.as_str()];
                assert(texts(parts@) =~= seq!["invalid ASAR offset for "@, path@, ": "@, cause@]);
                concat(&parts)
            },
            AsarError::PastArchive { path } => {
                let parts: [&str; 3] = ["ASAR entry ", path.as_str(), " extends past the archive"];
                assert(texts(parts@) =~= seq!["ASAR entry "@, path@, " extends past the archive"@]);
                concat(&parts)
            },
            AsarError::EntryOverflows { path } => {
                let parts: [&str; 4] = ["read ASAR entry ", path.as_str(), ": ASAR entry offset overflows: ", path.as_str()];
                assert(texts(parts@) =~= seq!["read ASAR entry "@, path@, ": ASAR entry offset overflows: "@, path@]);
                concat(&parts)
            },
            AsarError::EntryTooLarge { path, cause } => {
                let parts: [&str; 6] = [
                    "read ASAR entry ",
                    path.as_str(),
                    ": ASAR entry is too large to read: ",
                    path.as_str(),
                    ": ",
                    cause.as_str(),
                ];
                assert(texts(parts@) =~= seq![
                    "read ASAR entry "@,
                    path@,
                    ": ASAR entry is too large to read: "@,
                    path@,
                    ": "@,
                    cause@,
                ]);
                concat(&parts)
            },
            AsarError::EntryTooShort { path } => {
                let parts: [&str; 3] = ["read ASAR entry ", path.as_str(), ": failed to fill whole buffer"];
                assert(texts(parts@) =~= seq!["read ASAR entry "@, path@, ": failed to fill whole buffer"@]);
                concat(&parts)
            },
            AsarError::EntryCorrupt { path } => {
                let parts: [&str; 4] = ["read ASAR entry ", path.as_str(), ": integrity check failed for ASAR entry ", path.as_str()];
                assert(texts(parts@) =~= seq!["read ASAR entry "@, path@, ": integrity check failed for ASAR entry "@, path@]);
                concat(&parts)
            },
            AsarError::EntryRepeated { path } => {
                let parts: [&str; 4] = ["inspect ASAR entry ", path.as_str(), ": duplicate patch resource: ", path.as_str()];
                assert(texts(parts@) =~= seq!["inspect ASAR entry "@, path@, ": duplicate patch resource: "@, path@]);
                concat(&parts)
            },
            AsarError::MissingTarget { path } => {
                let parts: [&str; 2] = ["missing ASAR patch target ", path.as_str()];
                assert(texts(parts@) =~= seq!["missing ASAR patch target "@, path@]);
                concat(&parts)
            },
            AsarError::UnpackedTarget { path } => {
                let parts: [&str; 2] = ["unpacked ASAR patch target is not snapshot-safe: ", path.as_str()];
                assert(texts(parts@) =~= seq!["unpacked ASAR patch target is not snapshot-safe: "@, path@]);
                concat(&parts)
            },
            AsarError::NoRequestPath { path } => {
                let parts: [&str; 2] = ["could not derive a request path for ", path.as_str()];
                assert(texts(parts@) =~= seq!["could not derive a request path for "@, path@]);
                concat(&parts)
            },
            AsarError::AmbiguousPath { path } => {
                let parts: [&str; 2] = ["ambiguous request path ", path.as_str()];
                assert(texts(parts@) =~= seq!["ambiguous request path "@, path@]);
                concat(&parts)
            },
            AsarError::Changed { label } => {
                let parts: [&str; 2] = [label.as_str(), " changed after compatibility inspection"];
                assert(texts(parts@) =~= seq![label@, " changed after compatibility inspection"@]);
                concat(&parts)
            },
        }
    }
}

} // verus!

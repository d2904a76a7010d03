//! The manifest of a package.

use quick_xml::events::attributes::{AttrError, Attribute, Attributes};
use quick_xml::events::BytesStart;
use quick_xml::events::Event::{DocType, Empty, End, Eof, Start};
use quick_xml::name::QName;
use quick_xml::name::ResolveResult::{Bound, Unbound, Unknown};
use quick_xml::XmlVersion;
use vstd::prelude::*;
use vstd::slice::{slice_subrange, slice_to_vec};
use vstd::utf8::*;

use crate::text::{
    concat, eq_ignore_case, joined, str_eq_ignore_case, text_of_bytes, texts, Text,
};

verus! {

// ---------------------------------------------------------------------------
// XML

/// The namespace of a name, for specifications.
pub enum ScopeSpec {
    Unbound,
    Bound(Seq<u8>),
    Unknown(Seq<u8>),
}

/// The namespace of a name.
#[derive(Debug, PartialEq, Eq)]
pub enum XmlScope {
    /// It has none.
    Unbound,
    Bound(Vec<u8>),
    /// Its prefix was not declared.
    Unknown(Vec<u8>),
}

impl View for XmlScope {
    type V = ScopeSpec;

    open spec fn view(&self) -> ScopeSpec {
        match *self {
            XmlScope::Unbound => ScopeSpec::Unbound,
            XmlScope::Bound(name) => ScopeSpec::Bound(name@),
            XmlScope::Unknown(prefix) => ScopeSpec::Unknown(prefix@),
        }
    }
}

/// What stands next in a document, for specifications.
pub enum ItemSpec {
    Malformed(Seq<char>),
    Start { scope: ScopeSpec, tag: Seq<u8>, name_len: usize },
    Empty { scope: ScopeSpec, tag: Seq<u8>, name_len: usize },
    End { scope: ScopeSpec },
    DocType,
    Other,
    Eof,
}

/// What stands next in a document.
#[derive(Debug, PartialEq, Eq)]
pub enum XmlItem {
    /// It cannot be read, for this reason.
    Malformed(String),
    /// A tag that opens an element: the namespace of its name, what stands between its
    /// brackets, and how many bytes of that its name takes.
    Start(XmlScope, Vec<u8>, usize),
    /// A tag that opens and closes an element.
    Empty(XmlScope, Vec<u8>, usize),
    /// A tag that closes an element.
    End(XmlScope),
    DocType,
    Other,
    Eof,
}

impl View for XmlItem {
    type V = ItemSpec;

    open spec fn view(&self) -> ItemSpec {
        match *self {
            XmlItem::Malformed(cause) => ItemSpec::Malformed(cause@),
            XmlItem::Start(scope, tag, name_len) => ItemSpec::Start {
                scope: scope@,
                tag: tag@,
                name_len,
            },
            XmlItem::Empty(scope, tag, name_len) => ItemSpec::Empty {
                scope: scope@,
                tag: tag@,
                name_len,
            },
            XmlItem::End(scope) => ItemSpec::End { scope: scope@ },
            XmlItem::DocType => ItemSpec::DocType,
            XmlItem::Other => ItemSpec::Other,
            XmlItem::Eof => ItemSpec::Eof,
        }
    }
}

/// An attribute of a tag, for specifications.
pub enum AttributeSpec {
    Malformed(Seq<char>),
    Pair { key: Seq<u8>, value: Seq<u8> },
}

/// An attribute of a tag.
#[derive(Debug, PartialEq, Eq)]
pub enum XmlAttribute {
    /// It cannot be read, for this reason.
    Malformed(String),
    /// A key and its value, as they are written.
    Pair { key: Vec<u8>, value: Vec<u8> },
}

impl View for XmlAttribute {
    type V = AttributeSpec;

    open spec fn view(&self) -> AttributeSpec {
        match *self {
            XmlAttribute::Malformed(cause) => AttributeSpec::Malformed(cause@),
            XmlAttribute::Pair { key, value } => AttributeSpec::Pair { key: key@, value: value@ },
        }
    }
}

pub open spec fn attributes_view(attributes: Seq<XmlAttribute>) -> Seq<AttributeSpec> {
    attributes.map_values(|attribute: XmlAttribute| attribute@)
}

#[verifier::external_type_specification]
#[verifier::external_body]
#[verifier::reject_recursive_types(R)]
pub struct ExNsReader<R>(quick_xml::NsReader<R>);

/// An item, and the bytes from it on, for specifications.
pub struct AheadSpec {
    pub rest: Seq<u8>,
    pub item: ItemSpec,
}

/// What `quick_xml`'s reader makes of a document, up to its end or to what it cannot read.
pub uninterp spec fn xml_items(text: Seq<char>) -> Seq<AheadSpec>;

/// What a reader has yet to read.
pub uninterp spec fn items_left(reader: quick_xml::NsReader<&[u8]>) -> Seq<AheadSpec>;

/// How many elements are open where a reader stands.
pub uninterp spec fn elements_open(reader: quick_xml::NsReader<&[u8]>) -> nat;

/// Tags and prefixes are text, and the name of a tag stands at its start.
pub open spec fn is_sound(scope: ScopeSpec, tag: Seq<u8>, name_len: usize) -> bool {
    &&& name_len <= tag.len()
    &&& valid_utf8(tag)
    &&& scope matches ScopeSpec::Unknown(prefix) ==> valid_utf8(prefix)
}

/// How many elements are open after an item.
pub open spec fn opened(open: nat, item: ItemSpec) -> nat {
    match item {
        ItemSpec::Start { .. } => open + 1,
        ItemSpec::End { .. } => if open > 0 {
            (open - 1) as nat
        } else {
            0
        },
        _ => open,
    }
}

/// A `>` stands from `i` on outside of quotes, where a quote is open or none is.
pub open spec fn closes(bytes: Seq<u8>, quote: Option<u8>, i: int) -> bool
    decreases bytes.len() - i,
{
    if !(0 <= i < bytes.len()) {
        false
    } else {
        match quote {
            Some(open) => closes(
                bytes,
                if bytes[i] == open {
                    None
                } else {
                    quote
                },
                i + 1,
            ),
            None => bytes[i] == 62 || closes(
                bytes,
                if bytes[i] == 34 || bytes[i] == 39 {
                    Some(bytes[i])
                } else {
                    None
                },
                i + 1,
            ),
        }
    }
}

/// A whole tag stands at the start of some bytes that opens an element, and may close it too.
pub open spec fn starts_element(bytes: Seq<u8>) -> bool {
    &&& bytes.len() >= 2
    &&& bytes[0] == 60
    &&& bytes[1] != 33 && bytes[1] != 47 && bytes[1] != 63
    &&& closes(bytes, None, 0)
}

/// Whether a whole tag stands at the start of some bytes that opens an element.
fn is_element_start(bytes: &[u8]) -> (yes: bool)
    ensures
        yes == starts_element(bytes@),
{
    let n = bytes.len();
    if n < 2 || bytes[0] != 60 || bytes[1] == 33 || bytes[1] == 47 || bytes[1] == 63 {
        return false;
    }
    let mut quote: Option<u8> = None;
    let mut i: usize = 0;
    while i < n
        invariant
            i <= n == bytes@.len(),
            closes(bytes@, None, 0) == closes(bytes@, quote, i as int),
            starts_element(bytes@) == closes(bytes@, None, 0),
        decreases n - i,
    {
        let byte = bytes[i];
        match quote {
            Some(open) => {
                if byte == open {
                    quote = None;
                }
            },
            None => {
                if byte == 62 {
                    return true;
                }
                if byte == 34 || byte == 39 {
                    quote = Some(byte);
                }
            },
        }
        i += 1;
    }
    false
}

/// `quick_xml::NsReader::from_str`: a reader at the start of a document.
#[verifier::external_body]
fn xml_reader<'x>(text: &'x str) -> (reader: quick_xml::NsReader<&'x [u8]>)
    ensures
        items_left(reader) == xml_items(text@),
        items_left(reader).len() > 0,
        elements_open(reader) == 0,
{
    quick_xml::NsReader::from_str(text)
}

/// `quick_xml::NsReader::read_resolved_event`: the next item of a document, with the namespace
/// of its name. Nothing follows the end, or what cannot be read. Inside an element, what opens
/// another is a whole tag. The reader counts open elements in sixteen bits, so where it has
/// counted to the end, no element may be opened.
#[verifier::external_body]
fn next_item<'x>(reader: &mut quick_xml::NsReader<&'x [u8]>) -> (item: XmlItem)
    requires
        items_left(*old(reader)).len() > 0,
        elements_open(*old(reader)) <= 0xffff,
        elements_open(*old(reader)) == 0xffff ==> !starts_element(
            items_left(*old(reader))[0].rest,
        ),
    ensures
        item@ == items_left(*old(reader))[0].item,
        items_left(*final(reader)) == items_left(*old(reader)).drop_first(),
        !(item is Eof) && !(item is Malformed) ==> items_left(*final(reader)).len() > 0,
        item matches XmlItem::Start(scope, tag, name_len) ==> is_sound(scope@, tag@, name_len),
        item matches XmlItem::Empty(scope, tag, name_len) ==> is_sound(scope@, tag@, name_len),
        item matches XmlItem::End(scope) ==> is_sound(scope@, Seq::empty(), 0),
        (item is Start || item is Empty) && elements_open(*old(reader)) > 0 ==> starts_element(
            items_left(*old(reader))[0].rest,
        ),
        elements_open(*final(reader)) == opened(elements_open(*old(reader)), item@),
{
    let (scope, event) = match reader.read_resolved_event() {
        Ok(read) => read,
        Err(error) => return XmlItem::Malformed(format!("{:#}", anyhow::Error::from(error))),
    };
    let scope = match scope {
        Unbound => XmlScope::Unbound,
        Bound(name) => XmlScope::Bound(name.0.to_vec()),
        Unknown(prefix) => XmlScope::Unknown(prefix),
    };
    match event {
        Start(tag) => XmlItem::Start(scope, tag.to_vec(), tag.name().0.len()),
        Empty(tag) => XmlItem::Empty(scope, tag.to_vec(), tag.name().0.len()),
        End(_) => XmlItem::End(scope),
        DocType(_) => XmlItem::DocType, Eof => XmlItem::Eof, _ => XmlItem::Other,
    }
}

/// `quick_xml::Reader::get_ref` of a reader of bytes: the bytes that it has not read.
#[verifier::external_body]
fn unread<'x>(reader: &quick_xml::NsReader<&'x [u8]>) -> (rest: &'x [u8])
    requires
        items_left(*reader).len() > 0,
    ensures
        rest@ == items_left(*reader)[0].rest,
{
    *reader.get_ref()
}

/// The attributes of a tag, as `quick_xml` reads them.
pub uninterp spec fn attribute_items(tag: Seq<char>, name_len: usize) -> Seq<AttributeSpec>;

/// `quick_xml::events::attributes::Attributes`: the attributes of a tag, in order, each with
/// its key and value as they are written, or the reason why it cannot be read.
#[verifier::external_body]
fn attributes_in(tag: &str, name_len: usize) -> (attributes: Vec<XmlAttribute>)
    requires
        name_len <= encode_utf8(tag@).len(),
    ensures
        attributes_view(attributes@) == attribute_items(tag@, name_len),
{
    let convert = |attribute: Result<Attribute<'_>, AttrError>| match attribute {
        Ok(pair) => XmlAttribute::Pair { key: pair.key.0.to_vec(), value: pair.value.into_owned() },
        Err(error) => XmlAttribute::Malformed(format!("{:#}", anyhow::Error::from(error))),
    };
    Attributes::new(tag, name_len).map(convert).collect()
}

/// What a value of an attribute says, or the reason why it says nothing.
pub uninterp spec fn attribute_text(value: Seq<u8>) -> Result<Seq<char>, Seq<char>>;

pub open spec fn text_result(result: Result<String, String>) -> Result<Seq<char>, Seq<char>> {
    match result {
        Ok(text) => Ok(text@),
        Err(cause) => Err(cause@),
    }
}

/// `quick_xml::events::attributes::Attribute::decoded_and_normalized_value`: a value with its
/// references replaced, by the rules of XML 1.0.
#[verifier::external_body]
fn decode_value(value: &[u8]) -> (text: Result<String, String>)
    ensures
        text_result(text) == attribute_text(value@),
{
    let attribute = Attribute { key: QName(b"value"), value: std::borrow::Cow::Borrowed(value) };
    let decoder = BytesStart::new("tag").decoder();
    match attribute.decoded_and_normalized_value(XmlVersion::Implicit1_0, decoder) {
        Ok(text) => Ok(text.into_owned()),
        Err(error) => Err(format!("{:#}", anyhow::Error::from(error))),
    }
}

// ---------------------------------------------------------------------------
// Applications

/// Why a manifest names no application. Its view is what it says.
#[derive(Debug, PartialEq, Eq)]
pub struct ManifestError {
    pub message: String,
}

impl View for ManifestError {
    type V = Seq<char>;

    open spec fn view(&self) -> Seq<char> {
        self.message@
    }
}

fn problem(parts: &[&str]) -> (error: ManifestError)
    ensures
        error@ == joined(texts(parts@)),
{
    ManifestError { message: concat(parts) }
}

/// An application of a package, for specifications.
pub struct ApplicationSpec {
    pub app_id: Seq<char>,
    pub executable: Seq<char>,
}

/// An application of a package.
#[derive(Debug, PartialEq, Eq)]
pub struct ManifestApplication {
    pub app_id: String,
    pub executable: String,
}

impl View for ManifestApplication {
    type V = ApplicationSpec;

    open spec fn view(&self) -> ApplicationSpec {
        ApplicationSpec { app_id: self.app_id@, executable: self.executable@ }
    }
}

pub open spec fn optional_application(application: Option<ManifestApplication>) -> Option<
    ApplicationSpec,
> {
    match application {
        Some(application) => Some(application@),
        None => None,
    }
}

/// Where the last piece of a path starts.
pub open spec fn last_piece(path: Seq<char>, end: int) -> int
    decreases end,
{
    if end <= 0 || path[end - 1] == '/' || path[end - 1] == '\\' {
        end
    } else {
        last_piece(path, end - 1)
    }
}

/// An executable of this name, in whatever directory.
pub open spec fn is_chatgpt(executable: Seq<char>) -> bool {
    eq_ignore_case(
        executable.skip(last_piece(executable, executable.len() as int)),
        "ChatGPT.exe"@,
    )
}

pub fn is_chatgpt_executable(executable: &str) -> (yes: bool)
    ensures
        yes == is_chatgpt(executable@),
{
    let chars = Text::new(executable);
    let n = chars.len();
    let mut start: usize = n;
    while start > 0 && chars.at(start - 1) != '/' && chars.at(start - 1) != '\\'
        invariant
            chars@ == executable@,
            start <= n == executable@.len(),
            last_piece(executable@, n as int) == last_piece(executable@, start as int),
        decreases start,
    {
        start -= 1;
    }
    let name = chars.slice(start, n);
    assert(name@ =~= executable@.skip(start as int));
    str_eq_ignore_case(name, "ChatGPT.exe")
}

/// Whether two runs of bytes are the same.
fn same_bytes(a: &[u8], b: &[u8]) -> (same: bool)
    ensures
        same == (a@ == b@),
{
    if a.len() != b.len() {
        return false;
    }
    let mut k: usize = 0;
    while k < a.len()
        invariant
            k <= a@.len() == b@.len(),
            forall|j: int| 0 <= j < k ==> a@[j] == b@[j],
        decreases a@.len() - k,
    {
        if a[k] != b[k] {
            return false;
        }
        k += 1;
    }
    assert(a@ =~= b@);
    true
}

fn is_named(bytes: &[u8], name: &str) -> (yes: bool)
    ensures
        yes == (bytes@ == encode_utf8(name@)),
{
    same_bytes(bytes, name.as_bytes())
}

/// The text of bytes that are text.
fn text_of(bytes: &[u8]) -> (text: String)
    requires
        valid_utf8(bytes@),
    ensures
        text@ == decode_utf8(bytes@),
        encode_utf8(text@) == bytes@,
{
    let text = match text_of_bytes(slice_to_vec(bytes)) {
        Some(text) => text,
        None => String::new(),
    };
    proof {
        encode_utf8_decode_utf8(text@);
    }
    text
}

/// What a tag names from some attributes on, if what was read so far is this.
pub open spec fn application_from(
    attributes: Seq<AttributeSpec>,
    app_id: Option<Seq<char>>,
    executable: Option<Seq<char>>,
) -> Result<Option<ApplicationSpec>, Seq<char>>
    decreases attributes.len(),
{
    if attributes.len() == 0 {
        match (app_id, executable) {
            (Some(app_id), Some(executable)) => Ok(Some(ApplicationSpec { app_id, executable })),
            _ => Ok(None),
        }
    } else {
        let rest = attributes.drop_first();
        match attributes[0] {
            AttributeSpec::Malformed(cause) => Err(
                joined(seq!["parse Application attribute: "@, cause]),
            ),
            AttributeSpec::Pair { key, value } => if key == encode_utf8("Id"@) {
                match (app_id, attribute_text(value)) {
                    (Some(_), _) => Err("duplicate Application attribute Id"@),
                    (None, Ok(text)) => application_from(rest, Some(text), executable),
                    (None, Err(cause)) => Err(
                        joined(seq!["decode Application attribute: "@, cause]),
                    ),
                }
            } else if key == encode_utf8("Executable"@) {
                match (executable, attribute_text(value)) {
                    (Some(_), _) => Err("duplicate Application attribute Executable"@),
                    (None, Ok(text)) => application_from(rest, app_id, Some(text)),
                    (None, Err(cause)) => Err(
                        joined(seq!["decode Application attribute: "@, cause]),
                    ),
                }
            } else {
                application_from(rest, app_id, executable)
            },
        }
    }
}

pub open spec fn optional_string(text: Option<String>) -> Option<Seq<char>> {
    match text {
        Some(text) => Some(text@),
        None => None,
    }
}

fn undecoded(cause: &str) -> (error: ManifestError)
    ensures
        error@ == joined(seq!["decode Application attribute: "@, cause@]),
{
    let parts: [&str; 2] = ["decode Application attribute: ", cause];
    assert(texts(parts@) =~= seq!["decode Application attribute: "@, cause@]);
    problem(&parts)
}

/// What the attributes of a tag name: an application, where both its identifier and its
/// executable are there.
pub fn application_attributes(attributes: &Vec<XmlAttribute>) -> (application: Result<
    Option<ManifestApplication>,
    ManifestError,
>)
    ensures
        match (application, application_from(attributes_view(attributes@), None, None)) {
            (Ok(application), Ok(expected)) => optional_application(application) == expected,
            (Err(error), Err(message)) => error@ == message,
            _ => false,
        },
{
    let ghost all = attributes_view(attributes@);
    let ghost expected = application_from(all, None, None);
    let mut app_id: Option<String> = None;
    let mut executable: Option<String> = None;
    let mut k: usize = 0;
    assert(all.skip(0) =~= all);
    while k < attributes.len()
        invariant
            all == attributes_view(attributes@),
            expected == application_from(all, None, None),
            k <= attributes@.len() == all.len(),
            expected == application_from(
                all.skip(k as int),
                optional_string(app_id),
                optional_string(executable),
            ),
        decreases attributes.len() - k,
    {
        proof {
            assert(all.skip(k as int)[0] == attributes@[k as int]@);
            assert(all.skip(k as int).drop_first() =~= all.skip(k + 1));
        }
        match &attributes[k] {
            XmlAttribute::Malformed(cause) => {
                let parts: [&str; 2] = ["parse Application attribute: ", cause.as_str()];
                assert(texts(parts@) =~= seq!["parse Application attribute: "@, cause@]);
                return Err(problem(&parts));
            },
            XmlAttribute::Pair { key, value } => {
                if is_named(key.as_slice(), "Id") {
                    if app_id.is_some() {
                        return Err(
                            ManifestError {
                                message: "duplicate Application attribute Id".to_owned(),
                            },
                        );
                    }
                    match decode_value(value.as_slice()) {
                        Ok(text) => {
                            app_id = Some(text);
                        },
                        Err(cause) => {
                            return Err(undecoded(cause.as_str()));
                        },
                    }
                } else if is_named(key.as_slice(), "Executable") {
                    if executable.is_some() {
                        return Err(
                            ManifestError {
                                message: "duplicate Application attribute Executable".to_owned(),
                            },
                        );
                    }
                    match decode_value(value.as_slice()) {
                        Ok(text) => {
                            executable = Some(text);
                        },
                        Err(cause) => {
                            return Err(undecoded(cause.as_str()));
                        },
                    }
                }
            },
        }
        k += 1;
    }
    assert(all.skip(k as int) =~= Seq::empty());
    match (app_id, executable) {
        (Some(app_id), Some(executable)) => Ok(Some(ManifestApplication { app_id, executable })),
        _ => Ok(None),
    }
}

// ---------------------------------------------------------------------------
// Documents

/// First colon from `i` on, the end without one.
pub open spec fn colon_at(name: Seq<u8>, i: int) -> int
    decreases name.len() - i,
{
    if 0 <= i < name.len() && name[i] != 58 {
        colon_at(name, i + 1)
    } else {
        i
    }
}

/// A name without its prefix.
pub open spec fn local_name(name: Seq<u8>) -> Seq<u8> {
    let colon = colon_at(name, 0);
    if colon < name.len() {
        name.skip(colon + 1)
    } else {
        name
    }
}

fn local_part<'n>(name: &'n [u8]) -> (local: &'n [u8])
    ensures
        local@ == local_name(name@),
{
    let n = name.len();
    let mut colon: usize = 0;
    while colon < n && name[colon] != 58
        invariant
            colon <= n == name@.len(),
            colon_at(name@, 0) == colon_at(name@, colon as int),
        decreases n - colon,
    {
        colon += 1;
    }
    if colon < n {
        let local = slice_subrange(name, colon + 1, n);
        assert(local@ =~= name@.skip(colon + 1));
        local
    } else {
        name
    }
}

/// The namespace of the root, once it is known, and the first application that fits.
pub struct ReadingSpec {
    pub root: Option<Option<Seq<u8>>>,
    pub candidate: Option<ApplicationSpec>,
}

pub open spec fn undeclared(prefix: Seq<u8>) -> Seq<char> {
    joined(
        seq!["AppxManifest.xml uses undeclared namespace prefix "@, decode_utf8(prefix)],
    )
}

pub open spec fn namespace_of(scope: ScopeSpec) -> Option<Seq<u8>> {
    match scope {
        ScopeSpec::Bound(name) => Some(name),
        _ => None,
    }
}

/// What is known after a tag that opens an element, or why the manifest is refused.
pub open spec fn after_tag(
    reading: ReadingSpec,
    scope: ScopeSpec,
    tag: Seq<u8>,
    name_len: usize,
) -> Result<ReadingSpec, Seq<char>> {
    let name = local_name(tag.take(name_len as int));
    let root = match reading.root {
        Some(root) => root,
        None => namespace_of(scope),
    };
    if reading.root is None && name != encode_utf8("Package"@) {
        Err("AppxManifest.xml root element is not Package"@)
    } else if reading.candidate is None && name == encode_utf8("Application"@) && root
        == namespace_of(scope) {
        match application_from(attribute_items(decode_utf8(tag), name_len), None, None) {
            Ok(Some(application)) => if is_chatgpt(application.executable) {
                Ok(ReadingSpec { root: Some(root), candidate: Some(application) })
            } else {
                Ok(ReadingSpec { root: Some(root), candidate: None })
            },
            Ok(None) => Ok(ReadingSpec { root: Some(root), candidate: None }),
            Err(message) => Err(message),
        }
    } else {
        Ok(ReadingSpec { root: Some(root), ..reading })
    }
}

/// What is known after an item, or why the manifest is refused.
pub open spec fn after_item(reading: ReadingSpec, item: ItemSpec) -> Result<
    ReadingSpec,
    Seq<char>,
> {
    match item {
        ItemSpec::Malformed(cause) => Err(joined(seq!["parse AppxManifest.xml: "@, cause])),
        ItemSpec::Start { scope, tag, name_len } => match scope {
            ScopeSpec::Unknown(prefix) => Err(undeclared(prefix)),
            _ => after_tag(reading, scope, tag, name_len),
        },
        ItemSpec::Empty { scope, tag, name_len } => match scope {
            ScopeSpec::Unknown(prefix) => Err(undeclared(prefix)),
            _ => after_tag(reading, scope, tag, name_len),
        },
        ItemSpec::End { scope } => match scope {
            ScopeSpec::Unknown(prefix) => Err(undeclared(prefix)),
            _ => Ok(reading),
        },
        ItemSpec::DocType => Err("AppxManifest.xml must not contain a document type"@),
        _ => Ok(reading),
    }
}

/// The application that was found.
pub open spec fn found(reading: ReadingSpec) -> Result<ApplicationSpec, Seq<char>> {
    match reading.candidate {
        Some(application) => Ok(application),
        None => Err("AppxManifest.xml does not define a ChatGPT.exe application"@),
    }
}

/// The application that the rest of a manifest names, if what was read so far is this. An
/// element that its reader cannot count is refused.
pub open spec fn application_in(items: Seq<AheadSpec>, open: nat, reading: ReadingSpec) -> Result<
    ApplicationSpec,
    Seq<char>,
>
    decreases items.len(),
{
    if items.len() == 0 {
        found(reading)
    } else if open >= 0xffff && starts_element(items[0].rest) {
        Err("AppxManifest.xml nests too many elements"@)
    } else if items[0].item == ItemSpec::Eof {
        found(reading)
    } else {
        match after_item(reading, items[0].item) {
            Err(message) => Err(message),
            Ok(after) => application_in(
                items.drop_first(),
                opened(open, items[0].item),
                after,
            ),
        }
    }
}

pub open spec fn nothing_read() -> ReadingSpec {
    ReadingSpec { root: None, candidate: None }
}

/// A manifest as far as it was read.
pub struct ManifestReading {
    root: Option<Option<Vec<u8>>>,
    candidate: Option<ManifestApplication>,
}

spec fn optional_bytes(bytes: Option<Vec<u8>>) -> Option<Seq<u8>> {
    match bytes {
        Some(bytes) => Some(bytes@),
        None => None,
    }
}

impl View for ManifestReading {
    type V = ReadingSpec;

    closed spec fn view(&self) -> ReadingSpec {
        ReadingSpec {
            root: match self.root {
                Some(root) => Some(optional_bytes(root)),
                None => None,
            },
            candidate: optional_application(self.candidate),
        }
    }
}

fn namespace_bytes(scope: XmlScope) -> (namespace: Option<Vec<u8>>)
    ensures
        optional_bytes(namespace) == namespace_of(scope@),
{
    match scope {
        XmlScope::Bound(name) => Some(name),
        _ => None,
    }
}

fn undeclared_prefix(prefix: &Vec<u8>) -> (error: ManifestError)
    requires
        valid_utf8(prefix@),
    ensures
        error@ == undeclared(prefix@),
{
    let text = text_of(prefix.as_slice());
    let parts: [&str; 2] = [
        "AppxManifest.xml uses undeclared namespace prefix ",
        text.as_str(),
    ];
    assert(texts(parts@) =~= seq![
        "AppxManifest.xml uses undeclared namespace prefix "@,
        text@,
    ]);
    problem(&parts)
}

impl ManifestReading {
    /// A manifest of which nothing was read.
    pub fn new() -> (reading: ManifestReading)
        ensures
            reading@ == nothing_read(),
    {
        ManifestReading { root: None, candidate: None }
    }

    /// The application that was found.
    pub fn finish(self) -> (application: Result<ManifestApplication, ManifestError>)
        ensures
            match (application, found(self@)) {
                (Ok(application), Ok(expected)) => application@ == expected,
                (Err(error), Err(message)) => error@ == message,
                _ => false,
            },
    {
        match self.candidate {
            Some(application) => Ok(application),
            None => Err(
                ManifestError {
                    message: "AppxManifest.xml does not define a ChatGPT.exe application".to_owned(),
                },
            ),
        }
    }

    fn take_tag(&mut self, scope: XmlScope, tag: &Vec<u8>, name_len: usize) -> (result: Result<
        (),
        ManifestError,
    >)
        requires
            is_sound(scope@, tag@, name_len),
            !(scope is Unknown),
        ensures
            match (result, after_tag(old(self)@, scope@, tag@, name_len)) {
                (Ok(_), Ok(after)) => final(self)@ == after,
                (Err(error), Err(message)) => error@ == message,
                _ => false,
            },
    {
        let name = local_part(slice_subrange(tag.as_slice(), 0, name_len));
        assert(tag@.subrange(0, name_len as int) =~= tag@.take(name_len as int));
        let is_application = is_named(name, "Application");
        let is_package = is_named(name, "Package");
        let namespace = namespace_bytes(scope);
        let inside = match &self.root {
            Some(root) => match (root, &namespace) {
                (Some(a), Some(b)) => same_bytes(a.as_slice(), b.as_slice()),
                (None, None) => true,
                _ => false,
            },
            None => {
                if !is_package {
                    return Err(
                        ManifestError {
                            message: "AppxManifest.xml root element is not Package".to_owned(),
                        },
                    );
                }
                true
            },
        };
        if self.root.is_none() {
            self.root = Some(namespace);
        }
        if self.candidate.is_none() && is_application && inside {
            let text = text_of(tag.as_slice());
            let attributes = attributes_in(text.as_str(), name_len);
            match application_attributes(&attributes) {
                Ok(Some(application)) => {
                    if is_chatgpt_executable(application.executable.as_str()) {
                        self.candidate = Some(application);
                    }
                },
                Ok(None) => {},
                Err(error) => {
                    return Err(error);
                },
            }
        }
        Ok(())
    }

    /// Takes the next item, or refuses the manifest.
    pub fn take_item(&mut self, item: XmlItem) -> (result: Result<(), ManifestError>)
        requires
            item matches XmlItem::Start(scope, tag, name_len) ==> is_sound(
                scope@,
                tag@,
                name_len,
            ),
            item matches XmlItem::Empty(scope, tag, name_len) ==> is_sound(
                scope@,
                tag@,
                name_len,
            ),
            item matches XmlItem::End(scope) ==> is_sound(scope@, Seq::empty(), 0),
        ensures
            match (result, after_item(old(self)@, item@)) {
                (Ok(_), Ok(after)) => final(self)@ == after,
                (Err(error), Err(message)) => error@ == message,
                _ => false,
            },
    {
        match item {
            XmlItem::Malformed(cause) => {
                let parts: [&str; 2] = ["parse AppxManifest.xml: ", cause.as_str()];
                assert(texts(parts@) =~= seq!["parse AppxManifest.xml: "@, cause@]);
                Err(problem(&parts))
            },
            XmlItem::Start(scope, tag, name_len) => match &scope {
                XmlScope::Unknown(prefix) => Err(undeclared_prefix(prefix)),
                _ => self.take_tag(scope, &tag, name_len),
            },
            XmlItem::Empty(scope, tag, name_len) => match &scope {
                XmlScope::Unknown(prefix) => Err(undeclared_prefix(prefix)),
                _ => self.take_tag(scope, &tag, name_len),
            },
            XmlItem::End(scope) => match &scope {
                XmlScope::Unknown(prefix) => Err(undeclared_prefix(prefix)),
                _ => Ok(()),
            },
            XmlItem::DocType => Err(
                ManifestError {
                    message: "AppxManifest.xml must not contain a document type".to_owned(),
                },
            ),
            _ => Ok(()),
        }
    }
}

/// The first application of a manifest, in the namespace of its root, that runs the executable
/// of the application. A document that nests more elements than its reader can count is
/// refused.
pub fn parse_appx_application_xml(xml: &str) -> (application: Result<
    ManifestApplication,
    ManifestError,
>)
    ensures
        match (application, application_in(xml_items(xml@), 0, nothing_read())) {
            (Ok(application), Ok(expected)) => application@ == expected,
            (Err(error), Err(message)) => error@ == message,
            _ => false,
        },
{
    let mut reader = xml_reader(xml);
    let mut reading = ManifestReading::new();
    let mut open: usize = 0;
    let ghost expected = application_in(xml_items(xml@), 0, nothing_read());
    loop
        invariant_except_break
            expected == application_in(items_left(reader), open as nat, reading@),
            items_left(reader).len() > 0,
            elements_open(reader) == open,
            open <= 0xffff,
        invariant
            expected == application_in(xml_items(xml@), 0, nothing_read()),
        ensures
            expected == found(reading@),
        decreases items_left(reader).len(),
    {
        if open == 0xffff && is_element_start(unread(&reader)) {
            return Err(
                ManifestError { message: "AppxManifest.xml nests too many elements".to_owned() },
            );
        }
        let item = next_item(&mut reader);
        let opens = match &item {
            XmlItem::Eof => {
                break;
            },
            XmlItem::Start(..) => true,
            _ => false,
        };
        let closes = match &item {
            XmlItem::End(..) => true,
            _ => false,
        };
        if let Err(error) = reading.take_item(item) {
            return Err(error);
        }
        if opens {
            open += 1;
        } else if closes && open > 0 {
            open -= 1;
        }
    }
    reading.finish()
}

/// The application that is found runs the executable of the application.
pub proof fn lemma_application_is_chatgpt(items: Seq<AheadSpec>, open: nat, reading: ReadingSpec)
    requires
        reading.candidate matches Some(application) ==> is_chatgpt(application.executable),
    ensures
        application_in(items, open, reading) matches Ok(application) ==> is_chatgpt(
            application.executable,
        ),
    decreases items.len(),
{
    if items.len() > 0 && items[0].item != ItemSpec::Eof {
        if let Ok(after) = after_item(reading, items[0].item) {
            lemma_application_is_chatgpt(items.drop_first(), opened(open, items[0].item), after);
        }
    }
}

} // verus!

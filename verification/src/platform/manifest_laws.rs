//! Which application a manifest names, told from its tags.

use vstd::prelude::*;
use vstd::utf8::*;

use crate::platform::manifest::{
    after_item, application_from, application_in, attribute_items, attribute_text, closes, colon_at,
    is_chatgpt, last_piece, local_name, namespace_of, nothing_read, opened, starts_element,
    undeclared, AheadSpec, ApplicationSpec, AttributeSpec, ItemSpec, ReadingSpec, ScopeSpec,
};
use crate::text::{eq_ignore_case, fold_case, joined};

verus! {

// ---------------------------------------------------------------------------
// Executables

/// Two characters are the same but for the case of a letter.
pub open spec fn same_letter(a: char, b: char) -> bool {
    ||| a == b
    ||| 'a' <= a && a <= 'z' && b as int == a as int - 32
    ||| 'A' <= a && a <= 'Z' && b as int == a as int + 32
}

/// A name is that of the executable, in whatever case.
pub open spec fn is_executable_name(name: Seq<char>) -> bool {
    &&& name.len() == 11
    &&& same_letter(name[0], 'C')
    &&& same_letter(name[1], 'h')
    &&& same_letter(name[2], 'a')
    &&& same_letter(name[3], 't')
    &&& same_letter(name[4], 'G')
    &&& same_letter(name[5], 'P')
    &&& same_letter(name[6], 'T')
    &&& same_letter(name[7], '.')
    &&& same_letter(name[8], 'e')
    &&& same_letter(name[9], 'x')
    &&& same_letter(name[10], 'e')
}

/// A text that holds neither kind of slash.
pub open spec fn is_bare(name: Seq<char>) -> bool {
    forall|i: int| 0 <= i < name.len() ==> #[trigger] name[i] != '/' && name[i] != '\\'
}

proof fn lemma_last_piece(path: Seq<char>, start: int, end: int)
    requires
        0 <= start <= end <= path.len(),
        start > 0 ==> path[start - 1] == '/' || path[start - 1] == '\\',
        forall|k: int| start <= k < end ==> #[trigger] path[k] != '/' && path[k] != '\\',
    ensures
        last_piece(path, end) == start,
    decreases end,
{
    if start < end {
        assert(path[end - 1] != '/' && path[end - 1] != '\\');
        lemma_last_piece(path, start, end - 1);
    }
}

proof fn lemma_same_name(name: Seq<char>)
    ensures
        eq_ignore_case(name, "ChatGPT.exe"@) <==> is_executable_name(name),
{
    reveal_strlit("ChatGPT.exe");
    let wanted = "ChatGPT.exe"@;
    assert(wanted.len() == 11);
    assert(wanted[0] == 'C' && wanted[1] == 'h' && wanted[2] == 'a' && wanted[3] == 't');
    assert(wanted[4] == 'G' && wanted[5] == 'P' && wanted[6] == 'T' && wanted[7] == '.');
    assert(wanted[8] == 'e' && wanted[9] == 'x' && wanted[10] == 'e');
    if eq_ignore_case(name, wanted) {
        assert(fold_case(name[0]) == fold_case(wanted[0]));
        assert(fold_case(name[1]) == fold_case(wanted[1]));
        assert(fold_case(name[2]) == fold_case(wanted[2]));
        assert(fold_case(name[3]) == fold_case(wanted[3]));
        assert(fold_case(name[4]) == fold_case(wanted[4]));
        assert(fold_case(name[5]) == fold_case(wanted[5]));
        assert(fold_case(name[6]) == fold_case(wanted[6]));
        assert(fold_case(name[7]) == fold_case(wanted[7]));
        assert(fold_case(name[8]) == fold_case(wanted[8]));
        assert(fold_case(name[9]) == fold_case(wanted[9]));
        assert(fold_case(name[10]) == fold_case(wanted[10]));
    }
}

/// An executable is known by its name, in any directory and in any case.
pub proof fn lemma_executable_is_known_by_its_name(
    directory: Seq<char>,
    slash: char,
    name: Seq<char>,
)
    requires
        slash == '/' || slash == '\\',
        is_bare(name),
    ensures
        is_chatgpt(directory + seq![slash] + name) <==> is_executable_name(name),
        is_chatgpt(name) <==> is_executable_name(name),
{
    lemma_same_name(name);
    let path = directory + seq![slash] + name;
    let start = directory.len() as int + 1;
    assert(path[start - 1] == slash);
    assert forall|k: int| start <= k < path.len() implies #[trigger] path[k] != '/' && path[k]
        != '\\' by {
        assert(path[k] == name[k - start]);
    }
    lemma_last_piece(path, start, path.len() as int);
    assert(path.skip(start) =~= name);
    lemma_last_piece(name, 0, name.len() as int);
    assert(name.skip(0) =~= name);
}

// ---------------------------------------------------------------------------
// Attributes

/// An attribute with this key that says this.
pub open spec fn says(attribute: AttributeSpec, key: Seq<char>, text: Seq<char>) -> bool {
    &&& attribute matches AttributeSpec::Pair { key: written, value }
    &&& written == encode_utf8(key)
    &&& attribute_text(value) == Ok::<Seq<char>, Seq<char>>(text)
}

/// An attribute of another key.
pub open spec fn is_other(attribute: AttributeSpec) -> bool {
    attribute matches AttributeSpec::Pair { key, .. } && key != encode_utf8("Id"@) && key
        != encode_utf8("Executable"@)
}

proof fn lemma_keys()
    ensures
        encode_utf8("Id"@) != encode_utf8("Executable"@),
{
    reveal_strlit("Id");
    reveal_strlit("Executable");
    assert("Id"@.len() == 2 && "Executable"@.len() == 10);
    if encode_utf8("Id"@) == encode_utf8("Executable"@) {
        crate::text::lemma_encode_injective("Id"@, "Executable"@);
    }
}

/// An identifier and an executable name an application, in either order, and an attribute of
/// another key changes nothing, wherever it stands.
pub proof fn lemma_two_attributes_name_an_application(
    id: AttributeSpec,
    executable: AttributeSpec,
    other: AttributeSpec,
    app_id: Seq<char>,
    path: Seq<char>,
)
    requires
        says(id, "Id"@, app_id),
        says(executable, "Executable"@, path),
        is_other(other),
    ensures
        ({
            let named = Ok::<Option<ApplicationSpec>, Seq<char>>(
                Some(ApplicationSpec { app_id, executable: path }),
            );
            &&& application_from(seq![id, executable], None, None) == named
            &&& application_from(seq![executable, id], None, None) == named
            &&& application_from(seq![other, id, executable], None, None) == named
            &&& application_from(seq![id, other, executable], None, None) == named
            &&& application_from(seq![id, executable, other], None, None) == named
        }),
{
    lemma_keys();
    reveal_with_fuel(application_from, 4);
    assert(seq![id, executable].drop_first() =~= seq![executable]);
    assert(seq![executable, id].drop_first() =~= seq![id]);
    assert(seq![executable].drop_first() =~= Seq::<AttributeSpec>::empty());
    assert(seq![id].drop_first() =~= Seq::<AttributeSpec>::empty());
    assert(seq![other].drop_first() =~= Seq::<AttributeSpec>::empty());
    assert(seq![other, id, executable].drop_first() =~= seq![id, executable]);
    assert(seq![id, other, executable].drop_first() =~= seq![other, executable]);
    assert(seq![other, executable].drop_first() =~= seq![executable]);
    assert(seq![id, executable, other].drop_first() =~= seq![executable, other]);
    assert(seq![executable, other].drop_first() =~= seq![other]);
}

/// Without one of the two no application is named, and with one of them twice the manifest is
/// refused.
pub proof fn lemma_missing_and_repeated_attributes(
    id: AttributeSpec,
    executable: AttributeSpec,
    app_id: Seq<char>,
    path: Seq<char>,
)
    requires
        says(id, "Id"@, app_id),
        says(executable, "Executable"@, path),
    ensures
        application_from(Seq::empty(), None, None) == Ok::<Option<ApplicationSpec>, Seq<char>>(None),
        application_from(seq![id], None, None) == Ok::<Option<ApplicationSpec>, Seq<char>>(None),
        application_from(seq![executable], None, None) == Ok::<Option<ApplicationSpec>, Seq<char>>(
            None,
        ),
        application_from(seq![id, id], None, None) == Err::<Option<ApplicationSpec>, Seq<char>>(
            "duplicate Application attribute Id"@,
        ),
        application_from(seq![executable, executable], None, None) == Err::<
            Option<ApplicationSpec>,
            Seq<char>,
        >("duplicate Application attribute Executable"@),
{
    lemma_keys();
    reveal_with_fuel(application_from, 3);
    assert(seq![id].drop_first() =~= Seq::<AttributeSpec>::empty());
    assert(seq![executable].drop_first() =~= Seq::<AttributeSpec>::empty());
    assert(seq![id, id].drop_first() =~= seq![id]);
    assert(seq![executable, executable].drop_first() =~= seq![executable]);
}

/// An attribute that cannot be read, or that says nothing, refuses the manifest with its cause.
pub proof fn lemma_unreadable_attribute_is_refused(
    attributes: Seq<AttributeSpec>,
    cause: Seq<char>,
    key: Seq<char>,
    value: Seq<u8>,
)
    requires
        attributes.len() > 0,
    ensures
        attributes[0] == AttributeSpec::Malformed(cause) ==> application_from(attributes, None, None)
            == Err::<Option<ApplicationSpec>, Seq<char>>(
            "parse Application attribute: "@ + cause,
        ),
        attributes[0] == (AttributeSpec::Pair { key: encode_utf8(key), value }) && (key == "Id"@
            || key == "Executable"@) && attribute_text(value) == Err::<Seq<char>, Seq<char>>(cause)
            ==> application_from(attributes, None, None) == Err::<
            Option<ApplicationSpec>,
            Seq<char>,
        >("decode Application attribute: "@ + cause),
{
    reveal_with_fuel(joined, 3);
    assert(joined(seq!["parse Application attribute: "@, cause])
        =~= "parse Application attribute: "@ + cause);
    assert(joined(seq!["decode Application attribute: "@, cause])
        =~= "decode Application attribute: "@ + cause);
}

// ---------------------------------------------------------------------------
// Tags

proof fn lemma_colon_at(name: Seq<u8>, i: int, colon: int)
    requires
        0 <= i <= colon <= name.len(),
        forall|k: int| i <= k < colon ==> #[trigger] name[k] != ':' as u8,
        colon < name.len() ==> name[colon] == ':' as u8,
    ensures
        colon_at(name, i) == colon,
    decreases colon - i,
{
    if i < colon {
        assert(name[i] != ':' as u8);
        lemma_colon_at(name, i + 1, colon);
    }
}

/// The name of a tag stands behind its prefix.
pub proof fn lemma_name_behind_its_prefix(prefix: Seq<u8>, name: Seq<u8>)
    requires
        forall|k: int| 0 <= k < prefix.len() ==> #[trigger] prefix[k] != ':' as u8,
    ensures
        local_name(prefix + seq![':' as u8] + name) == name,
        local_name(prefix) == prefix,
{
    let whole = prefix + seq![':' as u8] + name;
    let colon = prefix.len() as int;
    assert forall|k: int| 0 <= k < colon implies #[trigger] whole[k] != ':' as u8 by {
        assert(whole[k] == prefix[k]);
    }
    assert(whole[colon] == ':' as u8);
    lemma_colon_at(whole, 0, colon);
    assert(whole.skip(colon + 1) =~= name);
    lemma_colon_at(prefix, 0, colon);
}

/// A tag with this name, which opens an element or is one.
pub open spec fn is_tag(item: ItemSpec, scope: ScopeSpec, tag: Seq<u8>, name_len: usize) -> bool {
    item == (ItemSpec::Start { scope, tag, name_len }) || item == (ItemSpec::Empty {
        scope,
        tag,
        name_len,
    })
}

proof fn lemma_tag_names()
    ensures
        encode_utf8("Package"@) != encode_utf8("Application"@),
{
    reveal_strlit("Package");
    reveal_strlit("Application");
    assert("Package"@.len() == 7 && "Application"@.len() == 11);
    if encode_utf8("Package"@) == encode_utf8("Application"@) {
        crate::text::lemma_encode_injective("Package"@, "Application"@);
    }
}

/// The first tag must be that of a package, and its namespace is the one of the manifest.
pub proof fn lemma_first_tag_is_the_package(
    item: ItemSpec,
    scope: ScopeSpec,
    tag: Seq<u8>,
    name_len: usize,
)
    requires
        is_tag(item, scope, tag, name_len),
        !(scope is Unknown),
    ensures
        local_name(tag.take(name_len as int)) == encode_utf8("Package"@) ==> after_item(
            nothing_read(),
            item,
        ) == Ok::<ReadingSpec, Seq<char>>(
            ReadingSpec { root: Some(namespace_of(scope)), candidate: None },
        ),
        local_name(tag.take(name_len as int)) != encode_utf8("Package"@) ==> after_item(
            nothing_read(),
            item,
        ) == Err::<ReadingSpec, Seq<char>>("AppxManifest.xml root element is not Package"@),
{
    lemma_tag_names();
}

/// The first application in the namespace of the manifest that runs the executable is taken.
pub proof fn lemma_fitting_application_is_taken(
    root: Option<Seq<u8>>,
    item: ItemSpec,
    scope: ScopeSpec,
    tag: Seq<u8>,
    name_len: usize,
    application: ApplicationSpec,
)
    requires
        is_tag(item, scope, tag, name_len),
        scope == ScopeSpec::Unbound && root is None || (root matches Some(name) && scope
            == ScopeSpec::Bound(name)),
        local_name(tag.take(name_len as int)) == encode_utf8("Application"@),
        application_from(attribute_items(decode_utf8(tag), name_len), None, None) == Ok::<
            Option<ApplicationSpec>,
            Seq<char>,
        >(Some(application)),
    ensures
        after_item(ReadingSpec { root: Some(root), candidate: None }, item) == Ok::<
            ReadingSpec,
            Seq<char>,
        >(
            ReadingSpec {
                root: Some(root),
                candidate: if is_chatgpt(application.executable) {
                    Some(application)
                } else {
                    None
                },
            },
        ),
{
}

/// An application that was taken stays, whatever follows that is not refused.
pub proof fn lemma_first_application_stays(
    items: Seq<AheadSpec>,
    open: nat,
    reading: ReadingSpec,
    application: ApplicationSpec,
)
    requires
        reading.root is Some,
        reading.candidate == Some(application),
    ensures
        application_in(items, open, reading) matches Ok(named) ==> named == application,
    decreases items.len(),
{
    if items.len() > 0 && items[0].item != ItemSpec::Eof {
        if let Ok(after) = after_item(reading, items[0].item) {
            assert(after.candidate == Some(application));
            assert(after.root is Some);
            lemma_first_application_stays(
                items.drop_first(),
                opened(open, items[0].item),
                after,
                application,
            );
        }
    }
}

/// A tag of another namespace than that of the manifest, or of another name, changes nothing.
pub proof fn lemma_other_tags_change_nothing(
    root: Option<Seq<u8>>,
    candidate: Option<ApplicationSpec>,
    item: ItemSpec,
    scope: ScopeSpec,
    tag: Seq<u8>,
    name_len: usize,
)
    requires
        is_tag(item, scope, tag, name_len),
        !(scope is Unknown),
        namespace_of(scope) != root || local_name(tag.take(name_len as int)) != encode_utf8(
            "Application"@,
        ),
    ensures
        after_item(ReadingSpec { root: Some(root), candidate }, item) == Ok::<
            ReadingSpec,
            Seq<char>,
        >(ReadingSpec { root: Some(root), candidate }),
        namespace_of(ScopeSpec::Unbound) is None,
        forall|name: Seq<u8>| #[trigger] namespace_of(ScopeSpec::Bound(name)) == Some(name),
{
}

/// A document type, a prefix that nothing declares and what cannot be read refuse the manifest.
pub proof fn lemma_what_refuses_a_manifest(
    reading: ReadingSpec,
    cause: Seq<char>,
    prefix: Seq<u8>,
    tag: Seq<u8>,
    name_len: usize,
)
    ensures
        after_item(reading, ItemSpec::DocType) == Err::<ReadingSpec, Seq<char>>(
            "AppxManifest.xml must not contain a document type"@,
        ),
        after_item(reading, ItemSpec::Malformed(cause)) == Err::<ReadingSpec, Seq<char>>(
            "parse AppxManifest.xml: "@ + cause,
        ),
        ({
            let scope = ScopeSpec::Unknown(prefix);
            let refused = Err::<ReadingSpec, Seq<char>>(
                "AppxManifest.xml uses undeclared namespace prefix "@ + decode_utf8(prefix),
            );
            &&& after_item(reading, ItemSpec::Start { scope, tag, name_len }) == refused
            &&& after_item(reading, ItemSpec::Empty { scope, tag, name_len }) == refused
            &&& after_item(reading, ItemSpec::End { scope }) == refused
        }),
        after_item(reading, ItemSpec::Other) == Ok::<ReadingSpec, Seq<char>>(reading),
        after_item(reading, ItemSpec::End { scope: ScopeSpec::Unbound }) == Ok::<
            ReadingSpec,
            Seq<char>,
        >(reading),
{
    reveal_with_fuel(joined, 3);
    assert(joined(seq!["parse AppxManifest.xml: "@, cause]) =~= "parse AppxManifest.xml: "@
        + cause);
    assert(undeclared(prefix) =~= "AppxManifest.xml uses undeclared namespace prefix "@
        + decode_utf8(prefix));
}

/// A manifest that ends without an application is refused, and one that nests more elements
/// than can be counted is too.
pub proof fn lemma_end_of_a_manifest(items: Seq<AheadSpec>, open: nat, reading: ReadingSpec)
    requires
        items.len() > 0,
    ensures
        items[0].item == ItemSpec::Eof && open < 65_535 ==> application_in(items, open, reading)
            == (match reading.candidate {
            Some(application) => Ok::<ApplicationSpec, Seq<char>>(application),
            None => Err("AppxManifest.xml does not define a ChatGPT.exe application"@),
        }),
        open >= 65_535 && starts_element(items[0].rest) ==> application_in(items, open, reading)
            == Err::<ApplicationSpec, Seq<char>>("AppxManifest.xml nests too many elements"@),
{
}

/// An element starts with a bracket that neither a mark, a slash nor a question mark follows,
/// and is whole where a bracket closes it outside of quotes.
pub proof fn lemma_element_start(name: Seq<u8>, rest: Seq<u8>)
    requires
        name.len() > 0,
        name[0] != '!' as u8,
        name[0] != '/' as u8,
        name[0] != '?' as u8,
        forall|k: int|
            0 <= k < name.len() ==> #[trigger] name[k] != '"' as u8 && name[k] != '\'' as u8
                && name[k] != '>' as u8,
    ensures
        starts_element(seq!['<' as u8] + name + seq!['>' as u8] + rest),
        !starts_element(seq!['<' as u8] + name),
        !starts_element(name),
{
    let whole = seq!['<' as u8] + name + seq!['>' as u8] + rest;
    let open = seq!['<' as u8] + name;
    assert(whole[1] == name[0] && open[1] == name[0]);
    lemma_closes(whole, name.len() as int + 1, 0);
    lemma_stays_open(open, 0);
    if name.len() >= 2 && starts_element(name) {
        lemma_stays_open(name, 0);
    }
}

proof fn lemma_closes(bytes: Seq<u8>, end: int, i: int)
    requires
        0 <= i <= end < bytes.len(),
        bytes[end] == 62,
        forall|k: int| i <= k < end ==> #[trigger] bytes[k] != 34 && bytes[k] != 39,
    ensures
        closes(bytes, None, i),
    decreases end - i,
{
    if i < end && bytes[i] != 62 {
        lemma_closes(bytes, end, i + 1);
    }
}

proof fn lemma_stays_open(bytes: Seq<u8>, i: int)
    requires
        0 <= i <= bytes.len(),
        forall|k: int| i <= k < bytes.len() ==> #[trigger] bytes[k] != 34 && bytes[k] != 39
            && bytes[k] != 62,
    ensures
        !closes(bytes, None, i),
    decreases bytes.len() - i,
{
    if i < bytes.len() {
        lemma_stays_open(bytes, i + 1);
    }
}

} // verus!

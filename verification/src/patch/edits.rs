//! Edits in order, and the texts that they make.

use std::ops::Range;
use vstd::prelude::*;
use vstd::utf8::*;

use crate::patch::{edits_view, Edit, EditSpec};
use crate::text::{
    at_boundary, byte_slice, is_boundary, lemma_at_boundary, lemma_encode_concat,
    lemma_text_between, lemma_text_less_order, str_less, text_between, text_less,
};

verus! {

/// Why edits could not be planned or applied.
#[derive(Debug)]
pub enum PatchError {
    DuplicateResource(String),
    InvalidEdits,
}

impl PatchError {
    pub open spec fn spec_message(&self) -> Seq<char> {
        match *self {
            PatchError::DuplicateResource(key) => "duplicate patch resource: "@ + key@,
            PatchError::InvalidEdits => "invalid or overlapping patch edits"@,
        }
    }

    pub fn message(&self) -> (message: String)
        ensures
            message@ == self.spec_message(),
    {
        match self {
            PatchError::DuplicateResource(key) => {
                let mut message = "duplicate patch resource: ".to_owned();
                message.append(key.as_str());
                message
            },
            PatchError::InvalidEdits => "invalid or overlapping patch edits".to_owned(),
        }
    }
}

// ---------------------------------------------------------------------------
// Order

/// Edits come in the order of their bytes, then of their replacements.
pub open spec fn edit_less(a: EditSpec, b: EditSpec) -> bool {
    if a.start != b.start {
        a.start < b.start
    } else if a.end != b.end {
        a.end < b.end
    } else {
        text_less(a.replacement, b.replacement)
    }
}

/// `edit_less` is a strict total order.
pub proof fn lemma_edit_less_order(a: EditSpec, b: EditSpec, c: EditSpec)
    ensures
        !edit_less(a, a),
        !(edit_less(a, b) && edit_less(b, a)),
        edit_less(a, b) && edit_less(b, c) ==> edit_less(a, c),
        edit_less(a, b) || edit_less(b, a) || a == b,
{
    lemma_text_less_order(a.replacement, b.replacement, c.replacement);
}

/// Each edit comes before the ones after it.
pub open spec fn edits_sorted(edits: Seq<EditSpec>) -> bool {
    forall|i: int, j: int|
        0 <= i < j < edits.len() ==> edit_less(#[trigger] edits[i], #[trigger] edits[j])
}

/// How many of the first edits come before `edit`.
pub open spec fn edit_rank(edits: Seq<EditSpec>, edit: EditSpec) -> int
    decreases edits.len(),
{
    if edits.len() == 0 {
        0
    } else if edit_less(edits[0], edit) {
        1 + edit_rank(edits.drop_first(), edit)
    } else {
        0
    }
}

/// Adds an edit at its place, unless it is there.
pub open spec fn with_edit(edits: Seq<EditSpec>, edit: EditSpec) -> Seq<EditSpec> {
    if edits.contains(edit) {
        edits
    } else {
        edits.insert(edit_rank(edits, edit), edit)
    }
}

/// The edits in order, each once.
pub open spec fn sorted_edits(edits: Seq<EditSpec>) -> Seq<EditSpec>
    decreases edits.len(),
{
    if edits.len() == 0 {
        Seq::empty()
    } else {
        with_edit(sorted_edits(edits.drop_last()), edits.last())
    }
}

pub proof fn lemma_edit_rank(edits: Seq<EditSpec>, edit: EditSpec)
    requires
        edits_sorted(edits),
    ensures
        0 <= edit_rank(edits, edit) <= edits.len(),
        forall|j: int| 0 <= j < edit_rank(edits, edit) ==> edit_less(#[trigger] edits[j], edit),
        forall|j: int|
            edit_rank(edits, edit) <= j < edits.len() ==> !edit_less(#[trigger] edits[j], edit),
    decreases edits.len(),
{
    if edits.len() > 0 {
        let rest = edits.drop_first();
        if edit_less(edits[0], edit) {
            lemma_edit_rank(rest, edit);
            assert forall|j: int| 0 <= j < edit_rank(edits, edit) implies edit_less(
                #[trigger] edits[j],
                edit,
            ) by {
                if j > 0 {
                    assert(edits[j] == rest[j - 1]);
                }
            }
            assert forall|j: int| edit_rank(edits, edit) <= j < edits.len() implies !edit_less(
                #[trigger] edits[j],
                edit,
            ) by {
                assert(edits[j] == rest[j - 1]);
            }
        } else {
            assert forall|j: int| 0 <= j < edits.len() implies !edit_less(
                #[trigger] edits[j],
                edit,
            ) by {
                if j > 0 {
                    lemma_edit_less_order(edits[0], edits[j], edit);
                }
            }
        }
    }
}

pub proof fn lemma_with_edit(edits: Seq<EditSpec>, edit: EditSpec)
    requires
        edits_sorted(edits),
    ensures
        edits_sorted(with_edit(edits, edit)),
        forall|e: EditSpec| #[trigger]
            with_edit(edits, edit).contains(e) <==> edits.contains(e) || e == edit,
{
    lemma_edit_rank(edits, edit);
    let r = edit_rank(edits, edit);
    let all = with_edit(edits, edit);
    if !edits.contains(edit) {
        assert(all[r] == edit);
        assert forall|i: int, j: int| 0 <= i < j < all.len() implies edit_less(
            #[trigger] all[i],
            #[trigger] all[j],
        ) by {
            if i == r {
                let after = edits[j - 1];
                assert(all[j] == after);
                lemma_edit_less_order(edit, after, edit);
                assert(edits.contains(after));
            } else if j == r {
                assert(all[i] == edits[i]);
            } else {
                let a = if i < r { i } else { i - 1 };
                let b = if j < r { j } else { j - 1 };
                assert(all[i] == edits[a] && all[j] == edits[b]);
            }
        }
        assert forall|e: EditSpec| #[trigger] all.contains(e) <==> edits.contains(e) || e
            == edit by {
            if edits.contains(e) {
                let j = choose|j: int| 0 <= j < edits.len() && edits[j] == e;
                assert(all[if j < r { j } else { j + 1 }] == e);
            }
            if all.contains(e) {
                let j = choose|j: int| 0 <= j < all.len() && all[j] == e;
                if j != r {
                    assert(edits[if j < r { j } else { j - 1 }] == e);
                }
            }
        }
    }
}

/// Sorting keeps exactly the edits that were there, each once, in order.
pub proof fn lemma_sorted_edits(edits: Seq<EditSpec>)
    ensures
        edits_sorted(sorted_edits(edits)),
        forall|e: EditSpec| #[trigger] sorted_edits(edits).contains(e) <==> edits.contains(e),
    decreases edits.len(),
{
    if edits.len() > 0 {
        let rest = edits.drop_last();
        let last = edits.last();
        lemma_sorted_edits(rest);
        lemma_with_edit(sorted_edits(rest), last);
        assert forall|e: EditSpec| #[trigger] sorted_edits(edits).contains(e) <==> edits.contains(
            e,
        ) by {
            assert(edits =~= rest.push(last));
            if edits.contains(e) {
                let j = choose|j: int| 0 <= j < edits.len() && edits[j] == e;
                if j < rest.len() {
                    assert(rest[j] == e);
                }
            }
            if rest.contains(e) {
                let j = choose|j: int| 0 <= j < rest.len() && rest[j] == e;
                assert(edits[j] == e);
            }
            assert(edits[edits.len() - 1] == last);
        }
    }
}

fn edit_precedes(a: &Edit, b: &Edit) -> (yes: bool)
    ensures
        yes == edit_less(a@, b@),
{
    if a.range.start != b.range.start {
        a.range.start < b.range.start
    } else if a.range.end != b.range.end {
        a.range.end < b.range.end
    } else {
        str_less(a.replacement.as_str(), b.replacement.as_str())
    }
}

/// Adds an edit at its place, unless it is there.
pub fn add_edit(edits: &mut Vec<Edit>, edit: &Edit)
    requires
        edits_sorted(edits_view(old(edits)@)),
    ensures
        edits_view(final(edits)@) == with_edit(edits_view(old(edits)@), edit@),
        edits_sorted(edits_view(final(edits)@)),
{
    let ghost before = edits_view(edits@);
    let mut i: usize = 0;
    while i < edits.len() && edit_precedes(&edits[i], edit)
        invariant
            i <= edits@.len(),
            before == edits_view(edits@),
            forall|j: int| 0 <= j < i ==> edit_less(#[trigger] before[j], edit@),
        decreases edits.len() - i,
    {
        assert(before[i as int] == edits@[i as int]@);
        i += 1;
    }
    proof {
        lemma_edit_rank(before, edit@);
        lemma_with_edit(before, edit@);
        let r = edit_rank(before, edit@);
        if i < edits@.len() {
            assert(before[i as int] == edits@[i as int]@);
        }
        if r < i {
            assert(edit_less(before[r], edit@));
        } else if i < r {
            assert(edit_less(before[i as int], edit@));
        }
        lemma_edit_less_order(edit@, edit@, edit@);
        if before.contains(edit@) {
            let j = choose|j: int| 0 <= j < before.len() && before[j] == edit@;
            if i < j {
                assert(edit_less(before[i as int], before[j]));
            }
            assert(j == i);
        }
    }
    if i < edits.len() && edits[i].same(edit) {
        assert(before[i as int] == edit@);
        return;
    }
    let copy = edit.copy();
    edits.insert(i, copy);
    assert(edits_view(edits@) =~= before.insert(i as int, edit@));
}

// ---------------------------------------------------------------------------
// Ranges

/// Whole characters, at least one, lie from `start` to before `end`.
pub open spec fn valid_span(content: Seq<char>, start: int, end: int) -> bool {
    &&& 0 <= start < end <= encode_utf8(content).len()
    &&& at_boundary(content, start)
    &&& at_boundary(content, end)
}

pub fn valid_range(content: &str, range: &Range<usize>) -> (valid: bool)
    ensures
        valid == valid_span(content@, range.start as int, range.end as int),
{
    range.start < range.end && range.end <= content.as_bytes().len() && is_boundary(
        content,
        range.start,
    ) && is_boundary(content, range.end)
}

// ---------------------------------------------------------------------------
// Application

/// End of the edit before the `k`-th, 0 at the first.
pub open spec fn end_before(edits: Seq<EditSpec>, k: int) -> int {
    if k <= 0 {
        0
    } else {
        edits[k - 1].end
    }
}

/// The `k`-th edit covers whole characters after the edit before it.
pub open spec fn edit_fits(content: Seq<char>, edits: Seq<EditSpec>, k: int) -> bool {
    &&& valid_span(content, edits[k].start, edits[k].end)
    &&& end_before(edits, k) <= edits[k].start
}

/// The edits are in order, and none overlaps the one before it.
pub open spec fn edits_fit(content: Seq<char>, edits: Seq<EditSpec>) -> bool {
    forall|k: int| 0 <= k < edits.len() ==> #[trigger] edit_fits(content, edits, k)
}

/// The content with the first `k` edits made, up to the end of the last of them.
pub open spec fn edited_prefix(content: Seq<char>, edits: Seq<EditSpec>, k: int) -> Seq<char>
    decreases k,
{
    if k <= 0 {
        Seq::empty()
    } else {
        edited_prefix(content, edits, k - 1) + text_between(
            content,
            end_before(edits, k - 1),
            edits[k - 1].start,
        ) + edits[k - 1].replacement
    }
}

/// The content with the edits made.
pub open spec fn edited(content: Seq<char>, edits: Seq<EditSpec>) -> Seq<char> {
    edited_prefix(content, edits, edits.len() as int) + text_between(
        content,
        end_before(edits, edits.len() as int),
        encode_utf8(content).len() as int,
    )
}

/// Appends the content up to an edit, and the edit's replacement.
fn append_edited(content: &str, from: usize, edit: &Edit, output: &mut String)
    requires
        from <= edit.range.start,
        at_boundary(content@, from as int),
        at_boundary(content@, edit.range.start as int),
    ensures
        final(output)@ == old(output)@ + text_between(
            content@,
            from as int,
            edit@.start,
        ) + edit@.replacement,
{
    output.append(byte_slice(content, from, edit.range.start));
    output.append(edit.replacement.as_str());
}

/// Makes edits that are in order.
pub fn apply_sorted_edits(content: &str, edits: &Vec<Edit>) -> (result: Result<String, PatchError>)
    ensures
        match result {
            Ok(text) => edits_fit(content@, edits_view(edits@)) && text@ == edited(
                content@,
                edits_view(edits@),
            ),
            Err(error) => error == PatchError::InvalidEdits && !edits_fit(
                content@,
                edits_view(edits@),
            ),
        },
{
    let ghost all = edits_view(edits@);
    let length = content.as_bytes().len();
    let mut previous_end: usize = 0;
    let mut output = String::new();
    let mut k: usize = 0;
    proof {
        lemma_at_boundary(content@, 0);
    }
    while k < edits.len()
        invariant
            all == edits_view(edits@),
            length == encode_utf8(content@).len(),
            k <= edits@.len(),
            previous_end == end_before(all, k as int),
            previous_end <= length,
            at_boundary(content@, previous_end as int),
            output@ == edited_prefix(content@, all, k as int),
            forall|j: int| 0 <= j < k ==> #[trigger] edit_fits(content@, all, j),
        decreases edits.len() - k,
    {
        let edit = &edits[k];
        assert(all[k as int] == edit@);
        if !valid_range(content, &edit.range) || edit.range.start < previous_end {
            assert(!edit_fits(content@, all, k as int));
            return Err(PatchError::InvalidEdits);
        }
        assert(edit_fits(content@, all, k as int));
        append_edited(content, previous_end, edit, &mut output);
        previous_end = edit.range.end;
        k += 1;
    }
    proof {
        lemma_at_boundary(content@, 0);
    }
    output.append(byte_slice(content, previous_end, length));
    Ok(output)
}

/// Makes edits in any order. The same edit may be given more than once; edits that overlap
/// otherwise are refused.
pub fn apply_edits(content: &str, edits: &[Edit]) -> (result: Result<String, PatchError>)
    ensures
        ({
            let sorted = sorted_edits(edits_view(edits@));
            match result {
                Ok(text) => edits_fit(content@, sorted) && text@ == edited(content@, sorted),
                Err(error) => error == PatchError::InvalidEdits && !edits_fit(content@, sorted),
            }
        }),
{
    let ghost all = edits_view(edits@);
    let mut sorted: Vec<Edit> = Vec::new();
    let mut k: usize = 0;
    assert(edits_view(sorted@) =~= sorted_edits(all.take(0)));
    while k < edits.len()
        invariant
            all == edits_view(edits@),
            k <= edits@.len(),
            edits_view(sorted@) == sorted_edits(all.take(k as int)),
            edits_sorted(edits_view(sorted@)),
        decreases edits.len() - k,
    {
        add_edit(&mut sorted, &edits[k]);
        assert(all.take(k + 1).drop_last() =~= all.take(k as int));
        assert(all[k as int] == edits@[k as int]@);
        k += 1;
    }
    assert(all.take(k as int) =~= all);
    apply_sorted_edits(content, &sorted)
}

// ---------------------------------------------------------------------------
// Laws

/// Without edits the content stays as it is.
pub proof fn lemma_no_edits(content: Seq<char>)
    ensures
        edits_fit(content, Seq::empty()),
        edited(content, Seq::empty()) == content,
{
    reveal(text_between);
    let bytes = encode_utf8(content);
    assert(bytes.subrange(0, bytes.len() as int) =~= bytes);
    encode_utf8_decode_utf8(content);
    assert(Seq::<char>::empty() + content =~= content);
}

/// Giving an edit again changes nothing.
pub proof fn lemma_repeated_edit(edits: Seq<EditSpec>, edit: EditSpec)
    requires
        edits.contains(edit),
    ensures
        sorted_edits(edits.push(edit)) == sorted_edits(edits),
{
    lemma_sorted_edits(edits);
    assert(edits.push(edit).drop_last() =~= edits);
}

/// Two different edits that overlap are refused.
pub proof fn lemma_overlap_refused(content: Seq<char>, edits: Seq<EditSpec>, a: EditSpec, b: EditSpec)
    requires
        edits.contains(a),
        edits.contains(b),
        a != b,
        a.start < b.end,
        b.start < a.end,
    ensures
        !edits_fit(content, sorted_edits(edits)),
{
    let sorted = sorted_edits(edits);
    lemma_sorted_edits(edits);
    assert(sorted.contains(a) && sorted.contains(b));
    let i = choose|i: int| 0 <= i < sorted.len() && sorted[i] == a;
    let j = choose|j: int| 0 <= j < sorted.len() && sorted[j] == b;
    if edits_fit(content, sorted) {
        lemma_fit_apart(content, sorted, i, j);
        lemma_fit_apart(content, sorted, j, i);
    }
}

proof fn lemma_fit_apart(content: Seq<char>, edits: Seq<EditSpec>, i: int, j: int)
    requires
        edits_fit(content, edits),
        0 <= i < edits.len(),
        0 <= j < edits.len(),
    ensures
        i < j ==> edits[i].end <= edits[j].start,
    decreases j - i,
{
    if i < j {
        lemma_fit_apart(content, edits, i, j - 1);
        assert(edit_fits(content, edits, j));
        assert(edit_fits(content, edits, j - 1));
    }
}

/// The bytes of the content with the first `k` edits made.
pub open spec fn edited_bytes(content: Seq<u8>, edits: Seq<EditSpec>, k: int) -> Seq<u8>
    decreases k,
{
    if k <= 0 {
        Seq::empty()
    } else {
        edited_bytes(content, edits, k - 1) + content.subrange(
            end_before(edits, k - 1),
            edits[k - 1].start,
        ) + encode_utf8(edits[k - 1].replacement)
    }
}

proof fn lemma_edited_prefix_bytes(content: Seq<char>, edits: Seq<EditSpec>, k: int)
    requires
        edits_fit(content, edits),
        0 <= k <= edits.len(),
    ensures
        encode_utf8(edited_prefix(content, edits, k)) == edited_bytes(
            encode_utf8(content),
            edits,
            k,
        ),
    decreases k,
{
    if k > 0 {
        lemma_edited_prefix_bytes(content, edits, k - 1);
        let edit = edits[k - 1];
        lemma_at_boundary(content, 0);
        if k > 1 {
            assert(edit_fits(content, edits, k - 2));
        }
        assert(edit_fits(content, edits, k - 1));
        lemma_text_between(content, end_before(edits, k - 1), edit.start);
        let kept = text_between(content, end_before(edits, k - 1), edit.start);
        lemma_encode_concat(edited_prefix(content, edits, k - 1), kept);
        lemma_encode_concat(edited_prefix(content, edits, k - 1) + kept, edit.replacement);
    }
}

/// Every byte outside the edits stays, and each edit's bytes give way to its replacement.
pub proof fn lemma_edited_bytes(content: Seq<char>, edits: Seq<EditSpec>)
    requires
        edits_fit(content, edits),
    ensures
        encode_utf8(edited(content, edits)) == edited_bytes(
            encode_utf8(content),
            edits,
            edits.len() as int,
        ) + encode_utf8(content).subrange(
            end_before(edits, edits.len() as int),
            encode_utf8(content).len() as int,
        ),
{
    let n = edits.len() as int;
    lemma_edited_prefix_bytes(content, edits, n);
    lemma_at_boundary(content, 0);
    if n > 0 {
        assert(edit_fits(content, edits, n - 1));
    }
    let end = encode_utf8(content).len() as int;
    lemma_text_between(content, end_before(edits, n), end);
    lemma_encode_concat(
        edited_prefix(content, edits, n),
        text_between(content, end_before(edits, n), end),
    );
}

} // verus!

//! Text edits: byte-range replacements, the order in which they are applied,
//! and what applying them to a text gives.

use crate::text::{byte_len, bytes_of};
use vstd::prelude::*;
use vstd::string::*;
use vstd::utf8::*;

verus! {

/// The half-open byte range `[start, end)` of a text.
#[derive(Clone, Copy, Debug, PartialEq, Eq, Structural)]
pub struct SourceRange {
    pub start: usize,
    pub end: usize,
}

impl SourceRange {
    pub fn new(start: usize, end: usize) -> (range: Self)
        ensures
            range.start == start,
            range.end == end,
    {
        SourceRange { start, end }
    }

    /// The range does not run backwards and lies within a text of `len` bytes.
    pub open spec fn within(self, len: int) -> bool {
        self.start <= self.end <= len
    }

    /// The range ends on character boundaries of `text` and lies within it.
    pub open spec fn fits(self, text: Seq<u8>) -> bool {
        &&& self.within(text.len() as int)
        &&& is_char_boundary(text, self.start as int)
        &&& is_char_boundary(text, self.end as int)
    }

    /// The two ranges share no byte and neither begins inside the other.
    pub open spec fn disjoint(self, other: SourceRange) -> bool {
        self.end <= other.start || other.end <= self.start
    }

    /// `inner` lies within this range.
    pub open spec fn encloses(self, inner: SourceRange) -> bool {
        self.start <= inner.start && inner.end <= self.end
    }

    /// The order in which edits are applied: by start, then by end.
    pub open spec fn comes_before(self, other: SourceRange) -> bool {
        self.start < other.start || (self.start == other.start && self.end <= other.end)
    }
}

/// What a text change says: the bytes in `range` give way to `new_text`.
pub struct Edit {
    pub range: SourceRange,
    pub new_text: Seq<char>,
}

impl Edit {
    /// By how many bytes applying this edit lengthens the text.
    pub open spec fn growth(self) -> int {
        bytes_of(self.new_text).len() - (self.range.end - self.range.start)
    }
}

/// The replacement of the bytes in `range` by `new_text`.
#[derive(Debug, PartialEq, Eq)]
pub struct TextChange {
    pub range: SourceRange,
    pub new_text: String,
}

impl View for TextChange {
    type V = Edit;

    open spec fn view(&self) -> Edit {
        Edit { range: self.range, new_text: self.new_text@ }
    }
}

impl Clone for TextChange {
    fn clone(&self) -> (copy: Self)
        ensures
            copy@ == self@,
    {
        TextChange { range: self.range, new_text: self.new_text.clone() }
    }
}

impl TextChange {
    pub fn new(start: usize, end: usize, new_text: String) -> (change: Self)
        ensures
            change.range == (SourceRange { start, end }),
            change.new_text == new_text,
    {
        TextChange { range: SourceRange { start, end }, new_text }
    }
}

/// What each of the changes says, in their order.
pub open spec fn edits_of(changes: Seq<TextChange>) -> Seq<Edit> {
    changes.map_values(|change: TextChange| change@)
}

/// Every edit replaces a range of `text` that ends on character boundaries.
pub open spec fn all_fit(text: Seq<u8>, edits: Seq<Edit>) -> bool {
    forall|i: int| 0 <= i < edits.len() ==> (#[trigger] edits[i]).range.fits(text)
}

/// No two edits overlap.
pub open spec fn pairwise_disjoint(edits: Seq<Edit>) -> bool {
    forall|i: int, j: int|
        0 <= i < j < edits.len() ==> (#[trigger] edits[i]).range.disjoint((#[trigger] edits[j]).range)
}

/// Each edit ends before the next one begins.
pub open spec fn in_order(edits: Seq<Edit>) -> bool {
    forall|i: int, j: int|
        0 <= i < j < edits.len() ==> (#[trigger] edits[i]).range.end <= (#[trigger] edits[j]).range.start
}

/// The edits can be applied one after the other: they fit the text, and come
/// sorted by start without overlap.
pub open spec fn applicable(text: Seq<u8>, edits: Seq<Edit>) -> bool {
    all_fit(text, edits) && in_order(edits)
}

/// Where in the text copying resumes once the edits given are applied.
pub open spec fn resume_at(edits: Seq<Edit>) -> int {
    if edits.len() == 0 {
        0
    } else {
        edits.last().range.end as int
    }
}

/// The rewritten text up to the end of the last of `edits`: for each edit in
/// turn the untouched bytes before it, then its replacement.
pub open spec fn rewritten_prefix(text: Seq<u8>, edits: Seq<Edit>) -> Seq<u8>
    decreases edits.len(),
{
    if edits.len() == 0 {
        Seq::<u8>::empty()
    } else {
        let edit = edits.last();
        let before = edits.drop_last();
        rewritten_prefix(text, before) + text.subrange(resume_at(before), edit.range.start as int)
            + bytes_of(edit.new_text)
    }
}

/// The text with every edit applied, and the remainder after the last one
/// copied unchanged.
pub open spec fn apply_edits(text: Seq<u8>, edits: Seq<Edit>) -> Seq<u8> {
    rewritten_prefix(text, edits) + text.subrange(resume_at(edits), text.len() as int)
}

/// The sum of what each edit adds to the length of the text.
pub open spec fn total_growth(edits: Seq<Edit>) -> int
    decreases edits.len(),
{
    if edits.len() == 0 {
        0
    } else {
        total_growth(edits.drop_last()) + edits.last().growth()
    }
}

/// Where `edit` goes in a list sorted by range: after the last edit that
/// comes before it or has the same range.
pub open spec fn insertion_point(sorted: Seq<Edit>, edit: Edit) -> int
    decreases sorted.len(),
{
    if sorted.len() == 0 {
        0
    } else if sorted.last().range.comes_before(edit.range) {
        sorted.len() as int
    } else {
        insertion_point(sorted.drop_last(), edit)
    }
}

/// `sorted` with `edit` put in at its place.
pub open spec fn insert_ordered(sorted: Seq<Edit>, edit: Edit) -> Seq<Edit> {
    sorted.insert(insertion_point(sorted, edit), edit)
}

/// The edits sorted by start and then by end; edits with the same range keep
/// the order in which they were collected.
pub open spec fn sort_edits(edits: Seq<Edit>) -> Seq<Edit>
    decreases edits.len(),
{
    if edits.len() == 0 {
        Seq::<Edit>::empty()
    } else {
        insert_ordered(sort_edits(edits.drop_last()), edits.last())
    }
}

/// The list is sorted by range.
pub open spec fn sorted_by_range(edits: Seq<Edit>) -> bool {
    forall|i: int, j: int|
        0 <= i < j < edits.len() ==> (#[trigger] edits[i]).range.comes_before(
            (#[trigger] edits[j]).range,
        )
}

/// The insertion point lies in the list, after edits that come before `edit`
/// and before those that do not.
pub proof fn lemma_insertion_point(sorted: Seq<Edit>, edit: Edit)
    ensures
        0 <= insertion_point(sorted, edit) <= sorted.len(),
        insertion_point(sorted, edit) > 0 ==> sorted[insertion_point(sorted, edit) - 1].range.comes_before(
            edit.range,
        ),
        forall|i: int|
            insertion_point(sorted, edit) <= i < sorted.len() ==> !(#[trigger] sorted[i]).range.comes_before(
                edit.range,
            ),
    decreases sorted.len(),
{
    if sorted.len() == 0 {
    } else if sorted.last().range.comes_before(edit.range) {
    } else {
        let before = sorted.drop_last();
        lemma_insertion_point(before, edit);
        assert forall|i: int| insertion_point(sorted, edit) <= i < sorted.len() implies !(
        #[trigger] sorted[i]).range.comes_before(edit.range) by {
            if i < before.len() {
                assert(sorted[i] == before[i]);
            }
        }
    }
}

/// Inserting into a sorted list keeps it sorted.
pub proof fn lemma_insert_keeps_sorted(sorted: Seq<Edit>, edit: Edit)
    requires
        sorted_by_range(sorted),
    ensures
        sorted_by_range(insert_ordered(sorted, edit)),
{
    let at = insertion_point(sorted, edit);
    let out = insert_ordered(sorted, edit);
    lemma_insertion_point(sorted, edit);
    assert forall|i: int, j: int| 0 <= i < j < out.len() implies (#[trigger] out[i]).range.comes_before(
        (#[trigger] out[j]).range,
    ) by {
        if j < at {
            assert(out[i] == sorted[i] && out[j] == sorted[j]);
        } else if j == at {
            assert(out[i] == sorted[i]);
            if i < at - 1 {
                assert(sorted[i].range.comes_before(sorted[at - 1].range));
            }
        } else if i == at {
            assert(out[j] == sorted[j - 1]);
            assert(!sorted[j - 1].range.comes_before(edit.range));
        } else if i < at {
            assert(out[i] == sorted[i] && out[j] == sorted[j - 1]);
        } else {
            assert(out[i] == sorted[i - 1] && out[j] == sorted[j - 1]);
        }
    }
}

/// Sorting neither adds nor loses an edit, and yields a list sorted by range.
pub proof fn lemma_sort_edits(edits: Seq<Edit>)
    ensures
        sort_edits(edits).len() == edits.len(),
        sorted_by_range(sort_edits(edits)),
        forall|i: int| 0 <= i < edits.len() ==> edits.contains(#[trigger] sort_edits(edits)[i]),
        forall|i: int| 0 <= i < edits.len() ==> sort_edits(edits).contains(#[trigger] edits[i]),
        total_growth(sort_edits(edits)) == total_growth(edits),
    decreases edits.len(),
{
    if edits.len() == 0 {
    } else {
        let before = edits.drop_last();
        let sorted = sort_edits(before);
        let out = sort_edits(edits);
        let at = insertion_point(sorted, edits.last());
        lemma_sort_edits(before);
        lemma_insertion_point(sorted, edits.last());
        lemma_insert_keeps_sorted(sorted, edits.last());
        lemma_growth_of_insert(sorted, at, edits.last());
        assert forall|i: int| 0 <= i < edits.len() implies edits.contains(#[trigger] out[i]) by {
            if i == at {
                assert(edits[edits.len() - 1] == out[i]);
            } else {
                let k = if i < at { i } else { i - 1 };
                assert(out[i] == sorted[k]);
                assert(before.contains(sorted[k]));
                let j = choose|j: int| 0 <= j < before.len() && before[j] == sorted[k];
                assert(edits[j] == out[i]);
            }
        }
        assert forall|i: int| 0 <= i < edits.len() implies out.contains(#[trigger] edits[i]) by {
            if i == edits.len() - 1 {
                assert(out[at] == edits[i]);
            } else {
                assert(before[i] == edits[i]);
                assert(sorted.contains(before[i]));
                let k = choose|k: int| 0 <= k < sorted.len() && sorted[k] == before[i];
                if k < at {
                    assert(out[k] == edits[i]);
                } else {
                    assert(out[k + 1] == edits[i]);
                }
            }
        }
    }
}

/// An edit put into a list adds its own growth to the list's.
pub proof fn lemma_growth_of_insert(edits: Seq<Edit>, at: int, edit: Edit)
    requires
        0 <= at <= edits.len(),
    ensures
        total_growth(edits.insert(at, edit)) == total_growth(edits) + edit.growth(),
    decreases edits.len() - at,
{
    let out = edits.insert(at, edit);
    if at == edits.len() {
        assert(out.drop_last() =~= edits);
    } else {
        lemma_growth_of_insert(edits.drop_last(), at, edit);
        assert(out.drop_last() =~= edits.drop_last().insert(at, edit));
        assert(out.last() == edits.last());
    }
}

/// Sorting keeps edits clear of each other.
pub proof fn lemma_sort_keeps_disjoint(edits: Seq<Edit>)
    requires
        pairwise_disjoint(edits),
    ensures
        pairwise_disjoint(sort_edits(edits)),
    decreases edits.len(),
{
    if edits.len() == 0 {
    } else {
        let before = edits.drop_last();
        let sorted = sort_edits(before);
        let out = sort_edits(edits);
        let last = edits.last();
        let at = insertion_point(sorted, last);
        assert(pairwise_disjoint(before)) by {
            assert forall|i: int, j: int| 0 <= i < j < before.len() implies (#[trigger] before[i]).range.disjoint(
                (#[trigger] before[j]).range,
            ) by {
                assert(edits[i].range.disjoint(edits[j].range));
            }
        }
        lemma_sort_keeps_disjoint(before);
        lemma_sort_edits(before);
        lemma_insertion_point(sorted, last);
        assert forall|k: int| 0 <= k < sorted.len() implies (#[trigger] sorted[k]).range.disjoint(
            last.range,
        ) by {
            assert(before.contains(sorted[k]));
            let j = choose|j: int| 0 <= j < before.len() && before[j] == sorted[k];
            assert(edits[j].range.disjoint(edits[edits.len() - 1].range));
        }
        assert forall|i: int, j: int| 0 <= i < j < out.len() implies (#[trigger] out[i]).range.disjoint(
            (#[trigger] out[j]).range,
        ) by {
            let a = if i < at { i } else { i - 1 };
            let b = if j < at { j } else { j - 1 };
            if i == at {
                assert(out[j] == sorted[b]);
                assert(sorted[b].range.disjoint(last.range));
            } else if j == at {
                assert(out[i] == sorted[a]);
                assert(sorted[a].range.disjoint(last.range));
            } else {
                assert(out[i] == sorted[a] && out[j] == sorted[b]);
                assert(sorted[a].range.disjoint(sorted[b].range));
            }
        }
    }
}

/// Edits that fit the text and are clear of each other can be applied once
/// they are sorted.
pub proof fn lemma_sorted_edits_applicable(text: Seq<u8>, edits: Seq<Edit>)
    requires
        all_fit(text, edits),
        pairwise_disjoint(edits),
    ensures
        applicable(text, sort_edits(edits)),
{
    let out = sort_edits(edits);
    lemma_sort_edits(edits);
    lemma_sort_keeps_disjoint(edits);
    assert forall|i: int| 0 <= i < out.len() implies (#[trigger] out[i]).range.fits(text) by {
        assert(edits.contains(out[i]));
        let j = choose|j: int| 0 <= j < edits.len() && edits[j] == out[i];
        assert(edits[j].range.fits(text));
    }
    assert forall|i: int, j: int| 0 <= i < j < out.len() implies (#[trigger] out[i]).range.end <= (
    #[trigger] out[j]).range.start by {
        assert(out[i].range.comes_before(out[j].range));
        assert(out[i].range.disjoint(out[j].range));
        assert(out[i].range.fits(text));
        assert(out[j].range.fits(text));
    }
}

/// The rewritten text up to some edit is the beginning of the rewritten text
/// up to any later one.
pub proof fn lemma_rewritten_prefix_grows(text: Seq<u8>, edits: Seq<Edit>, j: int, k: int)
    requires
        0 <= j <= k <= edits.len(),
    ensures
        rewritten_prefix(text, edits.take(j)).is_prefix_of(rewritten_prefix(text, edits.take(k))),
    decreases k - j,
{
    if j < k {
        lemma_rewritten_prefix_grows(text, edits, j, k - 1);
        assert(edits.take(k).drop_last() =~= edits.take(k - 1));
    }
}

/// Applying edits changes the length of the text by the sum of what each
/// edit adds: the length of its new text less the length of its range.
pub proof fn lemma_length_delta(text: Seq<u8>, edits: Seq<Edit>)
    requires
        applicable(text, edits),
    ensures
        rewritten_prefix(text, edits).len() == resume_at(edits) + total_growth(edits),
        apply_edits(text, edits).len() - text.len() == total_growth(edits),
    decreases edits.len(),
{
    if edits.len() == 0 {
    } else {
        let before = edits.drop_last();
        lemma_applicable_take(text, edits, edits.len() - 1);
        assert(edits.take(edits.len() - 1) =~= before);
        lemma_length_delta(text, before);
        assert(edits[edits.len() - 1].range.fits(text));
        if before.len() > 0 {
            assert(before.last() == edits[edits.len() - 2]);
            assert(edits[edits.len() - 2].range.end <= edits[edits.len() - 1].range.start);
        }
    }
}

/// Every byte that no edit replaces is found again in the rewritten text,
/// moved by what the edits before it add: the untouched bytes keep their
/// values and their order.
pub proof fn lemma_untouched_bytes_kept(text: Seq<u8>, edits: Seq<Edit>, k: int, at: int)
    requires
        applicable(text, edits),
        0 <= k <= edits.len(),
        resume_at(edits.take(k)) <= at,
        at < (if k < edits.len() {
            edits[k].range.start as int
        } else {
            text.len() as int
        }),
    ensures
        0 <= at + total_growth(edits.take(k)) < apply_edits(text, edits).len(),
        apply_edits(text, edits)[at + total_growth(edits.take(k))] == text[at],
{
    let first = edits.take(k);
    lemma_applicable_take(text, edits, k);
    lemma_length_delta(text, first);
    lemma_length_delta(text, edits);
    let head = rewritten_prefix(text, first);
    let offset = at - resume_at(first);
    if k == edits.len() {
        assert(first =~= edits);
        assert(apply_edits(text, edits)[head.len() + offset] == text.subrange(
            resume_at(edits),
            text.len() as int,
        )[offset]);
    } else {
        let next = rewritten_prefix(text, edits.take(k + 1));
        assert(edits.take(k + 1).drop_last() =~= first);
        assert(edits.take(k + 1).last() == edits[k]);
        assert(edits[k].range.fits(text));
        let gap = text.subrange(resume_at(first), edits[k].range.start as int);
        assert(next == head + gap + bytes_of(edits[k].new_text));
        assert(next[head.len() + offset] == gap[offset]);
        lemma_rewritten_prefix_grows(text, edits, k + 1, edits.len() as int);
        assert(edits.take(edits.len() as int) =~= edits);
        let whole = rewritten_prefix(text, edits);
        assert(whole[head.len() + offset] == next[head.len() + offset]);
    }
}

/// The beginning of a list of applicable edits is applicable.
pub proof fn lemma_applicable_take(text: Seq<u8>, edits: Seq<Edit>, k: int)
    requires
        applicable(text, edits),
        0 <= k <= edits.len(),
    ensures
        applicable(text, edits.take(k)),
{
    let first = edits.take(k);
    assert forall|i: int| 0 <= i < first.len() implies (#[trigger] first[i]).range.fits(text) by {
        assert(edits[i].range.fits(text));
    }
    assert forall|i: int, j: int| 0 <= i < j < first.len() implies (#[trigger] first[i]).range.end
        <= (#[trigger] first[j]).range.start by {
        assert(edits[i].range.end <= edits[j].range.start);
    }
}

/// What the edits from the one at `k` up to the one before `m` add is no less
/// than what they take away, and they take away no more than lies between
/// the start of the first and the end of the last of them.
pub proof fn lemma_growth_between(text: Seq<u8>, edits: Seq<Edit>, k: int, m: int)
    requires
        applicable(text, edits),
        0 <= k < m <= edits.len(),
    ensures
        total_growth(edits.take(m)) - total_growth(edits.take(k)) >= -(edits[m - 1].range.end
            - edits[k].range.start),
    decreases m - k,
{
    assert(edits.take(m).drop_last() =~= edits.take(m - 1));
    assert(edits.take(m).last() == edits[m - 1]);
    assert(edits[m - 1].range.fits(text));
    if m == k + 1 {
    } else {
        lemma_growth_between(text, edits, k, m - 1);
        assert(edits[m - 2].range.end <= edits[m - 1].range.start);
    }
}

/// Two bytes that no edit replaces stand in the rewritten text in the order
/// in which they stand in the text.
pub proof fn lemma_untouched_bytes_keep_order(
    text: Seq<u8>,
    edits: Seq<Edit>,
    k: int,
    at: int,
    m: int,
    later: int,
)
    requires
        applicable(text, edits),
        0 <= k <= m <= edits.len(),
        resume_at(edits.take(k)) <= at,
        k < edits.len() ==> at < edits[k].range.start,
        resume_at(edits.take(m)) <= later,
        m < edits.len() ==> later < edits[m].range.start,
        at < later,
    ensures
        at + total_growth(edits.take(k)) < later + total_growth(edits.take(m)),
{
    if k < m {
        lemma_growth_between(text, edits, k, m);
        assert(edits.take(m).last() == edits[m - 1]);
    }
}

/// With no edit the text is left as it is.
pub proof fn lemma_no_edits(text: Seq<u8>)
    ensures
        apply_edits(text, Seq::<Edit>::empty()) == text,
{
    assert(text.subrange(0, text.len() as int) =~= text);
}

/// `deno_ast::apply_text_changes`: sorts the changes by start and then by
/// end, keeping the order of changes with the same range, and makes one pass
/// over the text in which it copies up to each change, puts the new text in
/// place of the range, and copies what follows the last change. It panics on
/// a range that runs backwards, on overlapping ranges and on a range that
/// does not end on character boundaries, which `requires` leaves out.
#[verifier::external_body]
pub(crate) fn apply_text_changes(source: &str, changes: Vec<TextChange>) -> (rewritten: String)
    requires
        all_fit(bytes_of(source@), edits_of(changes@)),
        pairwise_disjoint(edits_of(changes@)),
    ensures
        bytes_of(rewritten@) == apply_edits(bytes_of(source@), sort_edits(edits_of(changes@))),
{
    let changes = changes
        .into_iter()
        .map(|change| deno_ast::TextChange {
            range: change.range.start..change.range.end,
            new_text: change.new_text,
        })
        .collect();
    deno_ast::apply_text_changes(source, changes)
}

/// Whether the range of the change lies in the text and ends on character
/// boundaries.
fn change_fits(source: &str, change: &TextChange) -> (fits: bool)
    ensures
        fits == change@.range.fits(bytes_of(source@)),
{
    change.range.start <= change.range.end && change.range.end <= byte_len(source)
        && source.is_char_boundary(change.range.start) && source.is_char_boundary(change.range.end)
}

/// Whether the change at `at` is clear of all that follow it.
fn clear_of_later(changes: &Vec<TextChange>, at: usize) -> (clear: bool)
    requires
        at < changes.len(),
    ensures
        clear == forall|j: int|
            at < j < changes.len() ==> changes@[at as int]@.range.disjoint(
                (#[trigger] changes@[j])@.range,
            ),
{
    let mut j: usize = at + 1;
    while j < changes.len()
        invariant
            at < j <= changes.len(),
            forall|k: int|
                at < k < j ==> changes@[at as int]@.range.disjoint((#[trigger] changes@[k])@.range),
        decreases changes.len() - j,
    {
        let a = &changes[at].range;
        let b = &changes[j].range;
        if !(a.end <= b.start || b.end <= a.start) {
            return false;
        }
        j += 1;
    }
    true
}

/// Whether the changes can be applied to `source`: each range lies in the
/// text and ends on character boundaries, and no two overlap.
pub fn changes_fit(source: &str, changes: &Vec<TextChange>) -> (fit: bool)
    ensures
        fit == (all_fit(bytes_of(source@), edits_of(changes@)) && pairwise_disjoint(
            edits_of(changes@),
        )),
{
    let ghost edits = edits_of(changes@);
    let mut i: usize = 0;
    while i < changes.len()
        invariant
            i <= changes.len(),
            edits == edits_of(changes@),
            forall|k: int| 0 <= k < i ==> (#[trigger] edits[k]).range.fits(bytes_of(source@)),
            forall|k: int, j: int|
                0 <= k < i && k < j < edits.len() ==> (#[trigger] edits[k]).range.disjoint(
                    (#[trigger] edits[j]).range,
                ),
        decreases changes.len() - i,
    {
        if !change_fits(source, &changes[i]) {
            proof {
                assert(!edits[i as int].range.fits(bytes_of(source@)));
            }
            return false;
        }
        if !clear_of_later(changes, i) {
            proof {
                let j = choose|j: int|
                    i < j < changes.len() && !changes@[i as int]@.range.disjoint(
                        (#[trigger] changes@[j])@.range,
                    );
                assert(!edits[i as int].range.disjoint(edits[j].range));
            }
            return false;
        }
        proof {
            assert forall|j: int| i < j < edits.len() implies (#[trigger] edits[i as int]).range.disjoint(
                (#[trigger] edits[j]).range,
            ) by {
                assert(changes@[i as int]@.range.disjoint(changes@[j]@.range));
            }
        }
        i += 1;
    }
    true
}

/// Applies the changes to `source` where they can be applied: sorted by start
/// and then by end, in one pass that copies what lies between them. Gives
/// nothing where a range does not fit the text or two ranges overlap.
pub fn try_apply_text_changes(source: &str, changes: Vec<TextChange>) -> (rewritten: Option<String>)
    ensures
        rewritten is Some == (all_fit(bytes_of(source@), edits_of(changes@)) && pairwise_disjoint(
            edits_of(changes@),
        )),
        rewritten matches Some(text) ==> bytes_of(text@) == apply_edits(
            bytes_of(source@),
            sort_edits(edits_of(changes@)),
        ),
{
    if changes_fit(source, &changes) {
        Some(apply_text_changes(source, changes))
    } else {
        None
    }
}

} // verus!

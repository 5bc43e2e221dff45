//! Where the data of each entry must end.

use vstd::prelude::*;
use vstd::seq_lib::group_to_multiset_ensures;

use crate::entry::{StoredZipEntry, StoredZipEntryView};
use crate::read::directory::entry_views;

verus! {

/// What follows a local header at `offset`: the nearest of the other headers behind it, or `limit` where that is nearer.
pub open spec fn next_after(entries: Seq<StoredZipEntryView>, offset: u64, limit: u64) -> u64
    decreases entries.len(),
{
    if entries.len() == 0 {
        limit
    } else {
        let nearest = next_after(entries.drop_last(), offset, limit);
        let last = entries.last().file_offset;
        if offset < last && last < nearest {
            last
        } else {
            nearest
        }
    }
}

/// The entries, each of which is told that its data must end before what follows its local header: another local header,
/// or the central directory.
pub open spec fn with_boundaries(entries: Seq<StoredZipEntryView>, directory_start: u64) -> Seq<StoredZipEntryView> {
    Seq::new(
        entries.len(),
        |i: int|
            StoredZipEntryView {
                data_end_boundary: next_after(entries, entries[i].file_offset, directory_start),
                ..entries[i]
            },
    )
}

/// What follows a local header is not behind `limit`, it is behind no other header that follows, and it is one of these.
pub proof fn lemma_next_after(entries: Seq<StoredZipEntryView>, offset: u64, limit: u64)
    ensures
        ({
            let next = next_after(entries, offset, limit);
            &&& next <= limit
            &&& forall|i: int|
                0 <= i < entries.len() && offset < (#[trigger] entries[i]).file_offset ==> next
                    <= entries[i].file_offset
            &&& next == limit || exists|i: int|
                0 <= i < entries.len() && offset < next && (#[trigger] entries[i]).file_offset == next
        }),
    decreases entries.len(),
{
    if entries.len() > 0 {
        let front = entries.drop_last();
        lemma_next_after(front, offset, limit);
        let nearest = next_after(front, offset, limit);
        let next = next_after(entries, offset, limit);
        assert forall|i: int| 0 <= i < entries.len() && offset < (#[trigger] entries[i]).file_offset implies next
            <= entries[i].file_offset by {
            if i < front.len() {
                assert(front[i] == entries[i]);
            }
        }
        if next != limit {
            if next == nearest {
                let i = choose|i: int|
                    0 <= i < front.len() && offset < nearest && (#[trigger] front[i]).file_offset == nearest;
                assert(entries[i] == front[i]);
            } else {
                assert(entries[entries.len() - 1].file_offset == next);
            }
        }
    }
}

/// The offsets of the local headers.
pub open spec fn offsets_of(entries: Seq<StoredZipEntryView>) -> Seq<u64> {
    Seq::new(entries.len(), |i: int| entries[i].file_offset)
}

/// `sort_unstable` of `std` puts numbers in ascending order, and neither adds nor drops any.
#[verifier::external_body]
fn sort_offsets(offsets: &mut Vec<u64>)
    ensures
        forall|i: int, j: int| 0 <= i <= j < final(offsets)@.len() ==> final(offsets)@[i] <= final(offsets)@[j],
        final(offsets)@.to_multiset() == old(offsets)@.to_multiset(),
{
    offsets.sort_unstable();
}

/// Returns how many of the sorted numbers do not exceed `offset`.
fn count_up_to(sorted: &Vec<u64>, offset: u64) -> (r: usize)
    requires
        forall|i: int, j: int| 0 <= i <= j < sorted@.len() ==> sorted@[i] <= sorted@[j],
    ensures
        r <= sorted@.len(),
        forall|i: int| 0 <= i < r ==> sorted@[i] <= offset,
        forall|i: int| r <= i < sorted@.len() ==> offset < sorted@[i],
{
    let mut low: usize = 0;
    let mut high: usize = sorted.len();
    while low < high
        invariant
            low <= high <= sorted@.len(),
            forall|i: int, j: int| 0 <= i <= j < sorted@.len() ==> sorted@[i] <= sorted@[j],
            forall|i: int| 0 <= i < low ==> sorted@[i] <= offset,
            forall|i: int| high <= i < sorted@.len() ==> offset < sorted@[i],
        decreases high - low,
    {
        let middle: usize = low + (high - low) / 2;
        if sorted[middle] <= offset {
            low = middle + 1;
        } else {
            high = middle;
        }
    }
    low
}

proof fn lemma_same_members(a: Seq<u64>, b: Seq<u64>)
    requires
        a.to_multiset() == b.to_multiset(),
    ensures
        forall|x: u64| a.contains(x) <==> b.contains(x),
{
    broadcast use group_to_multiset_ensures;

    assert forall|x: u64| a.contains(x) <==> b.contains(x) by {
        assert(a.contains(x) <==> a.to_multiset().count(x) > 0);
        assert(b.contains(x) <==> b.to_multiset().count(x) > 0);
    }
}

proof fn lemma_found_is_next(
    entries: Seq<StoredZipEntryView>,
    sorted: Seq<u64>,
    k: int,
    offset: u64,
    limit: u64,
    found: u64,
)
    requires
        forall|x: u64| offsets_of(entries).contains(x) <==> sorted.contains(x),
        forall|i: int, j: int| 0 <= i <= j < sorted.len() ==> sorted[i] <= sorted[j],
        0 <= k <= sorted.len(),
        forall|i: int| 0 <= i < k ==> sorted[i] <= offset,
        forall|i: int| k <= i < sorted.len() ==> offset < sorted[i],
        found == (if k < sorted.len() && sorted[k] < limit { sorted[k] } else { limit }),
    ensures
        found == next_after(entries, offset, limit),
{
    let next = next_after(entries, offset, limit);
    let offsets = offsets_of(entries);
    lemma_next_after(entries, offset, limit);
    if found != limit {
        assert(sorted.contains(found));
        assert(offsets.contains(found));
        let i = choose|i: int| 0 <= i < offsets.len() && offsets[i] == found;
        assert(entries[i].file_offset == found);
    }
    if next != limit {
        let i = choose|i: int| 0 <= i < entries.len() && offset < next && (#[trigger] entries[i]).file_offset == next;
        assert(offsets[i] == next);
        assert(sorted.contains(next));
        let j = choose|j: int| 0 <= j < sorted.len() && sorted[j] == next;
        assert(k <= j);
        assert(sorted[k] <= sorted[j]);
    }
}

/// Tells each entry that its data must end before what follows its local header.
pub fn assign_entry_data_boundaries(entries: &mut Vec<StoredZipEntry>, directory_start: u64)
    ensures
        entry_views(final(entries)@) == with_boundaries(entry_views(old(entries)@), directory_start),
{
    let ghost views = entry_views(entries@);
    let mut local_headers: Vec<u64> = Vec::new();
    let mut i: usize = 0;
    while i < entries.len()
        invariant
            i <= entries@.len(),
            entries@ == old(entries)@,
            views == entry_views(entries@),
            local_headers@ == offsets_of(views).take(i as int),
        decreases entries@.len() - i,
    {
        local_headers.push(entries[i].file_offset);
        assert(local_headers@ =~= offsets_of(views).take(i + 1));
        i += 1;
    }
    assert(local_headers@ =~= offsets_of(views));
    sort_offsets(&mut local_headers);
    proof {
        lemma_same_members(offsets_of(views), local_headers@);
    }
    let mut i: usize = 0;
    let ghost bounded = with_boundaries(views, directory_start);
    while i < entries.len()
        invariant
            i <= entries@.len(),
            views == entry_views(old(entries)@),
            bounded == with_boundaries(views, directory_start),
            entries@.len() == views.len(),
            forall|x: u64| offsets_of(views).contains(x) <==> local_headers@.contains(x),
            forall|a: int, b: int|
                0 <= a <= b < local_headers@.len() ==> local_headers@[a] <= local_headers@[b],
            forall|j: int| 0 <= j < i ==> (#[trigger] entries@[j])@ == bounded[j],
            forall|j: int| i <= j < entries@.len() ==> (#[trigger] entries@[j])@ == views[j],
        decreases entries@.len() - i,
    {
        let file_offset: u64 = entries[i].file_offset;
        let k: usize = count_up_to(&local_headers, file_offset);
        let boundary: u64 = if k < local_headers.len() && local_headers[k] < directory_start {
            local_headers[k]
        } else {
            directory_start
        };
        proof {
            assert(entries@[i as int]@ == views[i as int]);
            lemma_found_is_next(views, local_headers@, k as int, file_offset, directory_start, boundary);
        }
        entries[i].data_end_boundary = boundary;
        assert(entries@[i as int]@ == bounded[i as int]);
        i += 1;
    }
    assert(entry_views(entries@) =~= bounded);
}

} // verus!

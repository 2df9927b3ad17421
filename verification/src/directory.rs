//! The content of the directory that the asset browser shows, and its order: folders before
//! files, and within each kind by name.

use core::cmp::Ordering;
use vstd::prelude::*;
use vstd::seq_lib::to_multiset_build;
use vstd::seq_lib::to_multiset_insert;
use vstd::string::StringExecFns;
use vstd::string::StrSliceExecFns;

verus! {

/// One entry of a directory's content.
#[derive(Debug, PartialEq, Eq)]
pub enum Entry {
    /// An asset source, by name.
    Source(String),
    /// A directory, by name.
    Folder(String),
    /// A file, by name.
    File(String),
}

/// An entry with its name as a sequence of characters.
pub enum EntryView {
    Source(Seq<char>),
    Folder(Seq<char>),
    File(Seq<char>),
}

impl View for Entry {
    type V = EntryView;

    open spec fn view(&self) -> EntryView {
        match *self {
            Entry::Source(name) => EntryView::Source(name@),
            Entry::Folder(name) => EntryView::Folder(name@),
            Entry::File(name) => EntryView::File(name@),
        }
    }
}

impl Clone for Entry {
    fn clone(&self) -> (copy: Entry)
        ensures
            copy@ == self@,
    {
        match self {
            Entry::Source(name) => Entry::Source(name.clone()),
            Entry::Folder(name) => Entry::Folder(name.clone()),
            Entry::File(name) => Entry::File(name.clone()),
        }
    }
}

/// The content of the directory that the browser shows.
#[derive(Debug, PartialEq, Eq)]
pub struct DirectoryContent(pub Vec<Entry>);

impl Default for DirectoryContent {
    /// An empty directory.
    fn default() -> (content: DirectoryContent)
        ensures
            content.0@.len() == 0,
    {
        DirectoryContent(Vec::new())
    }
}

/// The name of the asset source that is browsed where no other is chosen.
pub const DEFAULT_SOURCE: &'static str = "default";

/// The location that the browser shows.
#[derive(Debug, PartialEq, Eq)]
pub struct AssetBrowserLocation {
    /// The asset source that is browsed, by name; without one, the sources are listed.
    pub source_id: Option<String>,
    /// The path of the directory, relative to the root of the source.
    pub path: String,
}

impl Default for AssetBrowserLocation {
    /// The root of the default source.
    fn default() -> (location: AssetBrowserLocation)
        ensures
            location.source_id is Some,
            location.source_id->0@ == DEFAULT_SOURCE@,
            location.path@.len() == 0,
    {
        AssetBrowserLocation {
            source_id: Some(String::from_str(DEFAULT_SOURCE)),
            path: String::new(),
        }
    }
}

/// How a directory's content is ordered.
#[derive(Debug, Clone, Copy, PartialEq, Eq, Structural)]
pub enum DirectoryContentOrder {
    /// Folders first, each kind from A to Z.
    Alphabetical,
    /// Folders first, each kind from Z to A.
    ReverseAlphabetical,
}

impl Default for DirectoryContentOrder {
    /// From A to Z.
    fn default() -> (order: DirectoryContentOrder)
        ensures
            order == DirectoryContentOrder::Alphabetical,
    {
        DirectoryContentOrder::Alphabetical
    }
}

/// Whether `a` stands before `b` in the order of texts: at the first place where the two
/// differ `a` has the smaller character, or `a` ends there and `b` goes on.
pub open spec fn text_before(a: Seq<char>, b: Seq<char>) -> bool
    decreases a.len(),
{
    if b.len() == 0 {
        false
    } else if a.len() == 0 {
        true
    } else if a[0] != b[0] {
        a[0] < b[0]
    } else {
        text_before(a.skip(1), b.skip(1))
    }
}

/// Whether the entry `left` has to stand behind the entry `right`: it is a file and the
/// other a folder, or both are of one of these kinds and the name of `right` comes first in
/// the order chosen. An asset source neither stands behind anything nor has anything behind
/// it.
pub open spec fn stands_behind(order: DirectoryContentOrder, left: EntryView, right: EntryView)
    -> bool {
    match (left, right) {
        (EntryView::File(_), EntryView::Folder(_)) => true,
        (EntryView::Folder(l), EntryView::Folder(r)) => match order {
            DirectoryContentOrder::Alphabetical => text_before(r, l),
            DirectoryContentOrder::ReverseAlphabetical => text_before(l, r),
        },
        (EntryView::File(l), EntryView::File(r)) => match order {
            DirectoryContentOrder::Alphabetical => text_before(r, l),
            DirectoryContentOrder::ReverseAlphabetical => text_before(l, r),
        },
        _ => false,
    }
}

/// The views of a list of entries.
pub open spec fn entry_views(entries: Seq<Entry>) -> Seq<EntryView> {
    entries.map_values(|e: Entry| e@)
}

/// Whether no entry stands directly in front of one that it has to stand behind.
pub open spec fn in_order(order: DirectoryContentOrder, entries: Seq<EntryView>) -> bool {
    forall|i: int|
        0 <= i < entries.len() - 1 ==> !stands_behind(order, #[trigger] entries[i], entries[i + 1])
}

/// Whether no entry stands anywhere in front of one that it has to stand behind.
pub open spec fn in_order_throughout(order: DirectoryContentOrder, entries: Seq<EntryView>)
    -> bool {
    forall|i: int, j: int|
        0 <= i < j < entries.len() ==> !stands_behind(
            order,
            #[trigger] entries[i],
            #[trigger] entries[j],
        )
}

/// Whether none of the entries is an asset source.
pub open spec fn without_sources(entries: Seq<EntryView>) -> bool {
    forall|i: int| 0 <= i < entries.len() ==> !(#[trigger] entries[i] is Source)
}

/// Of two texts at most one stands before the other.
pub proof fn lemma_text_before_one_way(a: Seq<char>, b: Seq<char>)
    ensures
        !(text_before(a, b) && text_before(b, a)),
        !text_before(a, a),
    decreases a.len(),
{
    if a.len() > 0 && b.len() > 0 && a[0] == b[0] {
        lemma_text_before_one_way(a.skip(1), b.skip(1));
    }
    if a.len() > 0 {
        lemma_text_before_one_way(a.skip(1), a.skip(1));
    }
}

/// The order of texts is transitive, and a text that neither stands before nor behind
/// another stands where the other does.
pub proof fn lemma_text_before_chain(a: Seq<char>, b: Seq<char>, c: Seq<char>)
    ensures
        text_before(a, b) && text_before(b, c) ==> text_before(a, c),
        text_before(a, b) && !text_before(c, b) ==> text_before(a, c),
        !text_before(b, a) && text_before(b, c) ==> text_before(a, c),
        !text_before(b, a) && !text_before(c, b) ==> !text_before(c, a),
    decreases a.len() + b.len() + c.len(),
{
    if a.len() > 0 && b.len() > 0 && c.len() > 0 {
        if a[0] == b[0] && b[0] == c[0] {
            lemma_text_before_chain(a.skip(1), b.skip(1), c.skip(1));
        }
    }
}

/// An entry does not stand behind one that stands behind it.
pub proof fn lemma_stands_behind_one_way(
    order: DirectoryContentOrder,
    left: EntryView,
    right: EntryView,
)
    ensures
        !(stands_behind(order, left, right) && stands_behind(order, right, left)),
{
    match (left, right) {
        (EntryView::Folder(l), EntryView::Folder(r)) => {
            lemma_text_before_one_way(l, r);
        },
        (EntryView::File(l), EntryView::File(r)) => {
            lemma_text_before_one_way(l, r);
        },
        _ => {},
    }
}

/// Among folders and files, standing in order is handed on: where `a` need not stand behind
/// `b` and `b` need not stand behind `c`, `a` need not stand behind `c`.
pub proof fn lemma_order_hands_on(
    order: DirectoryContentOrder,
    a: EntryView,
    b: EntryView,
    c: EntryView,
)
    requires
        !(a is Source),
        !(b is Source),
        !(c is Source),
        !stands_behind(order, a, b),
        !stands_behind(order, b, c),
    ensures
        !stands_behind(order, a, c),
{
    match (a, b, c) {
        (EntryView::Folder(x), EntryView::Folder(y), EntryView::Folder(z)) => {
            lemma_text_before_chain(x, y, z);
            lemma_text_before_chain(z, y, x);
        },
        (EntryView::File(x), EntryView::File(y), EntryView::File(z)) => {
            lemma_text_before_chain(x, y, z);
            lemma_text_before_chain(z, y, x);
        },
        _ => {},
    }
}

/// A directory of folders and files that is in order from each entry to the next is in
/// order throughout: folders stand before files, and within each kind the names follow the
/// order chosen.
pub proof fn lemma_in_order_throughout(order: DirectoryContentOrder, entries: Seq<EntryView>)
    requires
        in_order(order, entries),
        without_sources(entries),
    ensures
        in_order_throughout(order, entries),
{
    assert forall|i: int, j: int| 0 <= i < j < entries.len() implies !stands_behind(
        order,
        #[trigger] entries[i],
        #[trigger] entries[j],
    ) by {
        lemma_reaches(order, entries, i, j);
    }
}

/// In a directory of folders and files that is in order from each entry to the next, no
/// entry has to stand behind a later one.
proof fn lemma_reaches(order: DirectoryContentOrder, entries: Seq<EntryView>, i: int, j: int)
    requires
        in_order(order, entries),
        without_sources(entries),
        0 <= i < j < entries.len(),
    ensures
        !stands_behind(order, entries[i], entries[j]),
    decreases j - i,
{
    if j > i + 1 {
        lemma_reaches(order, entries, i, j - 1);
        assert(!stands_behind(order, entries[j - 1], entries[j - 1 + 1]));
        lemma_order_hands_on(order, entries[i], entries[j - 1], entries[j]);
    } else {
        assert(!stands_behind(order, entries[i], entries[i + 1]));
    }
}

/// Checks whether the text `a` stands before the text `b`.
pub fn is_text_before(a: &str, b: &str) -> (before: bool)
    ensures
        before == text_before(a@, b@),
{
    let n = a.unicode_len();
    let m = b.unicode_len();
    let mut i: usize = 0;
    assert(a@.skip(0) =~= a@);
    assert(b@.skip(0) =~= b@);
    while i < n && i < m
        invariant
            i <= n,
            i <= m,
            n == a@.len(),
            m == b@.len(),
            text_before(a@, b@) == text_before(a@.skip(i as int), b@.skip(i as int)),
        decreases n - i,
    {
        let x = a.get_char(i);
        let y = b.get_char(i);
        assert(a@.skip(i as int)[0] == x);
        assert(b@.skip(i as int)[0] == y);
        if x != y {
            return x < y;
        }
        assert(a@.skip(i as int).skip(1) =~= a@.skip(i + 1));
        assert(b@.skip(i as int).skip(1) =~= b@.skip(i + 1));
        i += 1;
    }
    i < m
}

/// Checks whether the entry `left` has to stand behind the entry `right`.
pub fn has_to_stand_behind(order: DirectoryContentOrder, left: &Entry, right: &Entry) -> (behind:
    bool)
    ensures
        behind == stands_behind(order, left@, right@),
{
    match (left, right) {
        (Entry::File(_), Entry::Folder(_)) => true,
        (Entry::Folder(l), Entry::Folder(r)) => match order {
            DirectoryContentOrder::Alphabetical => is_text_before(r.as_str(), l.as_str()),
            DirectoryContentOrder::ReverseAlphabetical => is_text_before(l.as_str(), r.as_str()),
        },
        (Entry::File(l), Entry::File(r)) => match order {
            DirectoryContentOrder::Alphabetical => is_text_before(r.as_str(), l.as_str()),
            DirectoryContentOrder::ReverseAlphabetical => is_text_before(l.as_str(), r.as_str()),
        },
        _ => false,
    }
}

/// How two entries compare in an order: `Greater` where the left one has to stand behind
/// the right one, `Less` where the right one has to stand behind the left one, and `Equal`
/// where neither has to.
fn compare(order: DirectoryContentOrder, left: &Entry, right: &Entry) -> (result: Ordering)
    ensures
        result == Ordering::Greater <==> stands_behind(order, left@, right@),
        result == Ordering::Less <==> stands_behind(order, right@, left@),
{
    proof {
        lemma_stands_behind_one_way(order, left@, right@);
    }
    if has_to_stand_behind(order, left, right) {
        Ordering::Greater
    } else if has_to_stand_behind(order, right, left) {
        Ordering::Less
    } else {
        Ordering::Equal
    }
}

/// Compares two entries from A to Z, folders before files.
pub fn alphabetical_sort(left: &Entry, right: &Entry) -> (result: Ordering)
    ensures
        result == Ordering::Greater <==> stands_behind(
            DirectoryContentOrder::Alphabetical,
            left@,
            right@,
        ),
        result == Ordering::Less <==> stands_behind(
            DirectoryContentOrder::Alphabetical,
            right@,
            left@,
        ),
{
    compare(DirectoryContentOrder::Alphabetical, left, right)
}

/// Compares two entries from Z to A, folders before files.
pub fn reverse_alphabetical_sort(left: &Entry, right: &Entry) -> (result: Ordering)
    ensures
        result == Ordering::Greater <==> stands_behind(
            DirectoryContentOrder::ReverseAlphabetical,
            left@,
            right@,
        ),
        result == Ordering::Less <==> stands_behind(
            DirectoryContentOrder::ReverseAlphabetical,
            right@,
            left@,
        ),
{
    compare(DirectoryContentOrder::ReverseAlphabetical, left, right)
}

impl DirectoryContentOrder {
    /// Sorts a directory's content in this order. The content holds the same entries as
    /// before, and no entry stands directly in front of one that it has to stand behind; in
    /// a directory without asset sources none stands anywhere in front of such an entry.
    pub fn sort(&self, content: &mut DirectoryContent)
        ensures
            entry_views(final(content).0@).to_multiset() == entry_views(
                old(content).0@,
            ).to_multiset(),
            in_order(*self, entry_views(final(content).0@)),
            without_sources(entry_views(old(content).0@)) ==> in_order_throughout(
                *self,
                entry_views(final(content).0@),
            ),
    {
        let mut sorted: Vec<Entry> = Vec::new();
        let ghost start = entry_views(content.0@);
        let mut i: usize = 0;
        assert(start.subrange(0, 0) =~= Seq::<EntryView>::empty());
        assert(entry_views(sorted@) =~= Seq::<EntryView>::empty());
        while i < content.0.len()
            invariant
                i <= content.0.len(),
                start == entry_views(content.0@),
                entry_views(sorted@).to_multiset() == start.subrange(0, i as int).to_multiset(),
                in_order(*self, entry_views(sorted@)),
            decreases content.0.len() - i,
        {
            let entry = content.0[i].clone();
            let ghost before = entry_views(sorted@);
            let mut at: usize = sorted.len();
            while at > 0 && has_to_stand_behind(*self, &sorted[at - 1], &entry)
                invariant
                    at <= sorted.len(),
                    before == entry_views(sorted@),
                    forall|k: int|
                        at <= k < sorted.len() ==> stands_behind(
                            *self,
                            #[trigger] before[k],
                            entry@,
                        ),
                decreases at,
            {
                at -= 1;
            }
            proof {
                let after = before.insert(at as int, entry@);
                to_multiset_insert(before, at as int, entry@);
                to_multiset_build(start.subrange(0, i as int), entry@);
                assert(start.subrange(0, i + 1) =~= start.subrange(0, i as int).push(entry@));
                assert forall|k: int| 0 <= k < after.len() - 1 implies !stands_behind(
                    *self,
                    #[trigger] after[k],
                    after[k + 1],
                ) by {
                    if k + 1 < at {
                        assert(after[k] == before[k] && after[k + 1] == before[k + 1]);
                    } else if k + 1 == at {
                        assert(after[k] == before[k]);
                    } else if k == at {
                        assert(after[k + 1] == before[k]);
                        lemma_stands_behind_one_way(*self, before[k], entry@);
                    } else {
                        assert(after[k] == before[k - 1] && after[k + 1] == before[k]);
                        assert(!stands_behind(*self, before[k - 1], before[k - 1 + 1]));
                    }
                }
            }
            sorted.insert(at, entry);
            assert(entry_views(sorted@) =~= before.insert(at as int, entry@));
            i += 1;
        }
        assert(start.subrange(0, i as int) =~= start);
        proof {
            let done = entry_views(sorted@);
            if without_sources(start) {
                assert forall|k: int| 0 <= k < done.len() implies !(
                #[trigger] done[k] is Source) by {
                    vstd::seq_lib::to_multiset_contains(done, done[k]);
                    vstd::seq_lib::to_multiset_contains(start, done[k]);
                    assert(done.contains(done[k]));
                    let j = choose|j: int| 0 <= j < start.len() && start[j] == done[k];
                }
                lemma_in_order_throughout(*self, done);
            }
        }
        content.0 = sorted;
    }
}

} // verus!

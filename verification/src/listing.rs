//! The order in which the children of a directory are listed: directories
//! first, then by name without regard to case.

use vstd::prelude::*;
use crate::text::to_chars;

verus! {

broadcast use vstd::seq_lib::group_to_multiset_ensures;

/// One child of a directory.
#[derive(Debug, Clone, PartialEq, Eq)]
pub struct DirectoryEntry {
    pub name: String,
    pub path: String,
    pub is_dir: bool,
}

pub struct EntryView {
    pub name: Seq<char>,
    pub path: Seq<char>,
    pub is_dir: bool,
}

impl View for DirectoryEntry {
    type V = EntryView;

    open spec fn view(&self) -> EntryView {
        EntryView { name: self.name@, path: self.path@, is_dir: self.is_dir }
    }
}

pub open spec fn entry_views(entries: Seq<DirectoryEntry>) -> Seq<EntryView> {
    entries.map_values(|entry: DirectoryEntry| entry@)
}

/// The lowercase form of a text: what `str::to_lowercase` returns.
pub uninterp spec fn lowercase(text: Seq<char>) -> Seq<char>;

/// `str::to_lowercase`: the lowercase equivalent of the text, as a new
/// string. The mapping is that of Unicode and knows no locale.
#[verifier::external_body]
fn to_lowercase(text: &str) -> (lower: String)
    ensures
        lower@ == lowercase(text@),
{
    text.to_lowercase()
}

/// Whether `a` comes before `b` or equals it, character by character in the
/// order of their code points; a text comes after its own beginnings.
pub open spec fn text_le(a: Seq<char>, b: Seq<char>) -> bool
    decreases a.len(),
{
    if a.len() == 0 {
        true
    } else if b.len() == 0 {
        false
    } else if a.first() as u32 != b.first() as u32 {
        (a.first() as u32) < (b.first() as u32)
    } else {
        text_le(a.drop_first(), b.drop_first())
    }
}

/// Of two texts, one comes before the other or equals it.
pub proof fn lemma_text_le_total(a: Seq<char>, b: Seq<char>)
    ensures
        text_le(a, b) || text_le(b, a),
    decreases a.len(),
{
    if a.len() > 0 && b.len() > 0 && a.first() as u32 == b.first() as u32 {
        lemma_text_le_total(a.drop_first(), b.drop_first());
    }
}

/// What comes before a text comes before all that the text comes before.
pub proof fn lemma_text_le_transitive(a: Seq<char>, b: Seq<char>, c: Seq<char>)
    requires
        text_le(a, b),
        text_le(b, c),
    ensures
        text_le(a, c),
    decreases a.len(),
{
    if a.len() > 0 && b.len() > 0 && c.len() > 0 && a.first() as u32 == b.first() as u32
        && b.first() as u32 == c.first() as u32 {
        lemma_text_le_transitive(a.drop_first(), b.drop_first(), c.drop_first());
    }
}

/// The order of a listing: a directory comes before a file, and of two
/// directories or two files the one whose lowercase name comes first.
pub open spec fn entry_le(a: EntryView, b: EntryView) -> bool {
    if a.is_dir != b.is_dir {
        a.is_dir
    } else {
        text_le(lowercase(a.name), lowercase(b.name))
    }
}

/// Of two entries, one comes before the other or equals it in the order.
pub proof fn lemma_entry_le_total(a: EntryView, b: EntryView)
    ensures
        entry_le(a, b) || entry_le(b, a),
{
    lemma_text_le_total(lowercase(a.name), lowercase(b.name));
}

/// The order of a listing is transitive.
pub proof fn lemma_entry_le_transitive(a: EntryView, b: EntryView, c: EntryView)
    requires
        entry_le(a, b),
        entry_le(b, c),
    ensures
        entry_le(a, c),
{
    if a.is_dir == b.is_dir && b.is_dir == c.is_dir {
        lemma_text_le_transitive(lowercase(a.name), lowercase(b.name), lowercase(c.name));
    }
}

/// Whether each entry comes before those that follow it, or equals them in
/// the order.
pub open spec fn is_listed_in_order(entries: Seq<EntryView>) -> bool {
    forall|i: int, j: int|
        0 <= i < j < entries.len() ==> entry_le(#[trigger] entries[i], #[trigger] entries[j])
}

/// Decides the order of two texts.
fn text_precedes(a: &Vec<char>, b: &Vec<char>) -> (le: bool)
    ensures
        le == text_le(a@, b@),
{
    let mut i: usize = 0;
    assert(a@.skip(0) =~= a@);
    assert(b@.skip(0) =~= b@);
    while i < a.len() && i < b.len() && a[i] as u32 == b[i] as u32
        invariant
            i <= a.len(),
            i <= b.len(),
            text_le(a@, b@) == text_le(a@.skip(i as int), b@.skip(i as int)),
        decreases a.len() - i,
    {
        proof {
            assert(a@.skip(i as int).drop_first() =~= a@.skip(i + 1));
            assert(b@.skip(i as int).drop_first() =~= b@.skip(i + 1));
        }
        i += 1;
    }
    if i == a.len() {
        true
    } else if i == b.len() {
        false
    } else {
        (a[i] as u32) < (b[i] as u32)
    }
}

/// The order of a listing, on what decides it: whether each of the two is
/// a directory, and their lowercase names.
fn key_precedes(a_is_dir: bool, a_key: &Vec<char>, b_is_dir: bool, b_key: &Vec<char>) -> (le: bool)
    ensures
        le == if a_is_dir != b_is_dir {
            a_is_dir
        } else {
            text_le(a_key@, b_key@)
        },
{
    if a_is_dir != b_is_dir {
        a_is_dir
    } else {
        text_precedes(a_key, b_key)
    }
}

/// A copy of the entry.
fn copy_entry(entry: &DirectoryEntry) -> (copy: DirectoryEntry)
    ensures
        copy@ == entry@,
{
    DirectoryEntry { name: entry.name.clone(), path: entry.path.clone(), is_dir: entry.is_dir }
}

/// Where an entry goes into a listing: behind the last entry that comes
/// before it or equals it in the order, so that entries that are equal in
/// the order stay in the order in which they came.
pub open spec fn place(listed: Seq<EntryView>, entry: EntryView) -> int
    decreases listed.len(),
{
    if listed.len() == 0 || entry_le(listed.last(), entry) {
        listed.len() as int
    } else {
        place(listed.drop_last(), entry)
    }
}

/// The entries in the order of a listing.
pub open spec fn listing(entries: Seq<EntryView>) -> Seq<EntryView>
    decreases entries.len(),
{
    if entries.len() == 0 {
        Seq::empty()
    } else {
        let earlier = listing(entries.drop_last());
        earlier.insert(place(earlier, entries.last()), entries.last())
    }
}

/// The place of an entry lies within the listing; what stands right before
/// it comes before the entry or equals it, and nothing behind it does.
pub proof fn lemma_place(listed: Seq<EntryView>, entry: EntryView)
    ensures
        0 <= place(listed, entry) <= listed.len(),
        place(listed, entry) > 0 ==> entry_le(listed[place(listed, entry) - 1], entry),
        forall|j: int|
            place(listed, entry) <= j < listed.len() ==> !entry_le(#[trigger] listed[j], entry),
    decreases listed.len(),
{
    if listed.len() > 0 && !entry_le(listed.last(), entry) {
        lemma_place(listed.drop_last(), entry);
        let p = place(listed, entry);
        assert forall|j: int| p <= j < listed.len() implies !entry_le(
            #[trigger] listed[j],
            entry,
        ) by {
            if j < listed.len() - 1 {
                assert(listed.drop_last()[j] == listed[j]);
            }
        }
        if p > 0 {
            assert(listed.drop_last()[p - 1] == listed[p - 1]);
        }
    }
}

/// A listing is in order: directories first, then by lowercase name.
pub proof fn listing_is_in_order(entries: Seq<EntryView>)
    ensures
        is_listed_in_order(listing(entries)),
    decreases entries.len(),
{
    if entries.len() > 0 {
        let before = listing(entries.drop_last());
        let x = entries.last();
        let p = place(before, x);
        listing_is_in_order(entries.drop_last());
        lemma_place(before, x);
        let after = before.insert(p, x);
        assert forall|i: int, j: int| 0 <= i < j < after.len() implies entry_le(
            #[trigger] after[i],
            #[trigger] after[j],
        ) by {
            if j < p {
                assert(after[i] == before[i] && after[j] == before[j]);
            } else if j == p {
                assert(after[i] == before[i]);
                if i < p - 1 {
                    lemma_entry_le_transitive(before[i], before[p - 1], x);
                }
            } else if i < p {
                assert(after[i] == before[i] && after[j] == before[j - 1]);
            } else if i == p {
                assert(after[j] == before[j - 1]);
                lemma_entry_le_total(before[j - 1], x);
            } else {
                assert(after[i] == before[i - 1] && after[j] == before[j - 1]);
            }
        }
    }
}

/// A listing holds the entries that it was made from, each as often as
/// before.
pub proof fn listing_keeps_the_entries(entries: Seq<EntryView>)
    ensures
        listing(entries).to_multiset() == entries.to_multiset(),
    decreases entries.len(),
{
    if entries.len() == 0 {
        assert(listing(entries) =~= entries);
    } else {
        let before = listing(entries.drop_last());
        let x = entries.last();
        let p = place(before, x);
        listing_keeps_the_entries(entries.drop_last());
        lemma_place(before, x);
        let after = before.insert(p, x);
        assert(after.remove(p) =~= before);
        assert(after[p] == x);
        assert(after.to_multiset().remove(x) == before.to_multiset());
        assert(after.to_multiset().count(x) > 0);
        assert(after.to_multiset() =~= before.to_multiset().insert(x));
        assert(entries =~= entries.drop_last().push(x));
    }
}

/// Puts the entries in the order of a listing.
pub fn sort_entries(entries: &Vec<DirectoryEntry>) -> (listed: Vec<DirectoryEntry>)
    ensures
        entry_views(listed@) == listing(entry_views(entries@)),
        is_listed_in_order(entry_views(listed@)),
        entry_views(listed@).to_multiset() == entry_views(entries@).to_multiset(),
        listed.len() == entries.len(),
{
    let mut listed: Vec<DirectoryEntry> = Vec::new();
    let mut keys: Vec<Vec<char>> = Vec::new();
    let ghost all = entry_views(entries@);
    let mut n: usize = 0;
    assert(all.take(0) =~= Seq::<EntryView>::empty());
    assert(entry_views(listed@) =~= Seq::<EntryView>::empty());
    while n < entries.len()
        invariant
            n <= entries.len(),
            all == entry_views(entries@),
            listed.len() == n,
            keys.len() == n,
            forall|i: int| 0 <= i < n ==> (#[trigger] keys[i])@ == lowercase(listed[i].name@),
            entry_views(listed@) == listing(all.take(n as int)),
        decreases entries.len() - n,
    {
        let entry = copy_entry(&entries[n]);
        let lower = to_lowercase(entry.name.as_str());
        let key = to_chars(lower.as_str());
        let ghost before = entry_views(listed@);
        let ghost x = entry@;
        let mut p: usize = n;
        assert(before.take(n as int) =~= before);
        while p > 0 && !key_precedes(listed[p - 1].is_dir, &keys[p - 1], entry.is_dir, &key)
            invariant
                p <= n,
                listed.len() == n,
                keys.len() == n,
                x == entry@,
                key@ == lowercase(entry.name@),
                before == entry_views(listed@),
                forall|i: int| 0 <= i < n ==> (#[trigger] keys[i])@ == lowercase(listed[i].name@),
                place(before, x) == place(before.take(p as int), x),
            decreases p,
        {
            proof {
                assert(before.take(p as int).last() == listed@[p - 1]@);
                assert(before.take(p as int).drop_last() =~= before.take(p - 1));
            }
            p -= 1;
        }
        proof {
            if p > 0 {
                assert(before.take(p as int).last() == listed@[p - 1]@);
            }
            assert(place(before, x) == p);
            assert(all.take(n + 1).drop_last() =~= all.take(n as int));
            assert(all.take(n + 1).last() == x);
            assert(entry_views(listed@.insert(p as int, entry)) =~= before.insert(p as int, x));
        }
        listed.insert(p, entry);
        keys.insert(p, key);
        n += 1;
    }
    proof {
        assert(all.take(n as int) =~= all);
        listing_is_in_order(all);
        listing_keeps_the_entries(all);
    }
    listed
}

} // verus!

//! Classifying a raw directory listing into the forest of discovered items.
//!
//! The filesystem reader (outside this library) hands over a `RawItem` tree;
//! `scan` turns it into the forest the caller works with: one `Item` per
//! listed entry whose kind is known, in listing order, with directories
//! recursively expanded. An entry whose kind could not be determined is
//! omitted from the forest and its path is reported back for diagnostics.

use vstd::multiset::Multiset;
use vstd::prelude::*;

use crate::item::{
    item_view, items_view, lemma_raws_view_index, raw_view, raws_view, FileType, Item, ItemView,
    RawItem, RawItemView, RawKind,
};

verus! {

broadcast use
    vstd::seq::axiom_seq_index_decreases,
    vstd::seq::axiom_seq_subrange_decreases,
    vstd::std_specs::vec::axiom_vec_decreases_to_view;

/// What a scan of a raw listing yields: the forest of classified items, and
/// the paths of the entries that were skipped because their kind was unknown,
/// in the order the traversal met them.
pub struct ScanResult {
    pub items: Vec<Item>,
    pub skipped: Vec<String>,
}

/// The forest a scan builds from a raw listing: entries in listing order,
/// files as leaves, directories carrying the scan of their own listing, and
/// entries of unknown kind omitted.
pub open spec fn scan_nodes(rs: Seq<RawItemView>) -> Seq<ItemView>
    decreases rs,
{
    if rs.len() == 0 {
        Seq::empty()
    } else {
        scan_nodes(rs.drop_last()) + scan_one(rs.last())
    }
}

/// What one raw entry contributes to the forest: nothing if its kind is
/// unknown, otherwise exactly one item.
pub open spec fn scan_one(r: RawItemView) -> Seq<ItemView>
    decreases r,
{
    match r.kind {
        RawKind::File => seq![
            ItemView {
                path: r.path,
                name: r.name,
                file_type: FileType::File,
                sub_items: Seq::empty(),
            },
        ],
        RawKind::Dir => seq![
            ItemView {
                path: r.path,
                name: r.name,
                file_type: FileType::Dir,
                sub_items: scan_nodes(r.children),
            },
        ],
        RawKind::Unknown => Seq::empty(),
    }
}

/// The paths of the entries a scan skips, in traversal order: a depth-first
/// walk of the raw listing that reports every entry of unknown kind.
pub open spec fn skip_nodes(rs: Seq<RawItemView>) -> Seq<Seq<char>>
    decreases rs,
{
    if rs.len() == 0 {
        Seq::empty()
    } else {
        skip_nodes(rs.drop_last()) + skip_one(rs.last())
    }
}

pub open spec fn skip_one(r: RawItemView) -> Seq<Seq<char>>
    decreases r,
{
    match r.kind {
        RawKind::File => Seq::empty(),
        RawKind::Dir => skip_nodes(r.children),
        RawKind::Unknown => seq![r.path],
    }
}

/// The views of a sequence of strings.
pub open spec fn strings_view(ss: Seq<String>) -> Seq<Seq<char>> {
    ss.map_values(|s: String| s@)
}

/// The entries of a raw listing whose kind is known, in listing order.
pub open spec fn known_entries(rs: Seq<RawItemView>) -> Seq<RawItemView>
    decreases rs,
{
    if rs.len() == 0 {
        Seq::empty()
    } else {
        known_entries(rs.drop_last()) + (if rs.last().kind is Unknown {
            Seq::empty()
        } else {
            seq![rs.last()]
        })
    }
}

/// A scan mirrors the tree it was given: it yields exactly one item per
/// listed entry whose kind is known, in listing order, with the entry's path,
/// name and kind carried over unchanged; a file becomes a leaf, and a
/// directory's sub-items are, recursively, the scan of its own listing.
/// Nothing is excluded except entries whose kind could not be determined.
pub proof fn lemma_scan_mirrors(rs: Seq<RawItemView>)
    ensures
        scan_nodes(rs).len() == known_entries(rs).len(),
        forall|j: int|
            0 <= j < known_entries(rs).len() ==> {
                let r = known_entries(rs)[j];
                let e = #[trigger] scan_nodes(rs)[j];
                &&& e.path == r.path
                &&& e.name == r.name
                &&& (r.kind is File ==> e.file_type is File && e.sub_items == Seq::<
                    ItemView,
                >::empty())
                &&& (r.kind is Dir ==> e.file_type is Dir && e.sub_items == scan_nodes(r.children))
            },
    decreases rs,
{
    if rs.len() > 0 {
        lemma_scan_mirrors(rs.drop_last());
        let a = scan_nodes(rs.drop_last());
        let ka = known_entries(rs.drop_last());
        let last = rs.last();
        if last.kind is Unknown {
            assert(scan_one(last).len() == 0);
        } else if last.kind is File {
            assert(scan_one(last).len() == 1);
        } else {
            assert(scan_one(last).len() == 1);
        }
        assert forall|j: int| 0 <= j < known_entries(rs).len() implies {
            let r = known_entries(rs)[j];
            let e = #[trigger] scan_nodes(rs)[j];
            &&& e.path == r.path
            &&& e.name == r.name
            &&& (r.kind is File ==> e.file_type is File && e.sub_items == Seq::<ItemView>::empty())
            &&& (r.kind is Dir ==> e.file_type is Dir && e.sub_items == scan_nodes(r.children))
        } by {
            if j < ka.len() {
                assert(scan_nodes(rs)[j] == a[j]);
                assert(known_entries(rs)[j] == ka[j]);
            } else {
                assert(scan_nodes(rs)[j] == scan_one(rs.last())[j - a.len()]);
                assert(known_entries(rs)[j] == rs.last());
            }
        }
    }
}

/// Build the forest for a raw directory listing: one item per entry whose
/// kind is known, in listing order, with directories recursively expanded and
/// files as leaves; entries of unknown kind are left out of the forest and
/// their paths are returned for diagnostics, in traversal order.
pub fn scan(raw: &Vec<RawItem>) -> (r: ScanResult)
    ensures
        items_view(r.items@) == scan_nodes(raws_view(raw@)),
        strings_view(r.skipped@) == skip_nodes(raws_view(raw@)),
    decreases raw@,
{
    let mut items: Vec<Item> = Vec::new();
    let mut skipped: Vec<String> = Vec::new();
    let ghost rv = raws_view(raw@);
    proof {
        lemma_raws_view_index(raw@);
        assert(items_view(items@) =~= scan_nodes(rv.subrange(0, 0)));
        assert(strings_view(skipped@) =~= skip_nodes(rv.subrange(0, 0)));
    }
    let n = raw.len();
    let mut i: usize = 0;
    while i < n
        invariant
            n == raw.len(),
            i <= n,
            rv == raws_view(raw@),
            rv.len() == n,
            forall|j: int| 0 <= j < n ==> rv[j] == raw_view(#[trigger] raw@[j]),
            items_view(items@) == scan_nodes(rv.subrange(0, i as int)),
            strings_view(skipped@) == skip_nodes(rv.subrange(0, i as int)),
        decreases n - i,
    {
        let ghost pre = rv.subrange(0, i as int);
        let ghost post = rv.subrange(0, i + 1);
        proof {
            assert(post.drop_last() =~= pre);
            assert(post.last() == rv[i as int]);
            assert(scan_nodes(post) == scan_nodes(pre) + scan_one(rv[i as int]));
            assert(skip_nodes(post) == skip_nodes(pre) + skip_one(rv[i as int]));
        }
        let r = &raw[i];
        match r.kind {
            RawKind::File => {
                let it = Item {
                    path: r.path.clone(),
                    name: r.name.clone(),
                    file_type: FileType::File,
                    sub_items: Vec::new(),
                };
                proof {
                    assert(item_view(it) =~= scan_one(rv[i as int])[0]);
                    assert(items@.push(it).drop_last() =~= items@);
                    assert(items_view(items@.push(it)) =~= scan_nodes(pre) + scan_one(
                        rv[i as int],
                    ));
                    assert(skip_nodes(post) =~= skip_nodes(pre));
                }
                items.push(it);
            },
            RawKind::Dir => {
                let sub = scan(&r.children);
                let ScanResult { items: sub_items, skipped: mut sub_skipped } = sub;
                let it = Item {
                    path: r.path.clone(),
                    name: r.name.clone(),
                    file_type: FileType::Dir,
                    sub_items: sub_items,
                };
                proof {
                    assert(item_view(it) =~= scan_one(rv[i as int])[0]);
                    assert(items@.push(it).drop_last() =~= items@);
                    assert(items_view(items@.push(it)) =~= scan_nodes(pre) + scan_one(
                        rv[i as int],
                    ));
                    assert(strings_view(skipped@ + sub_skipped@) =~= strings_view(skipped@)
                        + strings_view(sub_skipped@));
                }
                items.push(it);
                skipped.append(&mut sub_skipped);
            },
            RawKind::Unknown => {
                let p = r.path.clone();
                proof {
                    assert(strings_view(skipped@.push(p)) =~= strings_view(skipped@) + seq![p@]);
                    assert(scan_nodes(post) =~= scan_nodes(pre));
                }
                skipped.push(p);
            },
        }
        i = i + 1;
    }
    proof {
        assert(rv.subrange(0, n as int) =~= rv);
    }
    ScanResult { items, skipped }
}

/// What one forest node contributes to the multiset of (name, kind, depth)
/// triples: its own triple, and the triples of its sub-items one level
/// deeper.
pub open spec fn node_triples(n: ItemView, depth: nat) -> Multiset<(Seq<char>, FileType, nat)>
    decreases n,
{
    Multiset::singleton((n.name, n.file_type, depth)).add(forest_triples(n.sub_items, depth + 1))
}

/// The multiset of (name, kind, depth) triples of a forest rooted at the
/// given depth.
pub open spec fn forest_triples(ns: Seq<ItemView>, depth: nat) -> Multiset<
    (Seq<char>, FileType, nat),
>
    decreases ns,
{
    if ns.len() == 0 {
        Multiset::empty()
    } else {
        forest_triples(ns.drop_last(), depth).add(node_triples(ns.last(), depth))
    }
}

/// The multiset of (name, kind, depth) triples a raw listing describes, over
/// its entries of known kind only.
pub open spec fn raw_triples(rs: Seq<RawItemView>, depth: nat) -> Multiset<
    (Seq<char>, FileType, nat),
>
    decreases rs,
{
    if rs.len() == 0 {
        Multiset::empty()
    } else {
        raw_triples(rs.drop_last(), depth).add(raw_one_triples(rs.last(), depth))
    }
}

pub open spec fn raw_one_triples(r: RawItemView, depth: nat) -> Multiset<(Seq<char>, FileType, nat)>
    decreases r,
{
    match r.kind {
        RawKind::File => Multiset::singleton((r.name, FileType::File, depth)),
        RawKind::Dir => Multiset::singleton((r.name, FileType::Dir, depth)).add(
            raw_triples(r.children, depth + 1),
        ),
        RawKind::Unknown => Multiset::empty(),
    }
}

/// The forest a scan builds carries exactly the (name, kind, depth) triples
/// of the raw listing's entries of known kind: the scan invents nothing,
/// loses nothing but unknown-kind entries, and keeps every entry at its own
/// depth.
pub proof fn lemma_scan_triples(rs: Seq<RawItemView>, depth: nat)
    ensures
        forest_triples(scan_nodes(rs), depth) == raw_triples(rs, depth),
    decreases rs,
{
    if rs.len() > 0 {
        lemma_scan_triples(rs.drop_last(), depth);
        let a = scan_nodes(rs.drop_last());
        let last = rs.last();
        if last.kind is Unknown {
            assert(a + scan_one(last) =~= a);
            assert(scan_nodes(rs) == a);
            assert(raw_triples(rs.drop_last(), depth).add(raw_one_triples(last, depth))
                =~= raw_triples(rs.drop_last(), depth));
        } else {
            let e = scan_one(last)[0];
            assert((a + scan_one(last)).drop_last() =~= a);
            assert((a + scan_one(last)).last() == e);
            assert(forest_triples(scan_nodes(rs), depth) == forest_triples(a, depth).add(
                node_triples(e, depth),
            ));
            if last.kind is File {
                assert(node_triples(e, depth) =~= raw_one_triples(last, depth));
            } else {
                lemma_scan_triples(last.children, depth + 1);
                assert(node_triples(e, depth) =~= raw_one_triples(last, depth));
            }
        }
    }
}

/// Scanning the same unmodified tree twice is stable: two raw listings that
/// describe the same multiset of (name, kind, depth) triples — listing order
/// at each level is unspecified and may differ between runs — scan to
/// forests with identical multisets of (name, kind, depth) triples.
pub proof fn lemma_scan_same_tree(a: Seq<RawItemView>, b: Seq<RawItemView>, depth: nat)
    requires
        raw_triples(a, depth) == raw_triples(b, depth),
    ensures
        forest_triples(scan_nodes(a), depth) == forest_triples(scan_nodes(b), depth),
{
    lemma_scan_triples(a, depth);
    lemma_scan_triples(b, depth);
}

} // verus!

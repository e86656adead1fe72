//! The data model: one `Item` per filesystem node discovered by a scan, and
//! the raw listing (`RawItem`) that the scan classifies, together with their
//! mathematical views.

use vstd::prelude::*;

verus! {

broadcast use
    vstd::seq::axiom_seq_index_decreases,
    vstd::seq::axiom_seq_subrange_decreases,
    vstd::std_specs::vec::axiom_vec_decreases_to_view;

/// The classification of a discovered node: a closed, two-variant tag.
#[derive(Clone, Copy, PartialEq, Eq, Structural, Debug)]
pub enum FileType {
    File,
    Dir,
}

/// One node of the forest a scan builds: its full path, its bare name, its
/// kind, and — for directories — its recursively expanded children, in the
/// order the underlying listing produced them.
pub struct Item {
    pub path: String,
    pub name: String,
    pub file_type: FileType,
    pub sub_items: Vec<Item>,
}

/// What the underlying directory read reports for one entry: a directory, a
/// non-directory, or a node whose kind could not be determined.
#[derive(Clone, Copy, PartialEq, Eq, Structural, Debug)]
pub enum RawKind {
    File,
    Dir,
    Unknown,
}

/// One entry of a raw directory listing, as the filesystem reader hands it
/// over: path, name, reported kind, and the raw listing of its own contents
/// (non-empty only for directories).
pub struct RawItem {
    pub path: String,
    pub name: String,
    pub kind: RawKind,
    pub children: Vec<RawItem>,
}

/// The mathematical view of an `Item`.
#[verifier::ext_equal]
pub struct ItemView {
    pub path: Seq<char>,
    pub name: Seq<char>,
    pub file_type: FileType,
    pub sub_items: Seq<ItemView>,
}

/// The mathematical view of a `RawItem`.
#[verifier::ext_equal]
pub struct RawItemView {
    pub path: Seq<char>,
    pub name: Seq<char>,
    pub kind: RawKind,
    pub children: Seq<RawItemView>,
}

pub open spec fn item_view(i: Item) -> ItemView
    decreases i,
{
    ItemView {
        path: i.path@,
        name: i.name@,
        file_type: i.file_type,
        sub_items: items_view(i.sub_items@),
    }
}

pub open spec fn items_view(s: Seq<Item>) -> Seq<ItemView>
    decreases s,
{
    if s.len() == 0 {
        Seq::empty()
    } else {
        items_view(s.drop_last()).push(item_view(s.last()))
    }
}

pub open spec fn raw_view(r: RawItem) -> RawItemView
    decreases r,
{
    RawItemView {
        path: r.path@,
        name: r.name@,
        kind: r.kind,
        children: raws_view(r.children@),
    }
}

pub open spec fn raws_view(s: Seq<RawItem>) -> Seq<RawItemView>
    decreases s,
{
    if s.len() == 0 {
        Seq::empty()
    } else {
        raws_view(s.drop_last()).push(raw_view(s.last()))
    }
}

pub proof fn lemma_items_view_index(s: Seq<Item>)
    ensures
        items_view(s).len() == s.len(),
        forall|i: int| 0 <= i < s.len() ==> items_view(s)[i] == item_view(#[trigger] s[i]),
    decreases s,
{
    if s.len() > 0 {
        lemma_items_view_index(s.drop_last());
        assert forall|i: int| 0 <= i < s.len() implies items_view(s)[i] == item_view(
            #[trigger] s[i],
        ) by {
            if i < s.len() - 1 {
                assert(s.drop_last()[i] == s[i]);
            }
        }
    }
}

pub proof fn lemma_raws_view_index(s: Seq<RawItem>)
    ensures
        raws_view(s).len() == s.len(),
        forall|i: int| 0 <= i < s.len() ==> raws_view(s)[i] == raw_view(#[trigger] s[i]),
    decreases s,
{
    if s.len() > 0 {
        lemma_raws_view_index(s.drop_last());
        assert forall|i: int| 0 <= i < s.len() implies raws_view(s)[i] == raw_view(
            #[trigger] s[i],
        ) by {
            if i < s.len() - 1 {
                assert(s.drop_last()[i] == s[i]);
            }
        }
    }
}

/// The nesting depth of a forest: 0 for an empty forest, and otherwise the
/// largest number of levels reachable through any of its entries.
pub open spec fn forest_depth(ns: Seq<ItemView>) -> nat
    decreases ns,
{
    if ns.len() == 0 {
        0
    } else {
        let through_first = 1 + forest_depth(ns[0].sub_items);
        let through_rest = forest_depth(ns.drop_first());
        if through_first >= through_rest {
            through_first
        } else {
            through_rest
        }
    }
}

pub proof fn lemma_forest_depth_member(ns: Seq<ItemView>, i: int)
    requires
        0 <= i < ns.len(),
    ensures
        1 + forest_depth(ns[i].sub_items) <= forest_depth(ns),
    decreases ns,
{
    if i > 0 {
        lemma_forest_depth_member(ns.drop_first(), i - 1);
    }
}

} // verus!

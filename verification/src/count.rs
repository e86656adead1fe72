//! Counting files and directories over the top level of a scanned forest.
//!
//! The counts are deliberately one-level only: they cover the direct children
//! of the scanned root and nothing nested beneath them, while the rendered
//! tree shows the full depth.

use vstd::prelude::*;

use crate::item::{item_view, items_view, lemma_items_view_index, FileType, Item, ItemView};

verus! {

/// How many entries at the top level of a forest have the given kind; the
/// count never looks into `sub_items`.
pub open spec fn count_kind(ns: Seq<ItemView>, k: FileType) -> nat
    decreases ns,
{
    if ns.len() == 0 {
        0
    } else {
        count_kind(ns.drop_last(), k) + if ns.last().file_type == k {
            1nat
        } else {
            0nat
        }
    }
}

/// The two top-level counts partition the top level: every direct child of
/// the scanned root is either a file or a directory, so the file count and
/// the directory count add up to the number of direct children.
pub proof fn lemma_counts_partition(ns: Seq<ItemView>)
    ensures
        count_kind(ns, FileType::File) + count_kind(ns, FileType::Dir) == ns.len(),
    decreases ns,
{
    if ns.len() > 0 {
        lemma_counts_partition(ns.drop_last());
    }
}

/// Count the top-level items of the given kind: direct children of the
/// scanned root only, nested entries are not counted.
pub fn count_of(items: &Vec<Item>, kind: FileType) -> (n: usize)
    ensures
        n == count_kind(items_view(items@), kind),
{
    let ghost vs = items_view(items@);
    proof {
        lemma_items_view_index(items@);
    }
    let mut n: usize = 0;
    let mut i: usize = 0;
    while i < items.len()
        invariant
            i <= items.len(),
            n <= i,
            vs == items_view(items@),
            vs.len() == items.len(),
            forall|j: int| 0 <= j < items.len() ==> vs[j] == item_view(#[trigger] items@[j]),
            n == count_kind(vs.subrange(0, i as int), kind),
        decreases items.len() - i,
    {
        proof {
            assert(vs.subrange(0, i + 1).drop_last() =~= vs.subrange(0, i as int));
            assert(vs.subrange(0, i + 1).last() == vs[i as int]);
        }
        let it = &items[i];
        if it.file_type == kind {
            n = n + 1;
        }
        i = i + 1;
    }
    proof {
        assert(vs.subrange(0, items@.len() as int) =~= vs);
    }
    n
}

/// How many direct children of the scanned root are files.
pub fn count_files(items: &Vec<Item>) -> (n: usize)
    ensures
        n == count_kind(items_view(items@), FileType::File),
{
    count_of(items, FileType::File)
}

/// How many direct children of the scanned root are directories.
pub fn count_dirs(items: &Vec<Item>) -> (n: usize)
    ensures
        n == count_kind(items_view(items@), FileType::Dir),
{
    count_of(items, FileType::Dir)
}

} // verus!

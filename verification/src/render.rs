//! Rendering the forest as indented text lines.
//!
//! Each line is an indentation prefix of one space per depth level, the
//! marker glyph, the kind label, the entry's bare name, and — only in verbose
//! mode — its full path. Siblings at each level are rendered in the reverse
//! of the order the scan produced them, each directory followed by its own
//! sub-items one level deeper.

use vstd::prelude::*;
use vstd::string::StringExecFns;

use crate::item::{
    forest_depth, item_view, items_view, lemma_forest_depth_member, lemma_items_view_index,
    FileType, Item, ItemView,
};
use crate::scan::strings_view;

verus! {

broadcast use
    vstd::seq::axiom_seq_index_decreases,
    vstd::seq::axiom_seq_subrange_decreases,
    vstd::std_specs::vec::axiom_vec_decreases_to_view;

/// The indentation for a level: one leading space per level (none for a
/// non-positive level).
pub open spec fn spaces(l: int) -> Seq<char>
    decreases l,
{
    if l <= 0 {
        Seq::empty()
    } else {
        spaces(l - 1) + (" ")@
    }
}

/// The full line prefix for a level: the indentation, then the marker glyph.
pub open spec fn prefix_spec(level: int) -> Seq<char> {
    spaces(level) + ("↳ ")@
}

/// The display label of a kind.
pub open spec fn label_spec(k: FileType) -> Seq<char> {
    match k {
        FileType::File => ("File")@,
        FileType::Dir => ("Directory")@,
    }
}

/// The field separator between the label, the name, and the path field.
pub open spec fn field_sep() -> Seq<char> {
    (" : ")@
}

/// One rendered line: prefix, label, name, and a fourth field that holds the
/// entry's full path in verbose mode and is empty otherwise.
pub open spec fn line_spec(n: ItemView, level: int, verbose: bool) -> Seq<char> {
    prefix_spec(level) + label_spec(n.file_type) + field_sep() + n.name + field_sep() + (if verbose {
        n.path
    } else {
        Seq::empty()
    })
}

/// The lines rendered for a forest at a level: entries in the reverse of
/// listing order — the entry listed first is rendered last — each one
/// followed by the rendering of its own sub-items one level deeper.
pub open spec fn render_nodes(ns: Seq<ItemView>, level: int, verbose: bool) -> Seq<Seq<char>>
    decreases ns,
{
    if ns.len() == 0 {
        Seq::empty()
    } else {
        render_nodes(ns.drop_first(), level, verbose) + render_entry(ns[0], level, verbose)
    }
}

/// The lines rendered for one entry: its own line, then its sub-items one
/// level deeper.
pub open spec fn render_entry(n: ItemView, level: int, verbose: bool) -> Seq<Seq<char>>
    decreases n,
{
    seq![line_spec(n, level, verbose)] + render_nodes(n.sub_items, level + 1, verbose)
}

impl FileType {
    /// The kind's display label as text.
    pub fn label(&self) -> (r: String)
        ensures
            r@ == label_spec(*self),
    {
        match *self {
            FileType::File => "File".to_owned(),
            FileType::Dir => "Directory".to_owned(),
        }
    }
}

/// Build the line prefix for a level: one space per level, then the marker
/// glyph.
pub fn print_items_prefix(level: i32) -> (r: String)
    ensures
        r@ == prefix_spec(level as int),
{
    let mut prefix = String::new();
    let mut i: i32 = 0;
    while i < level
        invariant
            0 <= i,
            level > 0 ==> i <= level,
            level <= 0 ==> i == 0,
            prefix@ == spaces(i as int),
        decreases level - i,
    {
        prefix.append(" ");
        i = i + 1;
    }
    proof {
        if level <= 0 {
            assert(spaces(0) == spaces(level as int));
        }
    }
    prefix.append("↳ ");
    prefix
}

/// Build one rendered line for an item.
fn line_of(item: &Item, level: i32, verbose: bool) -> (r: String)
    ensures
        r@ == line_spec(item_view(*item), level as int, verbose),
{
    let mut s = print_items_prefix(level);
    let label = item.file_type.label();
    s.append(label.as_str());
    s.append(" : ");
    s.append(item.name.as_str());
    s.append(" : ");
    if verbose {
        s.append(item.path.as_str());
    } else {
        proof {
            assert(s@ + Seq::<char>::empty() =~= s@);
        }
    }
    s
}

/// Render a forest as lines, starting at the given depth level: each level's
/// entries appear in the reverse of the order the scan produced them, each
/// entry on one line, with a directory's sub-items rendered beneath it one
/// level deeper.
pub fn print_items(items: &Vec<Item>, level: i32, verbose: bool) -> (lines: Vec<String>)
    requires
        level + forest_depth(items_view(items@)) <= i32::MAX,
    ensures
        strings_view(lines@) == render_nodes(items_view(items@), level as int, verbose),
    decreases items@,
{
    let ghost vs = items_view(items@);
    proof {
        lemma_items_view_index(items@);
    }
    let n = items.len();
    let mut lines: Vec<String> = Vec::new();
    let mut i: usize = n;
    proof {
        assert(strings_view(lines@) =~= render_nodes(vs.subrange(n as int, n as int), level as int, verbose));
    }
    while i > 0
        invariant
            n == items.len(),
            i <= n,
            vs == items_view(items@),
            vs.len() == n,
            forall|j: int| 0 <= j < n ==> vs[j] == item_view(#[trigger] items@[j]),
            level + forest_depth(vs) <= i32::MAX,
            strings_view(lines@) == render_nodes(vs.subrange(i as int, n as int), level as int, verbose),
        decreases i,
    {
        i = i - 1;
        let ghost prev = vs.subrange(i + 1, n as int);
        let ghost cur = vs.subrange(i as int, n as int);
        proof {
            assert(cur.drop_first() =~= prev);
            assert(cur[0] == vs[i as int]);
            assert(render_nodes(cur, level as int, verbose) == render_nodes(prev, level as int, verbose)
                + render_entry(vs[i as int], level as int, verbose));
        }
        let it = &items[i];
        let line = line_of(it, level, verbose);
        proof {
            assert(strings_view(lines@.push(line)) =~= strings_view(lines@) + seq![line@]);
        }
        lines.push(line);
        if it.sub_items.len() > 0 {
            proof {
                lemma_forest_depth_member(vs, i as int);
            }
            let mut sub_lines = print_items(&it.sub_items, level + 1, verbose);
            proof {
                assert(strings_view(lines@ + sub_lines@) =~= strings_view(lines@) + strings_view(
                    sub_lines@,
                ));
                assert(strings_view(lines@) + strings_view(sub_lines@) =~= render_nodes(
                    cur,
                    level as int,
                    verbose,
                ));
            }
            lines.append(&mut sub_lines);
        } else {
            proof {
                assert(render_nodes(vs[i as int].sub_items, level + 1, verbose) =~= Seq::<
                    Seq<char>,
                >::empty());
                assert(strings_view(lines@) =~= render_nodes(cur, level as int, verbose));
            }
        }
    }
    proof {
        assert(vs.subrange(0, n as int) =~= vs);
    }
    lines
}

/// Two forests have the same shape when they agree on names, kinds and
/// structure at every level; only the paths may differ.
pub open spec fn same_shape(a: Seq<ItemView>, b: Seq<ItemView>) -> bool
    decreases a,
{
    &&& a.len() == b.len()
    &&& forall|i: int|
        0 <= i < a.len() ==> {
            let x = #[trigger] a[i];
            let y = b[i];
            &&& x.name == y.name
            &&& x.file_type == y.file_type
            &&& same_shape(x.sub_items, y.sub_items)
        }
}

/// A verbose line is the corresponding non-verbose line with the entry's
/// full path appended as the fourth field.
pub proof fn lemma_line_shows_path(n: ItemView, level: int)
    ensures
        line_spec(n, level, true) == line_spec(n, level, false) + n.path,
{
    assert(line_spec(n, level, true) =~= line_spec(n, level, false) + n.path);
}

/// Non-verbose rendering includes no path text: the rendered lines of two
/// forests that agree on names, kinds and structure are identical, whatever
/// their paths hold.
pub proof fn lemma_render_hides_paths(a: Seq<ItemView>, b: Seq<ItemView>, level: int)
    requires
        same_shape(a, b),
    ensures
        render_nodes(a, level, false) == render_nodes(b, level, false),
    decreases a,
{
    if a.len() > 0 {
        assert(same_shape(a[0].sub_items, b[0].sub_items));
        assert(same_shape(a.drop_first(), b.drop_first())) by {
            assert forall|i: int| 0 <= i < a.drop_first().len() implies {
                let x = #[trigger] a.drop_first()[i];
                let y = b.drop_first()[i];
                &&& x.name == y.name
                &&& x.file_type == y.file_type
                &&& same_shape(x.sub_items, y.sub_items)
            } by {
                assert(a.drop_first()[i] == a[i + 1]);
                assert(b.drop_first()[i] == b[i + 1]);
            }
        }
        lemma_render_hides_paths(a.drop_first(), b.drop_first(), level);
        lemma_render_hides_paths(a[0].sub_items, b[0].sub_items, level + 1);
        assert(line_spec(a[0], level, false) == line_spec(b[0], level, false));
        assert(render_entry(a[0], level, false) == render_entry(b[0], level, false));
        assert(render_nodes(a, level, false) == render_nodes(a.drop_first(), level, false)
            + render_entry(a[0], level, false));
        assert(render_nodes(b, level, false) == render_nodes(b.drop_first(), level, false)
            + render_entry(b[0], level, false));
    }
}

/// Rendering may also be unfolded at the other end: the entry a level lists
/// last is the one rendered first, followed by its own sub-items, and only
/// then the rest of the level.
pub proof fn lemma_render_last_first(ns: Seq<ItemView>, level: int, verbose: bool)
    requires
        ns.len() > 0,
    ensures
        render_nodes(ns, level, verbose) == render_entry(ns.last(), level, verbose) + render_nodes(
            ns.drop_last(),
            level,
            verbose,
        ),
    decreases ns,
{
    let d1 = ns.drop_first();
    if ns.len() == 1 {
        assert(d1.len() == 0);
        assert(render_nodes(d1, level, verbose) == Seq::<Seq<char>>::empty());
        assert(ns.drop_last().len() == 0);
        assert(render_nodes(ns.drop_last(), level, verbose) == Seq::<Seq<char>>::empty());
        assert(ns.last() == ns[0]);
        assert(render_nodes(ns, level, verbose) =~= render_entry(ns.last(), level, verbose)
            + render_nodes(ns.drop_last(), level, verbose));
    } else {
        lemma_render_last_first(d1, level, verbose);
        assert(d1.last() == ns.last());
        assert(d1.drop_last() =~= ns.drop_last().drop_first());
        assert(ns.drop_last().len() > 0);
        assert(ns.drop_last()[0] == ns[0]);
        assert(render_nodes(ns.drop_last(), level, verbose) == render_nodes(
            ns.drop_last().drop_first(),
            level,
            verbose,
        ) + render_entry(ns[0], level, verbose));
        assert(render_nodes(ns, level, verbose) == (render_entry(ns.last(), level, verbose)
            + render_nodes(ns.drop_last().drop_first(), level, verbose)) + render_entry(
            ns[0],
            level,
            verbose,
        ));
        assert((render_entry(ns.last(), level, verbose) + render_nodes(
            ns.drop_last().drop_first(),
            level,
            verbose,
        )) + render_entry(ns[0], level, verbose) =~= render_entry(ns.last(), level, verbose) + (
        render_nodes(ns.drop_last().drop_first(), level, verbose) + render_entry(
            ns[0],
            level,
            verbose,
        )));
    }
}

/// A forest with every level's entries reversed, recursively.
pub open spec fn mirror_nodes(ns: Seq<ItemView>) -> Seq<ItemView>
    decreases ns,
{
    if ns.len() == 0 {
        Seq::empty()
    } else {
        seq![mirror_entry(ns.last())] + mirror_nodes(ns.drop_last())
    }
}

pub open spec fn mirror_entry(n: ItemView) -> ItemView
    decreases n,
{
    ItemView {
        path: n.path,
        name: n.name,
        file_type: n.file_type,
        sub_items: mirror_nodes(n.sub_items),
    }
}

/// The lines rendered when every level is visited in listing order instead:
/// the entry listed first comes first, each entry followed by its sub-items
/// one level deeper.
pub open spec fn render_nodes_in_order(ns: Seq<ItemView>, level: int, verbose: bool) -> Seq<
    Seq<char>,
>
    decreases ns,
{
    if ns.len() == 0 {
        Seq::empty()
    } else {
        render_entry_in_order(ns[0], level, verbose) + render_nodes_in_order(
            ns.drop_first(),
            level,
            verbose,
        )
    }
}

pub open spec fn render_entry_in_order(n: ItemView, level: int, verbose: bool) -> Seq<Seq<char>>
    decreases n,
{
    seq![line_spec(n, level, verbose)] + render_nodes_in_order(n.sub_items, level + 1, verbose)
}

/// Rendering visits each level's entries in exactly the reverse of the order
/// the scan produced them: rendering a forest gives the same lines as the
/// in-listing-order rendering of the forest with every level reversed.
pub proof fn lemma_render_reverses_each_level(ns: Seq<ItemView>, level: int, verbose: bool)
    ensures
        render_nodes(ns, level, verbose) == render_nodes_in_order(mirror_nodes(ns), level, verbose),
    decreases ns,
{
    if ns.len() > 0 {
        let m = mirror_nodes(ns);
        let last = ns.last();
        lemma_render_last_first(ns, level, verbose);
        lemma_render_reverses_each_level(ns.drop_last(), level, verbose);
        lemma_render_reverses_each_level(last.sub_items, level + 1, verbose);
        assert(m[0] == mirror_entry(last));
        assert(m.drop_first() =~= mirror_nodes(ns.drop_last()));
        assert(line_spec(mirror_entry(last), level, verbose) == line_spec(last, level, verbose));
        assert(render_entry_in_order(mirror_entry(last), level, verbose) == seq![
            line_spec(last, level, verbose),
        ] + render_nodes(last.sub_items, level + 1, verbose));
        assert(render_entry(last, level, verbose) + render_nodes(ns.drop_last(), level, verbose)
            =~= (seq![line_spec(last, level, verbose)] + render_nodes(
            last.sub_items,
            level + 1,
            verbose,
        )) + render_nodes_in_order(mirror_nodes(ns.drop_last()), level, verbose));
    }
}

} // verus!

//! Accessibility snapshot filtering: which walked UI elements are retained,
//! the ids they get, element lookup, centers, and the textual tree handed to
//! the model after a screenshot.

use vstd::prelude::*;

use crate::text::{all_spaces, contains_seq, dec_int};

verus! {

/// One retained UI element. `rect` is `(left, top, right, bottom)` in screen
/// pixels. Ids are assigned per snapshot, starting at 1, and are not stable
/// across captures.
#[derive(Debug)]
pub struct A11yNode {
    pub id: i32,
    pub name: String,
    pub control_type: String,
    pub rect: (i32, i32, i32, i32),
}

/// The shape of a retained element.
#[verifier::ext_equal]
pub ghost struct A11yNodeV {
    pub id: int,
    pub name: Seq<char>,
    pub control_type: Seq<char>,
    pub rect: (int, int, int, int),
}

impl View for A11yNode {
    type V = A11yNodeV;

    open spec fn view(&self) -> A11yNodeV {
        A11yNodeV {
            id: self.id as int,
            name: self.name@,
            control_type: self.control_type@,
            rect: (
                self.rect.0 as int,
                self.rect.1 as int,
                self.rect.2 as int,
                self.rect.3 as int,
            ),
        }
    }
}

/// The shapes of a node list.
pub open spec fn nodes_view(v: Seq<A11yNode>) -> Seq<A11yNodeV> {
    Seq::new(v.len(), |i: int| v[i]@)
}

/// What the tree walk reports for one visited element, before filtering.
#[derive(Debug)]
pub struct RawElement {
    pub pid: u32,
    pub name: String,
    pub control_type: String,
    pub left: i32,
    pub top: i32,
    pub right: i32,
    pub bottom: i32,
    pub offscreen: bool,
}

/// A control-type label counts as interactive when it mentions one of the
/// interactive categories.
pub open spec fn is_interactive(ct: Seq<char>) -> bool {
    contains_seq(ct, "button"@) || contains_seq(ct, "link"@) || contains_seq(ct, "edit"@)
        || contains_seq(ct, "text"@) || contains_seq(ct, "combo"@) || contains_seq(
        ct,
        "check"@,
    ) || contains_seq(ct, "list"@) || contains_seq(ct, "tab"@) || contains_seq(ct, "menu"@)
}

/// An element is retained when it is not our own, has positive width and
/// height, is on screen, has a name that is not whitespace-only, and has an
/// interactive control type.
pub open spec fn retains(e: RawElement, own_pid: u32) -> bool {
    e.pid != own_pid && e.right - e.left > 0 && e.bottom - e.top > 0 && !e.offscreen
        && !all_spaces(e.name@) && is_interactive(e.control_type@)
}

/// The retained elements, in traversal order.
pub open spec fn kept(elems: Seq<RawElement>, own_pid: u32) -> Seq<RawElement>
    decreases elems.len(),
{
    if elems.len() == 0 {
        Seq::empty()
    } else if retains(elems.last(), own_pid) {
        kept(elems.drop_last(), own_pid).push(elems.last())
    } else {
        kept(elems.drop_last(), own_pid)
    }
}

/// The retained elements of a prefix are a prefix of the retained elements.
proof fn lemma_kept_prefix(elems: Seq<RawElement>, own_pid: u32, i: int)
    requires
        0 <= i <= elems.len(),
    ensures
        kept(elems.subrange(0, i), own_pid).len() <= kept(elems, own_pid).len(),
        forall|k: int| 0 <= k < kept(elems.subrange(0, i), own_pid).len() ==> #[trigger] kept(
            elems.subrange(0, i),
            own_pid,
        )[k] == kept(elems, own_pid)[k],
    decreases elems.len() - i,
{
    if i == elems.len() {
        assert(elems.subrange(0, i) =~= elems);
    } else {
        lemma_kept_prefix(elems, own_pid, i + 1);
        let a = elems.subrange(0, i);
        let b = elems.subrange(0, i + 1);
        assert(b.drop_last() =~= a);
        assert(b.last() == elems[i]);
        assert(kept(a, own_pid).len() <= kept(b, own_pid).len());
        assert forall|k: int| 0 <= k < kept(a, own_pid).len() implies #[trigger] kept(
            a,
            own_pid,
        )[k] == kept(elems, own_pid)[k] by {
            assert(kept(a, own_pid)[k] == kept(b, own_pid)[k]);
            assert(kept(b, own_pid)[k] == kept(elems, own_pid)[k]);
        }
    }
}

/// A node made from a retained element, standing at position `k`.
pub open spec fn node_of(n: A11yNodeV, e: RawElement, k: int) -> bool {
    n.id == k + 1 && n.name == e.name@ && n.control_type == e.control_type@ && n.rect == (
        e.left as int,
        e.top as int,
        e.right as int,
        e.bottom as int,
    )
}

/// Whether one element passes the filter.
fn element_retained(e: &RawElement, own_pid: u32) -> (r: bool)
    ensures
        r == retains(*e, own_pid),
{
    if e.pid == own_pid {
        return false;
    }
    let width = (e.right as i64) - (e.left as i64);
    let height = (e.bottom as i64) - (e.top as i64);
    if width <= 0 || height <= 0 {
        return false;
    }
    if e.offscreen {
        return false;
    }
    if crate::text::is_blank(e.name.as_str()) {
        return false;
    }
    let ct = e.control_type.as_str();
    crate::text::contains_sub(ct, "button") || crate::text::contains_sub(ct, "link")
        || crate::text::contains_sub(ct, "edit") || crate::text::contains_sub(ct, "text")
        || crate::text::contains_sub(ct, "combo") || crate::text::contains_sub(ct, "check")
        || crate::text::contains_sub(ct, "list") || crate::text::contains_sub(ct, "tab")
        || crate::text::contains_sub(ct, "menu")
}

/// Filter a tree walk into the retained node list: our own windows, empty or
/// off-screen elements, unnamed elements and non-interactive categories are
/// dropped; ids count up from 1 in traversal order; at most 300 nodes are
/// kept.
pub fn snapshot_filter(elems: &Vec<RawElement>, own_pid: u32) -> (r: Vec<A11yNode>)
    ensures
        r@.len() <= 300,
        r@.len() == if kept(elems@, own_pid).len() <= 300 {
            kept(elems@, own_pid).len() as int
        } else {
            300int
        },
        forall|k: int| 0 <= k < r@.len() ==> node_of(
            #[trigger] r@[k]@,
            kept(elems@, own_pid)[k],
            k,
        ),
        forall|k: int| 0 <= k < r@.len() ==> (#[trigger] r@[k]@).id == k + 1,
        forall|k: int| 0 <= k < r@.len() ==> (#[trigger] r@[k]@).rect.2 - r@[k]@.rect.0 > 0
            && r@[k]@.rect.3 - r@[k]@.rect.1 > 0 && !all_spaces(r@[k]@.name) && is_interactive(
            r@[k]@.control_type,
        ),
{
    let mut out: Vec<A11yNode> = Vec::new();
    let mut i: usize = 0;
    let len = elems.len();
    proof {
        assert(elems@.subrange(0, 0) =~= Seq::<RawElement>::empty());
    }
    loop
        invariant_except_break
            len == elems@.len(),
            i <= len,
            out@.len() == kept(elems@.subrange(0, i as int), own_pid).len(),
            out@.len() <= 300,
            forall|k: int| 0 <= k < out@.len() ==> node_of(
                #[trigger] out@[k]@,
                kept(elems@.subrange(0, i as int), own_pid)[k],
                k,
            ),
        ensures
            len == elems@.len(),
            i <= len,
            out@.len() == kept(elems@.subrange(0, i as int), own_pid).len(),
            out@.len() <= 300,
            forall|k: int| 0 <= k < out@.len() ==> node_of(
                #[trigger] out@[k]@,
                kept(elems@.subrange(0, i as int), own_pid)[k],
                k,
            ),
            i == len || out@.len() == 300,
        decreases len - i,
    {
        if i >= len {
            break;
        }
        if out.len() >= 300 {
            break;
        }
        let ghost pfx = elems@.subrange(0, i as int);
        let ghost pfx2 = elems@.subrange(0, i + 1);
        proof {
            assert(pfx2.drop_last() =~= pfx);
            assert(pfx2.last() == elems@[i as int]);
        }
        let e = &elems[i];
        if element_retained(e, own_pid) {
            let id = (out.len() + 1) as i32;
            out.push(
                A11yNode {
                    id,
                    name: e.name.clone(),
                    control_type: e.control_type.clone(),
                    rect: (e.left, e.top, e.right, e.bottom),
                },
            );
        }
        i += 1;
    }
    proof {
        if i == len {
            assert(elems@.subrange(0, len as int) =~= elems@);
        } else {
            lemma_kept_prefix(elems@, own_pid, i as int);
        }
        assert forall|k: int| 0 <= k < out@.len() implies (#[trigger] out@[k]@).rect.2
            - out@[k]@.rect.0 > 0 && out@[k]@.rect.3 - out@[k]@.rect.1 > 0 && !all_spaces(
            out@[k]@.name,
        ) && is_interactive(out@[k]@.control_type) by {
            if i == len {
                lemma_kept_all_retained(elems@, own_pid, k);
            } else {
                lemma_kept_all_retained(elems@.subrange(0, i as int), own_pid, k);
                lemma_kept_prefix(elems@, own_pid, i as int);
            }
        }
    }
    out
}

/// Every retained element passes the filter.
proof fn lemma_kept_all_retained(elems: Seq<RawElement>, own_pid: u32, k: int)
    requires
        0 <= k < kept(elems, own_pid).len(),
    ensures
        retains(kept(elems, own_pid)[k], own_pid),
    decreases elems.len(),
{
    if elems.len() > 0 {
        let sub = kept(elems.drop_last(), own_pid);
        if retains(elems.last(), own_pid) {
            if k < sub.len() {
                lemma_kept_all_retained(elems.drop_last(), own_pid, k);
            }
        } else {
            lemma_kept_all_retained(elems.drop_last(), own_pid, k);
        }
    }
}

/// Half of a difference, truncated toward zero (as machine division is).
pub open spec fn half_trunc(d: int) -> int {
    if d >= 0 {
        d / 2
    } else {
        -((-d) / 2)
    }
}

/// The center of a node's bounding box.
pub open spec fn spec_center(rect: (int, int, int, int)) -> (int, int) {
    (rect.0 + half_trunc(rect.2 - rect.0), rect.1 + half_trunc(rect.3 - rect.1))
}

/// Compute the center of a node's bounding box.
pub fn node_center(n: &A11yNode) -> (r: (i32, i32))
    ensures
        r.0 as int == spec_center(n@.rect).0,
        r.1 as int == spec_center(n@.rect).1,
{
    let dx: i64 = (n.rect.2 as i64) - (n.rect.0 as i64);
    let dy: i64 = (n.rect.3 as i64) - (n.rect.1 as i64);
    let hx: i64 = if dx >= 0 {
        dx / 2
    } else {
        -((-dx) / 2)
    };
    let hy: i64 = if dy >= 0 {
        dy / 2
    } else {
        -((-dy) / 2)
    };
    let cx: i64 = (n.rect.0 as i64) + hx;
    let cy: i64 = (n.rect.1 as i64) + hy;
    (cx as i32, cy as i32)
}

/// The first node with the given id, if any.
pub fn find_node<'a>(nodes: &'a Vec<A11yNode>, id: i32) -> (r: Option<&'a A11yNode>)
    ensures
        match r {
            Some(n) => exists|k: int|
                0 <= k < nodes@.len() && nodes@[k] == *n && nodes@[k].id == id && forall|j: int|
                    0 <= j < k ==> (#[trigger] nodes@[j]).id != id,
            None => forall|j: int| 0 <= j < nodes@.len() ==> (#[trigger] nodes@[j]).id != id,
        },
{
    let mut i: usize = 0;
    while i < nodes.len()
        invariant
            i <= nodes@.len(),
            forall|j: int| 0 <= j < i ==> (#[trigger] nodes@[j]).id != id,
        decreases nodes@.len() - i,
    {
        if nodes[i].id == id {
            return Some(&nodes[i]);
        }
        i += 1;
    }
    None
}

/// The line describing one node in the accessibility tree text.
pub open spec fn node_line(n: A11yNodeV) -> Seq<char> {
    "["@ + dec_int(n.id) + "] "@ + n.control_type + " \""@ + n.name + "\"\n"@
}

/// The node lines, in order.
pub open spec fn nodes_lines(ns: Seq<A11yNodeV>) -> Seq<char>
    decreases ns.len(),
{
    if ns.len() == 0 {
        Seq::empty()
    } else {
        nodes_lines(ns.drop_last()) + node_line(ns.last())
    }
}

/// The text sent back after a screenshot: a header followed by one line per
/// retained node.
pub open spec fn a11y_text(ns: Seq<A11yNodeV>) -> Seq<char> {
    "Screenshot taken.\n\nAccessibility Tree (UI Elements):\n"@ + nodes_lines(ns)
}

/// Render the accessibility tree text for a node list.
pub fn a11y_tree_text(nodes: &Vec<A11yNode>) -> (r: String)
    ensures
        r@ == a11y_text(nodes_view(nodes@)),
{
    let ghost nv = nodes_view(nodes@);
    let mut out = String::from_str("Screenshot taken.\n\nAccessibility Tree (UI Elements):\n");
    let mut i: usize = 0;
    proof {
        assert(nv.subrange(0, 0).len() == 0);
        assert(out@ =~= "Screenshot taken.\n\nAccessibility Tree (UI Elements):\n"@
            + nodes_lines(nv.subrange(0, 0)));
    }
    while i < nodes.len()
        invariant
            nv == nodes_view(nodes@),
            i <= nodes@.len(),
            out@ == "Screenshot taken.\n\nAccessibility Tree (UI Elements):\n"@ + nodes_lines(
                nv.subrange(0, i as int),
            ),
        decreases nodes@.len() - i,
    {
        let n = &nodes[i];
        out.append("[");
        out.append(crate::text::i32_str(n.id).as_str());
        out.append("] ");
        out.append(n.control_type.as_str());
        out.append(" \"");
        out.append(n.name.as_str());
        out.append("\"\n");
        proof {
            let pfx2 = nv.subrange(0, i + 1);
            assert(pfx2.drop_last() =~= nv.subrange(0, i as int));
            assert(pfx2.last() == nv[i as int]);
            assert(nv[i as int] == nodes@[i as int]@);
            assert(out@ =~= "Screenshot taken.\n\nAccessibility Tree (UI Elements):\n"@
                + nodes_lines(pfx2));
        }
        i += 1;
    }
    proof {
        assert(nv.subrange(0, nodes@.len() as int) =~= nv);
    }
    out
}

} // verus!

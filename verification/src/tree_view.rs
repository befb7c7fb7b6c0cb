//! Tree views: nested groups and items, opened into rows, and where a
//! dragged node lands.
//!
//! Nodes are built from the application's data each time; whether a node is
//! open, checked or selected belongs to the application. The depth is
//! unlimited. A closed node's children are not shown. Nodes with an identity
//! can be dragged; a node cannot be moved under itself.
use vstd::prelude::*;

use crate::date::floor_div;
use crate::icon::Icon;

verus! {

/// The state of a check box.
#[derive(Debug, Clone, Copy, PartialEq, Eq, Structural)]
pub enum Check {
    Checked,
    Unchecked,
    /// Some of its children are checked (such as some layers of a group
    /// being visible).
    Mixed,
}

impl From<bool> for Check {
    fn from(checked: bool) -> (c: Self) {
        if checked {
            Check::Checked
        } else {
            Check::Unchecked
        }
    }
}

impl vstd::std_specs::convert::FromSpecImpl<bool> for Check {
    open spec fn obeys_from_spec() -> bool {
        true
    }

    open spec fn from_spec(checked: bool) -> Check {
        if checked {
            Check::Checked
        } else {
            Check::Unchecked
        }
    }
}

/// The on/off button to the right of a node's name: visibility, lock or
/// selectability.
pub struct Toggle<Message> {
    pub on: bool,
    /// The glyphs when on and off; off, the glyph is dimmed.
    pub glyphs: (Icon, Icon),
    /// The tooltips when on and off.
    pub tips: (&'static str, &'static str),
    pub message: Message,
}

impl<Message> Toggle<Message> {
    /// A button with its own glyphs; off, the glyph is dimmed.
    pub fn new(on: bool, glyphs: (Icon, Icon), tips: (&'static str, &'static str), message: Message) -> (t: Self)
        ensures
            t.on == on,
            t.glyphs == glyphs,
            t.tips == tips,
            t.message == message,
    {
        Toggle { on, glyphs, tips, message }
    }

    /// Visibility: an eye.
    pub fn visible(visible: bool, message: Message) -> (t: Self)
        ensures
            t.on == visible,
            t.glyphs == (Icon::Eye, Icon::EyeOff),
            t.tips.0@ == "Görünür: gizlemek için tıklayın"@,
            t.tips.1@ == "Gizli: göstermek için tıklayın"@,
            t.message == message,
    {
        Self::new(
            visible,
            (Icon::Eye, Icon::EyeOff),
            ("Görünür: gizlemek için tıklayın", "Gizli: göstermek için tıklayın"),
            message,
        )
    }

    /// Lock: locked items are not edited.
    pub fn locked(locked: bool, message: Message) -> (t: Self)
        ensures
            t.on == locked,
            t.glyphs == (Icon::Lock, Icon::Unlock),
            t.tips.0@ == "Kilitli: açmak için tıklayın"@,
            t.tips.1@ == "Kilitlemek için tıklayın"@,
            t.message == message,
    {
        Self::new(locked, (Icon::Lock, Icon::Unlock), ("Kilitli: açmak için tıklayın", "Kilitlemek için tıklayın"), message)
    }

    /// Selectability: items that are not selectable are not selected when
    /// clicked.
    pub fn selectable(selectable: bool, message: Message) -> (t: Self)
        ensures
            t.on == selectable,
            t.glyphs == (Icon::Select, Icon::NoSelect),
            t.tips.0@ == "Seçilebilir"@,
            t.tips.1@ == "Seçilemez: haritada tıklanınca seçilmez"@,
            t.message == message,
    {
        Self::new(selectable, (Icon::Select, Icon::NoSelect), ("Seçilebilir", "Seçilemez: haritada tıklanınca seçilmez"), message)
    }
}

/// Where a dragged node is dropped, relative to the target node.
#[derive(Debug, Clone, Copy, PartialEq, Eq, Structural)]
pub enum Place {
    /// Before the target, as its sibling.
    Before,
    /// After the target, as its sibling.
    After,
    /// Into the target (a group), as its last child.
    Into,
}

/// A node of the tree: what it shows (`item`), its identity for dragging,
/// whether it is a folder that dragged nodes can be dropped into, whether it
/// can be opened and closed (and is open), whether it is being renamed, and
/// its children.
pub struct Node<T> {
    pub item: T,
    pub id: Option<usize>,
    pub folder: bool,
    pub expanded: Option<bool>,
    pub editing: bool,
    pub children: Vec<Node<T>>,
}

impl<T> Node<T> {
    pub fn new(item: T) -> (n: Self)
        ensures
            n.item == item,
            n.id is None,
            !n.folder,
            n.expanded is None,
            !n.editing,
            n.children@.len() == 0,
    {
        Node { item, id: None, folder: false, expanded: None, editing: false, children: Vec::new() }
    }

    /// A folder: dragged nodes can be dropped into it.
    pub fn folder(self) -> (n: Self)
        ensures
            n == (Node { folder: true, ..self }),
    {
        Node { folder: true, ..self }
    }

    /// The identity with which a move is reported.
    pub fn id(self, id: usize) -> (n: Self)
        ensures
            n == (Node { id: Some(id), ..self }),
    {
        Node { id: Some(id), ..self }
    }

    /// A node that opens and closes; a closed node's children are not shown.
    /// Without it the children are always shown.
    pub fn expanded(self, expanded: bool) -> (n: Self)
        ensures
            n == (Node { expanded: Some(expanded), ..self }),
    {
        Node { expanded: Some(expanded), ..self }
    }

    /// The node is being renamed in place: pressing it does not drag it.
    pub fn editing(self, editing: bool) -> (n: Self)
        ensures
            n == (Node { editing, ..self }),
    {
        Node { editing, ..self }
    }

    pub fn push(self, child: Node<T>) -> (n: Self)
        ensures
            n.children@ == self.children@.push(child),
            n.item == self.item,
            n.id == self.id,
            n.folder == self.folder,
            n.expanded == self.expanded,
            n.editing == self.editing,
    {
        let mut n = self;
        n.children.push(child);
        n
    }

    pub fn extend(self, children: Vec<Node<T>>) -> (n: Self)
        ensures
            n.children@ == self.children@ + children@,
            n.item == self.item,
            n.id == self.id,
            n.folder == self.folder,
            n.expanded == self.expanded,
            n.editing == self.editing,
    {
        let mut n = self;
        let mut children = children;
        n.children.append(&mut children);
        n
    }
}

/// A row's part in moving: its identity, depth, whether it is a group and
/// open, and whether it is being renamed.
#[derive(Debug, Clone, Copy, PartialEq, Eq, Structural)]
pub struct Slot {
    pub id: Option<usize>,
    pub depth: usize,
    pub group: bool,
    pub open: bool,
    /// Being renamed: pressing it does not start a drag.
    pub editing: bool,
}

/// Whether the node's children are shown.
pub open spec fn is_open<T>(node: Node<T>) -> bool {
    match node.expanded {
        Some(open) => open,
        None => true,
    }
}

/// The row of a node at a depth.
pub open spec fn slot_of<T>(node: Node<T>, depth: int) -> Slot {
    Slot { id: node.id, depth: depth as usize, group: node.folder, open: is_open(node), editing: node.editing }
}

/// The rows of the nodes, depth first: each node, then (if it is open) the
/// rows of its children one level deeper.
pub open spec fn flat_slots<T>(nodes: Seq<Node<T>>, depth: int) -> Seq<Slot>
    decreases nodes,
{
    if nodes.len() == 0 {
        Seq::empty()
    } else {
        let node = nodes[0];
        let children = if is_open(node) {
            flat_slots(node.children@, depth + 1)
        } else {
            Seq::empty()
        };
        seq![slot_of(node, depth)] + children + flat_slots(nodes.drop_first(), depth)
    }
}

/// What each row shows, with its depth, in the same order.
pub open spec fn flat_items<T>(nodes: Seq<Node<T>>, depth: int) -> Seq<(usize, T)>
    decreases nodes,
{
    if nodes.len() == 0 {
        Seq::empty()
    } else {
        let node = nodes[0];
        let children = if is_open(node) {
            flat_items(node.children@, depth + 1)
        } else {
            Seq::empty()
        };
        seq![(depth as usize, node.item)] + children + flat_items(nodes.drop_first(), depth)
    }
}

/// The deepest row of the nodes, counted from `depth`.
pub open spec fn max_depth<T>(nodes: Seq<Node<T>>, depth: int) -> int
    decreases nodes,
{
    if nodes.len() == 0 {
        depth
    } else {
        let node = nodes[0];
        let below = max_depth(node.children@, depth + 1);
        let rest = max_depth(nodes.drop_first(), depth);
        if below > rest {
            below
        } else {
            rest
        }
    }
}

/// Opens the nodes into rows, depth first; closed nodes' children are left
/// out. Each row's item and depth go to `rows`, its part in moving to
/// `slots`.
pub fn flatten<T>(nodes: Vec<Node<T>>, depth: usize, rows: &mut Vec<(usize, T)>, slots: &mut Vec<Slot>)
    requires
        max_depth(nodes@, depth as int) <= usize::MAX,
    ensures
        final(slots)@ == old(slots)@ + flat_slots(nodes@, depth as int),
        final(rows)@ == old(rows)@ + flat_items(nodes@, depth as int),
    decreases tree_size(nodes@),
{
    let ghost all = nodes@;
    let mut rest = nodes;
    while rest.len() > 0
        invariant
            old(slots)@ + flat_slots(all, depth as int) == slots@ + flat_slots(rest@, depth as int),
            old(rows)@ + flat_items(all, depth as int) == rows@ + flat_items(rest@, depth as int),
            max_depth(rest@, depth as int) <= usize::MAX,
            tree_size(rest@) <= tree_size(all),
            all == nodes@,
        decreases rest.len(),
    {
        let ghost before = rest@;
        let node = rest.remove(0);
        proof {
            assert(rest@ == before.drop_first());
            assert(max_depth(node.children@, depth + 1) <= max_depth(before, depth as int));
            assert(max_depth(rest@, depth as int) <= max_depth(before, depth as int));
            assert(depth + 1 <= max_depth(node.children@, depth + 1)) by {
                lemma_max_depth_at_least(node.children@, depth + 1);
            }
        }
        let open = match node.expanded {
            Some(open) => open,
            None => true,
        };
        let Node { item, id, folder, expanded: _, editing, children } = node;
        slots.push(Slot { id, depth, group: folder, open, editing });
        rows.push((depth, item));
        let ghost s1 = slots@;
        let ghost r1 = rows@;
        if open {
            proof {
                assert(tree_size(node.children@) < tree_size(before));
            }
            flatten(children, depth + 1, rows, slots);
        }
        proof {
            let kids = if open {
                flat_slots(node.children@, depth + 1)
            } else {
                Seq::empty()
            };
            let kid_items = if open {
                flat_items(node.children@, depth + 1)
            } else {
                Seq::empty()
            };
            assert(flat_slots(before, depth as int) == seq![slot_of(node, depth as int)] + kids
                + flat_slots(rest@, depth as int));
            assert(flat_items(before, depth as int) == seq![(depth, node.item)] + kid_items
                + flat_items(rest@, depth as int));
            assert(slots@ == s1 + kids);
            assert(s1 =~= slots@.subrange(0, s1.len() as int));
            assert(slots@ + flat_slots(rest@, depth as int) =~= (s1.drop_last() + (seq![
                slot_of(node, depth as int),
            ] + kids + flat_slots(rest@, depth as int))));
            assert(rows@ + flat_items(rest@, depth as int) =~= (r1.drop_last() + (seq![
                (depth, node.item),
            ] + kid_items + flat_items(rest@, depth as int))));
        }
    }
    proof {
        assert(flat_slots(rest@, depth as int) =~= Seq::<Slot>::empty());
        assert(flat_items(rest@, depth as int) =~= Seq::<(usize, T)>::empty());
    }
}

/// The number of nodes, children included.
pub open spec fn tree_size<T>(nodes: Seq<Node<T>>) -> nat
    decreases nodes,
{
    if nodes.len() == 0 {
        0
    } else {
        1 + tree_size(nodes[0].children@) + tree_size(nodes.drop_first())
    }
}

/// The deepest row is at least as deep as the start.
pub proof fn lemma_max_depth_at_least<T>(nodes: Seq<Node<T>>, depth: int)
    ensures
        max_depth(nodes, depth) >= depth,
    decreases nodes,
{
    if nodes.len() > 0 {
        lemma_max_depth_at_least(nodes.drop_first(), depth);
    }
}

/// How many rows after `source` lie under it: the run of rows deeper than
/// it, starting at `from`.
pub open spec fn rows_under(slots: Seq<Slot>, depth: int, from: int) -> int
    decreases slots.len() - from,
{
    if 0 <= from < slots.len() && slots[from].depth > depth {
        1 + rows_under(slots, depth, from + 1)
    } else {
        0
    }
}

/// Where a row is split: a group's top three tenths drop before it, its
/// bottom three tenths after it if it is closed, and the rest into it; a
/// leaf's top half drops before it and the bottom half after it. `offset`
/// is how far below the row's top the pointer is, `height` the row height.
pub open spec fn place_in(slot: Slot, offset: int, height: int) -> Place {
    if slot.group {
        if 10 * offset < 3 * height {
            Place::Before
        } else if 10 * offset > 7 * height && !slot.open {
            Place::After
        } else {
            Place::Into
        }
    } else if 2 * offset < height {
        Place::Before
    } else {
        Place::After
    }
}

/// The target row and place of the dragged `source` row if it is dropped at
/// `y` (from the top of the list) with rows `height` high; none for a row
/// without identity, the source itself and the rows under it.
pub open spec fn drop_target(slots: Seq<Slot>, source: int, height: int, y: int) -> Option<(int, Place)> {
    let row = y / height;
    if row < 0 || row >= slots.len() || source < 0 || source >= slots.len() {
        None
    } else if slots[row].id is None {
        None
    } else if source <= row <= source + rows_under(slots, slots[source].depth as int, source + 1) {
        None
    } else {
        Some((row, place_in(slots[row], y - row * height, height)))
    }
}

/// The length of the run of rows deeper than `depth` from `from` on.
fn count_under(slots: &[Slot], depth: usize, from: usize) -> (n: usize)
    requires
        from <= slots@.len(),
    ensures
        n == rows_under(slots@, depth as int, from as int),
        from + n <= slots@.len(),
{
    let mut k = from;
    while k < slots.len() && slots[k].depth > depth
        invariant
            from <= k <= slots@.len(),
            forall|j: int| from <= j < k ==> (#[trigger] slots@[j]).depth > depth,
            rows_under(slots@, depth as int, from as int) == (k - from) + rows_under(
                slots@,
                depth as int,
                k as int,
            ),
        decreases slots@.len() - k,
    {
        k = k + 1;
    }
    k - from
}

/// Where the dragged `source` row lands if dropped at `y` below the list's
/// top, with rows `height` high (both in one unit, such as a fraction of a
/// pixel). A row without identity, the source and the rows under it are no
/// target: a node cannot be moved under itself.
pub fn target(slots: &[Slot], source: usize, height: u32, y: i64) -> (r: Option<(usize, Place)>)
    requires
        height > 0,
    ensures
        r == match drop_target(slots@, source as int, height as int, y as int) {
            Some((row, place)) => Some((row as usize, place)),
            None => None,
        },
{
    let row = floor_div(y, height as i64);
    if row < 0 {
        return None;
    }
    if row as u64 >= slots.len() as u64 || source >= slots.len() {
        return None;
    }
    let row = row as usize;
    let slot = slots[row];
    let origin = slots[source];
    if slot.id.is_none() {
        return None;
    }
    let below = count_under(slots, origin.depth, source + 1);
    if row >= source && row <= source + below {
        return None;
    }
    let offset = y - (row as i64) * (height as i64);
    let h = height as i64;
    let place = if slot.group {
        if 10 * offset < 3 * h {
            Place::Before
        } else if 10 * offset > 7 * h && !slot.open {
            Place::After
        } else {
            Place::Into
        }
    } else if 2 * offset < h {
        Place::Before
    } else {
        Place::After
    };
    Some((row, place))
}

pub proof fn lemma_rows_under_nonnegative(slots: Seq<Slot>, depth: int, from: int)
    ensures
        rows_under(slots, depth, from) >= 0,
        from >= 0 ==> from + rows_under(slots, depth, from) <= if from > slots.len() {
            from
        } else {
            slots.len() as int
        },
    decreases slots.len() - from,
{
    if 0 <= from < slots.len() && slots[from].depth > depth {
        lemma_rows_under_nonnegative(slots, depth, from + 1);
    }
}

/// The rows under a row are a run deeper than it.
pub proof fn lemma_rows_under_deeper(slots: Seq<Slot>, depth: int, from: int, k: int)
    requires
        from <= k < from + rows_under(slots, depth, from),
    ensures
        0 <= k < slots.len(),
        slots[k].depth > depth,
    decreases k - from,
{
    if k > from {
        lemma_rows_under_deeper(slots, depth, from + 1, k);
    }
}

/// A node cannot be moved under itself: a drop target is neither the
/// dragged row nor any row of the run under it, which are all deeper than
/// it; and only rows with an identity are targets.
pub proof fn law_no_move_under_itself(slots: Seq<Slot>, source: int, height: int, y: int)
    requires
        height > 0,
        0 <= source < slots.len(),
    ensures
        drop_target(slots, source, height, y) is Some ==> {
            let row = (drop_target(slots, source, height, y)->0).0;
            &&& 0 <= row < slots.len()
            &&& slots[row].id is Some
            &&& row != source
            &&& !(source < row <= source + rows_under(slots, slots[source].depth as int, source + 1))
        },
        forall|k: int|
            source < k <= source + rows_under(slots, slots[source].depth as int, source + 1) ==> 0 <= k
                < slots.len() && #[trigger] slots[k].depth > slots[source].depth,
{
    let d = slots[source].depth as int;
    lemma_rows_under_nonnegative(slots, d, source + 1);
    assert forall|k: int| source < k <= source + rows_under(slots, d, source + 1) implies 0 <= k
        < slots.len() && #[trigger] slots[k].depth > slots[source].depth by {
        lemma_rows_under_deeper(slots, d, source + 1, k);
    }
}

} // verus!

use widget_kit::icon::Icon;
use widget_kit::tree_view::{flatten, target, Check, Node, Place, Slot, Toggle};

#[test]
fn checks_come_from_booleans() {
    assert_eq!(Check::from(true), Check::Checked);
    assert_eq!(Check::from(false), Check::Unchecked);
}

#[test]
fn collapsed_nodes_hide_their_children() {
    let tree = vec![
        Node::new("Açık grup").expanded(true).extend(vec![
            Node::new("Katman"),
            Node::new("Kapalı grup").folder().expanded(false).push(Node::new("Görünmez")),
        ]),
        Node::new("Sabit grup").push(Node::new("Her zaman görünür")),
    ];

    let mut rows = Vec::new();
    let mut slots = Vec::new();
    flatten(tree, 0, &mut rows, &mut slots);

    assert_eq!(rows.len(), 5);
    assert_eq!(slots.iter().map(|slot| slot.depth).collect::<Vec<_>>(), [0, 1, 1, 0, 1]);
    assert!(slots[2].group && !slots[2].open);
    assert_eq!(
        rows.iter().map(|(_, label)| *label).collect::<Vec<_>>(),
        ["Açık grup", "Katman", "Kapalı grup", "Sabit grup", "Her zaman görünür"]
    );
}

fn slot(id: usize, depth: usize, group: bool) -> Slot {
    Slot { id: Some(id), depth, group, open: true, editing: false }
}

#[test]
fn drops_land_before_after_or_into_rows() {
    // 0 a group, 1 its child, 2 a group, 3 its child; rows 20 high.
    let slots = [slot(10, 0, true), slot(11, 1, false), slot(12, 0, true), slot(13, 1, false)];

    // A leaf row: its upper half drops before it, its lower half after it.
    assert_eq!(target(&slots, 3, 20, 22), Some((1, Place::Before)));
    assert_eq!(target(&slots, 3, 20, 38), Some((1, Place::After)));

    // A group row: the edges drop before or after it, the middle into it.
    assert_eq!(target(&slots, 1, 20, 42), Some((2, Place::Before)));
    assert_eq!(target(&slots, 1, 20, 50), Some((2, Place::Into)));

    // The lower edge of an open group drops into it too.
    assert_eq!(target(&slots, 1, 20, 58), Some((2, Place::Into)));

    // A node cannot be moved onto itself or under itself.
    assert_eq!(target(&slots, 2, 20, 50), None);
    assert_eq!(target(&slots, 2, 20, 70), None);
    assert_eq!(target(&slots, 0, 20, 30), None);
}

#[test]
fn closed_groups_drop_after_their_lower_edge_and_unnamed_rows_are_no_target() {
    let mut closed = slot(20, 0, true);
    closed.open = false;
    let unnamed = Slot { id: None, depth: 0, group: false, open: true, editing: false };
    let slots = [closed, slot(21, 0, false), unnamed];
    assert_eq!(target(&slots, 1, 20, 17), Some((0, Place::After)));
    assert_eq!(target(&slots, 1, 20, 14), Some((0, Place::Into)));
    assert_eq!(target(&slots, 1, 20, 5), Some((0, Place::Before)));
    assert_eq!(target(&slots, 1, 20, 45), None);
    assert_eq!(target(&slots, 1, 20, -1), None);
    assert_eq!(target(&slots, 1, 20, 60), None);
    assert_eq!(target(&slots, 7, 20, 5), None);
    // Finer units than a pixel: a row 96 units high.
    assert_eq!(target(&slots, 0, 96, 96 + 47), Some((1, Place::Before)));
    assert_eq!(target(&slots, 0, 96, 96 + 48), Some((1, Place::After)));
}

#[test]
fn node_builders_and_toggles() {
    let node = Node::new(1u8).id(4).folder().expanded(false);
    assert_eq!(node.id, Some(4));
    assert!(node.folder);
    assert_eq!(node.expanded, Some(false));
    let mut rows = Vec::new();
    let mut slots = Vec::new();
    flatten(vec![node.push(Node::new(2u8)), Node::new(3u8).editing(true)], 2, &mut rows, &mut slots);
    assert_eq!(rows, vec![(2, 1u8), (2, 3u8)]);
    assert!(slots[1].editing);

    let eye = Toggle::visible(true, ());
    assert_eq!(eye.glyphs, (Icon::Eye, Icon::EyeOff));
    assert_eq!(eye.tips.0, "Görünür: gizlemek için tıklayın");
    let lock = Toggle::locked(false, ());
    assert!(!lock.on);
    assert_eq!(lock.tips.1, "Kilitlemek için tıklayın");
    assert_eq!(Toggle::selectable(true, 5u8).message, 5);
}

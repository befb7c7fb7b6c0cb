use widget_kit::rulers::{Event, Guide, Guides, Orientation};

#[test]
fn guides_are_added_moved_and_removed() {
    let mut guides = Guides::new();

    guides.update(Event::Added(Guide::horizontal(20.0f32)));
    guides.update(Event::Added(Guide::vertical(35.0)));
    guides.update(Event::Moved(0, 25.0));
    assert_eq!(
        guides.as_slice(),
        [Guide::horizontal(25.0), Guide::vertical(35.0)]
    );

    guides.update(Event::Removed(0));
    guides.update(Event::Removed(5));
    assert_eq!(guides.as_slice(), [Guide::vertical(35.0)]);
}

#[test]
fn moving_a_missing_guide_changes_nothing_and_clear_empties() {
    let mut guides: Guides<f32> = Guides::default();
    guides.push(Guide::vertical(1.5));
    guides.update(Event::Moved(3, 9.0));
    assert_eq!(guides.as_slice(), [Guide::vertical(1.5)]);
    assert_eq!(guides.as_slice()[0].orientation, Orientation::Vertical);
    assert_eq!(guides.len(), 1);
    guides.clear();
    assert!(guides.is_empty());
}

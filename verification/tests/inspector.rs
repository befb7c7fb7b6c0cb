use widget_kit::inspector::{Action, Event, ObjectId, State};

#[test]
fn valid_input_changes_the_value_and_invalid_input_is_kept_as_draft() {
    let mut state: State<i64> = State::new();

    let action = state.update(Event::Input {
        id: 3,
        text: "34".to_owned(),
        value: Ok(34),
    });
    assert_eq!(action, Some(Action::Change { id: 3, value: 34 }));
    assert!(!state.has_errors());

    let action = state.update(Event::Input {
        id: 3,
        text: "99".to_owned(),
        value: Err("1 ile 81 arasında olmalı".to_owned()),
    });
    assert_eq!(action, None);
    assert!(state.has_errors());
    assert_eq!(state.draft(3).map(|draft| draft.text.as_str()), Some("99"));

    state.inspect(Some(7));
    assert!(!state.has_errors());
}

#[test]
fn view_preferences_survive_a_new_subject() {
    let mut state: State<i64> = State::new();
    state.update(Event::Filter("ad".to_owned()));
    state.update(Event::Alphabetical(true));
    state.update(Event::Collapse("Genel".to_owned()));
    state.remember(1, 5);

    state.inspect(Some(2));

    assert_eq!(state.filter(), "ad");
    assert!(state.alphabetical());
    assert!(state.is_collapsed("Genel"));
    assert_eq!(state.original(1), None);

    state.update(Event::Collapse("Genel".to_owned()));
    assert!(!state.is_collapsed("Genel"));
}

#[test]
fn modified_fields_revert_to_their_first_value() {
    let mut state: State<String> = State::new();
    state.remember(4, "İlk".to_owned());
    state.remember(4, "Sonraki".to_owned());

    assert_ne!(state.original(4), Some(&"Yeni".to_owned()));
    assert_eq!(state.original(4), Some(&"İlk".to_owned()));

    assert_eq!(
        state.update(Event::Revert(4)),
        Some(Action::Change { id: 4, value: "İlk".to_owned() })
    );
    assert_eq!(state.update(Event::Revert(9)), None);
}

#[test]
fn long_text_is_applied_from_the_editor() {
    let mut state: State<String> = State::new();

    state.update(Event::Edit { id: 2, text: "Birinci satır".to_owned() });
    assert_eq!(
        state.update(Event::CloseEditor { id: 2, apply: true }),
        Some(Action::Text { id: 2, text: Some("Birinci satır".to_owned()) })
    );
    assert_eq!(state.update(Event::CloseEditor { id: 2, apply: true }), None);

    state.update(Event::Edit { id: 2, text: "x".to_owned() });
    state.update(Event::EditorText { id: 2, text: "İkinci\n  \n".to_owned() });
    assert_eq!(state.editor(2).map(|text| text.as_str()), Some("İkinci\n  \n"));
    assert_eq!(
        state.update(Event::CloseEditor { id: 2, apply: true }),
        Some(Action::Text { id: 2, text: Some("İkinci".to_owned()) })
    );

    state.update(Event::Edit { id: 5, text: "   ".to_owned() });
    assert_eq!(
        state.update(Event::CloseEditor { id: 5, apply: true }),
        Some(Action::Text { id: 5, text: None })
    );
    state.update(Event::Edit { id: 6, text: "iptal".to_owned() });
    assert_eq!(state.update(Event::CloseEditor { id: 6, apply: false }), None);
    assert_eq!(state.editor(6), None);
}

#[test]
fn picking_toggles_and_navigation_is_reported() {
    let mut state: State<i64> = State::new();

    assert_eq!(state.update(Event::Pick(4)), Some(Action::Pick(4)));
    assert_eq!(state.picking(), Some(4));
    assert_eq!(state.update(Event::Pick(4)), Some(Action::CancelPick));
    assert_eq!(
        state.update(Event::Navigate(4, ObjectId(2))),
        Some(Action::Navigate { id: 4, object: ObjectId(2) })
    );
    state.update(Event::Pick(5));
    state.stop_picking();
    assert_eq!(state.picking(), None);
    state.update(Event::Hover(8));
    assert_eq!(state.hovered(), Some(8));
    state.update(Event::HideEmpty(true));
    assert!(state.hide_empty());
    assert_eq!(state.update(Event::Select { id: 1, value: 3 }), Some(Action::Change { id: 1, value: 3 }));
}

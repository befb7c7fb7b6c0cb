use widget_kit::compare::Direction;
use widget_kit::dropdown::{InputOutcome, PanelInput, PanelState, Reaction};
use widget_kit::icon::{Icon, Tone};
use widget_kit::inspector::{long_text_preview, object_label, ObjectId};
use widget_kit::text::decimal_text;
use widget_kit::number::{confirm, Confirmation, Error};
use widget_kit::radial::{menu_input, released, MenuInput, MenuOutcome, MenuState, Release, HOLD};
use widget_kit::severity::Severity;
use widget_kit::table::SortOrder;
use widget_kit::timeline::Scale;
use widget_kit::tip::Tip;

#[test]
fn holding_and_releasing_chooses_while_a_tap_keeps_the_menu_open() {
    assert_eq!(released(60, Some(2)), Release::Stay);
    assert_eq!(released(HOLD * 2, Some(2)), Release::Choose(2));
    assert_eq!(released(HOLD * 2, None), Release::Close);
    assert_eq!(released(HOLD, None), Release::Close);
}

#[test]
fn severities_have_a_glyph_a_tone_and_a_name() {
    assert_eq!(Severity::default(), Severity::Info);
    assert_eq!(Severity::Info.icon(), Icon::Info);
    assert_eq!(Severity::Error.tone(), Tone::Danger);
    assert_eq!(Severity::Success.tone(), Tone::Success);
    assert_eq!(Severity::Warning.label(), "Uyarı");
    assert_eq!(Severity::Success.label(), "Tamamlandı");
}

#[test]
fn tips_sort_orders_and_defaults() {
    let tip = Tip::new("Çizgi").body("İki nokta arasında çizgi").detail("Komut: CIZGI");
    assert!(!tip.is_plain());
    assert!(Tip::from("Yalnız başlık".to_owned()).is_plain());
    assert_eq!(tip.clone(), tip);
    assert_eq!(SortOrder::Ascending.reversed(), SortOrder::Descending);
    assert_eq!(SortOrder::Descending.reversed().reversed(), SortOrder::Descending);
    assert_eq!(Direction::default(), Direction::Horizontal);
    assert_eq!(Scale::default(), Scale::Number);
}

#[test]
fn errors_are_explained() {
    assert_eq!(Error::Empty.message(), "Bir değer yazın");
    assert_eq!(Error::Unit("ft".to_owned()).message(), "Bilinmeyen birim: ft");
    assert_eq!(Error::DivisionByZero.message(), "Sıfıra bölünemez");
}

#[test]
fn references_show_their_names_or_numbers() {
    let candidates = vec![(ObjectId(2), "Kule".to_owned()), (ObjectId(2), "İkinci".to_owned())];
    assert_eq!(object_label(&candidates, ObjectId(2)), "Kule");
    assert_eq!(object_label(&candidates, ObjectId(1204)), "#1204");
    assert_eq!(decimal_text(0), "0");
    assert_eq!(decimal_text(u64::MAX), u64::MAX.to_string());
}

#[test]
fn panels_open_and_close_and_reactions_say_what_to_do() {
    let mut panel: PanelState<u8> = PanelState::new();
    panel.toggle(|| 7);
    assert_eq!(panel.open, Some(7));
    assert_eq!(panel.revision, 1);
    panel.toggle(|| 9);
    assert_eq!(panel.open, None);
    assert_eq!(panel.revision, 2);

    let stay = Reaction::<u8>::stay();
    assert!(stay.publish.is_none() && !stay.close);
    let commit = Reaction::commit(3u8);
    assert_eq!((commit.publish, commit.close), (Some(3), true));
    let publish = Reaction::publish(4u8);
    assert_eq!((publish.publish, publish.close), (Some(4), false));
    assert!(Reaction::<u8>::close().close);
}

#[test]
fn outside_presses_and_escape_close_the_panel() {
    let mut state: PanelState<u8> = PanelState::new();
    state.toggle(|| 7);

    let on_field = state.input(PanelInput::Press { over_panel: false, over_anchor: true, right: false });
    assert_eq!(on_field, InputOutcome { close: false, capture: false, forward: false });
    assert_eq!(state.open, Some(7));

    let inside = state.input(PanelInput::Other { mouse_over_panel: true });
    assert_eq!(inside, InputOutcome { close: false, capture: true, forward: true });

    let right = state.input(PanelInput::Press { over_panel: false, over_anchor: false, right: true });
    assert_eq!(right, InputOutcome { close: true, capture: false, forward: false });
    assert_eq!(state.open, None);
    assert_eq!(state.revision, 2);

    state.toggle(|| 8);
    let escape = state.input(PanelInput::Escape);
    assert!(escape.close && escape.capture);
    assert_eq!(state.open, None);
}

#[test]
fn answers_are_taken_until_the_first_close() {
    let mut state: PanelState<u8> = PanelState::new();
    state.toggle(|| 1);
    let out = state.answer(vec![
        Reaction::stay(),
        Reaction::publish("a"),
        Reaction::commit("b"),
        Reaction::publish("c"),
    ]);
    assert_eq!(out, vec!["a", "b"]);
    assert_eq!(state.open, None);
    assert_eq!(state.revision, 4);

    // A closed panel takes no answers.
    let out = state.answer(vec![Reaction::publish("d")]);
    assert!(out.is_empty());
    assert_eq!(state.revision, 4);
}

#[test]
fn tips_come_from_text() {
    assert!(Tip::from("Kaydet").is_plain());
    assert_eq!(Tip::from("Kaydet"), Tip::new("Kaydet"));
    assert_eq!(Tip::from("Kaydet".to_string()), Tip::new("Kaydet"));
}

fn open_menu() -> MenuState {
    MenuState { open: true, moved: false, highlighted: None }
}

#[test]
fn the_open_menu_answers_presses_keys_and_drags() {
    let mut menu = open_menu();
    let moved = menu_input(&mut menu, MenuInput::Moved { far: true, target: Some(2) });
    assert!(moved.redraw && moved.forward && !moved.close);
    assert_eq!(menu, MenuState { open: true, moved: true, highlighted: Some(2) });

    // A drag released after the hold time chooses.
    let release = menu_input(&mut menu, MenuInput::LeftRelease { target: Some(2), held: HOLD });
    assert_eq!(release, MenuOutcome { run: Some(2), close: true, capture: false, redraw: false, forward: true });
    assert!(!menu.open && menu.highlighted.is_none());

    // A tap keeps the menu open; a click then chooses.
    let mut menu = open_menu();
    let tap = menu_input(&mut menu, MenuInput::LeftRelease { target: Some(1), held: 60 });
    assert_eq!(tap.run, None);
    assert!(menu.open);
    let click = menu_input(&mut menu, MenuInput::LeftPress { target: Some(1) });
    assert_eq!(click.run, Some(1));
    assert!(click.close && click.capture && !menu.open);

    let mut menu = open_menu();
    let repeat = menu_input(&mut menu, MenuInput::HoldKeyPress { repeat: true });
    assert!(repeat.capture && !repeat.close && menu.open);
    let key = menu_input(&mut menu, MenuInput::HoldKeyRelease { target: None, held: 500 });
    assert!(key.close && key.run.is_none() && !menu.open);

    let mut menu = open_menu();
    assert!(menu_input(&mut menu, MenuInput::Escape).close);
    let mut menu = open_menu();
    assert!(menu_input(&mut menu, MenuInput::Wheel).capture && menu.open);
}

#[test]
fn long_texts_preview_their_first_line() {
    assert_eq!(long_text_preview("Birinci satır\r\nİkinci\nÜçüncü\n"), ("Birinci satır".to_string(), 2));
    assert_eq!(long_text_preview("Tek satır"), ("Tek satır".to_string(), 0));
    assert_eq!(long_text_preview(""), (String::new(), 0));
    assert_eq!(long_text_preview("\nikinci"), (String::new(), 1));
    assert_eq!(long_text_preview("sonda\r"), ("sonda\r".to_string(), 0));
}

#[test]
fn enter_keeps_an_invalid_text_and_leaving_drops_it() {
    assert_eq!(confirm::<i32>(false, false, Err(Error::Syntax)), Confirmation::Continue);
    assert_eq!(confirm(true, false, Ok(5)), Confirmation::Apply(5));
    assert_eq!(confirm::<i32>(true, false, Err(Error::Syntax)), Confirmation::ShowError(Error::Syntax));
    assert_eq!(confirm::<i32>(false, true, Err(Error::Empty)), Confirmation::Discard);
    assert_eq!(confirm(false, true, Ok(1)), Confirmation::Apply(1));
}

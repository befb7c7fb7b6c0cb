use widget_kit::chips::{backspace, commit, contains, suggestion, typed, without};

fn owned(chips: &[&str]) -> Vec<String> {
    chips.iter().map(|chip| (*chip).to_owned()).collect()
}

fn suggestions() -> Vec<String> {
    owned(&["park", "Kentsel dönüşüm", "okul"])
}

#[test]
fn chips_are_added_once_and_completed() {
    let chips = owned(&["Park"]);

    assert_eq!(commit(&chips, "  okul "), Some(vec!["Park".to_owned(), "okul".to_owned()]));
    assert_eq!(commit(&chips, "PARK"), None);
    assert_eq!(commit(&chips, "   "), None);

    // The first value that starts with what was typed and is not there yet;
    // Turkish letters do not matter.
    assert_eq!(suggestion(&suggestions(), &chips, "KENT"), Some("Kentsel dönüşüm"));
    assert_eq!(suggestion(&suggestions(), &chips, "pa"), None);
    assert_eq!(suggestion(&suggestions(), &chips, ""), None);
}

#[test]
fn chips_are_typed_completed_and_removed() {
    let mut chips = owned(&["park"]);
    let hints = owned(&["kentsel dönüşüm"]);

    // Enter adds what was typed.
    chips = commit(&chips, "okul").expect("eklenmedi");
    assert_eq!(chips, ["park", "okul"]);

    // A comma adds; the same one is not added twice.
    let (next, buffer) = typed(&chips, "PARK, çarşı,");
    chips = next.expect("eklenmedi");
    assert_eq!(chips, ["park", "okul", "çarşı"]);
    assert_eq!(buffer, "");

    // Tab completes the suggestion, Enter adds it.
    let completed = suggestion(&hints, &chips, "kent").expect("öneri yok").to_owned();
    chips = commit(&chips, &completed).expect("eklenmedi");
    assert_eq!(chips, ["park", "okul", "çarşı", "kentsel dönüşüm"]);

    // Backspace in an empty field removes the last tag.
    chips = backspace(&chips, "").expect("silinmedi");
    assert_eq!(chips, ["park", "okul", "çarşı"]);
}

#[test]
fn typing_keeps_what_follows_the_last_comma() {
    let chips = owned(&["Şehir"]);
    let (next, buffer) = typed(&chips, "sehir, ,  kent,   yol");
    assert_eq!(next, Some(owned(&["Şehir", "kent"])));
    assert_eq!(buffer, "yol");
    let (next, buffer) = typed(&chips, "  yol");
    assert_eq!(next, None);
    assert_eq!(buffer, "  yol");
    let (next, buffer) = typed(&chips, "ŞEHİR,");
    assert_eq!(next, None);
    assert_eq!(buffer, "");
}

#[test]
fn tags_are_found_without_case_or_turkish_letters() {
    let chips = owned(&["Çarşı", "Işık"]);
    assert!(contains(&chips, " carsi "));
    assert!(contains(&chips, "ISIK"));
    assert!(!contains(&chips, "çarşılar"));
    assert_eq!(without(&chips, 0), owned(&["Işık"]));
    assert_eq!(backspace(&chips, "a"), None);
    assert_eq!(backspace(&Vec::new(), ""), None);
    // A suggestion equal to what was typed is not shown.
    assert_eq!(suggestion(&suggestions(), &Vec::new(), "okul"), None);
    assert_eq!(suggestion(&suggestions(), &Vec::new(), " o"), Some("okul"));
}

#[test]
fn letters_beyond_turkish_ones_are_found_without_case() {
    let chips = vec!["École".to_string(), "Ωmega".to_string()];
    assert!(widget_kit::chips::contains(&chips, "ÉCOLE"));
    assert!(widget_kit::chips::contains(&chips, "ωMEGA"));
    assert_eq!(widget_kit::text::folded("ÉÇİ"), vec!['é', 'c', 'i']);
}

#[test]
fn typed_tags_stay_distinct_without_case() {
    let (published, rest) = typed(&owned(&[]), "a, A, b,");
    assert_eq!(published, Some(owned(&["a", "b"])));
    assert_eq!(rest, "");
}

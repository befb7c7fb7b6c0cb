use widget_kit::severity::Severity;
use widget_kit::toast::{expire, hover_timers, sync_timers, Notice, Target, Timer, Toast, Toasts, LONG, SHORT};

#[test]
fn durations_follow_the_severity() {
    assert_eq!(Toast::<()>::info("a").timeout(), Some(SHORT));
    assert_eq!(Toast::<()>::warning("a").timeout(), Some(LONG));
    assert_eq!(Toast::<()>::error("a").timeout(), None);

    // A notification with an action stays at least 8 seconds; an error
    // still does not close.
    assert_eq!(Toast::success("a").action("Geri al", ()).timeout(), Some(LONG));
    assert_eq!(Toast::error("a").action("Yeniden dene", ()).timeout(), None);
    assert_eq!(Toast::<()>::info("a").sticky().timeout(), None);
}

#[test]
fn repeated_toasts_are_counted_not_stacked() {
    let mut toasts = Toasts::new();

    let first = toasts.push(Toast::<()>::info("Koordinat kopyalandı"));
    toasts.push(Toast::warning("Yalnızca çizimler silinebilir"));
    let again = toasts.push(Toast::info("Koordinat kopyalandı"));

    assert_eq!(first, again);
    assert_eq!(toasts.len(), 2);

    // The repeated notification becomes the newest.
    let (id, toast, count) = toasts.iter().last().copied().expect("bildirim yok");
    assert_eq!((id, toast.title(), count), (first, "Koordinat kopyalandı", 2));

    assert!(toasts.dismiss(first));
    assert!(!toasts.contains(first));
    assert!(!toasts.dismiss(first));
}

#[test]
fn timers_stop_while_hovered() {
    let mut toasts = Toasts::<()>::new();
    let id = toasts.push(Toast::info("a"));
    let start: u64 = 1_000;
    let mut timer = Timer::new(id, 0, start, false);

    timer.pause(start + 2_000);
    assert_eq!(timer.elapsed(start + 10_000), 2_000);

    timer.resume(start + 10_000);
    assert_eq!(timer.elapsed(start + 11_000), 3_000);
}

#[test]
fn builders_keep_what_was_given() {
    let toast = Toast::new(Severity::Warning, "Uyarı").body("Ayrıntı").duration(1_234);
    assert_eq!(toast.severity(), Severity::Warning);
    assert_eq!(toast.title(), "Uyarı");
    assert_eq!(toast.timeout(), Some(1_234));
    // A longer closing time is kept when an action is added.
    assert_eq!(toast.clone().duration(9_000).action("Aç", 7u8).timeout(), Some(9_000));
    assert_eq!(Toast::info("a").duration(1_000).action("Aç", 7u8).timeout(), Some(LONG));
}

#[test]
fn same_title_with_another_body_or_action_is_a_new_notification() {
    let mut toasts = Toasts::new();
    let a = toasts.push(Toast::info("Kaydedildi"));
    let b = toasts.push(Toast::info("Kaydedildi").body("dosya.dxf"));
    let c = toasts.push(Toast::info("Kaydedildi").action("Aç", 1u8));
    let d = toasts.push(Toast::success("Kaydedildi"));
    assert!(a != b && b != c && c != d && a != c);
    assert_eq!(toasts.len(), 4);
    // The action's message does not matter, its label does.
    let again = toasts.push(Toast::info("Kaydedildi").action("Aç", 2u8));
    assert_eq!(again, c);
    assert_eq!(toasts.len(), 4);
    let entries = toasts.iter();
    assert_eq!(entries.last().map(|entry| entry.0), Some(c));
    assert_eq!(entries.last().map(|entry| entry.2), Some(2));
}

#[test]
fn only_the_newest_three_are_shown_and_clear_empties() {
    let mut toasts = Toasts::<()>::new();
    assert_eq!(toasts.hidden(), 0);
    for title in ["a", "b", "c", "d", "e"] {
        toasts.push(Toast::info(title));
    }
    assert_eq!(toasts.hidden(), 2);
    let revisions = toasts.revisions();
    assert_eq!(revisions.len(), 5);
    assert!(revisions.iter().all(|(_, revision)| *revision == 0));
    toasts.push(Toast::info("a"));
    assert_eq!(toasts.revisions().last().map(|entry| entry.1), Some(1));
    toasts.clear();
    assert!(toasts.is_empty());
    assert_eq!(toasts.hidden(), 0);
}

#[test]
fn renewed_notifications_start_their_clocks_over() {
    let mut toasts = Toasts::<()>::new();
    let a = toasts.push(Toast::info("a"));
    let b = toasts.push(Toast::info("b"));
    let timers = sync_timers(&Vec::new(), &toasts.revisions(), 100, false);
    assert_eq!(timers.len(), 2);
    assert_eq!(timers[0].started, 100);

    // Later, "a" comes again: its clock starts over, "b" keeps its own.
    toasts.push(Toast::info("a"));
    let timers = sync_timers(&timers, &toasts.revisions(), 900, true);
    assert_eq!(timers[0].id, b);
    assert_eq!(timers[0].started, 100);
    assert_eq!(timers[1].id, a);
    assert_eq!(timers[1].started, 900);
    assert_eq!(timers[1].paused_since, Some(900));
}

#[test]
fn redraws_close_notifications_whose_time_ran_out() {
    let mut toasts = Toasts::<()>::new();
    let a = toasts.push(Toast::info("a"));
    let b = toasts.push(Toast::warning("b"));
    let c = toasts.push(Toast::error("c"));
    let mut timers = sync_timers(&Vec::new(), &toasts.revisions(), 0, false);
    let durations = vec![Some(SHORT), Some(LONG), None];

    let (closed, running) = expire(&mut timers, &durations, 4_999);
    assert!(closed.is_empty());
    assert!(running);

    let (closed, running) = expire(&mut timers, &durations, 5_000);
    assert_eq!(closed, vec![a]);
    assert!(running);
    // Reported once only.
    let (closed, _) = expire(&mut timers, &durations, 6_000);
    assert!(closed.is_empty());

    // Hovering stops the clocks: nothing runs out while the pointer is over.
    hover_timers(&mut timers, true, 6_000);
    let (closed, running) = expire(&mut timers, &durations, 20_000);
    assert!(closed.is_empty());
    assert!(!running);
    hover_timers(&mut timers, false, 20_000);
    let (closed, _) = expire(&mut timers, &durations, 22_000);
    assert_eq!(closed, vec![b]);
    assert!(toasts.contains(c));
}

#[test]
fn a_default_stack_is_empty() {
    let toasts: widget_kit::toast::Toasts<()> = Default::default();
    assert!(toasts.is_empty());
    assert_eq!(toasts.hidden(), 0);
}

#[test]
fn clicks_send_the_action_and_close() {
    let mut toasts: Toasts<u8> = Toasts::new();
    let first = toasts.push(Toast::info("Bir"));
    let second = toasts.push(Toast::info("İki").action("Geri al", 7));
    let third = toasts.push(Toast::info("Üç"));
    let fourth = toasts.push(Toast::info("Dört"));

    assert_eq!(
        toasts.clicked(Target::Action(second), Some(Target::Action(second))),
        vec![Notice::Publish(7), Notice::Dismiss(second)]
    );
    assert_eq!(
        toasts.clicked(Target::Action(third), Some(Target::Action(third))),
        vec![Notice::Dismiss(third)]
    );
    assert_eq!(
        toasts.clicked(Target::Close(fourth), Some(Target::Close(fourth))),
        vec![Notice::Dismiss(fourth)]
    );
    assert!(toasts.clicked(Target::Close(fourth), Some(Target::ClearAll)).is_empty());
    assert!(toasts.clicked(Target::Close(fourth), None).is_empty());
    assert_eq!(
        toasts.clicked(Target::ClearAll, Some(Target::ClearAll)),
        vec![
            Notice::Dismiss(first),
            Notice::Dismiss(second),
            Notice::Dismiss(third),
            Notice::Dismiss(fourth)
        ]
    );
}

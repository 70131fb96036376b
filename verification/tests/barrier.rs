use toastnapi::barrier::{Barrier, Event, Phase, SetDataForSlug};

fn register(slug: &str) -> Event {
    Event::RegisterRouteData(SetDataForSlug { slug: slug.to_string(), data: None })
}

#[test]
fn a_payload_keeps_its_slug_and_data() {
    let r = SetDataForSlug { slug: "/about".to_string(), data: Some("{\"a\":1}".to_string()) }
        .normalize();
    assert_eq!(r.slug, "/about");
    assert_eq!(r.data, "{\"a\":1}");
}

#[test]
fn a_payload_without_data_is_kept_with_null() {
    let r = SetDataForSlug { slug: "a".to_string(), data: None }.normalize();
    assert_eq!(r.slug, "a");
    assert_eq!(r.data, "null");
}

#[test]
fn a_new_barrier_awaits_its_first_event() {
    let b = Barrier::new();
    assert_eq!(b.phase(), Phase::AwaitingFirstEvent);
    assert_eq!(b.len(), 0);
    assert_eq!(b.slugs(), Vec::<String>::new());
}

#[test]
fn slugs_come_out_in_the_order_sent() {
    let mut b = Barrier::new();
    assert!(b.on_event(register("a")));
    assert_eq!(b.phase(), Phase::Collecting);
    assert!(b.on_event(register("b")));
    assert!(b.on_event(register("c")));
    assert_eq!(b.len(), 3);
    assert!(!b.on_event(Event::End));
    assert_eq!(b.phase(), Phase::Drained);
    assert_eq!(b.slugs(), vec!["a".to_string(), "b".to_string(), "c".to_string()]);
}

#[test]
fn end_without_records_drains_an_empty_barrier() {
    let mut b = Barrier::new();
    assert!(!b.on_event(Event::End));
    assert_eq!(b.phase(), Phase::Drained);
    assert_eq!(b.slugs(), Vec::<String>::new());
}

#[test]
fn events_after_end_are_ignored() {
    let mut b = Barrier::new();
    b.on_event(register("a"));
    b.on_event(Event::End);
    assert!(!b.on_event(register("late")));
    assert!(!b.on_event(Event::End));
    assert_eq!(b.phase(), Phase::Drained);
    assert_eq!(b.slugs(), vec!["a".to_string()]);
}

#[test]
fn equal_slugs_are_all_kept() {
    let mut b = Barrier::new();
    b.on_event(register("a"));
    b.on_event(register("a"));
    b.on_event(Event::End);
    assert_eq!(b.slugs(), vec!["a".to_string(), "a".to_string()]);
}

use monad_monitor::certificate::CertificateTracker;
use monad_monitor::watch::{watch_step, ForkpointStep, WatchEvent, WatchStep};

#[test]
fn change_leads_to_a_tip() {
    let WatchStep::ReadForkpoint(forkpoint) = watch_step(WatchEvent::Changed) else {
        panic!("the forkpoint is read on a change");
    };
    let ForkpointStep::ReadHead(head) = forkpoint.resume(Some(5u64)) else {
        panic!("the head is read after the forkpoint");
    };
    assert_eq!(head.resume(Some("head")), Some((5, "head")));
}

#[test]
fn unreadable_files_are_passed_over() {
    let WatchStep::ReadForkpoint(forkpoint) = watch_step(WatchEvent::Changed) else {
        panic!("the forkpoint is read on a change");
    };
    assert!(matches!(forkpoint.resume(None::<u64>), ForkpointStep::Skip));
    let WatchStep::ReadForkpoint(forkpoint) = watch_step(WatchEvent::Changed) else {
        panic!("the forkpoint is read on a change");
    };
    let ForkpointStep::ReadHead(head) = forkpoint.resume(Some(5u64)) else {
        panic!("the head is read after the forkpoint");
    };
    assert_eq!(head.resume(None::<u8>), None);
}

fn tip(event: WatchEvent, forkpoint: Option<u64>, head: Option<u8>) -> Option<(u64, u8)> {
    match watch_step(event) {
        WatchStep::ReadForkpoint(s) => match s.resume(forkpoint) {
            ForkpointStep::ReadHead(s) => s.resume(head),
            ForkpointStep::Skip => None,
        },
        WatchStep::Warn => None,
        WatchStep::Abort => panic!("the watch failed"),
    }
}

#[test]
fn run_of_events_gives_its_tips_in_order() {
    let events = vec![
        (WatchEvent::Changed, Some(1), Some(10)),
        (WatchEvent::InvalidInput, Some(2), Some(20)),
        (WatchEvent::Changed, None, Some(30)),
        (WatchEvent::Changed, Some(4), None),
        (WatchEvent::Changed, Some(5), Some(50)),
        (WatchEvent::Changed, Some(1), Some(10)),
    ];
    let tips: Vec<(u64, u8)> =
        events.into_iter().filter_map(|(event, c, h)| tip(event, c, h)).collect();
    assert_eq!(tips, vec![(1, 10), (5, 50), (1, 10)]);
}

#[test]
fn watch_errors() {
    assert!(matches!(watch_step(WatchEvent::InvalidInput), WatchStep::Warn));
    assert!(matches!(watch_step(WatchEvent::Failed), WatchStep::Abort));
}

#[test]
fn certificate_is_news_once() {
    let mut tracker = CertificateTracker::new(String::from("genesis"));
    assert!(!tracker.observe(String::from("genesis")));
    assert!(tracker.observe(String::from("a")));
    assert!(!tracker.observe(String::from("a")));
    assert!(tracker.observe(String::from("genesis")));
    assert_eq!(tracker.last, "genesis");
}

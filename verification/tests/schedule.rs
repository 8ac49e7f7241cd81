use nerve::datapoint::{AccountList, ListFile};
use nerve::history::{Download, PageEvent, PageReport, RoomVerificationState};
use nerve::image::{generate_png, validate_png};
use nerve::message::parse_message_body;
use nerve::schedule::{
    describe_dm, dm_candidates, merge_live, pick, Action, ActionCycle, LiveSerials, Promotion,
    Rooms,
};
use nerve::traffic::{after_send, classify, kind_of, measure, plan_message, plan_send, Incoming};
use nerve::users::{Distance, Mxid};

fn strings(list: &[&str]) -> Vec<String> {
    list.iter().map(|s| s.to_string()).collect()
}

#[test]
fn promotion_waits() {
    let mut p = Promotion::new(true);
    p.round(true, 1);
    assert!(!p.is_sending());
    p.round(true, 1);
    assert!(p.is_sending());
    p.round(false, 1);
    assert!(!p.is_sending());
    p.round(true, 1);
    assert!(!p.is_sending());
    p.round(true, 1);
    assert!(p.is_sending());
    let mut at_once = Promotion::new(false);
    at_once.round(true, 0);
    assert!(at_once.is_sending());
    let mut patient = Promotion::new(true);
    for _ in 0..5 {
        patient.round(true, 5);
        assert!(!patient.is_sending());
    }
    patient.round(true, 5);
    assert!(patient.is_sending());
}

#[test]
fn live_numbers_are_the_highest() {
    let mut live = LiveSerials::new();
    assert_eq!(live.get("!r", "@a:x"), None);
    live.observe("!r", "@a:x", 0);
    assert_eq!(live.get("!r", "@a:x"), Some(0));
    live.observe("!r", "@a:x", 5);
    live.observe("!r", "@a:x", 3);
    live.observe("!s", "@a:x", 9);
    live.observe("!r", "@b:x", 7);
    assert_eq!(live.get("!r", "@a:x"), Some(5));
    assert_eq!(live.get("!s", "@a:x"), Some(9));
    assert_eq!(live.get("!r", "@b:x"), Some(7));
    assert_eq!(live.get("!s", "@b:x"), None);
}

#[test]
fn next_number_is_raised() {
    assert_eq!(merge_live(None, None), None);
    assert_eq!(merge_live(Some(4), None), Some(4));
    assert_eq!(merge_live(None, Some(6)), Some(7));
    assert_eq!(merge_live(Some(4), Some(6)), Some(7));
    assert_eq!(merge_live(Some(7), Some(6)), Some(7));
    assert_eq!(merge_live(Some(9), Some(6)), Some(9));
}

#[test]
fn rooms_come_and_go() {
    let mut rooms = Rooms::new();
    for id in ["!a", "!b", "!c", "!a"] {
        rooms.discover(id.to_owned());
    }
    assert_eq!(rooms.list.len(), 3);
    assert!(rooms.is_tracked(&"!b".to_owned()));
    assert_eq!(rooms.verify_candidates(), [0, 1, 2]);
    assert!(rooms.send_candidates(true).is_empty());
    rooms.list[0].state.next_serial = Some(3);
    rooms.list[1].state.fully_verified = true;
    rooms.list[1].state.next_serial = Some(1);
    rooms.list[2].state.failed = true;
    rooms.list[2].state.next_serial = Some(1);
    assert_eq!(rooms.verify_candidates(), [0]);
    assert_eq!(rooms.send_candidates(true), [0, 1]);
    assert!(rooms.send_candidates(false).is_empty());
    let mut live = LiveSerials::new();
    live.observe("!b", "@me:x", 10);
    live.observe("!a", "@you:x", 10);
    rooms.merge_serials(&live, "@me:x");
    assert_eq!(rooms.list[0].state.next_serial, Some(3));
    assert_eq!(rooms.list[1].state.next_serial, Some(11));
    rooms.forget_left(&strings(&["!c", "!b", "!z"]));
    let left: Vec<&str> = rooms.list.iter().map(|r| r.room_id.as_str()).collect();
    assert_eq!(left, ["!b", "!c"]);
    assert_eq!(rooms.list[0].state.next_serial, Some(11));
    assert!(!rooms.is_tracked(&"!a".to_owned()));
}

#[test]
fn peers_without_direct_room() {
    let peers: Vec<Mxid> =
        ["@a:x", "@b:x", "@c:x"].iter().map(|s| Mxid::parse(s).unwrap()).collect();
    let targets = vec![strings(&["@b:x"]), strings(&["@a:x", "@c:x"]), strings(&[])];
    assert_eq!(dm_candidates(&peers, &targets, true), [0, 2]);
    assert!(dm_candidates(&peers, &targets, false).is_empty());
    assert_eq!(
        describe_dm("@a:x", &Ok("!r:x".to_owned())),
        "🤝 Created DM !r:x with @a:x"
    );
    assert_eq!(
        describe_dm("@a:x", &Err("no".to_owned())),
        "✘ Failed to create DM with @a:x: no"
    );
}

#[test]
fn candidates_take_turns() {
    let mut turn = 0;
    let picks: Vec<usize> = (0..7).map(|_| pick(&mut turn, 3).unwrap()).collect();
    assert_eq!(picks, [0, 1, 2, 0, 1, 2, 0]);
    assert_eq!(pick(&mut turn, 0), None);
    assert_eq!(turn, 7);
    let mut last = usize::MAX;
    assert_eq!(pick(&mut last, 2), Some(1));
    assert_eq!(last, 0);
}

#[test]
fn actions_rotate() {
    let mut cycle = ActionCycle::new();
    let order = |c: &ActionCycle| [c.action(0), c.action(1), c.action(2)];
    assert_eq!(order(&cycle), [Action::Verify, Action::Send, Action::CreateDm]);
    cycle.end_round(false);
    assert_eq!(cycle.action(0), Action::Verify);
    cycle.end_round(true);
    assert_eq!(order(&cycle), [Action::Send, Action::CreateDm, Action::Verify]);
    cycle.end_round(true);
    cycle.end_round(true);
    assert_eq!(cycle.action(0), Action::Verify);
}

#[test]
fn next_action_is_tried_if_nothing_was_done() {
    assert_eq!(ActionCycle::next_place(0, false), Some(1));
    assert_eq!(ActionCycle::next_place(1, false), Some(2));
    assert_eq!(ActionCycle::next_place(2, false), None);
    for place in 0..3 {
        assert_eq!(ActionCycle::next_place(place, true), None);
    }
}

#[test]
fn reports_on_pages() {
    let mut rooms = Rooms::new();
    rooms.discover("!r:x".to_owned());
    assert!(!rooms.list[0].state.started);
    let good = PageReport { count: 20, failed: false, faults: vec![] };
    let outcome = rooms.list[0].after_page(&good, true);
    assert_eq!(outcome.text, "!r:x (20 events)");
    assert!(!outcome.leave && !rooms.list[0].state.failed);
    let bad = PageReport { count: 1, failed: true, faults: vec![] };
    let outcome = rooms.list[0].after_page(&bad, false);
    assert_eq!(outcome.text, "!r:x (FAILED)");
    assert!(!outcome.leave && rooms.list[0].state.failed);
    assert!(rooms.list[0].after_page(&bad, true).leave);
}

// ── Sending and receiving ───────────────────────────────────────────────

fn accounts() -> AccountList {
    AccountList::parse("@me:x @you:x", ListFile::Missing)
}

#[test]
fn text_message_to_a_direct_room() {
    let mut state = RoomVerificationState::new();
    state.next_serial = Some(42);
    let plan = plan_message(&state, 1_719_484_800_000, None, &strings(&["@you:x"]), &accounts(), 1, 77);
    assert_eq!(plan.serial, 42);
    assert_eq!(plan.text, "Message #42 1719484800000");
    assert!(plan.image.is_none());
    assert_eq!(plan.datapoint.timestamp_us, 77);
    assert_eq!((plan.datapoint.sender, plan.datapoint.receiver), (1, 2));
    assert_eq!((plan.datapoint.serial, plan.datapoint.delivery_us), (42, 0));
    assert_eq!(plan.datapoint.media_size, 0);
    assert_eq!(after_send(&mut state, plan.serial, false, "!r:x", false), None);
    assert_eq!(state.next_serial, Some(42));
    assert_eq!(
        after_send(&mut state, plan.serial, false, "!r:x", true),
        Some("text #42 to !r:x".to_owned())
    );
    assert_eq!(state.next_serial, Some(43));
}

#[test]
fn image_to_a_larger_room() {
    let mut state = RoomVerificationState::new();
    let targets = strings(&["@you:x", "@other:x"]);
    let plan = plan_send(&state, 5, true, &targets, &accounts(), 1, 77);
    assert_eq!(plan.serial, 1);
    let image = plan.image.unwrap();
    assert!(validate_png(&image).is_ok());
    assert_eq!(plan.datapoint.media_size as usize, image.len());
    assert_eq!(plan.datapoint.receiver, 0);
    assert_eq!(parse_message_body(&plan.text), Some((1, 5)));
    assert_eq!(
        after_send(&mut state, 1, true, "!r:x", true),
        Some("media #1 to !r:x".to_owned())
    );
    assert!(plan_send(&state, 5, false, &targets, &accounts(), 1, 77).image.is_none());
    assert_eq!((kind_of(true), kind_of(false)), ("media", "text"));
}

#[test]
fn sent_messages_pass_the_check() {
    let mut state = RoomVerificationState::new();
    let mut events = Vec::new();
    for ms in 0..3 {
        let plan = plan_message(&state, ms, None, &vec![], &accounts(), 1, 0);
        events.insert(0, PageEvent::Text { sender: "@me:x".to_owned(), body: plan.text });
        after_send(&mut state, plan.serial, false, "!r:x", true);
    }
    let mut check = RoomVerificationState::new();
    assert!(!check.verify_page("@me:x", &events, None).failed);
    assert_eq!(check.next_serial, state.next_serial);
}

#[test]
fn incoming_events() {
    assert_eq!(classify(&None), Incoming::NoText);
    assert_eq!(classify(&Some("hi".to_owned())), Incoming::Other);
    assert_eq!(
        classify(&Some("Message #3 9".to_owned())),
        Incoming::Message { serial: 3, sent_ms: 9 }
    );
}

#[test]
fn deliveries() {
    let me = Mxid::parse("@me:x").unwrap();
    let you = Mxid::parse("@you:x").unwrap();
    let d = measure(3, 1_000, 1_250, &None, &me, &you, &accounts(), 1, 7);
    assert_eq!((d.delivery_ms, d.media_size_bytes, d.valid), (250, None, true));
    assert_eq!(d.distance, Distance::SameServer);
    assert_eq!((d.datapoint.sender, d.datapoint.receiver), (2, 1));
    assert_eq!((d.datapoint.serial, d.datapoint.delivery_us), (3, 250_000));
    let skewed = measure(3, 2_000, 1_000, &None, &me, &me, &accounts(), 1, 7);
    assert_eq!((skewed.delivery_ms, skewed.datapoint.delivery_us), (0, 1));
    assert_eq!(skewed.distance, Distance::SameUser);
    let slow = measure(3, 0, u64::MAX, &None, &me, &you, &accounts(), 1, 7);
    assert_eq!(slow.datapoint.delivery_us, u32::MAX);
    let png = generate_png();
    let size = png.len() as u64;
    let media = Some(Download::Data(png));
    let image = measure(3, 0, 1, &media, &me, &you, &accounts(), 1, 7);
    assert_eq!((image.media_size_bytes, image.valid), (Some(size), true));
    assert_eq!(image.datapoint.media_size as u64, size);
    let broken = Some(Download::Data(vec![1, 2]));
    let d = measure(3, 0, 1, &broken, &me, &you, &accounts(), 1, 7);
    assert_eq!((d.media_size_bytes, d.valid, d.datapoint.media_size), (Some(2), false, 2));
    let missing = Some(Download::Failed);
    let d = measure(3, 0, 1, &missing, &me, &you, &accounts(), 1, 7);
    assert_eq!((d.media_size_bytes, d.valid, d.datapoint.media_size), (None, false, 0));
}

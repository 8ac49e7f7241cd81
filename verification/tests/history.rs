use nerve::history::{Download, EventFault, PageEvent, RoomVerificationState};
use nerve::image::generate_png;
use nerve::message::{message_text, parse_message_body};

const ME: &str = "@me:x";

fn text(sender: &str, body: &str) -> PageEvent {
    PageEvent::Text { sender: sender.to_owned(), body: body.to_owned() }
}

fn numbered(sender: &str, serial: u64) -> PageEvent {
    text(sender, &message_text(serial, 1_719_484_800_000))
}

fn hidden(sender: &str) -> PageEvent {
    PageEvent::Undecryptable { known_sender: Some(sender.to_owned()) }
}

fn image(sender: &str, caption: Option<&str>, media: Download) -> PageEvent {
    PageEvent::Image { sender: sender.to_owned(), caption: caption.map(str::to_owned), media }
}

#[test]
fn message_texts() {
    assert_eq!(message_text(42, 1_719_484_800_000), "Message #42 1719484800000");
    assert_eq!(parse_message_body("Message #42 1719484800000"), Some((42, 1_719_484_800_000)));
    assert_eq!(parse_message_body("Message #+1 +2"), Some((1, 2)));
    for bad in [
        "", "Message #", "Message #1", "Message #1 ", "Message # 1", "Message #1  2",
        "message #1 2", "Message #1 2 3", "Message #x 2", "Message #18446744073709551616 2",
    ] {
        assert_eq!(parse_message_body(bad), None, "{bad:?}");
    }
    for n in [0, 1, u64::MAX] {
        assert_eq!(parse_message_body(&message_text(n, n)), Some((n, n)));
    }
}

#[test]
fn honest_history_tells_the_next_number() {
    let mut room = RoomVerificationState::new();
    assert!(room.needs_verification() && !room.is_send_eligible());
    let page = vec![
        numbered("@you:x", 7),
        numbered(ME, 5),
        PageEvent::State,
        numbered("@you:x", 6),
        numbered(ME, 4),
    ];
    let report = room.verify_page(ME, &page, Some("next".to_owned()));
    assert_eq!(report.count, 5);
    assert!(!report.failed);
    assert!(report.faults.iter().all(Option::is_none));
    assert_eq!(room.next_serial, Some(6));
    assert_eq!(room.pagination_token.as_deref(), Some("next"));
    assert!(room.needs_verification() && room.is_send_eligible());
    let report = room.verify_page(ME, &vec![numbered(ME, 3)], None);
    assert!(!report.failed);
    assert_eq!(room.next_serial, Some(6));
    assert!(!room.needs_verification() && room.fully_verified);
    let report = room.verify_page(ME, &vec![numbered(ME, 9)], Some("x".to_owned()));
    assert_eq!((report.count, report.failed), (0, false));
}

#[test]
fn room_without_messages_begins_with_one() {
    let mut room = RoomVerificationState::new();
    let report = room.verify_page(ME, &vec![], Some("more".to_owned()));
    assert_eq!((report.count, report.failed), (0, false));
    assert!(room.fully_verified);
    assert_eq!(room.next_serial, Some(1));
    assert_eq!(room.pagination_token, None);
}

#[test]
fn gaps_and_repetitions_are_found() {
    for (first, second, ok) in [(5, 4, true), (5, 3, false), (5, 5, false), (5, 6, false), (1, 0, true), (0, 9, false)] {
        let mut room = RoomVerificationState::new();
        let page = vec![numbered("@you:x", first), numbered(ME, 1), numbered("@you:x", second)];
        let report = room.verify_page(ME, &page, None);
        assert_eq!(report.failed, !ok, "{first} {second}");
        if !ok {
            assert_eq!(
                report.faults[2],
                Some(EventFault::SerialMismatch { newer: first, got: second })
            );
        }
    }
}

#[test]
fn nothing_precedes_the_number_zero() {
    let mut room = RoomVerificationState::new();
    let page = vec![text("@you:x", "Message #0 2"), text("@you:x", "Message #5 1")];
    let report = room.verify_page(ME, &page, None);
    assert_eq!((report.count, report.failed), (2, true));
    assert_eq!(
        report.faults,
        [None, Some(EventFault::SerialMismatch { newer: 0, got: 5 })]
    );
    let mut room = RoomVerificationState::new();
    let page = vec![numbered("@you:x", 2), hidden("@you:x"), hidden("@you:x"), numbered("@you:x", 7)];
    let report = room.verify_page(ME, &page, None);
    assert_eq!(report.faults[3], Some(EventFault::SerialMismatch { newer: 0, got: 7 }));
    let mut room = RoomVerificationState::new();
    let page = vec![hidden("@you:x"), numbered("@you:x", 7), hidden("@you:x"), numbered("@you:x", 5)];
    assert!(!room.verify_page(ME, &page, None).failed);
}

#[test]
fn gap_across_pages_is_found() {
    let mut room = RoomVerificationState::new();
    assert!(!room.verify_page(ME, &vec![numbered("@you:x", 9)], Some("a".to_owned())).failed);
    assert!(room.verify_page(ME, &vec![numbered("@you:x", 7)], None).failed);
}

#[test]
fn undecryptable_messages_count() {
    let mut room = RoomVerificationState::new();
    let page = vec![
        numbered("@you:x", 9),
        hidden("@you:x"),
        PageEvent::Undecryptable { known_sender: None },
        hidden("@you:x"),
        numbered("@you:x", 6),
    ];
    assert!(!room.verify_page(ME, &page, None).failed);
    let mut room = RoomVerificationState::new();
    let page = vec![numbered("@you:x", 9), hidden("@you:x"), numbered("@you:x", 8)];
    assert!(room.verify_page(ME, &page, None).failed);
    let mut room = RoomVerificationState::new();
    assert!(!room.verify_page(ME, &vec![hidden(ME)], Some("a".to_owned())).failed);
    assert_eq!(room.next_serial, None);
}

#[test]
fn events_that_do_not_belong() {
    let cases = vec![
        (PageEvent::NotAMessage, EventFault::NotAMessage),
        (PageEvent::Redacted, EventFault::Redacted),
        (PageEvent::Unsupported { sender: ME.to_owned() }, EventFault::Unsupported),
        (text(ME, "hello"), EventFault::BadFormat),
        (image(ME, None, Download::Failed), EventFault::NoCaption),
        (image(ME, Some("Message #1 2"), Download::Failed), EventFault::DownloadFailed),
        (image(ME, Some("Message #1 2"), Download::Data(vec![1])), EventFault::InvalidImage),
        (image(ME, Some("hi"), Download::Data(generate_png())), EventFault::BadFormat),
    ];
    for (event, fault) in cases {
        let mut room = RoomVerificationState::new();
        let report = room.verify_page(ME, &vec![event], Some("a".to_owned()));
        assert!(report.failed);
        assert_eq!(report.faults, [Some(fault)]);
        assert_eq!(room.next_serial, None);
    }
}

#[test]
fn images_carry_numbers() {
    let mut room = RoomVerificationState::new();
    let page = vec![
        image(ME, Some("Message #3 2"), Download::Data(generate_png())),
        numbered(ME, 2),
    ];
    assert!(!room.verify_page(ME, &page, None).failed);
    assert_eq!(room.next_serial, Some(4));
}

#[test]
fn largest_number_wraps() {
    let mut room = RoomVerificationState::new();
    room.verify_page(ME, &vec![numbered(ME, u64::MAX)], Some("a".to_owned()));
    assert_eq!(room.next_serial, Some(0));
}

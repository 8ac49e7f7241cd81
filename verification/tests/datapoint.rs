use nerve::clock::{micros_of, millis_of, now_micros, now_millis};
use nerve::datapoint::{
    clamp_u32, collector_endpoint, AccountList, Datapoint, LinkAction, LinkEvent, LinkState,
    ListFile, STRIDE,
};

#[test]
fn record_layout() {
    let dp = Datapoint::new(0x0102_0304_0506_0708, 0x1112_1314, 0x2122_2324, 9, 5, 6);
    let bytes = dp.to_bytes();
    assert_eq!(bytes.len(), STRIDE);
    assert_eq!(&bytes[0..8], &[8, 7, 6, 5, 4, 3, 2, 1]);
    assert_eq!(&bytes[8..12], &[0x14, 0x13, 0x12, 0x11]);
    assert_eq!(&bytes[12..16], &[0x24, 0x23, 0x22, 0x21]);
    assert_eq!(&bytes[16..24], &[9, 0, 0, 0, 0, 0, 0, 0]);
    assert_eq!(&bytes[24..28], &[5, 0, 0, 0]);
    assert_eq!(&bytes[28..32], &[6, 0, 0, 0]);
}

#[test]
fn large_fields_are_cut() {
    assert_eq!(clamp_u32(u32::MAX as u64), u32::MAX);
    assert_eq!(clamp_u32(u32::MAX as u64 + 1), u32::MAX);
    assert_eq!(clamp_u32(7), 7);
    let dp = Datapoint::new(1, 2, 3, 4, u64::MAX, 1 << 40);
    assert_eq!(dp.delivery_us, u32::MAX);
    assert_eq!(dp.media_size, u32::MAX);
}

#[test]
fn clock_readings() {
    assert_eq!(micros_of(None), 0);
    assert_eq!(micros_of(Some((1, 999_999_999))), 1_999_999);
    assert_eq!(micros_of(Some((u64::MAX, 0))), u64::MAX.wrapping_mul(1_000_000));
    assert_eq!(millis_of(None), None);
    assert_eq!(millis_of(Some((1_719_484_800, 1_999_999))), Some(1_719_484_800_001));
    assert_eq!(millis_of(Some((u64::MAX, 0))), Some(u64::MAX.wrapping_mul(1_000)));
    let ms = now_millis().unwrap();
    let us = now_micros();
    assert!(ms > 1_700_000_000_000);
    assert!(us / 1000 >= ms && us / 1000 < ms + 10_000);
}

#[test]
fn accounts_listed_in_the_value() {
    let list = AccountList::parse("  @a:x @b:x\t@c:y\n", ListFile::Missing);
    assert_eq!(list.lookup("@a:x"), 1);
    assert_eq!(list.lookup("@b:x"), 2);
    assert_eq!(list.lookup("@c:y"), 3);
    assert_eq!(list.lookup("@d:y"), 0);
    assert_eq!(AccountList::parse("   ", ListFile::Missing).lookup(""), 0);
    assert_eq!(AccountList::empty().lookup("@a:x"), 0);
}

#[test]
fn accounts_listed_in_a_file() {
    let content = "@a:x\r\n\n  @b:x  \n@a:x";
    let list = AccountList::parse("accounts.txt", ListFile::Content(content.to_owned()));
    assert_eq!(list.lookup("@b:x"), 2);
    assert_eq!(list.lookup("@a:x"), 3);
    assert_eq!(list.lookup("accounts.txt"), 0);
    let list = AccountList::parse("accounts.txt", ListFile::Unreadable);
    assert_eq!(list.lookup("@a:x"), 0);
    let list = AccountList::parse(" ", ListFile::Content("@a:x".to_owned()));
    assert_eq!(list.lookup("@a:x"), 0);
}

#[test]
fn collector_address() {
    assert_eq!(collector_endpoint(" host:9000\n"), Some("host:9000".to_owned()));
    assert_eq!(collector_endpoint("  "), None);
}

#[test]
fn link_connects_and_sends() {
    let dp = Datapoint::new(1, 2, 3, 4, 5, 6);
    let state = LinkState::Connecting;
    assert!(matches!(state.action(), LinkAction::Connect));
    let state = state.after(LinkEvent::Connected);
    assert!(matches!(state.action(), LinkAction::Write(b) if b == [32]));
    let state = state.after(LinkEvent::Written);
    assert!(matches!(state.action(), LinkAction::Receive));
    let state = state.after(LinkEvent::Submitted(dp));
    assert!(matches!(state.action(), LinkAction::Write(b) if b == dp.to_bytes()));
    assert_eq!(state.after(LinkEvent::Written), LinkState::Idle);
    assert_eq!(state.after(LinkEvent::WriteFailed), LinkState::Connecting);
    let state = LinkState::Idle.after(LinkEvent::Closed);
    assert!(matches!(state.action(), LinkAction::Stop));
}

#[test]
fn link_pauses_before_it_tries_again() {
    let refused = LinkState::Connecting.after(LinkEvent::ConnectFailed);
    assert!(matches!(refused.action(), LinkAction::Sleep(5)));
    assert_eq!(refused.after(LinkEvent::Slept), LinkState::Connecting);
    let broken = LinkState::Opening.after(LinkEvent::WriteFailed);
    assert!(matches!(broken.action(), LinkAction::Sleep(5)));
}

#[test]
fn connections_take_turns_with_the_datapoints() {
    let point = |serial| Datapoint::new(1, 2, 3, serial, 0, 0);
    let mut state = LinkState::Connecting;
    let mut next = 0;
    let mut streams: Vec<Vec<u8>> = Vec::new();
    // The third and the fourth record break their connections, and one header
    // does not get through.
    for write in [true, true, true, false, true, false, false, true, true] {
        loop {
            state = match state.action() {
                LinkAction::Connect => {
                    streams.push(Vec::new());
                    state.after(LinkEvent::Connected)
                }
                LinkAction::Receive => {
                    next += 1;
                    state.after(LinkEvent::Submitted(point(next)))
                }
                LinkAction::Sleep(_) => state.after(LinkEvent::Slept),
                LinkAction::Write(bytes) => {
                    if write {
                        streams.last_mut().unwrap().extend(bytes);
                        state = state.after(LinkEvent::Written);
                    } else {
                        state = state.after(LinkEvent::WriteFailed);
                    }
                    break;
                }
                LinkAction::Stop => unreachable!(),
            };
        }
    }
    let stream = |serials: &[u64]| {
        let mut bytes = vec![STRIDE as u8];
        serials.iter().for_each(|n| bytes.extend(point(*n).to_bytes()));
        bytes
    };
    assert_eq!(streams, [stream(&[1, 2]), stream(&[]), Vec::new(), stream(&[5])]);
}

use nerve::devices::{
    after_delete, device_name, is_first_device, is_stale, needs_delete, stale_device_ids,
    stale_device_ids_now, text_less, AfterDelete, DeleteReply, Device,
};

fn device(id: &str, name: Option<&str>, last_seen_ms: Option<u64>) -> Device {
    Device {
        device_id: id.to_owned(),
        display_name: name.map(str::to_owned),
        last_seen_ms,
    }
}

fn some(s: &str) -> Option<String> {
    Some(s.to_owned())
}

#[test]
fn order_of_texts_is_that_of_std() {
    let texts = ["", "a", "aa", "ab", "b", "A", "ä", "\u{10000}", "\u{ffff}", "0f", "10"];
    for a in texts {
        for b in texts {
            assert_eq!(text_less(a, b), a < b, "{a:?} {b:?}");
        }
    }
}

#[test]
fn staleness() {
    let now = Some((1_000, 500));
    assert!(!is_stale(None, now, 0));
    assert!(!is_stale(Some(0), None, 0));
    assert!(!is_stale(Some(700_000), Some((1_000, 0)), 300));
    assert!(is_stale(Some(700_000), Some((1_000, 1)), 300));
    assert!(is_stale(Some(699_999), now, 300));
    assert!(!is_stale(Some(2_000_000), now, 0));
    assert!(!is_stale(Some(0), Some((u64::MAX, 0)), u64::MAX));
}

#[test]
fn stale_devices_but_not_ours() {
    let devices = vec![
        device("A", None, Some(0)),
        device("B", None, Some(999_000)),
        device("C", None, Some(1)),
        device("D", None, None),
    ];
    let now = Some((1_000, 0));
    assert_eq!(stale_device_ids(&devices, &some("C"), now, 300), ["A"]);
    assert_eq!(stale_device_ids(&devices, &None, now, 300), ["A", "C"]);
    assert_eq!(stale_device_ids_now(&devices, &None, 300), ["A", "B", "C"]);
    assert!(stale_device_ids_now(&devices, &None, 1 << 40).is_empty());
}

#[test]
fn earliest_login_is_first() {
    let early = device_name(0x18f_0000_0000).unwrap();
    let late = device_name(0x190_0000_0000).unwrap();
    assert_eq!(early, "18f00000000");
    let devices = vec![
        device("A", Some(&late), None),
        device("Z", Some(&early), None),
    ];
    let none = Vec::new();
    assert!(is_first_device(&devices, &none, &some("Z")));
    assert!(!is_first_device(&devices, &none, &some("A")));
    assert!(!is_first_device(&devices, &none, &None));
    assert!(!is_first_device(&devices, &none, &some("Q")));
    let stale = vec!["Z".to_owned()];
    assert!(is_first_device(&devices, &stale, &some("A")));
    assert!(!is_first_device(&devices, &stale, &some("Z")));
    assert!(!is_first_device(&vec![], &none, &some("A")));
}

#[test]
fn devices_without_name_come_first() {
    let none = Vec::new();
    let devices = vec![
        device("A", Some(""), None),
        device("C", None, None),
        device("B", None, None),
    ];
    assert!(is_first_device(&devices, &none, &some("B")));
    let tied = vec![device("B", Some("n"), None), device("A", Some("n"), None)];
    assert!(is_first_device(&tied, &none, &some("A")));
}

#[test]
fn exactly_one_device_is_first() {
    let times = [0x190_0000_0003, 0x18f_0000_0009, 0x190_0000_0001];
    let devices: Vec<Device> = times
        .iter()
        .zip(["A", "B", "C"])
        .map(|(ms, id)| device(id, Some(&device_name(*ms).unwrap()), None))
        .collect();
    let first = |stale: &[&str]| -> Vec<&str> {
        let stale: Vec<String> = stale.iter().map(|s| s.to_string()).collect();
        ["A", "B", "C"]
            .into_iter()
            .filter(|id| is_first_device(&devices, &stale, &some(id)))
            .collect()
    };
    assert_eq!(first(&[]), ["B"]);
    assert_eq!(first(&["B"]), ["C"]);
    assert_eq!(first(&["B", "C"]), ["A"]);
    assert!(first(&["A", "B", "C"]).is_empty());
}

#[test]
fn names_have_eleven_digits() {
    assert_eq!(device_name(0).unwrap(), "00000000000");
    assert_eq!(device_name(0xfff_ffff_ffff).unwrap(), "fffffffffff");
    assert_eq!(device_name(0x1000_0000_0000), None);
}

#[test]
fn deleting_devices() {
    assert!(matches!(after_delete(DeleteReply::Deleted, "a", &None), AfterDelete::Done));
    assert!(matches!(after_delete(DeleteReply::Failed, "a", &some("p")), AfterDelete::Failed));
    let challenge = || DeleteReply::Challenged { session: some("s") };
    assert!(matches!(after_delete(challenge(), "a", &None), AfterDelete::NoPassword));
    assert!(matches!(
        after_delete(challenge(), "a", &some("p")),
        AfterDelete::Retry { user, password, session }
            if user == "a" && password == "p" && session == some("s")
    ));
}

#[test]
fn clients_in_use_agree() {
    let devices = vec![
        device("A", Some("3"), Some(990_000)),
        device("B", Some("2"), Some(995_000)),
        device("C", Some("1"), Some(1_000)),
        device("D", Some("0"), None),
    ];
    let (now, later) = (Some((1_000, 0)), Some((1_001, 0)));
    let stale = stale_device_ids(&devices, &some("A"), now, 60);
    assert_eq!(stale, ["C"]);
    assert!(needs_delete(&stale));
    assert_eq!(stale_device_ids(&devices, &some("B"), later, 60), stale);
    assert_eq!(stale_device_ids(&devices, &some("D"), later, 60), stale);
    let first: Vec<&str> = ["A", "B", "D"]
        .into_iter()
        .filter(|id| {
            let stale = stale_device_ids(&devices, &some(id), now, 60);
            is_first_device(&devices, &stale, &some(id))
        })
        .collect();
    assert_eq!(first, ["D"]);
    assert!(!needs_delete(&stale_device_ids(&devices, &some("C"), now, 60)));
}

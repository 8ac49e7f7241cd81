use nerve::collector::{
    parse_command, parse_stride, AcceptEvent, Command, Connection, NextAccept, NextRead, ReadEvent,
    StrideError, Tokens, DEFAULT_ADDR,
};
use nerve::datapoint::Datapoint;

fn args(list: &[&str]) -> Vec<String> {
    list.iter().map(|s| s.to_string()).collect()
}

#[test]
fn strides() {
    assert_eq!(parse_stride("0"), Ok(256));
    assert_eq!(parse_stride("1"), Ok(1));
    assert_eq!(parse_stride("256"), Ok(256));
    assert_eq!(parse_stride("257"), Err(StrideError::TooLarge));
    assert_eq!(parse_stride("65536"), Err(StrideError::NotANumber));
    assert_eq!(parse_stride("x"), Err(StrideError::NotANumber));
    assert_eq!(StrideError::TooLarge.message(), "stride must be 0..=256 (0 means 256)");
    assert_eq!(StrideError::NotANumber.message(), "stride must be 0..=256");
}

#[test]
fn commands() {
    assert!(matches!(parse_command(&args(&[])), Command::Missing));
    for help in ["-h", "--help", "help"] {
        assert!(matches!(parse_command(&args(&[help])), Command::Help));
    }
    assert!(matches!(parse_command(&args(&["run"])), Command::Unknown(c) if c == "run"));
    assert!(matches!(parse_command(&args(&["serve"])), Command::MissingStride));
    assert!(matches!(
        parse_command(&args(&["serve", "300"])),
        Command::BadStride(StrideError::TooLarge)
    ));
    assert!(matches!(
        parse_command(&args(&["serve", "32"])),
        Command::Serve { stride: 32, addr, file: None } if addr == DEFAULT_ADDR
    ));
    assert!(matches!(
        parse_command(&args(&["serve", "0", "[::]:9", "/tmp/x"])),
        Command::Serve { stride: 256, addr, file: Some(f) } if addr == "[::]:9" && f == "/tmp/x"
    ));
    assert!(matches!(parse_command(&args(&["cat"])), Command::Cat { file: None }));
    assert!(matches!(
        parse_command(&args(&["cat", "f", "g"])),
        Command::Cat { file: Some(f) } if f == "f"
    ));
}

fn feed(stride: usize, reads: &[&[u8]]) -> (Vec<u8>, bool, usize) {
    let mut connection = Connection::new();
    let mut file = Vec::new();
    for read in reads {
        let (append, next) = connection.on_read(stride, ReadEvent::Data(read.to_vec()));
        file.extend(append);
        if next == NextRead::Close {
            return (file, true, connection.pending.len());
        }
        assert_eq!(next, NextRead::Again);
    }
    (file, false, connection.pending.len())
}

#[test]
fn wrong_header_closes() {
    assert_eq!(feed(4, &[&[5, 1, 2, 3, 4]]), (vec![], true, 0));
    assert_eq!(feed(4, &[&[0]]), (vec![], true, 0));
    assert_eq!(feed(256, &[&[0, 1]]), (vec![], false, 1));
}

#[test]
fn only_whole_records_are_appended() {
    assert_eq!(feed(4, &[&[4, 1, 2, 3]]), (vec![], false, 3));
    assert_eq!(
        feed(4, &[&[4, 1, 2, 3], &[4, 5], &[6, 7, 8, 9, 10]]),
        (vec![1, 2, 3, 4, 5, 6, 7, 8], false, 2)
    );
}

#[test]
fn cuts_between_reads_do_not_matter() {
    let records = [
        Datapoint::new(1, 2, 3, 4, 5, 6),
        Datapoint::new(7, 8, 9, 10, 11, 12),
        Datapoint::new(13, 14, 15, 16, 17, 18),
    ];
    let mut stored = Vec::new();
    for record in &records {
        stored.extend(record.to_bytes());
    }
    let mut stream = vec![32];
    stream.extend(&stored);
    for size in [1, 2, 31, 32, 33, 64, 97] {
        let reads: Vec<&[u8]> = stream.chunks(size).collect();
        assert_eq!(feed(32, &reads), (stored.clone(), false, 0), "{size}");
    }
}

#[test]
fn other_outcomes_of_reading() {
    let mut connection = Connection::new();
    for (event, next) in [
        (ReadEvent::Interrupted, NextRead::Again),
        (ReadEvent::WouldBlock, NextRead::Wait),
        (ReadEvent::Failed, NextRead::Close),
        (ReadEvent::End, NextRead::Close),
        (ReadEvent::Data(vec![]), NextRead::Close),
    ] {
        assert_eq!(connection.on_read(4, event), (vec![], next));
    }
}

#[test]
fn tokens_skip_the_listener() {
    let mut tokens = Tokens::new();
    assert_eq!(tokens.on_accept(AcceptEvent::Accepted), NextAccept::Keep(1));
    assert_eq!(tokens.on_accept(AcceptEvent::Interrupted), NextAccept::Again);
    assert_eq!(tokens.on_accept(AcceptEvent::WouldBlock), NextAccept::Wait);
    assert_eq!(tokens.on_accept(AcceptEvent::Failed), NextAccept::ReportAndWait);
    assert_eq!(tokens.on_accept(AcceptEvent::Accepted), NextAccept::Keep(2));
    let mut last = Tokens { next: usize::MAX };
    assert_eq!(last.take(), usize::MAX);
    assert_eq!(last.take(), 1);
}

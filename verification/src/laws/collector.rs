//! The datapoint server.
use crate::collector::intake_valid;
use crate::collector::lemma_commands_differ;
use crate::collector::lemma_rest;
use crate::collector::parse_command;
use crate::collector::parse_stride;
use crate::collector::run_cat;
use crate::collector::whole;
use crate::collector::AcceptEvent;
use crate::collector::Command;
use crate::collector::Connection;
use crate::collector::NextAccept;
use crate::collector::NextRead;
use crate::collector::ReadEvent;
use crate::collector::StrideError;
use crate::collector::Tokens;
use crate::collector::DEFAULT_FILE;
use crate::number::parse_number;
use crate::number::NumberError;
use vstd::prelude::*;

verus! {

// ── Command line ────────────────────────────────────────────────────────

/// A record size is a number up to 256; 0 stands for 256.
pub proof fn record_sizes_go_to_256(
    s: &str,
    chars: &Vec<char>,
    n: Result<u64, NumberError>,
    r: Result<usize, StrideError>,
)
    requires
        chars@ == s@,
        call_ensures(parse_number, (chars, 0xffff), n),
        call_ensures(parse_stride, (s,), r),
    ensures
        match n {
            Err(_) => r == Err::<usize, StrideError>(StrideError::NotANumber),
            Ok(k) => if k == 0 {
                r == Ok::<usize, StrideError>(256)
            } else if k <= 256 {
                r matches Ok(size) && size == k
            } else {
                r == Err::<usize, StrideError>(StrideError::TooLarge)
            },
        },
{
}

/// What is wrong with a text that is no record size.
pub proof fn size_errors_are_described(e: &StrideError, r: String)
    requires
        call_ensures(StrideError::message, (e,), r),
    ensures
        *e is NotANumber ==> r@ == "stride must be 0..=256"@,
        *e is TooLarge ==> r@ == "stride must be 0..=256 (0 means 256)"@,
{
}

/// `serve` takes a record size, an address and a file; without an address it
/// listens on all interfaces, on port 9000. What is wrong with the record size
/// is told.
pub proof fn serve_takes_size_address_and_file(
    args: &Vec<String>,
    r: Command,
    size: &str,
    stride: Result<usize, StrideError>,
)
    requires
        args@.len() > 0,
        args@[0]@ == "serve"@,
        call_ensures(parse_command, (args,), r),
        args@.len() > 1 ==> size@ == args@[1]@ && call_ensures(parse_stride, (size,), stride),
    ensures
        args@.len() == 1 ==> r is MissingStride,
        args@.len() > 1 ==> match stride {
            Err(e) => r == Command::BadStride(e),
            Ok(n) => {
                &&& r matches Command::Serve { stride: m, addr, file }
                &&& m == n
                &&& args@.len() == 2 ==> addr@ == "0.0.0.0:9000"@
                &&& args@.len() > 2 ==> addr@ == args@[2]@
                &&& args@.len() <= 3 ==> file is None
                &&& args@.len() > 3 ==> (file matches Some(name) && name@ == args@[3]@)
            },
        },
{
    lemma_commands_differ();
}

proof fn lemma_names_differ()
    ensures
        "cat"@ != "serve"@,
        "-h"@ != "serve"@,
        "--help"@ != "serve"@,
        "help"@ != "serve"@,
        "-h"@ != "cat"@,
        "--help"@ != "cat"@,
        "help"@ != "cat"@,
{
    reveal_strlit("serve");
    reveal_strlit("cat");
    reveal_strlit("-h");
    reveal_strlit("--help");
    reveal_strlit("help");
    assert("serve"@.len() == 5 && "cat"@.len() == 3);
    assert("-h"@.len() == 2 && "--help"@.len() == 6 && "help"@.len() == 4);
}

/// `cat` takes a file, the words for help ask for help, and another word is no
/// command.
pub proof fn other_words_are_told_apart(args: &Vec<String>, r: Command)
    requires
        call_ensures(parse_command, (args,), r),
    ensures
        args@.len() == 0 <==> r is Missing,
        args@.len() > 0 && args@[0]@ == "cat"@ ==> {
            &&& r matches Command::Cat { file }
            &&& args@.len() == 1 ==> file is None
            &&& args@.len() > 1 ==> (file matches Some(name) && name@ == args@[1]@)
        },
        r is Help <==> args@.len() > 0 && (args@[0]@ == "-h"@ || args@[0]@ == "--help"@
            || args@[0]@ == "help"@),
        args@.len() > 0 && args@[0]@ != "serve"@ && args@[0]@ != "cat"@ && r !is Help ==> (r
            matches Command::Unknown(name) && name@ == args@[0]@),
{
    lemma_names_differ();
}

/// Without an argument the records are in this file, among the temporary ones.
pub proof fn records_have_a_default_file()
    ensures
        DEFAULT_FILE@ == "datapoint.bin"@,
{
}

/// The file of `cat` is the argument behind it.
pub proof fn cat_names_its_file(args: &Vec<String>, r: Command)
    requires
        call_ensures(run_cat, (args,), r),
    ensures
        r matches Command::Cat { file } && (args@.len() <= 1 ==> file is None) && (args@.len() > 1
            ==> (file matches Some(name) && name@ == args@[1]@)),
{
}

// ── Connections ─────────────────────────────────────────────────────────

/// A new connection has brought neither the header nor anything else.
pub proof fn new_connections_are_blank(r: Connection)
    requires
        call_ensures(Connection::new, (), r),
    ensures
        !r.got_header,
        r.pending@.len() == 0,
{
}

/// After the header nothing is lost, doubled or reordered: what goes to the file
/// and what waits are, one behind the other, what waited before and what has
/// arrived. Whole records go to the file, and less than a record waits.
pub proof fn records_are_passed_on(
    c: &mut Connection,
    stride: usize,
    bytes: Vec<u8>,
    r: (Vec<u8>, NextRead),
)
    requires
        1 <= stride <= 256,
        intake_valid(old(c)@, stride as int),
        old(c).got_header,
        bytes@.len() > 0,
        call_ensures(Connection::on_read, (c, stride, ReadEvent::Data(bytes)), r),
    ensures
        r.0@ + final(c).pending@ == old(c).pending@ + bytes@,
        r.0@.len() % stride as nat == 0,
        final(c).pending@.len() < stride,
        final(c).got_header,
        r.1 == NextRead::Again,
{
    let all = old(c).pending@ + bytes@;
    let full = whole(all.len() as int, stride as int);
    lemma_rest(all.len() as int, stride as int);
    assert(all.take(full) + all.skip(full) =~= all);
}

/// The first byte announces the record size, where 0 stands for 256. If it is
/// that of the server, the bytes behind it are records; if not, the connection
/// is closed and nothing is kept.
pub proof fn first_byte_is_the_header(
    c: &mut Connection,
    stride: usize,
    bytes: Vec<u8>,
    r: (Vec<u8>, NextRead),
)
    requires
        1 <= stride <= 256,
        intake_valid(old(c)@, stride as int),
        !old(c).got_header,
        bytes@.len() > 0,
        call_ensures(Connection::on_read, (c, stride, ReadEvent::Data(bytes)), r),
    ensures
        bytes@[0] == stride || (bytes@[0] == 0 && stride == 256) ==> {
            &&& r.0@ + final(c).pending@ == bytes@.skip(1)
            &&& r.0@.len() % stride as nat == 0
            &&& final(c).pending@.len() < stride
            &&& final(c).got_header
            &&& r.1 == NextRead::Again
        },
        !(bytes@[0] == stride || (bytes@[0] == 0 && stride == 256)) ==> {
            &&& r.0@.len() == 0
            &&& r.1 == NextRead::Close
            &&& !final(c).got_header
            &&& final(c).pending@.len() == 0
        },
{
    let all = old(c).pending@ + bytes@.skip(1);
    assert(all =~= bytes@.skip(1));
    let full = whole(all.len() as int, stride as int);
    lemma_rest(all.len() as int, stride as int);
    assert(all.take(full) + all.skip(full) =~= all);
}

/// Whatever else comes of a read, nothing is stored and nothing is forgotten. The
/// end and a failure close the connection; where there is nothing to read the
/// server waits, and after an interruption it reads again.
pub proof fn other_reads_store_nothing(
    c: &mut Connection,
    stride: usize,
    event: ReadEvent,
    r: (Vec<u8>, NextRead),
)
    requires
        1 <= stride <= 256,
        intake_valid(old(c)@, stride as int),
        call_ensures(Connection::on_read, (c, stride, event), r),
        event matches ReadEvent::Data(bytes) ==> bytes@.len() == 0,
    ensures
        r.0@.len() == 0,
        final(c).got_header == old(c).got_header,
        final(c).pending@ == old(c).pending@,
        r.1 == NextRead::Wait <==> event is WouldBlock,
        r.1 == NextRead::Again <==> event is Interrupted,
{
    assert(final(c)@ == old(c)@);
    assert(final(c)@.pending == final(c).pending@);
}

// ── Accepting ───────────────────────────────────────────────────────────

/// Connections are numbered from 1 on, one by one; the number of the listener, 0,
/// is skipped when the numbers begin anew.
pub proof fn connections_are_numbered(
    first: Tokens,
    t: &mut Tokens,
    r: usize,
    u: &mut Tokens,
    event: AcceptEvent,
    next: NextAccept,
)
    requires
        call_ensures(Tokens::new, (), first),
        old(t).next != 0,
        call_ensures(Tokens::take, (t,), r),
        *old(u) == *old(t),
        call_ensures(Tokens::on_accept, (u, event), next),
    ensures
        first.next == 1,
        r == old(t).next,
        final(t).next != 0,
        old(t).next < usize::MAX ==> final(t).next == old(t).next + 1,
        old(t).next == usize::MAX ==> final(t).next == 1,
        event is Accepted ==> next == NextAccept::Keep(r) && *final(u) == *final(t),
        event !is Accepted ==> *final(u) == *old(u),
        event is WouldBlock ==> next is Wait,
        event is Interrupted ==> next is Again,
        event is Failed ==> next is ReportAndWait,
{
}

/// A new connection can be read from, and what a read leaves can be read from
/// further.
pub proof fn reads_can_go_on(
    fresh: Connection,
    c: &mut Connection,
    stride: usize,
    event: ReadEvent,
    r: (Vec<u8>, NextRead),
    next: &mut Connection,
)
    requires
        1 <= stride <= 256,
        call_ensures(Connection::new, (), fresh),
        intake_valid(old(c)@, stride as int),
        call_ensures(Connection::on_read, (c, stride, event), r),
        *old(next) == fresh || *old(next) == *final(c),
    ensures
        call_requires(Connection::on_read, (next, stride, event)),
{
}

} // verus!

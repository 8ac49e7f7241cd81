//! The datapoint server: it gathers fixed-size records from many connections
//! in one file.
//!
//! A client first sends one header byte, the size of its records in bytes (0
//! stands for 256). If that is not the size that the server was started with,
//! the connection is closed. After the header come records back to back; the
//! server appends them to the file whole.
use crate::datapoint::record_bytes;
use crate::datapoint::stream_bytes;
use crate::datapoint::wire_length;
use crate::datapoint::Datapoint;
use crate::number::number_of;
use crate::number::parse_number;
use crate::text::chars_of;
use vstd::arithmetic::div_mod::lemma_div_multiples_vanish_fancy;
use vstd::prelude::*;

verus! {

/// Where the server listens unless told otherwise.
pub const DEFAULT_ADDR: &'static str = "0.0.0.0:9000";

/// The name of the file in the directory for temporary files.
pub const DEFAULT_FILE: &'static str = "datapoint.bin";

// ── Command line ────────────────────────────────────────────────────────

/// Why a text is not a record size.
#[derive(Debug, Clone, Copy, PartialEq, Eq, Structural)]
pub enum StrideError {
    /// It is not a number of at most 16 bits.
    NotANumber,
    /// It is more than 256.
    TooLarge,
}

impl StrideError {
    /// The text that describes the error.
    pub open spec fn text(self) -> Seq<char> {
        match self {
            StrideError::NotANumber => "stride must be 0..=256"@,
            StrideError::TooLarge => "stride must be 0..=256 (0 means 256)"@,
        }
    }

    /// A description of the error for people.
    pub fn message(&self) -> (r: String)
        ensures
            r@ == self.text(),
    {
        match self {
            StrideError::NotANumber => "stride must be 0..=256".to_owned(),
            StrideError::TooLarge => "stride must be 0..=256 (0 means 256)".to_owned(),
        }
    }
}

/// The record size that a text stands for.
pub open spec fn stride_of(s: Seq<char>) -> Result<nat, StrideError> {
    match number_of(s, u16::MAX as nat) {
        Err(_) => Err(StrideError::NotANumber),
        Ok(n) => if n == 0 {
            Ok(256)
        } else if n <= 256 {
            Ok(n)
        } else {
            Err(StrideError::TooLarge)
        },
    }
}

/// The record size that a text stands for: 1 to 256, with 0 for 256.
pub fn parse_stride(s: &str) -> (r: Result<usize, StrideError>)
    ensures
        match (r, stride_of(s@)) {
            (Ok(v), Ok(n)) => v as nat == n && 1 <= v <= 256,
            (Err(e), Err(f)) => e == f,
            _ => false,
        },
{
    match parse_number(&chars_of(s), u16::MAX as u64) {
        Err(_) => Err(StrideError::NotANumber),
        Ok(n) => if n == 0 {
            Ok(256)
        } else if n <= 256 {
            Ok(n as usize)
        } else {
            Err(StrideError::TooLarge)
        },
    }
}

/// What the command line asks for.
#[derive(Debug)]
pub enum Command {
    /// There is no subcommand.
    Missing,
    /// The usage text.
    Help,
    /// A subcommand that does not exist.
    Unknown(String),
    /// `serve` without a record size.
    MissingStride,
    /// `serve` with something that is no record size.
    BadStride(StrideError),
    /// Gather records of `stride` bytes from connections to `addr` in `file`,
    /// or in the default file.
    Serve { stride: usize, addr: String, file: Option<String> },
    /// Print the file, or the default file.
    Cat { file: Option<String> },
}

/// Whether `r` is the argument at `i`, if there is one.
pub open spec fn is_arg(r: Option<String>, args: Seq<String>, i: int) -> bool {
    match r {
        Some(text) => i < args.len() && text@ == args[i]@,
        None => i >= args.len(),
    }
}

/// Whether `command` is what the arguments after the program's name ask for.
pub open spec fn is_command(command: Command, args: Seq<String>) -> bool {
    if args.len() == 0 {
        command is Missing
    } else if args[0]@ == "serve"@ {
        if args.len() == 1 {
            command is MissingStride
        } else {
            match stride_of(args[1]@) {
                Err(e) => command == Command::BadStride(e),
                Ok(n) => {
                    &&& command matches Command::Serve { stride, addr, file }
                    &&& stride as nat == n
                    &&& addr@ == (if args.len() > 2 {
                        args[2]@
                    } else {
                        DEFAULT_ADDR@
                    })
                    &&& is_arg(file, args, 3)
                },
            }
        }
    } else if args[0]@ == "cat"@ {
        &&& command matches Command::Cat { file }
        &&& is_arg(file, args, 1)
    } else if args[0]@ == "-h"@ || args[0]@ == "--help"@ || args[0]@ == "help"@ {
        command is Help
    } else {
        &&& command matches Command::Unknown(name)
        &&& name@ == args[0]@
    }
}

fn argument(args: &Vec<String>, i: usize) -> (r: Option<String>)
    ensures
        is_arg(r, args@, i as int),
{
    if i < args.len() {
        Some(args[i].clone())
    } else {
        None
    }
}

/// The arguments of `serve`: record size, address and file.
fn run_serve(args: &Vec<String>) -> (r: Command)
    requires
        args@.len() > 0,
        args@[0]@ == "serve"@,
    ensures
        is_command(r, args@),
{
    if args.len() == 1 {
        return Command::MissingStride;
    }
    match parse_stride(args[1].as_str()) {
        Err(e) => Command::BadStride(e),
        Ok(stride) => {
            let addr = if args.len() > 2 {
                args[2].clone()
            } else {
                DEFAULT_ADDR.to_owned()
            };
            Command::Serve { stride, addr, file: argument(args, 3) }
        },
    }
}

/// The arguments of `cat`: the file.
pub fn run_cat(args: &Vec<String>) -> (r: Command)
    ensures
        r matches Command::Cat { file } && is_arg(file, args@, 1),
{
    Command::Cat { file: argument(args, 1) }
}

pub(crate) proof fn lemma_commands_differ()
    ensures
        "serve"@ != "cat"@,
{
    reveal_strlit("serve");
    reveal_strlit("cat");
    assert("serve"@.len() == 5 && "cat"@.len() == 3);
}

/// What the arguments after the program's name ask for.
pub fn parse_command(args: &Vec<String>) -> (r: Command)
    ensures
        is_command(r, args@),
{
    if args.len() == 0 {
        return Command::Missing;
    }
    proof {
        lemma_commands_differ();
    }
    if args[0] == "serve".to_owned() {
        run_serve(args)
    } else if args[0] == "cat".to_owned() {
        run_cat(args)
    } else if args[0] == "-h".to_owned() || args[0] == "--help".to_owned() || args[0]
        == "help".to_owned() {
        Command::Help
    } else {
        Command::Unknown(args[0].clone())
    }
}

// ── Connections ─────────────────────────────────────────────────────────

/// What the server knows of one connection.
#[derive(Debug)]
pub struct Connection {
    /// Whether the header byte has arrived, and was right.
    pub got_header: bool,
    /// The bytes of a record that is not complete yet.
    pub pending: Vec<u8>,
}

/// The mathematical counterpart of [`Connection`].
#[verifier::ext_equal]
pub struct Intake {
    pub got_header: bool,
    pub pending: Seq<u8>,
}

impl View for Connection {
    type V = Intake;

    open spec fn view(&self) -> Intake {
        Intake { got_header: self.got_header, pending: self.pending@ }
    }
}

/// Less than one record is pending, and nothing before the header.
pub open spec fn intake_valid(intake: Intake, stride: int) -> bool {
    &&& intake.pending.len() < stride
    &&& !intake.got_header ==> intake.pending.len() == 0
}

/// The record size that a header byte announces.
pub open spec fn announced(header: u8) -> int {
    if header == 0 {
        256
    } else {
        header as int
    }
}

/// Length of the whole records among `n` bytes.
pub open spec fn whole(n: int, stride: int) -> int {
    n / stride * stride
}

/// What becomes of bytes that arrive: what the server then knows of the
/// connection, what it appends to the file, and whether it closes the
/// connection.
#[verifier::ext_equal]
pub struct Received {
    pub intake: Intake,
    pub appended: Seq<u8>,
    pub closed: bool,
}

/// Bytes after the header: whole records go to the file, the rest waits.
pub open spec fn gather(intake: Intake, stride: int, bytes: Seq<u8>) -> Received {
    let all = intake.pending + bytes;
    let full = whole(all.len() as int, stride);
    Received {
        intake: Intake { got_header: true, pending: all.skip(full) },
        appended: all.take(full),
        closed: false,
    }
}

/// Bytes that arrive on a connection.
pub open spec fn receive(intake: Intake, stride: int, bytes: Seq<u8>) -> Received {
    if bytes.len() == 0 {
        Received { intake, appended: Seq::empty(), closed: false }
    } else if intake.got_header {
        gather(intake, stride, bytes)
    } else if announced(bytes[0]) != stride {
        Received { intake, appended: Seq::empty(), closed: true }
    } else {
        gather(intake, stride, bytes.skip(1))
    }
}

/// What reading from a connection has brought.
#[derive(Debug)]
pub enum ReadEvent {
    /// The peer has closed the connection.
    End,
    /// These bytes.
    Data(Vec<u8>),
    /// There is nothing to read now.
    WouldBlock,
    /// The call was interrupted.
    Interrupted,
    /// Another failure.
    Failed,
}

/// What the server does with the connection next.
#[derive(Debug, Clone, Copy, PartialEq, Eq, Structural)]
pub enum NextRead {
    /// Read again at once.
    Again,
    /// Wait until the connection is readable.
    Wait,
    /// Close the connection.
    Close,
}

fn announced_stride(header: u8) -> (r: usize)
    ensures
        r as int == announced(header),
{
    if header == 0 {
        256
    } else {
        header as usize
    }
}

impl Connection {
    /// A connection that has just been accepted.
    pub fn new() -> (r: Self)
        ensures
            r@ == (Intake { got_header: false, pending: Seq::empty() }),
    {
        let r = Connection { got_header: false, pending: Vec::new() };
        assert(r.pending@ =~= Seq::<u8>::empty());
        r
    }

    /// Moves the whole records among the bytes to `out` and keeps the rest.
    fn gather(&mut self, stride: usize, bytes: &Vec<u8>, from: usize, out: &mut Vec<u8>)
        requires
            1 <= stride <= 256,
            from <= bytes@.len(),
            old(self).pending@.len() < stride,
            old(self).got_header,
            old(out)@.len() == 0,
        ensures
            final(self)@ == gather(old(self)@, stride as int, bytes@.skip(from as int)).intake,
            final(out)@ == gather(old(self)@, stride as int, bytes@.skip(from as int)).appended,
    {
        let ghost all = self.pending@ + bytes@.skip(from as int);
        let ghost before = self@;
        let mut i: usize = from;
        assert(all.take(self.pending@.len() as int) =~= self.pending@);
        assert(whole(self.pending@.len() as int, stride as int) == 0) by {
            vstd::arithmetic::div_mod::lemma_basic_div(
                self.pending@.len() as int,
                stride as int,
            );
        }
        while i < bytes.len()
            invariant
                1 <= stride <= 256,
                from <= i <= bytes@.len(),
                before.pending.len() < stride,
                all == before.pending + bytes@.skip(from as int),
                self.got_header,
                self.pending@.len() < stride,
                out@.len() == whole(before.pending.len() + i - from, stride as int),
                out@ + self.pending@ == all.take(before.pending.len() + i - from),
            decreases bytes@.len() - i,
        {
            let ghost n = before.pending.len() + i - from;
            let ghost old_out = out@;
            let ghost old_pending = self.pending@;
            self.pending.push(bytes[i]);
            assert(all.take(n + 1) =~= all.take(n).push(all[n]));
            assert(old_out + self.pending@ =~= all.take(n + 1));
            proof {
                lemma_whole_step(n, stride as int, old_pending.len() as int);
            }
            if self.pending.len() == stride {
                out.append(&mut self.pending);
                assert(out@ + self.pending@ =~= all.take(n + 1));
            }
            i = i + 1;
        }
        assert(all.take(all.len() as int) =~= all);
        assert(out@ =~= all.take(whole(all.len() as int, stride as int)));
        assert(self.pending@ =~= all.skip(whole(all.len() as int, stride as int)));
    }

    /// Takes in the outcome of one read. What is to be appended to the file
    /// and what to do next come back.
    pub fn on_read(&mut self, stride: usize, event: ReadEvent) -> (r: (Vec<u8>, NextRead))
        requires
            1 <= stride <= 256,
            intake_valid(old(self)@, stride as int),
        ensures
            intake_valid(final(self)@, stride as int),
            match event {
                ReadEvent::Data(bytes) => if bytes@.len() == 0 {
                    final(self)@ == old(self)@ && r.0@.len() == 0 && r.1 == NextRead::Close
                } else {
                    let received = receive(old(self)@, stride as int, bytes@);
                    &&& final(self)@ == received.intake
                    &&& r.0@ == received.appended
                    &&& r.1 == (if received.closed {
                        NextRead::Close
                    } else {
                        NextRead::Again
                    })
                },
                ReadEvent::End | ReadEvent::Failed => final(self)@ == old(self)@ && r.0@.len() == 0
                    && r.1 == NextRead::Close,
                ReadEvent::WouldBlock => final(self)@ == old(self)@ && r.0@.len() == 0 && r.1
                    == NextRead::Wait,
                ReadEvent::Interrupted => final(self)@ == old(self)@ && r.0@.len() == 0 && r.1
                    == NextRead::Again,
            },
    {
        let mut out: Vec<u8> = Vec::new();
        match event {
            ReadEvent::End => (out, NextRead::Close),
            ReadEvent::Failed => (out, NextRead::Close),
            ReadEvent::WouldBlock => (out, NextRead::Wait),
            ReadEvent::Interrupted => (out, NextRead::Again),
            ReadEvent::Data(bytes) => {
                if bytes.len() == 0 {
                    return (out, NextRead::Close);
                }
                let ghost before = self@;
                proof {
                    gather_keeps_valid(before, stride as int, bytes@);
                    gather_keeps_valid(before, stride as int, bytes@.skip(1));
                    assert(bytes@.skip(0) =~= bytes@);
                }
                let mut from: usize = 0;
                if !self.got_header {
                    if announced_stride(bytes[0]) != stride {
                        assert(out@ =~= Seq::<u8>::empty());
                        return (out, NextRead::Close);
                    }
                    self.got_header = true;
                    from = 1;
                }
                self.gather(stride, &bytes, from, &mut out);
                (out, NextRead::Again)
            },
        }
    }
}

proof fn lemma_whole_step(n: int, stride: int, rest: int)
    requires
        0 <= n,
        1 <= stride,
        rest == n - whole(n, stride),
        0 <= rest < stride,
    ensures
        rest + 1 == stride ==> whole(n + 1, stride) == n + 1,
        rest + 1 < stride ==> whole(n + 1, stride) == whole(n, stride),
{
    let q = n / stride;
    if rest + 1 == stride {
        assert(n + 1 == stride * (q + 1)) by (nonlinear_arith)
            requires
                n == q * stride + rest,
                rest + 1 == stride,
        ;
        lemma_div_multiples_vanish_fancy(q + 1, 0, stride);
        assert((q + 1) * stride == stride * (q + 1)) by (nonlinear_arith);
    } else {
        assert(n + 1 == stride * q + (rest + 1)) by (nonlinear_arith)
            requires
                n == q * stride + rest,
        ;
        lemma_div_multiples_vanish_fancy(q, rest + 1, stride);
    }
}

/// The bytes short of whole records are fewer than one record.
pub(crate) proof fn lemma_rest(n: int, stride: int)
    requires
        0 <= n,
        1 <= stride,
    ensures
        0 <= whole(n, stride) <= n,
        n - whole(n, stride) < stride,
        whole(n, stride) % stride == 0,
{
    vstd::arithmetic::div_mod::lemma_fundamental_div_mod(n, stride);
    vstd::arithmetic::div_mod::lemma_mod_multiples_basic(n / stride, stride);
    assert(n / stride * stride == stride * (n / stride)) by (nonlinear_arith);
    vstd::arithmetic::div_mod::lemma_div_pos_is_pos(n, stride);
    assert(0 <= n / stride * stride) by (nonlinear_arith)
        requires
            0 <= n / stride,
            1 <= stride,
    ;
}

/// Gathering leaves less than one record pending.
pub proof fn gather_keeps_valid(intake: Intake, stride: int, bytes: Seq<u8>)
    requires
        1 <= stride,
    ensures
        intake_valid(gather(intake, stride, bytes).intake, stride),
{
    lemma_rest((intake.pending + bytes).len() as int, stride);
}

/// Two parts after the header are gathered as one.
proof fn lemma_gather_twice(intake: Intake, stride: int, a: Seq<u8>, b: Seq<u8>)
    requires
        1 <= stride,
        intake_valid(intake, stride),
    ensures
        ({
            let first = gather(intake, stride, a);
            let second = gather(first.intake, stride, b);
            let once = gather(intake, stride, a + b);
            once.intake == second.intake && once.appended == first.appended + second.appended
        }),
{
    let first = gather(intake, stride, a);
    let second = gather(first.intake, stride, b);
    let once = gather(intake, stride, a + b);
    let all = intake.pending + a;
    let full = whole(all.len() as int, stride);
    let rest = first.intake.pending + b;
    let more = whole(rest.len() as int, stride);
    let both = intake.pending + (a + b);
    lemma_rest(all.len() as int, stride);
    lemma_rest(rest.len() as int, stride);
    lemma_rest(both.len() as int, stride);
    assert(both =~= all.take(full) + rest);
    let q = all.len() as int / stride;
    let d = rest.len() as int;
    assert(both.len() == full + d);
    vstd::arithmetic::div_mod::lemma_fundamental_div_mod(d, stride);
    let e = d / stride;
    assert(full + d == stride * (q + e) + d % stride) by (nonlinear_arith)
        requires
            full == q * stride,
            d == stride * e + d % stride,
    ;
    lemma_div_multiples_vanish_fancy(q + e, d % stride, stride);
    assert((q + e) * stride == full + more) by (nonlinear_arith)
        requires
            full == q * stride,
            more == e * stride,
    ;
    assert(whole(both.len() as int, stride) == full + more);
    assert(once.appended =~= first.appended + second.appended);
    assert(once.intake =~= second.intake);
}

/// It makes no difference whether bytes arrive in one read or in two.
pub proof fn reads_can_be_split(intake: Intake, stride: int, a: Seq<u8>, b: Seq<u8>)
    requires
        1 <= stride,
        intake_valid(intake, stride),
    ensures
        ({
            let first = receive(intake, stride, a);
            let once = receive(intake, stride, a + b);
            if first.closed {
                once.closed && once.appended == first.appended && once.intake == first.intake
            } else {
                let second = receive(first.intake, stride, b);
                &&& once.closed == second.closed
                &&& once.intake == second.intake
                &&& once.appended == first.appended + second.appended
            }
        }),
{
    let first = receive(intake, stride, a);
    let once = receive(intake, stride, a + b);
    if a.len() == 0 {
        assert(a + b =~= b);
        assert(Seq::<u8>::empty() + once.appended =~= once.appended);
    } else if b.len() == 0 {
        assert(a + b =~= a);
        assert(first.appended + Seq::<u8>::empty() =~= first.appended);
    } else if intake.got_header {
        lemma_gather_twice(intake, stride, a, b);
    } else if announced(a[0]) == stride {
        assert((a + b)[0] == a[0]);
        assert((a + b).skip(1) =~= a.skip(1) + b);
        lemma_gather_twice(intake, stride, a.skip(1), b);
    }
}

/// All the bytes of a series of reads.
pub open spec fn joined_reads(reads: Seq<Seq<u8>>) -> Seq<u8>
    decreases reads.len(),
{
    if reads.len() == 0 {
        Seq::empty()
    } else {
        joined_reads(reads.drop_last()) + reads.last()
    }
}

/// What a series of reads makes of a new connection. Nothing is read from a
/// closed connection.
pub open spec fn receive_all(stride: int, reads: Seq<Seq<u8>>) -> Received
    decreases reads.len(),
{
    if reads.len() == 0 {
        Received {
            intake: Intake { got_header: false, pending: Seq::empty() },
            appended: Seq::empty(),
            closed: false,
        }
    } else {
        let before = receive_all(stride, reads.drop_last());
        if before.closed {
            before
        } else {
            let next = receive(before.intake, stride, reads.last());
            Received {
                intake: next.intake,
                appended: before.appended + next.appended,
                closed: next.closed,
            }
        }
    }
}

/// Less than one record is pending at any time, so the file gets whole records
/// only.
pub proof fn only_whole_records(stride: int, reads: Seq<Seq<u8>>)
    requires
        1 <= stride,
    ensures
        intake_valid(receive_all(stride, reads).intake, stride),
        receive_all(stride, reads).appended.len() % stride as nat == 0,
    decreases reads.len(),
{
    if reads.len() == 0 {
        vstd::arithmetic::div_mod::lemma_small_mod(0, stride as nat);
    } else {
        let before = receive_all(stride, reads.drop_last());
        only_whole_records(stride, reads.drop_last());
        if !before.closed {
            let next = receive(before.intake, stride, reads.last());
            every_append_is_whole(before.intake, stride, reads.last());
            vstd::arithmetic::div_mod::lemma_add_mod_noop(
                before.appended.len() as int,
                next.appended.len() as int,
                stride,
            );
            vstd::arithmetic::div_mod::lemma_small_mod(0, stride as nat);
        }
    }
}

/// What is appended at once is whole records, so that records from several
/// connections can alternate in one file and none is torn apart.
pub proof fn every_append_is_whole(intake: Intake, stride: int, bytes: Seq<u8>)
    requires
        1 <= stride,
        intake_valid(intake, stride),
    ensures
        receive(intake, stride, bytes).appended.len() % stride as nat == 0,
        intake_valid(receive(intake, stride, bytes).intake, stride),
{
    let body = if intake.got_header {
        bytes
    } else {
        bytes.skip(1)
    };
    vstd::arithmetic::div_mod::lemma_small_mod(0, stride as nat);
    gather_keeps_valid(intake, stride, body);
    lemma_rest((intake.pending + body).len() as int, stride);
}

/// What a series of reads leads to depends only on the bytes, not on where one
/// read ends and the next begins.
pub proof fn reads_only_join(stride: int, reads: Seq<Seq<u8>>)
    requires
        1 <= stride,
    ensures
        receive_all(stride, reads) == receive(
            Intake { got_header: false, pending: Seq::empty() },
            stride,
            joined_reads(reads),
        ),
    decreases reads.len(),
{
    let fresh = Intake { got_header: false, pending: Seq::<u8>::empty() };
    if reads.len() > 0 {
        let front = reads.drop_last();
        reads_only_join(stride, front);
        only_whole_records(stride, front);
        reads_can_be_split(fresh, stride, joined_reads(front), reads.last());
        assert(receive_all(stride, reads) =~= receive(fresh, stride, joined_reads(reads)));
    }
}

proof fn lemma_whole_records(n: int, stride: int)
    requires
        0 <= n,
        1 <= stride,
    ensures
        whole(n * stride, stride) == n * stride,
{
    vstd::arithmetic::div_mod::lemma_div_by_multiple(n, stride);
}

/// What a client sends is what the file gets: a stream of datapoints, however
/// it is cut into reads, is stored record by record, and nothing is left over.
pub proof fn datapoints_are_stored(reads: Seq<Seq<u8>>, records: Seq<Datapoint>)
    requires
        joined_reads(reads) == stream_bytes(records),
    ensures
        receive_all(32, reads) == (Received {
            intake: Intake { got_header: true, pending: Seq::empty() },
            appended: record_bytes(records),
            closed: false,
        }),
{
    let fresh = Intake { got_header: false, pending: Seq::<u8>::empty() };
    reads_only_join(32, reads);
    lemma_record_bytes_len(records);
    let bytes = stream_bytes(records);
    assert(bytes[0] == 32);
    assert(bytes.skip(1) =~= record_bytes(records));
    let all = fresh.pending + bytes.skip(1);
    assert(all =~= record_bytes(records));
    assert(whole(all.len() as int, 32) == all.len()) by {
        let n = records.len() as int;
        assert(all.len() == n * 32);
        lemma_whole_records(n, 32);
    }
    assert(receive_all(32, reads) =~= Received {
        intake: Intake { got_header: true, pending: Seq::empty() },
        appended: record_bytes(records),
        closed: false,
    });
}

proof fn lemma_record_bytes_len(records: Seq<Datapoint>)
    ensures
        record_bytes(records).len() == 32 * records.len(),
    decreases records.len(),
{
    if records.len() > 0 {
        lemma_record_bytes_len(records.drop_last());
        wire_length(records.last());
    }
}

// ── Accepting ───────────────────────────────────────────────────────────

/// Numbers by which connections are told apart. 0 stands for the listener.
#[derive(Debug, Clone, Copy, PartialEq, Eq, Structural)]
pub struct Tokens {
    pub next: usize,
}

/// The number after `n`, which is never 0.
pub open spec fn token_after(n: usize) -> usize {
    if n == usize::MAX {
        1
    } else {
        (n + 1) as usize
    }
}

impl Tokens {
    /// The numbers from 1 on.
    pub fn new() -> (r: Self)
        ensures
            r.next == 1,
    {
        Tokens { next: 1 }
    }

    /// The number for a connection that was accepted.
    pub fn take(&mut self) -> (r: usize)
        requires
            old(self).next != 0,
        ensures
            r == old(self).next,
            final(self).next == token_after(old(self).next),
            r != 0,
            final(self).next != 0,
    {
        let token: usize = self.next;
        self.next = self.next.wrapping_add(1);
        if self.next == 0 {
            self.next = 1;
        }
        token
    }
}

/// What an attempt to accept a connection has brought.
#[derive(Debug, Clone, Copy, PartialEq, Eq, Structural)]
pub enum AcceptEvent {
    Accepted,
    WouldBlock,
    Interrupted,
    Failed,
}

/// What the server does next about new connections.
#[derive(Debug, Clone, Copy, PartialEq, Eq, Structural)]
pub enum NextAccept {
    /// Keep the connection under the given number and accept again.
    Keep(usize),
    /// Accept again.
    Again,
    /// Wait until there are new connections.
    Wait,
    /// Report the failure, then wait until there are new connections.
    ReportAndWait,
}

impl Tokens {
    /// Takes in the outcome of one attempt to accept a connection.
    pub fn on_accept(&mut self, event: AcceptEvent) -> (r: NextAccept)
        requires
            old(self).next != 0,
        ensures
            final(self).next != 0,
            match event {
                AcceptEvent::Accepted => r == NextAccept::Keep(old(self).next) && final(self).next
                    == token_after(old(self).next),
                AcceptEvent::WouldBlock => r == NextAccept::Wait && *final(self) == *old(self),
                AcceptEvent::Interrupted => r == NextAccept::Again && *final(self) == *old(self),
                AcceptEvent::Failed => r == NextAccept::ReportAndWait && *final(self)
                    == *old(self),
            },
    {
        match event {
            AcceptEvent::Accepted => NextAccept::Keep(self.take()),
            AcceptEvent::WouldBlock => NextAccept::Wait,
            AcceptEvent::Interrupted => NextAccept::Again,
            AcceptEvent::Failed => NextAccept::ReportAndWait,
        }
    }
}

} // verus!

//! Messages passed between the processes, and how they are framed on a connection.

use crate::text::{join_texts, push_decimal, push_signed, same_text};
use byteorder::{BigEndian, ByteOrder};
use bytes::{Buf, BytesMut};
use vstd::prelude::*;
use vstd::slice::*;
use vstd::utf8::*;

verus! {

/// The characters of each of several strings.
pub open spec fn texts(parts: Seq<String>) -> Seq<Seq<char>> {
    parts.map_values(|s: String| s@)
}

/// The characters of each name and value of an environment.
pub open spec fn variables(env: Seq<(String, String)>) -> Seq<(Seq<char>, Seq<char>)> {
    env.map_values(|v: (String, String)| (v.0@, v.1@))
}

/// What a task description says, as plain text.
pub struct TaskModel {
    pub working_dir: Seq<char>,
    pub cmd: Seq<char>,
    pub args: Seq<Seq<char>>,
    pub output_args: Seq<u16>,
    pub env: Seq<(Seq<char>, Seq<char>)>,
    pub priority_task: bool,
}

/// Describes the task to be started on a remote host.
#[derive(Debug, Clone, PartialEq, Eq)]
pub struct TaskDetails {
    /// Directory in which to run the command.
    pub working_dir: String,
    /// Absolute path to the command to be executed.
    pub cmd: String,
    /// Arguments to be passed to the command; the first is the command as it was typed.
    pub args: Vec<String>,
    /// Indices into `args` of the output file names, whose contents are relayed back.
    pub output_args: Vec<u16>,
    /// Environment variables to set before the command runs.
    pub env: Vec<(String, String)>,
    /// True if other tasks are likely to wait for this one.
    pub priority_task: bool,
}

impl View for TaskDetails {
    type V = TaskModel;

    open spec fn view(&self) -> TaskModel {
        TaskModel {
            working_dir: self.working_dir@,
            cmd: self.cmd@,
            args: texts(self.args@),
            output_args: self.output_args@,
            env: variables(self.env@),
            priority_task: self.priority_task,
        }
    }
}

fn same_texts(a: &Vec<String>, b: &Vec<String>) -> (same: bool)
    ensures
        same == (texts(a@) == texts(b@)),
{
    if a.len() != b.len() {
        assert(texts(a@).len() != texts(b@).len());
        return false;
    }
    let mut i: usize = 0;
    while i < a.len()
        invariant
            a@.len() == b@.len(),
            i <= a@.len(),
            forall|k: int| 0 <= k < i ==> a@[k]@ == b@[k]@,
        decreases a@.len() - i,
    {
        if !same_text(a[i].as_str(), b[i].as_str()) {
            assert(texts(a@)[i as int] != texts(b@)[i as int]);
            return false;
        }
        i = i + 1;
    }
    assert(texts(a@) =~= texts(b@));
    true
}

fn same_variables(a: &Vec<(String, String)>, b: &Vec<(String, String)>) -> (same: bool)
    ensures
        same == (variables(a@) == variables(b@)),
{
    if a.len() != b.len() {
        assert(variables(a@).len() != variables(b@).len());
        return false;
    }
    let mut i: usize = 0;
    while i < a.len()
        invariant
            a@.len() == b@.len(),
            i <= a@.len(),
            forall|k: int| 0 <= k < i ==> a@[k].0@ == b@[k].0@ && a@[k].1@ == b@[k].1@,
        decreases a@.len() - i,
    {
        if !same_text(a[i].0.as_str(), b[i].0.as_str()) || !same_text(
            a[i].1.as_str(),
            b[i].1.as_str(),
        ) {
            assert(variables(a@)[i as int] != variables(b@)[i as int]);
            return false;
        }
        i = i + 1;
    }
    assert(variables(a@) =~= variables(b@));
    true
}

fn same_indices(a: &Vec<u16>, b: &Vec<u16>) -> (same: bool)
    ensures
        same == (a@ == b@),
{
    if a.len() != b.len() {
        return false;
    }
    let mut i: usize = 0;
    while i < a.len()
        invariant
            a@.len() == b@.len(),
            i <= a@.len(),
            forall|k: int| 0 <= k < i ==> a@[k] == b@[k],
        decreases a@.len() - i,
    {
        if a[i] != b[i] {
            return false;
        }
        i = i + 1;
    }
    assert(a@ =~= b@);
    true
}

impl TaskDetails {
    /// True if the two descriptions say the same.
    pub fn same_task(&self, other: &TaskDetails) -> (same: bool)
        ensures
            same == (self@ == other@),
    {
        same_text(self.working_dir.as_str(), other.working_dir.as_str())
            && same_text(self.cmd.as_str(), other.cmd.as_str())
            && same_texts(&self.args, &other.args)
            && same_indices(&self.output_args, &other.output_args)
            && same_variables(&self.env, &other.env)
            && self.priority_task == other.priority_task
    }
}

/// The text by which the history knows a task: its first output file, or else its command line.
pub open spec fn target_of(task: TaskModel) -> Seq<char> {
    if task.output_args.len() > 0 && task.output_args[0] < task.args.len() {
        task.args[task.output_args[0] as int]
    } else {
        crate::text::joined(task.args, seq![' '])
    }
}

impl TaskDetails {
    /// The text by which the history knows the task: its first output file, or else its command
    /// line.
    pub fn get_target_id(&self) -> (target: String)
        ensures
            target@ == target_of(self@),
    {
        if self.output_args.len() > 0 && (self.output_args[0] as usize) < self.args.len() {
            self.args[self.output_args[0] as usize].clone()
        } else {
            proof {
                reveal_strlit(" ");
            }
            assert(" "@ =~= seq![' ']);
            join_texts(&self.args, " ")
        }
    }
}

/// The host and port to connect to and the access code to use.
#[derive(Debug, Clone, PartialEq, Eq)]
pub struct CallMe {
    /// Address and port, as in `192.168.5.6:1234`.
    pub addr: String,
    /// The code that the server accepts.
    pub access_code: u64,
}

/// Type of output generated by a task: standard output, standard error or one of its files.
#[derive(Debug, Clone, Copy, PartialEq, Eq, Hash)]
pub enum OutputType {
    Stdout,
    Stderr,
    File(usize),
}

/// Messages sent between the processes. Spans of time are in nanoseconds.
#[derive(Clone, PartialEq, Eq)]
pub enum Message {
    /// An executor is ready and sends the access code.
    YourObedientServant { access_code: u64, user_code: u64 },
    /// Task definition, from client to server or server to executor. An executor ignores the
    /// codes.
    Task { access_code: u64, user_code: u64, details: TaskDetails },
    /// Output of a task, from executor to server to client.
    TaskOutput { output_type: OutputType, content: Vec<u8> },
    /// A task failed to even start.
    TaskFailed { error_message: String },
    /// A task has finished and all its output has been sent. Without an exit code, it was
    /// terminated by a signal.
    TaskDone { exit_code: Option<i32>, target_id: String, run_time: u128, send_time: u128 },
    /// The server can assume that no more tasks are coming.
    LastTaskSent,
    /// A task should be canceled.
    CancelTask,
    /// An executor must terminate.
    PissOff,
    /// A connection was dropped, sent from the connection to the local event loop.
    Dropped,
}

/// The buffer of the `bytes` crate.
#[verifier::external_type_specification]
#[verifier::external_body]
pub struct ExBytesMut(BytesMut);

/// The bytes that a buffer holds.
pub uninterp spec fn held(buf: BytesMut) -> Seq<u8>;

/// `BytesMut::with_capacity`: the buffer holds nothing.
#[verifier::external_body]
fn buffer_with_capacity(capacity: usize) -> (buf: BytesMut)
    requires
        capacity <= isize::MAX,
    ensures
        held(buf) == Seq::<u8>::empty(),
{
    BytesMut::with_capacity(capacity)
}

/// `BytesMut::len`: the number of bytes that the buffer holds.
#[verifier::external_body]
fn buffer_len(buf: &BytesMut) -> (len: usize)
    ensures
        len == held(*buf).len(),
{
    buf.len()
}

/// `BytesMut::extend_from_slice`: the bytes are appended to what the buffer holds. It asks for less
/// than four times the room that they need, and panics if that is more than can be allocated.
#[verifier::external_body]
fn buffer_extend(buf: &mut BytesMut, bytes: &[u8])
    requires
        4 * (held(*old(buf)).len() + bytes@.len()) <= isize::MAX,
    ensures
        held(*final(buf)) == held(*old(buf)) + bytes@,
{
    buf.extend_from_slice(bytes)
}

/// `Buf::get_i32` of a buffer: takes out the first four bytes, which are a signed number with
/// the most significant byte first.
#[verifier::external_body]
fn buffer_get_i32(buf: &mut BytesMut) -> (number: i32)
    requires
        held(*old(buf)).len() >= 4,
    ensures
        number == signed_number(held(*old(buf)).take(4)),
        held(*final(buf)) == held(*old(buf)).skip(4),
{
    buf.get_i32()
}

/// `BytesMut::as_ref`: the bytes that the buffer holds.
#[verifier::external_body]
fn buffer_bytes(buf: &BytesMut) -> (bytes: &[u8])
    ensures
        bytes@ == held(*buf),
{
    buf.as_ref()
}

/// `Buf::advance` of a buffer: the first `count` bytes are dropped.
#[verifier::external_body]
fn buffer_advance(buf: &mut BytesMut, count: usize)
    requires
        count <= held(*old(buf)).len(),
    ensures
        held(*final(buf)) == held(*old(buf)).skip(count as int),
{
    buf.advance(count)
}

/// `BigEndian::write_u32` of the `byteorder` crate: the four bytes of a number, the most
/// significant first.
#[verifier::external_body]
fn number_to_bytes(number: u32) -> (bytes: [u8; 4])
    ensures
        bytes@ == number_bytes(number as int),
{
    let mut bytes = [0; 4];
    BigEndian::write_u32(&mut bytes, number);
    bytes
}

/// The four bytes of a number, the most significant first.
pub open spec fn number_bytes(number: int) -> Seq<u8> {
    seq![
        (number / 0x100_0000 % 0x100) as u8,
        (number / 0x1_0000 % 0x100) as u8,
        (number / 0x100 % 0x100) as u8,
        (number % 0x100) as u8,
    ]
}

/// The number of four bytes, the most significant first, as a signed number of 32 bits.
pub open spec fn signed_number(bytes: Seq<u8>) -> int {
    let number = bytes[0] * 0x100_0000 + bytes[1] * 0x1_0000 + bytes[2] * 0x100 + bytes[3];
    if number < 0x8000_0000 {
        number
    } else {
        number - 0x1_0000_0000
    }
}

/// The size that a message is announced with. A negative number stands for a huge size.
pub open spec fn announced_size(number: int) -> nat {
    if number >= 0 {
        number as nat
    } else {
        (usize::MAX + 1 + number) as nat
    }
}

/// A message as it is sent: its size in four bytes, then its bytes.
pub open spec fn frame(data: Seq<u8>) -> Seq<u8> {
    number_bytes(data.len() as int % 0x1_0000_0000) + data
}

/// What has been received but not handed out yet: the size of the message that is being
/// received, if it is known, and the bytes behind it.
pub struct Received {
    pub expected: Option<nat>,
    pub bytes: Seq<u8>,
}

/// What reading from a connection comes to.
pub enum Reading {
    /// More bytes are needed.
    NeedMore,
    /// The stream has been closed, and no message is cut off.
    Closed,
    /// The stream was closed in the middle of a message; the text says where.
    Failed(Seq<char>),
    /// The next message.
    Message(Seq<u8>),
}

/// What is said of a stream that ends before the size of a message is complete.
pub open spec fn cut_in_size(buffered: nat) -> Seq<char> {
    "Connection reset by peer with "@ + crate::text::decimal(buffered) + " bytes buffered"@
}

/// What is said of a stream that ends before a message is complete.
pub open spec fn cut_in_message(buffered: nat, expected: nat) -> Seq<char> {
    "connection reset by peer "@ + crate::text::decimal(buffered) + " "@ + crate::text::decimal(
        expected,
    )
}

impl Received {
    /// The state after the size of the next message has been taken out, if it is there.
    pub open spec fn sized(self) -> Received {
        if self.expected is None && self.bytes.len() >= 4 {
            Received {
                expected: Some(announced_size(signed_number(self.bytes.take(4)))),
                bytes: self.bytes.skip(4),
            }
        } else {
            self
        }
    }

    /// What the next read comes to, and the state that it leaves. `at_end` says that the stream
    /// has ended.
    pub open spec fn read(self, at_end: bool) -> (Received, Reading) {
        let sized = self.sized();
        match sized.expected {
            Some(size) => {
                if sized.bytes.len() >= size {
                    (
                        Received { expected: None, bytes: sized.bytes.skip(size as int) },
                        Reading::Message(sized.bytes.take(size as int)),
                    )
                } else if at_end {
                    (sized, Reading::Failed(cut_in_message(sized.bytes.len(), size)))
                } else {
                    (sized, Reading::NeedMore)
                }
            },
            None => {
                if !at_end {
                    (sized, Reading::NeedMore)
                } else if sized.bytes.len() == 0 {
                    (sized, Reading::Closed)
                } else {
                    (sized, Reading::Failed(cut_in_size(sized.bytes.len())))
                }
            },
        }
    }

    /// The state after more bytes have come in.
    pub open spec fn fed(self, bytes: Seq<u8>) -> Received {
        Received { expected: self.expected, bytes: self.bytes + bytes }
    }
}

/// The outcome of a read.
#[derive(Debug, PartialEq, Eq)]
pub enum ReadStep {
    /// More bytes are needed.
    NeedMore,
    /// The stream has been closed, and no message is cut off.
    Closed,
    /// The stream was closed in the middle of a message; the text says where.
    Failed(String),
    /// The next message.
    Message(Vec<u8>),
}

impl View for ReadStep {
    type V = Reading;

    open spec fn view(&self) -> Reading {
        match self {
            ReadStep::NeedMore => Reading::NeedMore,
            ReadStep::Closed => Reading::Closed,
            ReadStep::Failed(text) => Reading::Failed(text@),
            ReadStep::Message(data) => Reading::Message(data@),
        }
    }
}

/// The receiving side of a connection: splits the incoming bytes into messages.
pub struct Connection {
    buf: BytesMut,
    expected: Option<usize>,
}

impl View for Connection {
    type V = Received;

    closed spec fn view(&self) -> Received {
        Received {
            expected: match self.expected {
                Some(size) => Some(size as nat),
                None => None,
            },
            bytes: held(self.buf),
        }
    }
}

impl Connection {
    /// A connection on which nothing has been received.
    pub fn new() -> (conn: Connection)
        ensures
            conn@ == (Received { expected: None, bytes: Seq::empty() }),
    {
        Connection { buf: buffer_with_capacity(65536 * 4096), expected: None }
    }

    /// The number of bytes that have been received but not handed out yet.
    pub fn buffered(&self) -> (count: usize)
        ensures
            count == self@.bytes.len(),
    {
        buffer_len(&self.buf)
    }

    /// Takes in bytes that have been read from the stream. There must be room for them.
    pub fn feed(&mut self, bytes: &[u8])
        requires
            4 * (old(self)@.bytes.len() + bytes@.len()) <= isize::MAX,
        ensures
            final(self)@ == old(self)@.fed(bytes@),
    {
        buffer_extend(&mut self.buf, bytes)
    }

    /// Returns the next message if it has come in. `at_end` says that the stream has ended: no
    /// more bytes will come in.
    pub fn read_message(&mut self, at_end: bool) -> (step: ReadStep)
        ensures
            (final(self)@, step@) == old(self)@.read(at_end),
    {
        if self.expected.is_none() && buffer_len(&self.buf) >= 4 {
            let number: i32 = buffer_get_i32(&mut self.buf);
            let size: usize = if number >= 0 {
                number as usize
            } else {
                usize::MAX - (-(number + 1)) as usize
            };
            self.expected = Some(size);
        }
        assert(self@ == old(self)@.sized());
        let available: usize = buffer_len(&self.buf);
        match self.expected {
            Some(size) => {
                if available >= size {
                    let bytes = buffer_bytes(&self.buf);
                    let data = slice_to_vec(slice_subrange(bytes, 0, size));
                    assert(data@ =~= held(self.buf).take(size as int));
                    buffer_advance(&mut self.buf, size);
                    self.expected = None;
                    ReadStep::Message(data)
                } else if at_end {
                    let mut text = "connection reset by peer ".to_owned();
                    push_decimal(&mut text, available as u64);
                    text.append(" ");
                    push_decimal(&mut text, size as u64);
                    ReadStep::Failed(text)
                } else {
                    ReadStep::NeedMore
                }
            },
            None => {
                if !at_end {
                    ReadStep::NeedMore
                } else if available == 0 {
                    ReadStep::Closed
                } else {
                    let mut text = "Connection reset by peer with ".to_owned();
                    push_decimal(&mut text, available as u64);
                    text.append(" bytes buffered");
                    ReadStep::Failed(text)
                }
            },
        }
    }

    /// The bytes to send for a message.
    pub fn write_message(data: &[u8]) -> (bytes: Vec<u8>)
        ensures
            bytes@ == frame(data@),
    {
        let size: u32 = (data.len() as u64 % 0x1_0000_0000) as u32;
        let header = number_to_bytes(size);
        let mut bytes = slice_to_vec(header.as_slice());
        bytes.extend_from_slice(data);
        assert(bytes@ =~= frame(data@));
        bytes
    }
}

proof fn lemma_number(number: int)
    requires
        0 <= number < 0x8000_0000,
    ensures
        signed_number(number_bytes(number)) == number,
{
    let high = number / 0x100_0000;
    let upper = number / 0x1_0000;
    let lower = number / 0x100;
    assert(upper / 0x100 == high);
    assert(lower / 0x100 == upper);
}

/// Law: a message that has been sent is the message that is received, whatever follows it on the
/// stream. (Its size must be below 2 GiB.)
pub proof fn law_message_round_trip(data: Seq<u8>, rest: Seq<u8>, at_end: bool)
    requires
        data.len() < 0x8000_0000,
    ensures
        (Received { expected: None, bytes: frame(data) + rest }).read(at_end) == (
            Received { expected: None, bytes: rest },
            Reading::Message(data),
        ),
{
    let state = Received { expected: None, bytes: frame(data) + rest };
    lemma_number(data.len() as int);
    assert(state.bytes.take(4) =~= number_bytes(data.len() as int));
    assert(state.bytes.skip(4) =~= data + rest);
    let sized = state.sized();
    assert(sized.bytes.take(data.len() as int) =~= data);
    assert(sized.bytes.skip(data.len() as int) =~= rest);
}

/// Several messages as they are sent, one after the other.
pub open spec fn frames(messages: Seq<Seq<u8>>) -> Seq<u8>
    decreases messages.len(),
{
    if messages.len() == 0 {
        Seq::empty()
    } else {
        frame(messages[0]) + frames(messages.drop_first())
    }
}

impl Received {
    /// What `count` reads in a row come to, and the state that they leave.
    pub open spec fn reads(self, count: nat, at_end: bool) -> (Received, Seq<Reading>)
        decreases count,
    {
        if count == 0 {
            (self, Seq::empty())
        } else {
            let (next, first) = self.read(at_end);
            let (last, others) = next.reads((count - 1) as nat, at_end);
            (last, seq![first] + others)
        }
    }
}

/// Law: messages are received in the order in which they were sent, and nothing is left over.
pub proof fn law_messages_in_order(messages: Seq<Seq<u8>>, at_end: bool)
    requires
        forall|i: int| 0 <= i < messages.len() ==> (#[trigger] messages[i]).len() < 0x8000_0000,
    ensures
        (Received { expected: None, bytes: frames(messages) }).reads(messages.len(), at_end) == (
            Received { expected: None, bytes: Seq::empty() },
            messages.map_values(|data: Seq<u8>| Reading::Message(data)),
        ),
    decreases messages.len(),
{
    let told = messages.map_values(|data: Seq<u8>| Reading::Message(data));
    if messages.len() == 0 {
        assert(told =~= Seq::empty());
    } else {
        let others = messages.drop_first();
        law_message_round_trip(messages[0], frames(others), at_end);
        assert forall|i: int| 0 <= i < others.len() implies (#[trigger] others[i]).len()
            < 0x8000_0000 by {
            assert(others[i] == messages[i + 1]);
        }
        law_messages_in_order(others, at_end);
        assert(told =~= seq![Reading::Message(messages[0])] + others.map_values(
            |data: Seq<u8>| Reading::Message(data),
        ));
    }
}

/// Law: it makes no difference into which pieces the stream splits the bytes. A read that finds
/// too few of them leaves a state that goes on as if it had not taken place.
pub proof fn law_pieces_do_not_matter(state: Received, more: Seq<u8>, at_end: bool)
    requires
        state.read(false).1 is NeedMore,
    ensures
        state.read(false).0.fed(more).read(at_end) == state.fed(more).read(at_end),
{
    let left = state.read(false).0;
    if state.expected is None && state.bytes.len() >= 4 {
        assert(state.fed(more).bytes.take(4) =~= state.bytes.take(4));
        assert(state.fed(more).bytes.skip(4) =~= state.bytes.skip(4) + more);
    }
}

impl Received {
    /// All the messages that can be read without more bytes, and the state that is left.
    pub open spec fn drained(self) -> (Received, Seq<Seq<u8>>)
        decreases
                self.bytes.len() + (if self.expected is Some {
                    1nat
                } else {
                    0
                }),
    {
        match self.read(false) {
            (next, Reading::Message(data)) => {
                let (left, others) = next.drained();
                (left, seq![data] + others)
            },
            (next, _) => (next, Seq::empty()),
        }
    }

    /// All the messages that are read when the bytes come in piece by piece, and the state that is
    /// left.
    pub open spec fn received(self, pieces: Seq<Seq<u8>>) -> (Received, Seq<Seq<u8>>)
        decreases pieces.len(),
    {
        if pieces.len() == 0 {
            (self, Seq::empty())
        } else {
            let (left, messages) = self.fed(pieces[0]).drained();
            let (last, others) = left.received(pieces.drop_first());
            (last, messages + others)
        }
    }

    /// True if nothing more can be read without more bytes.
    pub open spec fn waits(self) -> bool {
        self.read(false) == (self, Reading::NeedMore)
    }
}

proof fn lemma_drained_waits(state: Received)
    ensures
        state.drained().0.waits(),
    decreases
            state.bytes.len() + (if state.expected is Some {
                1nat
            } else {
                0
            }),
{
    let (next, reading) = state.read(false);
    if reading is Message {
        lemma_drained_waits(next);
    }
}

proof fn lemma_drained_and_fed(state: Received, more: Seq<u8>)
    ensures
        ({
            let (left, messages) = state.drained();
            let (last, others) = left.fed(more).drained();
            state.fed(more).drained() == (last, messages + others)
        }),
    decreases
            state.bytes.len() + (if state.expected is Some {
                1nat
            } else {
                0
            }),
{
    let (next, reading) = state.read(false);
    let (left, messages) = state.drained();
    let (last, others) = left.fed(more).drained();
    if let Reading::Message(data) = reading {
        if state.expected is None {
            assert(state.fed(more).bytes.take(4) =~= state.bytes.take(4));
            assert(state.fed(more).bytes.skip(4) =~= state.bytes.skip(4) + more);
        }
        let sized = state.sized();
        let size = sized.expected->0 as int;
        assert(state.fed(more).sized().bytes == sized.bytes + more);
        assert((sized.bytes + more).take(size) =~= sized.bytes.take(size));
        assert((sized.bytes + more).skip(size) =~= sized.bytes.skip(size) + more);
        assert(state.fed(more).read(false) == (next.fed(more), Reading::Message(data)));
        lemma_drained_and_fed(next, more);
        let (same, rest) = next.drained();
        assert(seq![data] + (rest + others) =~= seq![data] + rest + others);
    } else {
        law_pieces_do_not_matter(state, more, false);
        assert(state.fed(more).drained() == left.fed(more).drained());
        assert(messages + others =~= others);
    }
}

proof fn lemma_received_is_drained(state: Received, pieces: Seq<Seq<u8>>)
    requires
        state.waits(),
    ensures
        state.received(pieces) == state.fed(pieces.flatten()).drained(),
    decreases pieces.len(),
{
    if pieces.len() == 0 {
        assert(pieces.flatten() =~= Seq::empty());
        assert(state.fed(pieces.flatten()).bytes =~= state.bytes);
        assert(state.fed(pieces.flatten()) == state);
    } else {
        let rest = pieces.drop_first();
        let first = state.fed(pieces[0]);
        let left = first.drained().0;
        lemma_drained_waits(first);
        lemma_received_is_drained(left, rest);
        lemma_drained_and_fed(first, rest.flatten());
        assert(first.fed(rest.flatten()).bytes =~= state.fed(pieces.flatten()).bytes);
        assert(first.fed(rest.flatten()) == state.fed(pieces.flatten()));
    }
}

proof fn lemma_frames_are_drained(messages: Seq<Seq<u8>>)
    requires
        forall|i: int| 0 <= i < messages.len() ==> (#[trigger] messages[i]).len() < 0x8000_0000,
    ensures
        (Received { expected: None, bytes: frames(messages) }).drained() == (
            Received { expected: None, bytes: Seq::empty() },
            messages,
        ),
    decreases messages.len(),
{
    if messages.len() == 0 {
        assert(messages =~= Seq::empty());
    } else {
        let others = messages.drop_first();
        law_message_round_trip(messages[0], frames(others), false);
        assert forall|i: int| 0 <= i < others.len() implies (#[trigger] others[i]).len()
            < 0x8000_0000 by {
            assert(others[i] == messages[i + 1]);
        }
        lemma_frames_are_drained(others);
        assert(seq![messages[0]] + others =~= messages);
    }
}

/// Law: the messages that have been sent are received in order, and then the end of the stream,
/// into whatever pieces the stream splits their bytes.
pub proof fn law_any_splitting(messages: Seq<Seq<u8>>, pieces: Seq<Seq<u8>>)
    requires
        forall|i: int| 0 <= i < messages.len() ==> (#[trigger] messages[i]).len() < 0x8000_0000,
        pieces.flatten() == frames(messages),
    ensures
        ({
            let start = Received { expected: None, bytes: Seq::empty() };
            &&& start.received(pieces) == (start, messages)
            &&& start.received(pieces).0.read(true) == (start, Reading::Closed)
        }),
{
    let start = Received { expected: None, bytes: Seq::empty() };
    assert(start.waits());
    lemma_received_is_drained(start, pieces);
    assert(start.fed(pieces.flatten()).bytes =~= frames(messages));
    lemma_frames_are_drained(messages);
}

/// Law: a stream counts as closed in good order if and only if no part of a message is left.
pub proof fn law_closed_only_between_messages(state: Received)
    ensures
        state.read(true).1 is Closed <==> state.expected is None && state.bytes.len() == 0,
        !(state.read(true).1 is NeedMore),
{
}

/// The text with quotes around it and special characters escaped.
pub uninterp spec fn quoted(text: Seq<char>) -> Seq<char>;

/// The `Debug` output of `str`. What the escapes look like is not said.
#[verifier::external_body]
fn quote(text: &str) -> (quote: String)
    ensures
        quote@ == quoted(text@),
{
    format!("{:?}", text)
}

/// The path with quotes around it and special characters escaped.
pub uninterp spec fn quoted_path(path: Seq<char>) -> Seq<char>;

/// The `Debug` output of `std::path::Path`, which escapes more characters than that of `str`. What
/// the escapes look like is not said.
#[verifier::external_body]
fn quote_path(path: &str) -> (quote: String)
    ensures
        quote@ == quoted_path(path@),
{
    format!("{:?}", std::path::Path::new(path))
}

/// `std::str::from_utf8`: the text of the bytes, if they are valid UTF-8.
#[verifier::external_body]
fn utf8_text(bytes: &[u8]) -> (text: Option<&str>)
    ensures
        match text {
            Some(text) => valid_utf8(bytes@) && encode_utf8(text@) == bytes@,
            None => !valid_utf8(bytes@),
        },
{
    std::str::from_utf8(bytes).ok()
}

/// Several items in brackets.
pub open spec fn listed(items: Seq<Seq<char>>) -> Seq<char> {
    "["@ + crate::text::joined(items, ", "@) + "]"@
}

/// A task description written out for a reader.
pub open spec fn task_text(task: TaskModel) -> Seq<char> {
    "TaskDetails { working_dir: "@ + quoted_path(task.working_dir) + ", cmd: "@ + quoted_path(
        task.cmd,
    ) + ", args: "@ + listed(task.args.map_values(|arg: Seq<char>| quoted(arg)))
        + ", output_args: "@ + listed(
        task.output_args.map_values(|index: u16| crate::text::decimal(index as nat)),
    ) + ", env: "@ + listed(
        task.env.map_values(
            |v: (Seq<char>, Seq<char>)| "("@ + quoted(v.0) + ", "@ + quoted(v.1) + ")"@,
        ),
    ) + ", priority_task: "@ + (if task.priority_task {
        "true"@
    } else {
        "false"@
    }) + " }"@
}

/// A message written out for a reader. The contents of files and of standard output are left out.
pub open spec fn message_text(message: Message) -> Seq<char> {
    match message {
        Message::YourObedientServant { access_code, .. } => "YourObedientServant: "@
            + crate::text::decimal(access_code as nat),
        Message::Task { access_code, details, .. } => "Task: code "@ + crate::text::decimal(
            access_code as nat,
        ) + ", details: "@ + task_text(details@),
        Message::TaskOutput { output_type, content } => match output_type {
            OutputType::Stdout => "TaskOutput Stdout, length "@ + crate::text::decimal(
                content@.len(),
            ),
            OutputType::Stderr => "TaskOutput Stderr, length "@ + crate::text::decimal(
                content@.len(),
            ) + ": "@ + decode_utf8(content@),
            OutputType::File(index) => "TaskOutput File("@ + crate::text::decimal(index as nat)
                + "), length "@ + crate::text::decimal(content@.len()),
        },
        Message::TaskFailed { error_message } => "TaskDone, error: "@ + error_message@,
        Message::TaskDone { exit_code, .. } => "TaskDone, exit code "@
            + crate::text::signed_decimal(
            match exit_code {
                Some(code) => code as int,
                None => -1,
            },
        ),
        Message::LastTaskSent => "LastTaskSend"@,
        Message::CancelTask => "CancelTask"@,
        Message::PissOff => "PissOff"@,
        Message::Dropped => "Dropped"@,
    }
}

fn push_list(out: &mut String, items: &Vec<String>)
    ensures
        final(out)@ == old(out)@ + listed(texts(items@)),
{
    out.append("[");
    out.append(join_texts(items, ", ").as_str());
    out.append("]");
    assert(out@ =~= old(out)@ + listed(texts(items@)));
}

fn quote_all(parts: &Vec<String>) -> (items: Vec<String>)
    ensures
        texts(items@) == texts(parts@).map_values(|arg: Seq<char>| quoted(arg)),
{
    let mut items: Vec<String> = Vec::new();
    let mut i: usize = 0;
    while i < parts.len()
        invariant
            i <= parts@.len(),
            items@.len() == i,
            forall|k: int| 0 <= k < i ==> (#[trigger] items@[k])@ == quoted(parts@[k]@),
        decreases parts@.len() - i,
    {
        items.push(quote(parts[i].as_str()));
        i = i + 1;
    }
    assert(texts(items@) =~= texts(parts@).map_values(|arg: Seq<char>| quoted(arg)));
    items
}

fn decimals(numbers: &Vec<u16>) -> (items: Vec<String>)
    ensures
        texts(items@) == numbers@.map_values(|index: u16| crate::text::decimal(index as nat)),
{
    let mut items: Vec<String> = Vec::new();
    let mut i: usize = 0;
    while i < numbers.len()
        invariant
            i <= numbers@.len(),
            items@.len() == i,
            forall|k: int|
                0 <= k < i ==> (#[trigger] items@[k])@ == crate::text::decimal(numbers@[k] as nat),
        decreases numbers@.len() - i,
    {
        let mut item = String::new();
        push_decimal(&mut item, numbers[i] as u64);
        assert(item@ =~= crate::text::decimal(numbers@[i as int] as nat));
        items.push(item);
        i = i + 1;
    }
    assert(texts(items@) =~= numbers@.map_values(
        |index: u16| crate::text::decimal(index as nat),
    ));
    items
}

fn quote_variables(env: &Vec<(String, String)>) -> (items: Vec<String>)
    ensures
        texts(items@) == variables(env@).map_values(
            |v: (Seq<char>, Seq<char>)| "("@ + quoted(v.0) + ", "@ + quoted(v.1) + ")"@,
        ),
{
    let mut items: Vec<String> = Vec::new();
    let mut i: usize = 0;
    while i < env.len()
        invariant
            i <= env@.len(),
            items@.len() == i,
            forall|k: int|
                0 <= k < i ==> (#[trigger] items@[k])@ == "("@ + quoted(env@[k].0@) + ", "@
                    + quoted(env@[k].1@) + ")"@,
        decreases env@.len() - i,
    {
        let mut item = "(".to_owned();
        item.append(quote(env[i].0.as_str()).as_str());
        item.append(", ");
        item.append(quote(env[i].1.as_str()).as_str());
        item.append(")");
        items.push(item);
        i = i + 1;
    }
    assert(texts(items@) =~= variables(env@).map_values(
        |v: (Seq<char>, Seq<char>)| "("@ + quoted(v.0) + ", "@ + quoted(v.1) + ")"@,
    ));
    items
}

impl TaskDetails {
    /// The description written out for a reader.
    pub fn describe(&self) -> (text: String)
        ensures
            text@ == task_text(self@),
    {
        let mut text = "TaskDetails { working_dir: ".to_owned();
        text.append(quote_path(self.working_dir.as_str()).as_str());
        text.append(", cmd: ");
        text.append(quote_path(self.cmd.as_str()).as_str());
        text.append(", args: ");
        push_list(&mut text, &quote_all(&self.args));
        text.append(", output_args: ");
        push_list(&mut text, &decimals(&self.output_args));
        text.append(", env: ");
        push_list(&mut text, &quote_variables(&self.env));
        text.append(", priority_task: ");
        text.append(
            if self.priority_task {
                "true"
            } else {
                "false"
            },
        );
        text.append(" }");
        text
    }
}

impl Message {
    /// True if the message can be written out: standard error must be valid UTF-8 for that.
    pub open spec fn readable(&self) -> bool {
        self matches Message::TaskOutput { output_type: OutputType::Stderr, content }
            ==> valid_utf8(content@)
    }

    /// The message written out for a reader. The contents of files and of standard output are
    /// left out.
    pub fn describe(&self) -> (text: String)
        requires
            self.readable(),
        ensures
            text@ == message_text(*self),
    {
        let mut text = String::new();
        match self {
            Message::YourObedientServant { access_code, user_code: _ } => {
                text.append("YourObedientServant: ");
                push_decimal(&mut text, *access_code);
            },
            Message::Task { access_code, user_code: _, details } => {
                text.append("Task: code ");
                push_decimal(&mut text, *access_code);
                text.append(", details: ");
                text.append(details.describe().as_str());
            },
            Message::TaskOutput { output_type, content } => match output_type {
                OutputType::Stdout => {
                    text.append("TaskOutput Stdout, length ");
                    push_decimal(&mut text, content.len() as u64);
                },
                OutputType::Stderr => {
                    text.append("TaskOutput Stderr, length ");
                    push_decimal(&mut text, content.len() as u64);
                    if let Some(output) = utf8_text(content.as_slice()) {
                        proof {
                            encode_utf8_decode_utf8(output@);
                        }
                        text.append(": ");
                        text.append(output);
                    }
                },
                OutputType::File(index) => {
                    text.append("TaskOutput File(");
                    push_decimal(&mut text, *index as u64);
                    text.append("), length ");
                    push_decimal(&mut text, content.len() as u64);
                },
            },
            Message::TaskFailed { error_message } => {
                text.append("TaskDone, error: ");
                text.append(error_message.as_str());
            },
            Message::TaskDone { exit_code, target_id: _, run_time: _, send_time: _ } => {
                text.append("TaskDone, exit code ");
                let code: i32 = match exit_code {
                    Some(code) => *code,
                    None => -1,
                };
                push_signed(&mut text, code);
            },
            Message::LastTaskSent => text.append("LastTaskSend"),
            Message::CancelTask => text.append("CancelTask"),
            Message::PissOff => text.append("PissOff"),
            Message::Dropped => text.append("Dropped"),
        }
        assert(text@ =~= message_text(*self));
        text
    }
}

/// Law: the texts of several strings are those of each, in order.
pub proof fn law_texts_of_each(parts: Seq<String>, env: Seq<(String, String)>, i: int)
    ensures
        texts(parts).len() == parts.len(),
        0 <= i < parts.len() ==> texts(parts)[i] == parts[i]@,
        variables(env).len() == env.len(),
        0 <= i < env.len() ==> variables(env)[i].0 == env[i].0@ && variables(env)[i].1 == env[i].1@,
{
}

/// Law: two tasks are the same if and only if they agree in everything: the directory, the command,
/// each argument, each output, each variable of the environment, and the priority.
pub proof fn law_tasks_agree_in_everything(a: TaskDetails, b: TaskDetails)
    ensures
        a@ == b@ <==> {
            &&& a.working_dir@ == b.working_dir@
            &&& a.cmd@ == b.cmd@
            &&& a.args@.len() == b.args@.len()
            &&& forall|i: int| 0 <= i < a.args@.len() ==> (#[trigger] a.args@[i])@ == b.args@[i]@
            &&& a.output_args@ == b.output_args@
            &&& a.env@.len() == b.env@.len()
            &&& forall|i: int|
                0 <= i < a.env@.len() ==> (#[trigger] a.env@[i]).0@ == b.env@[i].0@
                    && a.env@[i].1@ == b.env@[i].1@
            &&& a.priority_task == b.priority_task
        },
        a@.working_dir == a.working_dir@,
        a@.cmd == a.cmd@,
        a@.args == texts(a.args@),
        a@.output_args == a.output_args@,
        a@.env == variables(a.env@),
        a@.priority_task == a.priority_task,
{
    if a@ == b@ {
        assert(texts(a.args@).len() == a.args@.len() && texts(b.args@).len() == b.args@.len());
        assert(variables(a.env@).len() == a.env@.len());
        assert(variables(b.env@).len() == b.env@.len());
        assert forall|i: int| 0 <= i < a.args@.len() implies (#[trigger] a.args@[i])@
            == b.args@[i]@ by {
            assert(texts(a.args@)[i] == texts(b.args@)[i]);
        }
        assert forall|i: int| 0 <= i < a.env@.len() implies (#[trigger] a.env@[i]).0@
            == b.env@[i].0@ && a.env@[i].1@ == b.env@[i].1@ by {
            assert(variables(a.env@)[i] == variables(b.env@)[i]);
        }
    }
    if {
        &&& a.working_dir@ == b.working_dir@
        &&& a.cmd@ == b.cmd@
        &&& a.args@.len() == b.args@.len()
        &&& forall|i: int| 0 <= i < a.args@.len() ==> (#[trigger] a.args@[i])@ == b.args@[i]@
        &&& a.output_args@ == b.output_args@
        &&& a.env@.len() == b.env@.len()
        &&& forall|i: int|
            0 <= i < a.env@.len() ==> (#[trigger] a.env@[i]).0@ == b.env@[i].0@ && a.env@[i].1@
                == b.env@[i].1@
        &&& a.priority_task == b.priority_task
    } {
        assert(texts(a.args@) =~= texts(b.args@));
        assert(variables(a.env@) =~= variables(b.env@));
    }
}

/// Law: a task with an output is known by the first of its output files, whatever else it writes and
/// however it is called; one without is known by its arguments with spaces between them.
pub proof fn law_what_a_task_is_known_by(task: TaskModel, other: TaskModel)
    ensures
        task.output_args.len() > 0 && task.output_args[0] < task.args.len() ==> target_of(task)
            == task.args[task.output_args[0] as int],
        task.output_args.len() == 0 ==> target_of(task) == crate::text::joined(task.args, seq![' ']),
        task.output_args.len() > 0 && task.output_args[0] >= task.args.len() ==> target_of(task)
            == crate::text::joined(task.args, seq![' ']),
        task.args == other.args && task.output_args == other.output_args ==> target_of(task)
            == target_of(other),
{
}

/// Law: the four bytes of a number are its digits to the base 256, the most significant first.
pub proof fn law_bytes_of_a_number(number: int)
    requires
        0 <= number < 0x1_0000_0000,
    ensures
        number_bytes(number).len() == 4,
        number == ((number_bytes(number)[0] * 256 + number_bytes(number)[1]) * 256 + number_bytes(
            number,
        )[2]) * 256 + number_bytes(number)[3],
{
    let upper = number / 0x1_0000;
    let lower = number / 0x100;
    assert(lower / 0x100 == upper);
    assert(upper / 0x100 == number / 0x100_0000);
}

/// Law: four bytes are read as a signed number of 32 bits, which differs from the unsigned one by a
/// multiple of two to the 32nd power; and a negative size is one that no message can have.
pub proof fn law_number_of_bytes(bytes: Seq<u8>)
    requires
        bytes.len() == 4,
    ensures
        -0x8000_0000 <= signed_number(bytes) < 0x8000_0000,
        ({
            let unsigned = ((bytes[0] * 256 + bytes[1]) * 256 + bytes[2]) * 256 + bytes[3];
            signed_number(bytes) == unsigned || signed_number(bytes) == unsigned - 0x1_0000_0000
        }),
        signed_number(bytes) >= 0 ==> announced_size(signed_number(bytes)) == signed_number(bytes),
        signed_number(bytes) < 0 ==> announced_size(signed_number(bytes)) - signed_number(bytes)
            == usize::MAX + 1,
{
}

/// Law: a message is sent with four bytes in front of it, which say how long it is. (Its size must be
/// below 4 GiB.)
pub proof fn law_what_is_sent_for_a_message(data: Seq<u8>)
    requires
        data.len() < 0x1_0000_0000,
    ensures
        frame(data).len() == data.len() + 4,
        frame(data).skip(4) == data,
        ((frame(data)[0] * 256 + frame(data)[1]) * 256 + frame(data)[2]) * 256 + frame(data)[3]
            == data.len(),
{
    law_bytes_of_a_number(data.len() as int);
    assert(frame(data).skip(4) =~= data);
    assert(forall|i: int| 0 <= i < 4 ==> frame(data)[i] == number_bytes(data.len() as int)[i]);
}

/// Law: a message whose size is known is handed out as soon as it is complete, and what is behind it
/// is left. Until then more bytes are needed, and nothing changes; a stream that ends before is
/// reset.
pub proof fn law_when_a_message_is_read(state: Received, at_end: bool)
    requires
        state.expected is Some,
    ensures
        ({
            let (next, reading) = state.read(at_end);
            let size = state.expected->0;
            &&& state.bytes.len() >= size ==> {
                &&& reading matches Reading::Message(data)
                &&& data.len() == size
                &&& data + next.bytes == state.bytes
                &&& next.expected is None
            }
            &&& state.bytes.len() < size ==> {
                &&& next == state
                &&& !at_end ==> reading is NeedMore
                &&& at_end ==> reading == Reading::Failed(
                    "connection reset by peer "@ + crate::text::decimal(state.bytes.len()) + " "@
                        + crate::text::decimal(size),
                )
            }
        }),
{
    let size = state.expected->0;
    if state.bytes.len() >= size {
        assert(state.bytes.take(size as int) + state.bytes.skip(size as int) =~= state.bytes);
    }
}

/// Law: as long as fewer than four bytes of a size have come in, nothing is handed out and nothing
/// changes. A stream that ends then is closed if there are none, and else reset. With four bytes
/// the size is known, and the message is read as if it had been known before.
pub proof fn law_when_a_size_is_read(state: Received, at_end: bool)
    requires
        state.expected is None,
    ensures
        state.bytes.len() < 4 ==> ({
            let (next, reading) = state.read(at_end);
            &&& next == state
            &&& !at_end ==> reading is NeedMore
            &&& at_end && state.bytes.len() == 0 ==> reading is Closed
            &&& at_end && state.bytes.len() > 0 ==> reading == Reading::Failed(
                "Connection reset by peer with "@ + crate::text::decimal(state.bytes.len())
                    + " bytes buffered"@,
            )
        }),
        state.bytes.len() >= 4 ==> state.read(at_end) == (Received {
            expected: Some(announced_size(signed_number(state.bytes.take(4)))),
            bytes: state.bytes.skip(4),
        }).read(at_end),
{
}

/// Law: bytes that come in are put behind those that are there, and two pieces are as good as one.
pub proof fn law_bytes_come_in_order(state: Received, first: Seq<u8>, second: Seq<u8>)
    ensures
        state.fed(first).fed(second) == state.fed(first + second),
        state.fed(first).expected == state.expected,
        state.fed(first).bytes.take(state.bytes.len() as int) == state.bytes,
        state.fed(first).bytes.skip(state.bytes.len() as int) == first,
{
    assert(state.bytes + first + second =~= state.bytes + (first + second));
    assert((state.bytes + first).take(state.bytes.len() as int) =~= state.bytes);
    assert((state.bytes + first).skip(state.bytes.len() as int) =~= first);
}

/// Law: what is listed stands in brackets, in order and with a comma and a space between.
pub proof fn law_lists_stand_in_brackets(items: Seq<Seq<char>>)
    ensures
        ({
            let text = listed(items);
            &&& text.len() >= 2
            &&& text[0] == '['
            &&& text.last() == ']'
            &&& text.subrange(1, text.len() - 1) == crate::text::joined(items, seq![',', ' '])
        }),
{
    reveal_strlit("[");
    reveal_strlit("]");
    reveal_strlit(", ");
    assert(", "@ =~= seq![',', ' ']);
    let text = listed(items);
    assert(text.subrange(1, text.len() - 1) =~= crate::text::joined(items, seq![',', ' ']));
}

/// Law: what a message is written out as names its kind and tells what matters of it. The codes of
/// users are never told, nor what is in a file or on standard output; a task without an exit code
/// counts as one with -1.
pub proof fn law_what_is_written_of_a_message(message: Message)
    ensures
        match message {
            Message::YourObedientServant { access_code, .. } => message_text(message)
                == "YourObedientServant: "@ + crate::text::decimal(access_code as nat),
            Message::Task { access_code, details, .. } => message_text(message) == "Task: code "@
                + crate::text::decimal(access_code as nat) + ", details: "@ + task_text(details@),
            Message::TaskOutput { output_type: OutputType::Stdout, content } => message_text(
                message,
            ) == "TaskOutput Stdout, length "@ + crate::text::decimal(content@.len()),
            Message::TaskOutput { output_type: OutputType::Stderr, content } => message_text(
                message,
            ) == "TaskOutput Stderr, length "@ + crate::text::decimal(content@.len()) + ": "@
                + decode_utf8(content@),
            Message::TaskOutput { output_type: OutputType::File(index), content } => message_text(
                message,
            ) == "TaskOutput File("@ + crate::text::decimal(index as nat) + "), length "@
                + crate::text::decimal(content@.len()),
            Message::TaskFailed { error_message } => message_text(message) == "TaskDone, error: "@
                + error_message@,
            Message::TaskDone { exit_code: Some(code), .. } => message_text(message)
                == "TaskDone, exit code "@ + crate::text::signed_decimal(code as int),
            Message::TaskDone { exit_code: None, .. } => message_text(message)
                == "TaskDone, exit code -1"@,
            Message::LastTaskSent => message_text(message) == "LastTaskSend"@,
            Message::CancelTask => message_text(message) == "CancelTask"@,
            Message::PissOff => message_text(message) == "PissOff"@,
            Message::Dropped => message_text(message) == "Dropped"@,
        },
{
    reveal_strlit("TaskDone, exit code ");
    reveal_strlit("TaskDone, exit code -1");
    assert("TaskDone, exit code "@ + crate::text::signed_decimal(-1) =~= "TaskDone, exit code -1"@);
}

/// Law: a message can be written out unless it is standard error that is no valid text.
pub proof fn law_what_can_be_written_out(message: Message)
    ensures
        !message.readable() <==> match message {
            Message::TaskOutput { output_type: OutputType::Stderr, content } => !valid_utf8(
                content@,
            ),
            _ => false,
        },
{
}

/// Law: a task is written out with all that it holds, in the order of its parts.
pub proof fn law_what_is_written_of_a_task(
    task: TaskModel,
    args: Seq<Seq<char>>,
    outputs: Seq<Seq<char>>,
    env: Seq<Seq<char>>,
)
    requires
        args.len() == task.args.len(),
        forall|i: int| 0 <= i < args.len() ==> #[trigger] args[i] == quoted(task.args[i]),
        outputs.len() == task.output_args.len(),
        forall|i: int|
            0 <= i < outputs.len() ==> #[trigger] outputs[i] == crate::text::decimal(
                task.output_args[i] as nat,
            ),
        env.len() == task.env.len(),
        forall|i: int|
            0 <= i < env.len() ==> #[trigger] env[i] == seq!['('] + quoted(task.env[i].0) + seq![
                ',',
                ' ',
            ] + quoted(task.env[i].1) + seq![')'],
    ensures
        task_text(task) == "TaskDetails { working_dir: "@ + quoted_path(task.working_dir)
            + ", cmd: "@ + quoted_path(task.cmd) + ", args: ["@ + crate::text::joined(args, ", "@)
            + "], output_args: ["@ + crate::text::joined(outputs, ", "@) + "], env: ["@
            + crate::text::joined(env, ", "@) + "], priority_task: "@ + (if task.priority_task {
            "true }"@
        } else {
            "false }"@
        }),
{
    reveal_strlit("[");
    reveal_strlit("]");
    reveal_strlit("(");
    reveal_strlit(")");
    reveal_strlit(", ");
    reveal_strlit(", args: ");
    reveal_strlit(", args: [");
    reveal_strlit(", output_args: ");
    reveal_strlit("], output_args: [");
    reveal_strlit(", env: ");
    reveal_strlit("], env: [");
    reveal_strlit(", priority_task: ");
    reveal_strlit("], priority_task: ");
    reveal_strlit("true");
    reveal_strlit("false");
    reveal_strlit(" }");
    reveal_strlit("true }");
    reveal_strlit("false }");
    assert("("@ =~= seq!['('] && ")"@ =~= seq![')'] && ", "@ =~= seq![',', ' ']);
    assert(args =~= task.args.map_values(|arg: Seq<char>| quoted(arg)));
    assert(outputs =~= task.output_args.map_values(
        |index: u16| crate::text::decimal(index as nat),
    ));
    assert(env =~= task.env.map_values(
        |v: (Seq<char>, Seq<char>)| "("@ + quoted(v.0) + ", "@ + quoted(v.1) + ")"@,
    ));
    assert(", args: "@ + "["@ =~= ", args: ["@);
    assert("]"@ + ", output_args: "@ + "["@ =~= "], output_args: ["@);
    assert("]"@ + ", env: "@ + "["@ =~= "], env: ["@);
    assert("]"@ + ", priority_task: "@ =~= "], priority_task: "@);
    assert("true"@ + " }"@ =~= "true }"@);
    assert("false"@ + " }"@ =~= "false }"@);
    let wd = "TaskDetails { working_dir: "@ + quoted_path(task.working_dir) + ", cmd: "@
        + quoted_path(task.cmd);
    let a = crate::text::joined(args, ", "@);
    let o = crate::text::joined(outputs, ", "@);
    let e = crate::text::joined(env, ", "@);
    let flag = if task.priority_task {
        "true"@
    } else {
        "false"@
    };
    let one = wd + ", args: "@ + listed(args) + ", output_args: "@;
    assert(one + "["@ =~= wd + ", args: ["@ + a + "], output_args: ["@);
    let two = one + listed(outputs) + ", env: "@;
    assert(two + "["@ =~= wd + ", args: ["@ + a + "], output_args: ["@ + o + "], env: ["@);
    let three = two + listed(env) + ", priority_task: "@;
    assert(three =~= wd + ", args: ["@ + a + "], output_args: ["@ + o + "], env: ["@ + e
        + "], priority_task: "@);
    assert(task_text(task) =~= three + flag + " }"@);
    assert(three + flag + " }"@ =~= three + (flag + " }"@));
}

} // verus!

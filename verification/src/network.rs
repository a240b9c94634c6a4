use vstd::prelude::*;

use crate::interface::{append_bytes, ClientMessage, ServerMessage, ServerMsg};

verus! {

// The connection bridge: one worker owns the socket, reads lines with a
// bounded timeout, and exchanges messages with the simulation loop over two
// mailboxes.  The I/O itself lives outside the library; the functions here
// are the bridge's whole decision table and its line handling, so that the
// worker's loop is nothing but "perform the step, feed the outcome back".

/// What one socket read produced: a complete line (terminator already
/// stripped), a timeout, an orderly close by the peer (a zero-byte read),
/// or an unrecoverable I/O failure.
pub enum ReadOutcome {
    Line(Vec<u8>),
    TimedOut,
    Closed,
    Failed,
}

/// What one non-blocking poll of the outgoing mailbox produced.
pub enum PollOutcome {
    NoMessage,
    Disconnected,
    Delivered(ServerMessage),
}

/// What the bridge does next: hand a decoded command to the simulation and
/// block for its reply, write framed bytes to the socket, poll the outgoing
/// mailbox, read again, or shut the socket down — telling the simulation,
/// via the ConnectionEnded sentinel, only when the connection itself ended.
#[derive(Debug, PartialEq, Eq)]
pub enum WorkerStep {
    Forward(ClientMessage),
    Send(Vec<u8>),
    PollMailbox,
    KeepReading,
    Shutdown { notify: bool },
}

/// The framed form of a payload: the payload plus the line terminator.
pub open spec fn framed(payload: Seq<u8>) -> Seq<u8> {
    payload + seq![10u8]
}

/// Frames a reply for the wire.
pub fn frame_reply(message: ServerMessage) -> (r: Vec<u8>)
    ensures
        r@ == framed(ServerMessage::encode_spec(message@)),
{
    let mut out = message.into_bytes();
    out.push(10);
    out
}

/// The bridge's reaction to one socket read: a full line is decoded and
/// forwarded, a timeout turns into a mailbox poll, and a closed or failed
/// connection shuts the worker down and notifies the simulation.
pub fn on_read(outcome: ReadOutcome) -> (r: WorkerStep)
    ensures
        (match outcome {
            ReadOutcome::Line(line) => r matches WorkerStep::Forward(m) && m@
                == ClientMessage::decode_spec(line@),
            ReadOutcome::TimedOut => r is PollMailbox,
            ReadOutcome::Closed => r == (WorkerStep::Shutdown { notify: true }),
            ReadOutcome::Failed => r == (WorkerStep::Shutdown { notify: true }),
        }),
{
    match outcome {
        ReadOutcome::Line(line) => WorkerStep::Forward(ClientMessage::from_bytes(&line)),
        ReadOutcome::TimedOut => WorkerStep::PollMailbox,
        ReadOutcome::Closed => WorkerStep::Shutdown { notify: true },
        ReadOutcome::Failed => WorkerStep::Shutdown { notify: true },
    }
}

/// The bridge's reaction to the blocking wait for the reply to a command it
/// has just forwarded.  `None` stands for a closed reply channel; it and the
/// EndConnection sentinel shut the worker down quietly.
pub fn on_reply(reply: Option<ServerMessage>) -> (r: WorkerStep)
    ensures
        (match reply {
            Some(m) => if m@ is EndConnection {
                r == (WorkerStep::Shutdown { notify: false })
            } else {
                r matches WorkerStep::Send(bytes) && bytes@ == framed(
                    ServerMessage::encode_spec(m@),
                )
            },
            None => r == (WorkerStep::Shutdown { notify: false }),
        }),
{
    match reply {
        Some(message) => match message {
            ServerMessage::EndConnection => WorkerStep::Shutdown { notify: false },
            other => WorkerStep::Send(frame_reply(other)),
        },
        None => WorkerStep::Shutdown { notify: false },
    }
}

/// The bridge's reaction to a mailbox poll after a read timeout: an empty
/// mailbox means read again, a closed one or the EndConnection sentinel
/// shuts the worker down quietly, any other reply is written out.
pub fn on_poll(poll: PollOutcome) -> (r: WorkerStep)
    ensures
        (match poll {
            PollOutcome::NoMessage => r is KeepReading,
            PollOutcome::Disconnected => r == (WorkerStep::Shutdown { notify: false }),
            PollOutcome::Delivered(m) => if m@ is EndConnection {
                r == (WorkerStep::Shutdown { notify: false })
            } else {
                r matches WorkerStep::Send(bytes) && bytes@ == framed(
                    ServerMessage::encode_spec(m@),
                )
            },
        }),
{
    match poll {
        PollOutcome::NoMessage => WorkerStep::KeepReading,
        PollOutcome::Disconnected => WorkerStep::Shutdown { notify: false },
        PollOutcome::Delivered(message) => match message {
            ServerMessage::EndConnection => WorkerStep::Shutdown { notify: false },
            other => WorkerStep::Send(frame_reply(other)),
        },
    }
}

/// The bridge's reaction to the result of a socket write: keep going, or
/// shut down and notify the simulation that the connection ended.
pub fn on_write_result(write_ok: bool) -> (r: WorkerStep)
    ensures
        write_ok ==> r is KeepReading,
        !write_ok ==> r == (WorkerStep::Shutdown { notify: true }),
{
    if write_ok {
        WorkerStep::KeepReading
    } else {
        WorkerStep::Shutdown { notify: true }
    }
}

// ---------------------------------------------------------------------------
// Line assembly.  The protocol is one command per line: a line ends at the
// first line feed, wherever in a read chunk it arrives, and a carriage
// return just before it belongs to the terminator.

/// Absorbs one chunk read from the socket into the pending buffer.
pub fn absorb_chunk(buffer: &mut Vec<u8>, chunk: &Vec<u8>)
    ensures
        final(buffer)@ == old(buffer)@ + chunk@,
{
    append_bytes(buffer, chunk);
}

/// Whether the pending bytes hold a complete line.
pub open spec fn has_line(s: Seq<u8>) -> bool {
    exists|i: int| 0 <= i < s.len() && s[i] == 10
}

/// The position of the first line feed, or the whole length without one.
pub open spec fn lf_at(s: Seq<u8>) -> int
    decreases s.len(),
{
    if s.len() == 0 {
        0
    } else if s[0] == 10 {
        0
    } else {
        1 + lf_at(s.skip(1))
    }
}

/// The first line's content: the bytes before the first line feed, with one
/// carriage return just before it stripped.
pub open spec fn line_content(s: Seq<u8>) -> Seq<u8> {
    let head = s.take(lf_at(s));
    if head.len() > 0 && head.last() == 13 {
        head.take(head.len() - 1)
    } else {
        head
    }
}

/// What stays pending once the first line is taken: everything after the
/// first line feed.
pub open spec fn line_rest(s: Seq<u8>) -> Seq<u8> {
    s.skip(lf_at(s) + 1)
}

/// A prefix free of line feeds, ended by one, places the first line feed.
proof fn lemma_lf_at(s: Seq<u8>, i: int)
    requires
        0 <= i <= s.len(),
        forall|j: int| 0 <= j < i ==> s[j] != 10,
        i < s.len() ==> s[i] == 10,
    ensures
        i < s.len() ==> lf_at(s) == i,
        i == s.len() ==> lf_at(s) == s.len(),
    decreases i,
{
    if i == 0 {
        if s.len() > 0 {
        }
    } else {
        assert(s[0] != 10);
        assert forall|j: int| 0 <= j < i - 1 implies s.skip(1)[j] != 10 by {
            assert(s.skip(1)[j] == s[j + 1]);
        }
        assert(i - 1 < s.skip(1).len() ==> s.skip(1)[i - 1] == 10);
        lemma_lf_at(s.skip(1), i - 1);
    }
}

/// Takes the first complete line out of the pending buffer: its content,
/// terminator stripped, while the buffer keeps what follows the line feed.
/// Nothing is taken while no line feed has arrived.
pub fn take_line(buffer: &mut Vec<u8>) -> (r: Option<Vec<u8>>)
    ensures
        !has_line(old(buffer)@) ==> r is None && final(buffer)@ == old(buffer)@,
        has_line(old(buffer)@) ==> (match r {
            Some(line) => line@ == line_content(old(buffer)@) && final(buffer)@ == line_rest(
                old(buffer)@,
            ),
            None => false,
        }),
{
    let ghost s = buffer@;
    let mut i: usize = 0;
    while i < buffer.len()
        invariant
            s == old(buffer)@,
            s == buffer@,
            i <= s.len(),
            forall|j: int| 0 <= j < i ==> s[j] != 10,
        decreases s.len() - i,
    {
        if buffer[i] == 10 {
            proof {
                lemma_lf_at(s, i as int);
            }
            let mut line: Vec<u8> = Vec::new();
            let mut k: usize = 0;
            let end = if i > 0 && buffer[i - 1] == 13 {
                i - 1
            } else {
                i
            };
            proof {
                assert(s.take(i as int).len() == i);
                if i > 0 && s[i as int - 1] == 13 {
                    assert(s.take(i as int).last() == 13);
                    assert(line_content(s) =~= s.take(i as int).take(i as int - 1));
                    assert(s.take(i as int).take(i as int - 1) =~= s.take(i as int - 1));
                } else {
                    if i > 0 {
                        assert(s.take(i as int).last() == s[i as int - 1]);
                    }
                    assert(line_content(s) == s.take(i as int));
                }
            }
            while k < end
                invariant
                    s == buffer@,
                    end <= i < s.len(),
                    k <= end,
                    line@ == s.take(k as int),
                decreases end - k,
            {
                line.push(buffer[k]);
                proof {
                    assert(s.take(k as int + 1) =~= s.take(k as int).push(s[k as int]));
                }
                k = k + 1;
            }
            let mut rest: Vec<u8> = Vec::new();
            let mut m: usize = i + 1;
            while m < buffer.len()
                invariant
                    s == buffer@,
                    i < s.len(),
                    i + 1 <= m <= s.len(),
                    rest@ == s.subrange(i as int + 1, m as int),
                decreases s.len() - m,
            {
                rest.push(buffer[m]);
                proof {
                    assert(s.subrange(i as int + 1, m as int + 1) =~= s.subrange(
                        i as int + 1,
                        m as int,
                    ).push(s[m as int]));
                }
                m = m + 1;
            }
            proof {
                assert(s.subrange(i as int + 1, s.len() as int) =~= line_rest(s));
            }
            *buffer = rest;
            return Some(line);
        }
        i = i + 1;
    }
    proof {
        assert(!has_line(s));
    }
    None
}

/// The greeting the server writes to a fresh connection.
pub open spec fn greeting() -> Seq<u8> {
    seq![0x44u8, 0xc3u8, 0x89u8, 0x42u8, 0x55u8, 0x54u8]
}

/// The greeting line, terminator included.
pub fn greeting_line() -> (r: Vec<u8>)
    ensures
        r@ == framed(greeting()),
{
    let mut v: Vec<u8> = Vec::new();
    v.push(0x44);
    v.push(0xc3);
    v.push(0x89);
    v.push(0x42);
    v.push(0x55);
    v.push(0x54);
    v.push(0x0a);
    proof {
        assert(v@ =~= framed(greeting()));
    }
    v
}

} // verus!

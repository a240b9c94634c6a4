use vstd::prelude::*;

use crate::pos::Direction;

verus! {

// The wire protocol: newline-delimited commands from the client, one reply
// per command from the server.  Everything here works on plain bytes; the
// transport owns the line terminators.

/// A parsed client command, or one of the parse failures that the session
/// answers with an error reply.  `ConnectionEnded` is a lifecycle sentinel
/// raised by the transport, never parsed off the wire.
#[derive(Debug, PartialEq, Eq)]
pub enum ClientMessage {
    ConnectionEnded,
    EmptyCommand,
    UnknownCommand(Vec<u8>),
    InvalidArguments(Vec<u8>),
    EndGame,
    GetMap,
    Move(Direction),
}

/// The mathematical shape of a client message, over byte sequences.
pub enum ClientMsg {
    ConnectionEnded,
    EmptyCommand,
    UnknownCommand(Seq<u8>),
    InvalidArguments(Seq<u8>),
    EndGame,
    GetMap,
    Move(Direction),
}

impl View for ClientMessage {
    type V = ClientMsg;

    open spec fn view(&self) -> ClientMsg {
        match self {
            ClientMessage::ConnectionEnded => ClientMsg::ConnectionEnded,
            ClientMessage::EmptyCommand => ClientMsg::EmptyCommand,
            ClientMessage::UnknownCommand(c) => ClientMsg::UnknownCommand(c@),
            ClientMessage::InvalidArguments(p) => ClientMsg::InvalidArguments(p@),
            ClientMessage::EndGame => ClientMsg::EndGame,
            ClientMessage::GetMap => ClientMsg::GetMap,
            ClientMessage::Move(d) => ClientMsg::Move(*d),
        }
    }
}

/// A server reply.  `EndConnection` is a lifecycle sentinel that tells the
/// transport to shut the connection down; it never crosses the wire.
#[derive(Debug, PartialEq, Eq)]
pub enum ServerMessage {
    EndConnection,
    Error(Vec<u8>),
    ValidMove,
    MapResponse(Vec<u8>),
    EndGame,
}

/// The mathematical shape of a server reply, over byte sequences.
pub enum ServerMsg {
    EndConnection,
    Error(Seq<u8>),
    ValidMove,
    MapResponse(Seq<u8>),
    EndGame,
}

impl View for ServerMessage {
    type V = ServerMsg;

    open spec fn view(&self) -> ServerMsg {
        match self {
            ServerMessage::EndConnection => ServerMsg::EndConnection,
            ServerMessage::Error(e) => ServerMsg::Error(e@),
            ServerMessage::ValidMove => ServerMsg::ValidMove,
            ServerMessage::MapResponse(m) => ServerMsg::MapResponse(m@),
            ServerMessage::EndGame => ServerMsg::EndGame,
        }
    }
}

// ---------------------------------------------------------------------------
// Tokens: commands are split on runs of ASCII whitespace.

/// ASCII whitespace: space, tab, line feed, vertical tab, form feed,
/// carriage return.
pub open spec fn is_ws(b: u8) -> bool {
    b == 0x20 || (0x09 <= b && b <= 0x0d)
}

/// The tokens of `s` from position `i` on, with `cur` the token read so far.
pub open spec fn tokens_acc(s: Seq<u8>, i: int, cur: Seq<u8>) -> Seq<Seq<u8>>
    decreases s.len() - i,
{
    if i < 0 || i >= s.len() {
        if cur.len() == 0 {
            Seq::empty()
        } else {
            seq![cur]
        }
    } else if is_ws(s[i]) {
        if cur.len() == 0 {
            tokens_acc(s, i + 1, Seq::empty())
        } else {
            seq![cur] + tokens_acc(s, i + 1, Seq::empty())
        }
    } else {
        tokens_acc(s, i + 1, cur.push(s[i]))
    }
}

/// The whitespace-separated tokens of a line.
pub open spec fn tokens_of(s: Seq<u8>) -> Seq<Seq<u8>> {
    tokens_acc(s, 0, Seq::empty())
}

// ---------------------------------------------------------------------------
// The protocol's fixed words and error texts, as byte sequences.

/// The bytes of "END".
pub open spec fn lit_end() -> Seq<u8> {
    seq![0x45u8, 0x4eu8, 0x44u8]
}

fn lit_end_exec() -> (r: Vec<u8>)
    ensures
        r@ == lit_end(),
{
    let mut v: Vec<u8> = Vec::new();
    v.push(0x45);
    v.push(0x4e);
    v.push(0x44);
    proof {
        assert(v@ =~= lit_end());
    }
    v
}

/// The bytes of "MAP".
pub open spec fn lit_map() -> Seq<u8> {
    seq![0x4du8, 0x41u8, 0x50u8]
}

fn lit_map_exec() -> (r: Vec<u8>)
    ensures
        r@ == lit_map(),
{
    let mut v: Vec<u8> = Vec::new();
    v.push(0x4d);
    v.push(0x41);
    v.push(0x50);
    proof {
        assert(v@ =~= lit_map());
    }
    v
}

/// The bytes of "MOVE".
pub open spec fn lit_move() -> Seq<u8> {
    seq![0x4du8, 0x4fu8, 0x56u8, 0x45u8]
}

fn lit_move_exec() -> (r: Vec<u8>)
    ensures
        r@ == lit_move(),
{
    let mut v: Vec<u8> = Vec::new();
    v.push(0x4d);
    v.push(0x4f);
    v.push(0x56);
    v.push(0x45);
    proof {
        assert(v@ =~= lit_move());
    }
    v
}

/// The bytes of "UP".
pub open spec fn lit_up() -> Seq<u8> {
    seq![0x55u8, 0x50u8]
}

fn lit_up_exec() -> (r: Vec<u8>)
    ensures
        r@ == lit_up(),
{
    let mut v: Vec<u8> = Vec::new();
    v.push(0x55);
    v.push(0x50);
    proof {
        assert(v@ =~= lit_up());
    }
    v
}

/// The bytes of "DOWN".
pub open spec fn lit_down() -> Seq<u8> {
    seq![0x44u8, 0x4fu8, 0x57u8, 0x4eu8]
}

fn lit_down_exec() -> (r: Vec<u8>)
    ensures
        r@ == lit_down(),
{
    let mut v: Vec<u8> = Vec::new();
    v.push(0x44);
    v.push(0x4f);
    v.push(0x57);
    v.push(0x4e);
    proof {
        assert(v@ =~= lit_down());
    }
    v
}

/// The bytes of "LEFT".
pub open spec fn lit_left() -> Seq<u8> {
    seq![0x4cu8, 0x45u8, 0x46u8, 0x54u8]
}

fn lit_left_exec() -> (r: Vec<u8>)
    ensures
        r@ == lit_left(),
{
    let mut v: Vec<u8> = Vec::new();
    v.push(0x4c);
    v.push(0x45);
    v.push(0x46);
    v.push(0x54);
    proof {
        assert(v@ =~= lit_left());
    }
    v
}

/// The bytes of "RIGHT".
pub open spec fn lit_right() -> Seq<u8> {
    seq![0x52u8, 0x49u8, 0x47u8, 0x48u8, 0x54u8]
}

fn lit_right_exec() -> (r: Vec<u8>)
    ensures
        r@ == lit_right(),
{
    let mut v: Vec<u8> = Vec::new();
    v.push(0x52);
    v.push(0x49);
    v.push(0x47);
    v.push(0x48);
    v.push(0x54);
    proof {
        assert(v@ =~= lit_right());
    }
    v
}

/// The bytes of "OK".
pub open spec fn lit_ok() -> Seq<u8> {
    seq![0x4fu8, 0x4bu8]
}

fn lit_ok_exec() -> (r: Vec<u8>)
    ensures
        r@ == lit_ok(),
{
    let mut v: Vec<u8> = Vec::new();
    v.push(0x4f);
    v.push(0x4b);
    proof {
        assert(v@ =~= lit_ok());
    }
    v
}

/// The bytes of "NOK ".
pub open spec fn lit_nok_sp() -> Seq<u8> {
    seq![0x4eu8, 0x4fu8, 0x4bu8, 0x20u8]
}

fn lit_nok_sp_exec() -> (r: Vec<u8>)
    ensures
        r@ == lit_nok_sp(),
{
    let mut v: Vec<u8> = Vec::new();
    v.push(0x4e);
    v.push(0x4f);
    v.push(0x4b);
    v.push(0x20);
    proof {
        assert(v@ =~= lit_nok_sp());
    }
    v
}

/// The bytes of "too many arguments for command " up to and including the opening guillemet
/// (shown as <<).
pub open spec fn msg_too_many_prefix() -> Seq<u8> {
    seq![0x74u8, 0x6fu8, 0x6fu8, 0x20u8, 0x6du8, 0x61u8, 0x6eu8, 0x79u8, 0x20u8, 0x61u8, 0x72u8, 0x67u8, 0x75u8, 0x6du8, 0x65u8, 0x6eu8, 0x74u8, 0x73u8, 0x20u8, 0x66u8, 0x6fu8, 0x72u8, 0x20u8, 0x63u8, 0x6fu8, 0x6du8, 0x6du8, 0x61u8, 0x6eu8, 0x64u8, 0x20u8, 0xc2u8, 0xabu8]
}

fn msg_too_many_prefix_exec() -> (r: Vec<u8>)
    ensures
        r@ == msg_too_many_prefix(),
{
    let mut v: Vec<u8> = Vec::new();
    v.push(0x74);
    v.push(0x6f);
    v.push(0x6f);
    v.push(0x20);
    v.push(0x6d);
    v.push(0x61);
    v.push(0x6e);
    v.push(0x79);
    v.push(0x20);
    v.push(0x61);
    v.push(0x72);
    v.push(0x67);
    v.push(0x75);
    v.push(0x6d);
    v.push(0x65);
    v.push(0x6e);
    v.push(0x74);
    v.push(0x73);
    v.push(0x20);
    v.push(0x66);
    v.push(0x6f);
    v.push(0x72);
    v.push(0x20);
    v.push(0x63);
    v.push(0x6f);
    v.push(0x6d);
    v.push(0x6d);
    v.push(0x61);
    v.push(0x6e);
    v.push(0x64);
    v.push(0x20);
    v.push(0xc2);
    v.push(0xab);
    proof {
        assert(v@ =~= msg_too_many_prefix());
    }
    v
}

/// The bytes of "missing arguments for command " up to and including the opening guillemet
/// (shown as <<).
pub open spec fn msg_missing_prefix() -> Seq<u8> {
    seq![0x6du8, 0x69u8, 0x73u8, 0x73u8, 0x69u8, 0x6eu8, 0x67u8, 0x20u8, 0x61u8, 0x72u8, 0x67u8, 0x75u8, 0x6du8, 0x65u8, 0x6eu8, 0x74u8, 0x73u8, 0x20u8, 0x66u8, 0x6fu8, 0x72u8, 0x20u8, 0x63u8, 0x6fu8, 0x6du8, 0x6du8, 0x61u8, 0x6eu8, 0x64u8, 0x20u8, 0xc2u8, 0xabu8]
}

fn msg_missing_prefix_exec() -> (r: Vec<u8>)
    ensures
        r@ == msg_missing_prefix(),
{
    let mut v: Vec<u8> = Vec::new();
    v.push(0x6d);
    v.push(0x69);
    v.push(0x73);
    v.push(0x73);
    v.push(0x69);
    v.push(0x6e);
    v.push(0x67);
    v.push(0x20);
    v.push(0x61);
    v.push(0x72);
    v.push(0x67);
    v.push(0x75);
    v.push(0x6d);
    v.push(0x65);
    v.push(0x6e);
    v.push(0x74);
    v.push(0x73);
    v.push(0x20);
    v.push(0x66);
    v.push(0x6f);
    v.push(0x72);
    v.push(0x20);
    v.push(0x63);
    v.push(0x6f);
    v.push(0x6d);
    v.push(0x6d);
    v.push(0x61);
    v.push(0x6e);
    v.push(0x64);
    v.push(0x20);
    v.push(0xc2);
    v.push(0xab);
    proof {
        assert(v@ =~= msg_missing_prefix());
    }
    v
}

/// The bytes of "invalid direction " up to and including the opening guillemet
/// (shown as <<).
pub open spec fn msg_invalid_dir_prefix() -> Seq<u8> {
    seq![0x69u8, 0x6eu8, 0x76u8, 0x61u8, 0x6cu8, 0x69u8, 0x64u8, 0x20u8, 0x64u8, 0x69u8, 0x72u8, 0x65u8, 0x63u8, 0x74u8, 0x69u8, 0x6fu8, 0x6eu8, 0x20u8, 0xc2u8, 0xabu8]
}

fn msg_invalid_dir_prefix_exec() -> (r: Vec<u8>)
    ensures
        r@ == msg_invalid_dir_prefix(),
{
    let mut v: Vec<u8> = Vec::new();
    v.push(0x69);
    v.push(0x6e);
    v.push(0x76);
    v.push(0x61);
    v.push(0x6c);
    v.push(0x69);
    v.push(0x64);
    v.push(0x20);
    v.push(0x64);
    v.push(0x69);
    v.push(0x72);
    v.push(0x65);
    v.push(0x63);
    v.push(0x74);
    v.push(0x69);
    v.push(0x6f);
    v.push(0x6e);
    v.push(0x20);
    v.push(0xc2);
    v.push(0xab);
    proof {
        assert(v@ =~= msg_invalid_dir_prefix());
    }
    v
}

/// The bytes of "unknown command " up to and including the opening guillemet
/// (shown as <<).
pub open spec fn msg_unknown_prefix() -> Seq<u8> {
    seq![0x75u8, 0x6eu8, 0x6bu8, 0x6eu8, 0x6fu8, 0x77u8, 0x6eu8, 0x20u8, 0x63u8, 0x6fu8, 0x6du8, 0x6du8, 0x61u8, 0x6eu8, 0x64u8, 0x20u8, 0xc2u8, 0xabu8]
}

fn msg_unknown_prefix_exec() -> (r: Vec<u8>)
    ensures
        r@ == msg_unknown_prefix(),
{
    let mut v: Vec<u8> = Vec::new();
    v.push(0x75);
    v.push(0x6e);
    v.push(0x6b);
    v.push(0x6e);
    v.push(0x6f);
    v.push(0x77);
    v.push(0x6e);
    v.push(0x20);
    v.push(0x63);
    v.push(0x6f);
    v.push(0x6d);
    v.push(0x6d);
    v.push(0x61);
    v.push(0x6e);
    v.push(0x64);
    v.push(0x20);
    v.push(0xc2);
    v.push(0xab);
    proof {
        assert(v@ =~= msg_unknown_prefix());
    }
    v
}

/// The bytes of the closing guillemet (shown as >>).
pub open spec fn msg_close() -> Seq<u8> {
    seq![0xc2u8, 0xbbu8]
}

fn msg_close_exec() -> (r: Vec<u8>)
    ensures
        r@ == msg_close(),
{
    let mut v: Vec<u8> = Vec::new();
    v.push(0xc2);
    v.push(0xbb);
    proof {
        assert(v@ =~= msg_close());
    }
    v
}

/// The bytes of "empty command".
pub open spec fn msg_empty_command() -> Seq<u8> {
    seq![0x65u8, 0x6du8, 0x70u8, 0x74u8, 0x79u8, 0x20u8, 0x63u8, 0x6fu8, 0x6du8, 0x6du8, 0x61u8, 0x6eu8, 0x64u8]
}

fn msg_empty_command_exec() -> (r: Vec<u8>)
    ensures
        r@ == msg_empty_command(),
{
    let mut v: Vec<u8> = Vec::new();
    v.push(0x65);
    v.push(0x6d);
    v.push(0x70);
    v.push(0x74);
    v.push(0x79);
    v.push(0x20);
    v.push(0x63);
    v.push(0x6f);
    v.push(0x6d);
    v.push(0x6d);
    v.push(0x61);
    v.push(0x6e);
    v.push(0x64);
    proof {
        assert(v@ =~= msg_empty_command());
    }
    v
}

/// The bytes of "invalid move".
pub open spec fn msg_invalid_move() -> Seq<u8> {
    seq![0x69u8, 0x6eu8, 0x76u8, 0x61u8, 0x6cu8, 0x69u8, 0x64u8, 0x20u8, 0x6du8, 0x6fu8, 0x76u8, 0x65u8]
}

fn msg_invalid_move_exec() -> (r: Vec<u8>)
    ensures
        r@ == msg_invalid_move(),
{
    let mut v: Vec<u8> = Vec::new();
    v.push(0x69);
    v.push(0x6e);
    v.push(0x76);
    v.push(0x61);
    v.push(0x6c);
    v.push(0x69);
    v.push(0x64);
    v.push(0x20);
    v.push(0x6d);
    v.push(0x6f);
    v.push(0x76);
    v.push(0x65);
    proof {
        assert(v@ =~= msg_invalid_move());
    }
    v
}

// ---------------------------------------------------------------------------
// The error texts carrying a token.

/// "too many arguments for command <<cmd>>"
pub open spec fn too_many_args_msg(cmd: Seq<u8>) -> Seq<u8> {
    msg_too_many_prefix() + cmd + msg_close()
}

/// "missing arguments for command <<cmd>>"
pub open spec fn missing_args_msg(cmd: Seq<u8>) -> Seq<u8> {
    msg_missing_prefix() + cmd + msg_close()
}

/// "invalid direction <<tok>>"
pub open spec fn invalid_direction_msg(tok: Seq<u8>) -> Seq<u8> {
    msg_invalid_dir_prefix() + tok + msg_close()
}

/// "unknown command <<cmd>>"
pub open spec fn unknown_command_msg(cmd: Seq<u8>) -> Seq<u8> {
    msg_unknown_prefix() + cmd + msg_close()
}

/// Appends `src` to `dst`.
pub(crate) fn append_bytes(dst: &mut Vec<u8>, src: &Vec<u8>)
    ensures
        final(dst)@ == old(dst)@ + src@,
{
    let mut i: usize = 0;
    while i < src.len()
        invariant
            i <= src@.len(),
            dst@ == old(dst)@ + src@.take(i as int),
        decreases src@.len() - i,
    {
        dst.push(src[i]);
        proof {
            assert(old(dst)@ + src@.take(i as int + 1) =~= (old(dst)@ + src@.take(i as int)).push(
                src@[i as int],
            ));
        }
        i = i + 1;
    }
    proof {
        assert(old(dst)@ + src@.take(src@.len() as int) =~= old(dst)@ + src@);
    }
}

/// Builds prefix + body + closing guillemet.
fn wrap_msg(prefix: Vec<u8>, body: &Vec<u8>) -> (r: Vec<u8>)
    ensures
        r@ == prefix@ + body@ + msg_close(),
{
    let mut out = prefix;
    append_bytes(&mut out, body);
    let close = msg_close_exec();
    append_bytes(&mut out, &close);
    out
}

/// The bytes of "empty command".
pub(crate) fn msg_empty_command_vec() -> (r: Vec<u8>)
    ensures
        r@ == msg_empty_command(),
{
    msg_empty_command_exec()
}

/// The bytes of "invalid move".
pub(crate) fn msg_invalid_move_vec() -> (r: Vec<u8>)
    ensures
        r@ == msg_invalid_move(),
{
    msg_invalid_move_exec()
}

/// The bytes of "unknown command <<cmd>>".
pub(crate) fn unknown_command_msg_vec(cmd: &Vec<u8>) -> (r: Vec<u8>)
    ensures
        r@ == unknown_command_msg(cmd@),
{
    wrap_msg(msg_unknown_prefix_exec(), cmd)
}

/// Whether two byte vectors hold the same bytes.
pub(crate) fn bytes_eq(a: &Vec<u8>, b: &Vec<u8>) -> (r: bool)
    ensures
        r == (a@ == b@),
{
    if a.len() != b.len() {
        proof {
            assert(a@ != b@);
        }
        return false;
    }
    let mut i: usize = 0;
    while i < a.len()
        invariant
            a@.len() == b@.len(),
            i <= a@.len(),
            forall|j: int| 0 <= j < i ==> a@[j] == b@[j],
        decreases a@.len() - i,
    {
        if a[i] != b[i] {
            proof {
                assert(a@[i as int] != b@[i as int]);
            }
            return false;
        }
        i = i + 1;
    }
    proof {
        assert(a@ =~= b@);
    }
    true
}

// ---------------------------------------------------------------------------
// Tokenizing a line.

/// The views of a list of tokens.
pub open spec fn toks_view(ts: Seq<Vec<u8>>) -> Seq<Seq<u8>> {
    ts.map_values(|v: Vec<u8>| v@)
}

/// Splits a line into its whitespace-separated tokens.
pub(crate) fn tokenize(bytes: &Vec<u8>) -> (r: Vec<Vec<u8>>)
    ensures
        toks_view(r@) == tokens_of(bytes@),
{
    let ghost s = bytes@;
    let mut out: Vec<Vec<u8>> = Vec::new();
    let mut cur: Vec<u8> = Vec::new();
    proof {
        assert(cur@ =~= Seq::<u8>::empty());
        assert(toks_view(out@) =~= Seq::<Seq<u8>>::empty());
        assert(Seq::<Seq<u8>>::empty() + tokens_acc(s, 0, cur@) =~= tokens_acc(s, 0, cur@));
    }
    let mut i: usize = 0;
    while i < bytes.len()
        invariant
            s == bytes@,
            i <= s.len(),
            tokens_of(s) == toks_view(out@) + tokens_acc(s, i as int, cur@),
        decreases s.len() - i,
    {
        let b = bytes[i];
        if b == 0x20 || (0x09 <= b && b <= 0x0d) {
            if cur.len() > 0 {
                let ghost out0 = out@;
                let ghost cur0 = cur@;
                out.push(cur);
                cur = Vec::new();
                proof {
                    assert(cur@ =~= Seq::<u8>::empty());
                    assert(tokens_acc(s, i as int, cur0) == seq![cur0] + tokens_acc(
                        s,
                        i as int + 1,
                        cur@,
                    ));
                    assert(toks_view(out@) =~= toks_view(out0) + seq![cur0]);
                    assert((toks_view(out0) + seq![cur0]) + tokens_acc(s, i as int + 1, cur@)
                        =~= toks_view(out0) + (seq![cur0] + tokens_acc(s, i as int + 1, cur@)));
                }
            } else {
                proof {
                    assert(cur@ =~= Seq::<u8>::empty());
                    assert(tokens_acc(s, i as int, cur@) == tokens_acc(s, i as int + 1, cur@));
                }
            }
        } else {
            cur.push(b);
        }
        i = i + 1;
    }
    if cur.len() > 0 {
        let ghost out0 = out@;
        let ghost cur0 = cur@;
        out.push(cur);
        proof {
            assert(tokens_acc(s, i as int, cur0) == seq![cur0]);
            assert(toks_view(out@) =~= toks_view(out0) + seq![cur0]);
        }
    } else {
        proof {
            assert(cur@ =~= Seq::<u8>::empty());
            assert(tokens_acc(s, i as int, cur@) == Seq::<Seq<u8>>::empty());
            assert(toks_view(out@) + Seq::<Seq<u8>>::empty() =~= toks_view(out@));
        }
    }
    out
}

// ---------------------------------------------------------------------------
// Client commands.

/// The wire token of a direction.
pub open spec fn dir_token(d: Direction) -> Seq<u8> {
    match d {
        Direction::DOWN => lit_down(),
        Direction::LEFT => lit_left(),
        Direction::RIGHT => lit_right(),
        Direction::UP => lit_up(),
    }
}

impl ClientMessage {
    /// What parsing a line yields: the first token picks the command, END
    /// and MAP take no argument, MOVE takes exactly one direction.
    pub open spec fn decode_spec(s: Seq<u8>) -> ClientMsg {
        let ts = tokens_of(s);
        if ts.len() == 0 {
            ClientMsg::EmptyCommand
        } else if ts[0] == lit_end() {
            if ts.len() == 1 {
                ClientMsg::EndGame
            } else {
                ClientMsg::InvalidArguments(too_many_args_msg(lit_end()))
            }
        } else if ts[0] == lit_map() {
            if ts.len() == 1 {
                ClientMsg::GetMap
            } else {
                ClientMsg::InvalidArguments(too_many_args_msg(lit_map()))
            }
        } else if ts[0] == lit_move() {
            if ts.len() == 2 {
                if ts[1] == lit_down() {
                    ClientMsg::Move(Direction::DOWN)
                } else if ts[1] == lit_left() {
                    ClientMsg::Move(Direction::LEFT)
                } else if ts[1] == lit_right() {
                    ClientMsg::Move(Direction::RIGHT)
                } else if ts[1] == lit_up() {
                    ClientMsg::Move(Direction::UP)
                } else {
                    ClientMsg::InvalidArguments(invalid_direction_msg(ts[1]))
                }
            } else if ts.len() > 2 {
                ClientMsg::InvalidArguments(too_many_args_msg(lit_move()))
            } else {
                ClientMsg::InvalidArguments(missing_args_msg(lit_move()))
            }
        } else {
            ClientMsg::UnknownCommand(ts[0])
        }
    }

    /// Parses one line of raw bytes into a client message.
    pub fn from_bytes(bytes: &Vec<u8>) -> (r: Self)
        ensures
            r@ == Self::decode_spec(bytes@),
    {
        let mut ts = tokenize(bytes);
        proof {
            assert(toks_view(ts@).len() == ts@.len());
        }
        if ts.len() == 0 {
            return ClientMessage::EmptyCommand;
        }
        proof {
            assert(toks_view(ts@)[0] == ts@[0]@);
        }
        let lend = lit_end_exec();
        let lmap = lit_map_exec();
        let lmove = lit_move_exec();
        if bytes_eq(&ts[0], &lend) {
            if ts.len() == 1 {
                ClientMessage::EndGame
            } else {
                Self::too_many_arguments(&lend)
            }
        } else if bytes_eq(&ts[0], &lmap) {
            if ts.len() == 1 {
                ClientMessage::GetMap
            } else {
                Self::too_many_arguments(&lmap)
            }
        } else if bytes_eq(&ts[0], &lmove) {
            if ts.len() == 2 {
                proof {
                    assert(toks_view(ts@)[1] == ts@[1]@);
                }
                let ldown = lit_down_exec();
                let lleft = lit_left_exec();
                let lright = lit_right_exec();
                let lup = lit_up_exec();
                if bytes_eq(&ts[1], &ldown) {
                    ClientMessage::Move(Direction::DOWN)
                } else if bytes_eq(&ts[1], &lleft) {
                    ClientMessage::Move(Direction::LEFT)
                } else if bytes_eq(&ts[1], &lright) {
                    ClientMessage::Move(Direction::RIGHT)
                } else if bytes_eq(&ts[1], &lup) {
                    ClientMessage::Move(Direction::UP)
                } else {
                    let tok = ts.remove(1);
                    ClientMessage::InvalidArguments(wrap_msg(msg_invalid_dir_prefix_exec(), &tok))
                }
            } else if ts.len() > 2 {
                Self::too_many_arguments(&lmove)
            } else {
                Self::not_enough_arguments(&lmove)
            }
        } else {
            let tok = ts.remove(0);
            ClientMessage::UnknownCommand(tok)
        }
    }

    /// The error for a command that wants an argument it did not get.
    pub fn not_enough_arguments(command: &Vec<u8>) -> (r: Self)
        ensures
            r@ == ClientMsg::InvalidArguments(missing_args_msg(command@)),
    {
        ClientMessage::InvalidArguments(wrap_msg(msg_missing_prefix_exec(), command))
    }

    /// The error for a command followed by more tokens than it takes.
    pub fn too_many_arguments(command: &Vec<u8>) -> (r: Self)
        ensures
            r@ == ClientMsg::InvalidArguments(too_many_args_msg(command@)),
    {
        ClientMessage::InvalidArguments(wrap_msg(msg_too_many_prefix_exec(), command))
    }

    /// The messages that have a canonical wire form: everything a client can
    /// deliberately send.  Parse failures and the transport sentinel carry
    /// no wire form of their own.
    pub open spec fn encodable(m: ClientMsg) -> bool {
        match m {
            ClientMsg::EmptyCommand => true,
            ClientMsg::EndGame => true,
            ClientMsg::GetMap => true,
            ClientMsg::Move(_) => true,
            ClientMsg::UnknownCommand(c) => c.len() > 0 && (forall|i: int|
                0 <= i < c.len() ==> !is_ws(#[trigger] c[i])) && c != lit_end() && c != lit_map()
                && c != lit_move(),
            ClientMsg::InvalidArguments(_) => false,
            ClientMsg::ConnectionEnded => false,
        }
    }

    /// The canonical wire form of an encodable message.
    pub open spec fn encode_spec(m: ClientMsg) -> Seq<u8> {
        match m {
            ClientMsg::EmptyCommand => Seq::empty(),
            ClientMsg::EndGame => lit_end(),
            ClientMsg::GetMap => lit_map(),
            ClientMsg::Move(d) => lit_move() + seq![0x20u8] + dir_token(d),
            ClientMsg::UnknownCommand(c) => c,
            ClientMsg::InvalidArguments(_) => Seq::empty(),
            ClientMsg::ConnectionEnded => Seq::empty(),
        }
    }

    /// Serializes an encodable message to its canonical wire form.
    pub fn into_bytes(self) -> (r: Vec<u8>)
        requires
            Self::encodable(self@),
        ensures
            r@ == Self::encode_spec(self@),
    {
        match self {
            ClientMessage::EmptyCommand => Vec::new(),
            ClientMessage::EndGame => lit_end_exec(),
            ClientMessage::GetMap => lit_map_exec(),
            ClientMessage::Move(d) => {
                let mut out = lit_move_exec();
                out.push(0x20);
                let tok = match d {
                    Direction::DOWN => lit_down_exec(),
                    Direction::LEFT => lit_left_exec(),
                    Direction::RIGHT => lit_right_exec(),
                    Direction::UP => lit_up_exec(),
                };
                append_bytes(&mut out, &tok);
                proof {
                    assert((lit_move().push(0x20u8)) + tok@ =~= lit_move() + seq![0x20u8] + tok@);
                }
                out
            },
            ClientMessage::UnknownCommand(c) => c,
            ClientMessage::InvalidArguments(_) => Vec::new(),
            ClientMessage::ConnectionEnded => Vec::new(),
        }
    }
}

// ---------------------------------------------------------------------------
// Server replies.

impl ServerMessage {
    /// The wire form of a reply: errors carry a NOK prefix, a map reply is
    /// its raw representation, the sentinel serializes to nothing.
    pub open spec fn encode_spec(m: ServerMsg) -> Seq<u8> {
        match m {
            ServerMsg::Error(e) => lit_nok_sp() + e,
            ServerMsg::ValidMove => lit_ok(),
            ServerMsg::MapResponse(rep) => rep,
            ServerMsg::EndGame => lit_end(),
            ServerMsg::EndConnection => Seq::empty(),
        }
    }

    /// Serializes a reply to the bytes put on the wire.
    pub fn into_bytes(self) -> (r: Vec<u8>)
        ensures
            r@ == Self::encode_spec(self@),
    {
        match self {
            ServerMessage::Error(message) => {
                let mut out = lit_nok_sp_exec();
                append_bytes(&mut out, &message);
                out
            },
            ServerMessage::ValidMove => lit_ok_exec(),
            ServerMessage::MapResponse(rep) => rep,
            ServerMessage::EndGame => lit_end_exec(),
            ServerMessage::EndConnection => Vec::new(),
        }
    }

    /// What parsing a reply yields: the fixed words first, then the NOK
    /// prefix, and any other non-empty payload reads as a map reply.
    pub open spec fn decode_spec(s: Seq<u8>) -> ServerMsg {
        if s.len() == 0 {
            ServerMsg::EndConnection
        } else if s == lit_ok() {
            ServerMsg::ValidMove
        } else if s == lit_end() {
            ServerMsg::EndGame
        } else if s.len() >= 4 && s.take(4) == lit_nok_sp() {
            ServerMsg::Error(s.skip(4))
        } else {
            ServerMsg::MapResponse(s)
        }
    }

    /// Parses a reply line.
    pub fn from_bytes(bytes: &Vec<u8>) -> (r: Self)
        ensures
            r@ == Self::decode_spec(bytes@),
    {
        if bytes.len() == 0 {
            return ServerMessage::EndConnection;
        }
        let lok = lit_ok_exec();
        let lend = lit_end_exec();
        if bytes_eq(bytes, &lok) {
            return ServerMessage::ValidMove;
        }
        if bytes_eq(bytes, &lend) {
            return ServerMessage::EndGame;
        }
        if bytes.len() >= 4 {
            let mut head: Vec<u8> = Vec::new();
            head.push(bytes[0]);
            head.push(bytes[1]);
            head.push(bytes[2]);
            head.push(bytes[3]);
            proof {
                assert(head@ =~= bytes@.take(4));
            }
            let lnok = lit_nok_sp_exec();
            if bytes_eq(&head, &lnok) {
                let mut rest: Vec<u8> = Vec::new();
                let mut i: usize = 4;
                while i < bytes.len()
                    invariant
                        4 <= i <= bytes@.len(),
                        rest@ == bytes@.subrange(4, i as int),
                    decreases bytes@.len() - i,
                {
                    rest.push(bytes[i]);
                    proof {
                        assert(bytes@.subrange(4, i as int + 1) =~= bytes@.subrange(
                            4,
                            i as int,
                        ).push(bytes@[i as int]));
                    }
                    i = i + 1;
                }
                proof {
                    assert(bytes@.subrange(4, bytes@.len() as int) =~= bytes@.skip(4));
                }
                return ServerMessage::Error(rest);
            }
        }
        let mut copy: Vec<u8> = Vec::new();
        append_bytes(&mut copy, bytes);
        proof {
            assert(Seq::<u8>::empty() + bytes@ =~= bytes@);
        }
        ServerMessage::MapResponse(copy)
    }
}

// ---------------------------------------------------------------------------
// Round trips.

/// Scanning a run of non-whitespace bytes only grows the current token.
proof fn lemma_tokens_run(s: Seq<u8>, i: int, cur: Seq<u8>, j: int)
    requires
        0 <= i <= j <= s.len(),
        forall|k: int| i <= k < j ==> !is_ws(#[trigger] s[k]),
    ensures
        tokens_acc(s, i, cur) == tokens_acc(s, j, cur + s.subrange(i, j)),
    decreases j - i,
{
    if i == j {
        assert(cur + s.subrange(i, j) =~= cur);
    } else {
        lemma_tokens_run(s, i + 1, cur.push(s[i]), j);
        assert(cur.push(s[i]) + s.subrange(i + 1, j) =~= cur + s.subrange(i, j));
    }
}

/// A line holding one whitespace-free word tokenizes to that word.
proof fn lemma_tokens_single(c: Seq<u8>)
    requires
        c.len() > 0,
        forall|i: int| 0 <= i < c.len() ==> !is_ws(#[trigger] c[i]),
    ensures
        tokens_of(c) == seq![c],
{
    lemma_tokens_run(c, 0, Seq::empty(), c.len() as int);
    assert(Seq::<u8>::empty() + c.subrange(0, c.len() as int) =~= c);
}

/// Two whitespace-free words joined by one space tokenize to the pair.
proof fn lemma_tokens_pair(a: Seq<u8>, b: Seq<u8>)
    requires
        a.len() > 0,
        b.len() > 0,
        forall|i: int| 0 <= i < a.len() ==> !is_ws(#[trigger] a[i]),
        forall|i: int| 0 <= i < b.len() ==> !is_ws(#[trigger] b[i]),
    ensures
        tokens_of(a + seq![0x20u8] + b) == seq![a, b],
{
    let s = a + seq![0x20u8] + b;
    assert forall|k: int| 0 <= k < a.len() implies !is_ws(#[trigger] s[k]) by {
        assert(s[k] == a[k]);
    }
    lemma_tokens_run(s, 0, Seq::empty(), a.len() as int);
    assert(Seq::<u8>::empty() + s.subrange(0, a.len() as int) =~= a);
    assert(is_ws(s[a.len() as int]));
    assert(tokens_acc(s, a.len() as int, a) == seq![a] + tokens_acc(
        s,
        a.len() as int + 1,
        Seq::empty(),
    ));
    assert forall|k: int| a.len() + 1 <= k < s.len() implies !is_ws(#[trigger] s[k]) by {
        assert(s[k] == b[k - a.len() - 1]);
    }
    lemma_tokens_run(s, a.len() as int + 1, Seq::empty(), s.len() as int);
    assert(Seq::<u8>::empty() + s.subrange(a.len() as int + 1, s.len() as int) =~= b);
    assert(tokens_acc(s, s.len() as int, b) == seq![b]);
    assert(seq![a] + seq![b] =~= seq![a, b]);
}

/// Round trip for client messages: parsing the canonical wire form of any
/// encodable message gives the message back.
pub proof fn lemma_client_round_trip(m: ClientMsg)
    requires
        ClientMessage::encodable(m),
    ensures
        ClientMessage::decode_spec(ClientMessage::encode_spec(m)) == m,
{
    match m {
        ClientMsg::EmptyCommand => {
        },
        ClientMsg::EndGame => {
            assert forall|i: int| 0 <= i < lit_end().len() implies !is_ws(
                #[trigger] lit_end()[i],
            ) by {}
            lemma_tokens_single(lit_end());
        },
        ClientMsg::GetMap => {
            assert forall|i: int| 0 <= i < lit_map().len() implies !is_ws(
                #[trigger] lit_map()[i],
            ) by {}
            lemma_tokens_single(lit_map());
            assert(lit_map() != lit_end());
        },
        ClientMsg::Move(d) => {
            assert forall|i: int| 0 <= i < lit_move().len() implies !is_ws(
                #[trigger] lit_move()[i],
            ) by {}
            assert forall|i: int| 0 <= i < dir_token(d).len() implies !is_ws(
                #[trigger] dir_token(d)[i],
            ) by {}
            lemma_tokens_pair(lit_move(), dir_token(d));
            assert(lit_move() != lit_end());
            assert(lit_move() != lit_map());
        },
        ClientMsg::UnknownCommand(c) => {
            lemma_tokens_single(c);
        },
        _ => {
        },
    }
}

impl ServerMessage {
    /// The replies whose wire form reads back unambiguously: everything but
    /// a map reply that masquerades as one of the fixed words or as an
    /// error line — a real map reply is 1369 cell characters and starts
    /// with a Border cell, far from any of those.
    pub open spec fn encodable(m: ServerMsg) -> bool {
        match m {
            ServerMsg::MapResponse(rep) => rep.len() > 0 && rep != lit_ok() && rep != lit_end()
                && !(rep.len() >= 4 && rep.take(4) == lit_nok_sp()),
            _ => true,
        }
    }
}

/// A well-formed world's MAP reply is always encodable: its representation
/// is 1369 cell characters and opens with a Border cell, so it can be
/// mistaken for none of the fixed words and not for an error line.
pub proof fn lemma_map_reply_encodable(m: crate::map::GameMap)
    requires
        m.wf(),
    ensures
        ServerMessage::encodable(ServerMsg::MapResponse(m.spec_repr())),
{
    let rep = m.spec_repr();
    assert(crate::map::in_grid(0, 0) && crate::map::on_ring(0, 0));
    assert(crate::map::cell(m.tiles@, 0, 0) == crate::map::Tile::BORDER);
    if m.player_at(0, 0) {
        assert(crate::map::in_grid(m.player.x as int, m.player.y as int) && crate::map::on_ring(
            m.player.x as int,
            m.player.y as int,
        ));
        assert(crate::map::cell(m.tiles@, m.player.x as int, m.player.y as int)
            == crate::map::Tile::BORDER);
    }
    if crate::map::has_diamond(m.diamonds@, 0, 0) {
        let i = choose|i: int|
            0 <= i < m.diamonds@.len() && m.diamonds@[i].x == 0 && m.diamonds@[i].y == 0;
        assert(crate::map::cell(m.tiles@, m.diamonds@[i].x as int, m.diamonds@[i].y as int)
            == crate::map::Tile::BORDER);
    }
    assert(rep[0] == 0x42);
    assert(rep.take(4)[0] == 0x42);
    assert(rep != lit_ok() && rep != lit_end() && rep.take(4) != lit_nok_sp());
}

/// Round trip for server replies: parsing the wire form of any encodable
/// reply gives the reply back.
pub proof fn lemma_server_round_trip(m: ServerMsg)
    requires
        ServerMessage::encodable(m),
    ensures
        ServerMessage::decode_spec(ServerMessage::encode_spec(m)) == m,
{
    match m {
        ServerMsg::Error(e) => {
            let s = lit_nok_sp() + e;
            assert(s.len() >= 4);
            assert(s != lit_ok());
            assert(s.len() == 3 ==> false);
            assert(s != lit_end());
            assert(s.take(4) =~= lit_nok_sp());
            assert(s.skip(4) =~= e);
        },
        ServerMsg::EndGame => {
            assert(lit_end() != lit_ok());
        },
        _ => {
        },
    }
}

} // verus!

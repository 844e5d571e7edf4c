//! Verified endpoints: what a server must offer before and after a login.
use vstd::prelude::*;

use super::{Error, Limits, TlsMode};
use crate::config;
use crate::digest::{digest, sha256};
use crate::text::{byte_len, utf8_len};

verus! {

/// An authenticated connection with no selected mailbox or retained credential. Transfers are bound to
/// its identity.
#[derive(Clone, Copy, Debug)]
pub struct AuthenticatedConnection {
    identity: [u8; 32],
}

impl View for AuthenticatedConnection {
    type V = Seq<u8>;

    closed spec fn view(&self) -> Seq<u8> {
        self.identity@
    }
}

/// A number in eight bytes, the most significant first.
pub open spec fn eight_bytes(value: u64) -> Seq<u8> {
    seq![
        (value / 0x100_0000_0000_0000) as u8,
        (value / 0x1_0000_0000_0000 % 256) as u8,
        (value / 0x100_0000_0000 % 256) as u8,
        (value / 0x1_0000_0000 % 256) as u8,
        (value / 0x100_0000 % 256) as u8,
        (value / 0x1_0000 % 256) as u8,
        (value / 0x100 % 256) as u8,
        (value % 256) as u8,
    ]
}

pub fn push_number(out: &mut Vec<u8>, value: u64)
    ensures
        final(out)@ == old(out)@ + eight_bytes(value),
{
    let ghost before = out@;
    out.push((value / 0x100_0000_0000_0000) as u8);
    out.push((value / 0x1_0000_0000_0000 % 256) as u8);
    out.push((value / 0x100_0000_0000 % 256) as u8);
    out.push((value / 0x1_0000_0000 % 256) as u8);
    out.push((value / 0x100_0000 % 256) as u8);
    out.push((value / 0x1_0000 % 256) as u8);
    out.push((value / 0x100 % 256) as u8);
    out.push((value % 256) as u8);
    assert(out@ =~= before + eight_bytes(value));
}

/// A text with its length in front of it.
pub open spec fn prefixed(text: Seq<char>) -> Seq<u8> {
    eight_bytes(utf8_len(text) as u64) + vstd::utf8::encode_utf8(text)
}

pub fn push_prefixed(out: &mut Vec<u8>, text: &str)
    ensures
        final(out)@ == old(out)@ + prefixed(text@),
{
    let ghost before = out@;
    push_number(out, byte_len(text) as u64);
    let bytes = text.as_bytes();
    let ghost start = out@;
    for i in 0..bytes.len()
        invariant
            out@ == start + bytes@.take(i as int),
    {
        out.push(bytes[i]);
        assert(bytes@.take(i + 1) =~= bytes@.take(i as int).push(bytes@[i as int]));
    }
    assert(bytes@.take(bytes@.len() as int) =~= bytes@);
    assert(out@ =~= before + prefixed(text@));
}

/// What identifies a user at a server: the host, the user and the port.
pub open spec fn login_bytes(host: Seq<char>, user: Seq<char>, port: u16) -> Seq<u8> {
    prefixed(host) + prefixed(user) + seq![(port / 256) as u8, (port % 256) as u8]
}

impl AuthenticatedConnection {
    /// The connection of a user at a server.
    pub fn authenticated(host: &str, user: &str, port: u16) -> (r: Self)
        ensures
            r@ == sha256(login_bytes(host@, user@, port)),
    {
        let mut bytes: Vec<u8> = Vec::new();
        push_prefixed(&mut bytes, host);
        push_prefixed(&mut bytes, user);
        bytes.push((port / 256) as u8);
        bytes.push((port % 256) as u8);
        assert(bytes@ =~= login_bytes(host@, user@, port));
        AuthenticatedConnection { identity: digest(bytes.as_slice()) }
    }

    /// What transfers are bound to.
    pub fn identity(&self) -> (r: [u8; 32])
        ensures
            r@ == self@,
    {
        self.identity
    }
}

impl Limits {
    /// The IMAP limits under which a connection is opened.
    pub fn connection(limits: &config::Limits) -> (r: Limits)
        requires
            limits.valid(),
        ensures
            r == (Limits {
                operation_timeout_millis: (limits.operation_seconds * 1000) as u64,
                connect_timeout_millis: (limits.connection_seconds * 1000) as u64,
                ..Limits::standard()
            }),
            r.valid(),
    {
        let mut out = Limits::default();
        out.operation_timeout_millis = limits.operation_seconds as u64 * 1000;
        out.connect_timeout_millis = limits.connection_seconds as u64 * 1000;
        out
    }
}

/// Accepts the settings of an endpoint.
pub fn endpoint(host: &str, port: u16, limits: &Limits) -> (r: Result<(), Error>)
    ensures
        r == (if limits.valid() && 1 <= utf8_len(host@) <= 253 && port != 0 {
            Ok::<(), Error>(())
        } else {
            Err(Error::InvalidInput)
        }),
{
    match limits.validate() {
        Ok(()) => {},
        Err(error) => {
            return Err(error);
        },
    }
    let length: usize = byte_len(host);
    if length == 0 || length > 253 || port == 0 {
        return Err(Error::InvalidInput);
    }
    Ok(())
}

/// The capabilities that decide how a connection goes on.
#[derive(Clone, Copy, Debug, PartialEq, Eq, Structural)]
pub struct Offered {
    pub imap4rev1: bool,
    pub start_tls: bool,
    pub login_disabled: bool,
}

/// How far a connection has come when the server tells its capabilities.
#[derive(Clone, Copy, Debug, PartialEq, Eq, Structural)]
pub enum Stage {
    Greeted,
    Upgraded,
    LoggedIn,
}

/// What is done next with a connection.
#[derive(Clone, Copy, Debug, PartialEq, Eq, Structural)]
pub enum Advance {
    UpgradeToTls,
    SendLogin,
    HandOver,
}

/// A login is sent only to a server that speaks the protocol, allows logins, and is reached over TLS.
pub open spec fn advance(mode: TlsMode, stage: Stage, offered: Offered) -> Result<Advance, Error> {
    match stage {
        Stage::Greeted if mode is StartTls => if offered.start_tls {
            Ok(Advance::UpgradeToTls)
        } else {
            Err(Error::Unsupported)
        },
        Stage::Greeted | Stage::Upgraded => if offered.imap4rev1 && !offered.login_disabled {
            Ok(Advance::SendLogin)
        } else {
            Err(Error::Unsupported)
        },
        Stage::LoggedIn => if offered.imap4rev1 {
            Ok(Advance::HandOver)
        } else {
            Err(Error::Unsupported)
        },
    }
}

pub fn next_step(mode: TlsMode, stage: Stage, offered: Offered) -> (r: Result<Advance, Error>)
    ensures
        r == advance(mode, stage, offered),
{
    match stage {
        Stage::Greeted if mode == TlsMode::StartTls => if offered.start_tls {
            Ok(Advance::UpgradeToTls)
        } else {
            Err(Error::Unsupported)
        },
        Stage::Greeted | Stage::Upgraded => if offered.imap4rev1 && !offered.login_disabled {
            Ok(Advance::SendLogin)
        } else {
            Err(Error::Unsupported)
        },
        Stage::LoggedIn => if offered.imap4rev1 {
            Ok(Advance::HandOver)
        } else {
            Err(Error::Unsupported)
        },
    }
}

/// Where TLS is started on an open connection, no login is sent before it is.
pub proof fn logins_wait_for_tls(offered: Offered)
    ensures
        advance(TlsMode::StartTls, Stage::Greeted, offered) != Ok::<Advance, Error>(
            Advance::SendLogin,
        ),
{
}

/// The number that eight bytes spell, the most significant first.
pub open spec fn read_eight(bytes: Seq<u8>) -> int {
    0x100_0000_0000_0000 * bytes[0] + 0x1_0000_0000_0000 * bytes[1] + 0x100_0000_0000 * bytes[2] + 0x1_0000_0000
        * bytes[3] + 0x100_0000 * bytes[4] + 0x1_0000 * bytes[5] + 0x100 * bytes[6] + bytes[7]
}

/// A number reads back from its eight bytes.
pub proof fn numbers_read_back_from_bytes(value: u64)
    ensures
        eight_bytes(value).len() == 8,
        read_eight(eight_bytes(value)) == value,
{
    let a = value as int / 256;
    let b = a / 256;
    let c = b / 256;
    let d = c / 256;
    let e = d / 256;
    let f = e / 256;
    let g = f / 256;
    assert(value as int / 0x1_0000 == b);
    assert(value as int / 0x100_0000 == c);
    assert(value as int / 0x1_0000_0000 == d);
    assert(value as int / 0x100_0000_0000 == e);
    assert(value as int / 0x1_0000_0000_0000 == f);
    assert(value as int / 0x100_0000_0000_0000 == g);
    assert(0 <= g < 256);
}

/// Texts with their lengths in front of them are told apart whatever follows: two rows that begin with
/// such texts and are equal begin with the same text and go on in the same way.
pub proof fn prefixed_texts_are_told_apart(a: Seq<char>, rest_a: Seq<u8>, b: Seq<char>, rest_b: Seq<u8>)
    requires
        utf8_len(a) <= u64::MAX,
        utf8_len(b) <= u64::MAX,
        prefixed(a) + rest_a == prefixed(b) + rest_b,
    ensures
        a == b,
        rest_a == rest_b,
{
    let (x, y) = (prefixed(a) + rest_a, prefixed(b) + rest_b);
    let (m, n) = (utf8_len(a) as u64, utf8_len(b) as u64);
    numbers_read_back_from_bytes(m);
    numbers_read_back_from_bytes(n);
    assert(x.take(8) =~= eight_bytes(m));
    assert(y.take(8) =~= eight_bytes(n));
    assert(m == n);
    let end = 8 + m as int;
    assert(x.subrange(8, end) =~= vstd::utf8::encode_utf8(a));
    assert(y.subrange(8, end) =~= vstd::utf8::encode_utf8(b));
    vstd::utf8::encode_utf8_decode_utf8(a);
    vstd::utf8::encode_utf8_decode_utf8(b);
    assert(x.skip(end) =~= rest_a);
    assert(y.skip(end) =~= rest_b);
}

/// Logins to different servers, ports or users are told apart.
pub proof fn logins_are_told_apart(
    host_a: Seq<char>,
    user_a: Seq<char>,
    port_a: u16,
    host_b: Seq<char>,
    user_b: Seq<char>,
    port_b: u16,
)
    requires
        utf8_len(host_a) <= u64::MAX && utf8_len(user_a) <= u64::MAX,
        utf8_len(host_b) <= u64::MAX && utf8_len(user_b) <= u64::MAX,
        login_bytes(host_a, user_a, port_a) == login_bytes(host_b, user_b, port_b),
    ensures
        host_a == host_b && user_a == user_b && port_a == port_b,
{
    let tail_a = seq![(port_a / 256) as u8, (port_a % 256) as u8];
    let tail_b = seq![(port_b / 256) as u8, (port_b % 256) as u8];
    assert(login_bytes(host_a, user_a, port_a) =~= prefixed(host_a) + (prefixed(user_a) + tail_a));
    assert(login_bytes(host_b, user_b, port_b) =~= prefixed(host_b) + (prefixed(user_b) + tail_b));
    prefixed_texts_are_told_apart(host_a, prefixed(user_a) + tail_a, host_b, prefixed(user_b) + tail_b);
    prefixed_texts_are_told_apart(user_a, tail_a, user_b, tail_b);
    assert(tail_a[0] == tail_b[0] && tail_a[1] == tail_b[1]);
    assert((port_a / 256) as u8 == port_a / 256 && (port_b / 256) as u8 == port_b / 256);
    assert((port_a % 256) as u8 == port_a % 256 && (port_b % 256) as u8 == port_b % 256);
}

/// A connection moves on only to what the server offers: to TLS where it is not on TLS yet and has to be,
/// to the login where IMAP4rev1 and logins are offered, and to its use where IMAP4rev1 still is. It is
/// refused otherwise.
pub proof fn offers_decide(mode: TlsMode, stage: Stage, offered: Offered)
    ensures
        advance(mode, stage, offered) is Err ==> advance(mode, stage, offered) == Err::<Advance, Error>(
            Error::Unsupported,
        ),
        advance(mode, stage, offered) == Ok::<Advance, Error>(Advance::UpgradeToTls) <==> mode is StartTls
            && stage is Greeted && offered.start_tls,
        advance(mode, stage, offered) == Ok::<Advance, Error>(Advance::SendLogin) <==> offered.imap4rev1
            && !offered.login_disabled && (stage is Upgraded || (stage is Greeted && !(mode is StartTls))),
        advance(mode, stage, offered) == Ok::<Advance, Error>(Advance::HandOver) <==> offered.imap4rev1
            && stage is LoggedIn,
{
}

} // verus!

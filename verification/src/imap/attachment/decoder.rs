//! Strict incremental transfer decoding owns carry, output limits, and integrity.
use vstd::prelude::*;

use crate::digest::{absorb, absorbed, digest_of, sha256, start};
use crate::imap::body::transfer::{base64_value, is_padded, is_quartet, is_sextet, sextet, EQUALS};
use crate::imap::{Error, Limits};
use crate::text::{ascii_space, copy_range, is_ascii_space};

verus! {

/// The largest piece of the wire form that is decoded at once.
pub const WIRE_SLICE_BYTES: usize = 16384;

#[derive(Clone, Copy, Debug, PartialEq, Eq, Structural)]
pub enum TransferEncoding {
    Identity,
    Base64,
    QuotedPrintable,
}

/// Decoding that can stop anywhere in the wire form and go on later.
pub struct Decoder {
    pub encoding: TransferEncoding,
    pub pending: Vec<u8>,
    pub base64: Vec<u8>,
    pub base64_padded: bool,
    pub quoted_printable: Vec<u8>,
    pub whitespace: Vec<u8>,
    pub carriage_return: bool,
    pub decoded_offset: usize,
    pub decode_steps: usize,
    pub max_state_bytes: usize,
    pub digest: sha2::Sha256,
}

/// What a decoder holds: octets that were handed out, octets that wait, and the undecided rest of
/// the wire form.
pub struct Decoding {
    pub encoding: TransferEncoding,
    pub taken: Seq<u8>,
    pub pending: Seq<u8>,
    pub base64: Seq<u8>,
    pub padded: bool,
    pub quoted: Seq<u8>,
    pub whitespace: Seq<u8>,
    pub carriage_return: bool,
    /// The most that was held at once.
    pub peak: nat,
}

impl View for Decoder {
    type V = Decoding;

    open spec fn view(&self) -> Decoding {
        Decoding {
            encoding: self.encoding,
            taken: absorbed(self.digest),
            pending: self.pending@,
            base64: self.base64@,
            padded: self.base64_padded,
            quoted: self.quoted_printable@,
            whitespace: self.whitespace@,
            carriage_return: self.carriage_return,
            peak: self.max_state_bytes as nat,
        }
    }
}

/// The octets that four bytes of base64 stand for.
pub open spec fn quartet_octets(q: Seq<u8>) -> Seq<u8> {
    let first = (sextet(q[0]) * 4 + sextet(q[1]) / 16) as u8;
    let second = ((sextet(q[1]) % 16) * 16 + sextet(q[2]) / 4) as u8;
    let third = ((sextet(q[2]) % 4) * 64 + sextet(q[3])) as u8;
    if q[2] == EQUALS {
        seq![first]
    } else if q[3] == EQUALS {
        seq![first, second]
    } else {
        seq![first, second, third]
    }
}

pub open spec fn hex_value(b: u8) -> Option<int> {
    if 0x30 <= b <= 0x39 {
        Some(b - 0x30)
    } else if 0x61 <= b <= 0x66 {
        Some(b - 0x61 + 10)
    } else if 0x41 <= b <= 0x46 {
        Some(b - 0x41 + 10)
    } else {
        None
    }
}

fn hex(b: u8) -> (r: Option<u8>)
    ensures
        match r {
            Some(value) => hex_value(b) == Some(value as int) && value < 16,
            None => hex_value(b) is None,
        },
{
    if 0x30 <= b && b <= 0x39 {
        Some(b - 0x30)
    } else if 0x61 <= b && b <= 0x66 {
        Some(b - 0x61 + 10)
    } else if 0x41 <= b && b <= 0x46 {
        Some(b - 0x41 + 10)
    } else {
        None
    }
}

/// The most that a decoder may hold at once.
pub open spec fn state_limit(limits: Limits) -> int {
    if WIRE_SLICE_BYTES + limits.max_attachment_chunk_bytes > usize::MAX {
        usize::MAX as int
    } else {
        WIRE_SLICE_BYTES + limits.max_attachment_chunk_bytes
    }
}

impl Decoding {
    /// Nothing has been decoded.
    pub open spec fn fresh(encoding: TransferEncoding) -> Decoding {
        Decoding {
            encoding,
            taken: Seq::empty(),
            pending: Seq::empty(),
            base64: Seq::empty(),
            padded: false,
            quoted: Seq::empty(),
            whitespace: Seq::empty(),
            carriage_return: false,
            peak: 0,
        }
    }

    /// Everything that has been decoded so far.
    pub open spec fn octets(self) -> Seq<u8> {
        self.taken + self.pending
    }

    /// The bytes that are held.
    pub open spec fn retained(self) -> int {
        self.pending.len() + self.base64.len() + self.quoted.len() + self.whitespace.len() + if self.carriage_return {
            1int
        } else {
            0int
        }
    }

    /// What is held, with what the decoder itself takes.
    pub open spec fn footprint(self) -> nat {
        if self.retained() + 128 > usize::MAX {
            usize::MAX as nat
        } else {
            (self.retained() + 128) as nat
        }
    }

    /// The most that was held includes what is held now.
    pub open spec fn noted(self) -> Decoding {
        Decoding {
            peak: if self.footprint() > self.peak {
                self.footprint()
            } else {
                self.peak
            },
            ..self
        }
    }

    /// Another byte may be held back.
    pub open spec fn has_room(self, limits: Limits) -> bool {
        self.retained() < state_limit(limits)
    }

    /// Decoded octets wait to be handed out.
    pub open spec fn emitted(self, bytes: Seq<u8>, limits: Limits) -> Result<Decoding, Error> {
        if bytes.len() > 0 && (self.octets().len() + bytes.len()
            > limits.max_attachment_decoded_bytes || self.retained() + bytes.len() > state_limit(
            limits,
        )) {
            Err(Error::Limit)
        } else {
            Ok((Decoding { pending: self.pending + bytes, ..self }).noted())
        }
    }

    /// A byte of base64.
    pub open spec fn base64_byte(self, byte: u8, limits: Limits) -> Result<Decoding, Error> {
        if is_ascii_space(byte) {
            Ok(self)
        } else if self.padded || !(is_sextet(byte) || byte == EQUALS) {
            Err(Error::Protocol)
        } else if !self.has_room(limits) {
            Err(Error::Limit)
        } else {
            let q = self.base64.push(byte);
            let held = Decoding { base64: q, ..self };
            if q.len() < 4 {
                Ok(held.noted())
            } else if !is_quartet(q) {
                Err(Error::Protocol)
            } else {
                match held.emitted(quartet_octets(q), limits) {
                    Err(error) => Err(error),
                    Ok(after) => Ok(
                        (Decoding { base64: Seq::empty(), padded: is_padded(q), ..after }).noted(),
                    ),
                }
            }
        }
    }

    /// A byte of quoted-printable text whose place in its line is settled.
    pub open spec fn quoted_octet(self, byte: u8, limits: Limits) -> Result<Decoding, Error> {
        if self.quoted.len() == 0 && byte != EQUALS {
            self.emitted(seq![byte], limits)
        } else if !self.has_room(limits) {
            Err(Error::Limit)
        } else {
            let q = self.quoted.push(byte);
            if q.len() < 3 {
                Ok(Decoding { quoted: q, ..self })
            } else {
                let open = Decoding { quoted: Seq::empty(), ..self };
                if q[1] == 0x0d && q[2] == 0x0a {
                    Ok(open)
                } else if hex_value(q[1]) is Some && hex_value(q[2]) is Some {
                    open.emitted(
                        seq![(hex_value(q[1])->0 * 16 + hex_value(q[2])->0) as u8],
                        limits,
                    )
                } else {
                    Err(Error::Protocol)
                }
            }
        }
    }

    /// Several such bytes, the first `count` of them.
    pub open spec fn quoted_octets(self, bytes: Seq<u8>, count: int, limits: Limits) -> Result<
        Decoding,
        Error,
    >
        decreases count,
    {
        if count <= 0 {
            Ok(self)
        } else {
            match self.quoted_octets(bytes, count - 1, limits) {
                Err(error) => Err(error),
                Ok(before) => before.quoted_octet(bytes[count - 1], limits),
            }
        }
    }

    /// The held white space and carriage return turn out to be data.
    pub open spec fn flushed(self, limits: Limits) -> Result<Decoding, Error> {
        let open = Decoding { whitespace: Seq::empty(), ..self };
        match open.quoted_octets(self.whitespace, self.whitespace.len() as int, limits) {
            Err(error) => Err(error),
            Ok(after) => if after.carriage_return {
                (Decoding { carriage_return: false, ..after }).quoted_octet(0x0d, limits)
            } else {
                Ok(after)
            },
        }
    }

    /// A byte behind which no carriage return waits. White space at the end of a line is dropped.
    pub open spec fn quoted_raw(self, byte: u8, limits: Limits) -> Result<Decoding, Error> {
        if byte == 0x20 || byte == 0x09 {
            if !self.has_room(limits) {
                Err(Error::Limit)
            } else {
                Ok(Decoding { whitespace: self.whitespace.push(byte), ..self })
            }
        } else if byte == 0x0d {
            if !self.has_room(limits) {
                Err(Error::Limit)
            } else {
                Ok(Decoding { carriage_return: true, ..self })
            }
        } else if byte == 0x0a {
            (Decoding { whitespace: Seq::empty(), ..self }).quoted_octet(0x0a, limits)
        } else {
            match self.flushed(limits) {
                Err(error) => Err(error),
                Ok(after) => after.quoted_octet(byte, limits),
            }
        }
    }

    /// A byte of quoted-printable text.
    pub open spec fn quoted_byte(self, byte: u8, limits: Limits) -> Result<Decoding, Error> {
        if self.carriage_return && byte == 0x0a {
            let line = Decoding { whitespace: Seq::empty(), carriage_return: false, ..self };
            match line.quoted_octet(0x0d, limits) {
                Err(error) => Err(error),
                Ok(after) => after.quoted_octet(0x0a, limits),
            }
        } else if self.carriage_return {
            match self.flushed(limits) {
                Err(error) => Err(error),
                Ok(after) => after.quoted_raw(byte, limits),
            }
        } else {
            self.quoted_raw(byte, limits)
        }
    }

    pub open spec fn byte(self, byte: u8, limits: Limits) -> Result<Decoding, Error> {
        match self.encoding {
            TransferEncoding::Identity => self.emitted(seq![byte], limits),
            TransferEncoding::Base64 => self.base64_byte(byte, limits),
            TransferEncoding::QuotedPrintable => match self.quoted_byte(byte, limits) {
                Err(error) => Err(error),
                Ok(after) => Ok(after.noted()),
            },
        }
    }

    /// The first `count` bytes of the wire form.
    pub open spec fn bytes(self, wire: Seq<u8>, count: int, limits: Limits) -> Result<
        Decoding,
        Error,
    >
        decreases count,
    {
        if count <= 0 {
            Ok(self)
        } else {
            match self.bytes(wire, count - 1, limits) {
                Err(error) => Err(error),
                Ok(before) => before.byte(wire[count - 1], limits),
            }
        }
    }

    /// A piece of the wire form. Where it is not encoded, it is taken at once.
    pub open spec fn decoded(self, wire: Seq<u8>, limits: Limits) -> Result<Decoding, Error> {
        match self.encoding {
            TransferEncoding::Identity => self.emitted(wire, limits),
            _ => self.bytes(wire, wire.len() as int, limits),
        }
    }

    /// The end of the wire form. Nothing may be left undecided.
    pub open spec fn finished(self, limits: Limits) -> Result<Decoding, Error> {
        match self.encoding {
            TransferEncoding::Identity => Ok(self),
            TransferEncoding::Base64 => if self.base64.len() == 0 {
                Ok(self)
            } else {
                Err(Error::Protocol)
            },
            TransferEncoding::QuotedPrintable => {
                let settled = if self.carriage_return {
                    self.flushed(limits)
                } else {
                    Ok(Decoding { whitespace: Seq::empty(), ..self })
                };
                match settled {
                    Err(error) => Err(error),
                    Ok(after) => if after.quoted.len() == 0 {
                        Ok(after)
                    } else {
                        Err(Error::Protocol)
                    },
                }
            },
        }
    }

    /// Nothing that `before` had decoded is lost.
    pub open spec fn keeps(self, before: Decoding) -> bool {
        &&& self.taken == before.taken
        &&& before.pending.is_prefix_of(self.pending)
        &&& self.peak >= before.peak
    }

    /// The state is one that a decoder can be in between two bytes.
    pub open spec fn well_formed(self) -> bool {
        self.base64.len() < 4 && self.quoted.len() < 3
    }
}

/// A piece of the wire form that is decoded after `steps` bytes of it: the decoding that it leads to, and
/// the bytes that were decoded in all.
pub open spec fn pushed(s: Decoding, steps: nat, wire: Seq<u8>, limits: Limits) -> Result<
    (Decoding, nat),
    Error,
> {
    if steps + wire.len() > limits.max_decode_steps {
        Err(Error::Limit)
    } else {
        match s.decoded(wire, limits) {
            Err(error) => Err(error),
            Ok(after) => Ok((after, steps + wire.len())),
        }
    }
}

/// What is left of a decoding whose wire form is refused: all that the bytes before the refused one gave.
/// A quartet of base64 is refused before any of its octets is let out.
pub open spec fn stops(before: Decoding, wire: Seq<u8>, limits: Limits, after: Decoding) -> bool {
    match before.encoding {
        TransferEncoding::Identity => after == before,
        _ => exists|k: int|
            0 <= k < wire.len() && (#[trigger] before.bytes(wire, k, limits) matches Ok(mid)
                && mid.byte(wire[k], limits) is Err && after.keeps(mid) && (before.encoding is Base64
                ==> after.pending == mid.pending && after.peak == mid.peak)),
    }
}

/// Where the wire form is cut makes no difference: decoding it piece by piece gives the same octets,
/// the same counts and the same peak as decoding it at once, and is accepted where that is.
#[verifier::spinoff_prover]
#[verifier::rlimit(40)]
pub proof fn pieces_make_no_difference(
    s: Decoding,
    steps: nat,
    first: Seq<u8>,
    second: Seq<u8>,
    limits: Limits,
)
    ensures
        s.decoded(first + second, limits) == (match s.decoded(first, limits) {
            Err(error) => Err(error),
            Ok(after) => after.decoded(second, limits),
        }),
        pushed(s, steps, first + second, limits) matches Ok(whole) ==> (pushed(
            s,
            steps,
            first,
            limits,
        ) matches Ok((after, done)) && pushed(after, done, second, limits) == Ok::<
            (Decoding, nat),
            Error,
        >(whole)),
        pushed(s, steps, first, limits) matches Ok((after, done)) ==> (pushed(
            after,
            done,
            second,
            limits,
        ) is Ok ==> pushed(s, steps, first + second, limits) == pushed(after, done, second, limits)),
{
    match s.encoding {
        TransferEncoding::Identity => {
            if s.emitted(first, limits) is Ok {
                let after = s.emitted(first, limits)->Ok_0;
                assert(after.octets().len() == s.octets().len() + first.len());
                assert(after.pending + second =~= s.pending + (first + second));
            }
        },
        _ => {
            pieces_join(s, first, second, second.len() as int, limits);
            if s.decoded(first, limits) is Ok {
                encoding_is_kept(s, first, first.len() as int, limits);
            }
        },
    }
}

proof fn encoding_is_kept(s: Decoding, wire: Seq<u8>, count: int, limits: Limits)
    requires
        s.bytes(wire, count, limits) is Ok,
    ensures
        s.bytes(wire, count, limits)->Ok_0.encoding == s.encoding,
    decreases count,
{
    if count > 0 {
        encoding_is_kept(s, wire, count - 1, limits);
        encoding_stays(s.bytes(wire, count - 1, limits)->Ok_0, wire[count - 1], limits);
    }
}

proof fn pieces_join(s: Decoding, first: Seq<u8>, second: Seq<u8>, count: int, limits: Limits)
    requires
        0 <= count <= second.len(),
    ensures
        s.bytes(first + second, first.len() + count, limits) == (match s.bytes(
            first,
            first.len() as int,
            limits,
        ) {
            Err(error) => Err(error),
            Ok(after) => after.bytes(second, count, limits),
        }),
    decreases count,
{
    if count > 0 {
        pieces_join(s, first, second, count - 1, limits);
        assert((first + second)[first.len() + count - 1] == second[count - 1]);
    } else {
        same_bytes_same_result(s, first + second, first, first.len() as int, limits);
    }
}

proof fn same_bytes_same_result(s: Decoding, a: Seq<u8>, b: Seq<u8>, count: int, limits: Limits)
    requires
        0 <= count <= a.len(),
        count <= b.len(),
        forall|i: int| 0 <= i < count ==> a[i] == b[i],
    ensures
        s.bytes(a, count, limits) == s.bytes(b, count, limits),
    decreases count,
{
    if count > 0 {
        same_bytes_same_result(s, a, b, count - 1, limits);
    }
}

/// The octets of a decoder are never more than the ceiling, and it never holds more than its share.
pub open spec fn within(s: Decoding, limits: Limits) -> bool {
    s.octets().len() <= limits.max_attachment_decoded_bytes && s.retained() <= state_limit(limits)
}

proof fn emitting_stays_within(s: Decoding, bytes: Seq<u8>, limits: Limits)
    requires
        within(s, limits),
        s.emitted(bytes, limits) is Ok,
    ensures
        within(s.emitted(bytes, limits)->Ok_0, limits),
        s.octets().is_prefix_of(s.emitted(bytes, limits)->Ok_0.octets()),
{
    let after = s.emitted(bytes, limits)->Ok_0;
    assert(after.octets() =~= s.octets() + bytes);
}

proof fn octet_stays_within(s: Decoding, byte: u8, limits: Limits)
    requires
        within(s, limits),
        s.quoted_octet(byte, limits) is Ok,
    ensures
        within(s.quoted_octet(byte, limits)->Ok_0, limits),
        s.octets().is_prefix_of(s.quoted_octet(byte, limits)->Ok_0.octets()),
{
    if s.quoted.len() == 0 && byte != EQUALS {
        emitting_stays_within(s, seq![byte], limits);
    } else {
        let q = s.quoted.push(byte);
        if q.len() >= 3 {
            let open = Decoding { quoted: Seq::empty(), ..s };
            if !(q[1] == 0x0d && q[2] == 0x0a) {
                emitting_stays_within(
                    open,
                    seq![(hex_value(q[1])->0 * 16 + hex_value(q[2])->0) as u8],
                    limits,
                );
            }
        }
    }
}

proof fn octets_stay_within(s: Decoding, bytes: Seq<u8>, count: int, limits: Limits)
    requires
        within(s, limits),
        s.quoted_octets(bytes, count, limits) is Ok,
    ensures
        within(s.quoted_octets(bytes, count, limits)->Ok_0, limits),
        s.octets().is_prefix_of(s.quoted_octets(bytes, count, limits)->Ok_0.octets()),
    decreases count,
{
    if count > 0 {
        octets_stay_within(s, bytes, count - 1, limits);
        let before = s.quoted_octets(bytes, count - 1, limits)->Ok_0;
        octet_stays_within(before, bytes[count - 1], limits);
    }
}

proof fn flushing_stays_within(s: Decoding, limits: Limits)
    requires
        within(s, limits),
        s.flushed(limits) is Ok,
    ensures
        within(s.flushed(limits)->Ok_0, limits),
        s.octets().is_prefix_of(s.flushed(limits)->Ok_0.octets()),
{
    let open = Decoding { whitespace: Seq::empty(), ..s };
    octets_stay_within(open, s.whitespace, s.whitespace.len() as int, limits);
    let after = open.quoted_octets(s.whitespace, s.whitespace.len() as int, limits)->Ok_0;
    if after.carriage_return {
        octet_stays_within(Decoding { carriage_return: false, ..after }, 0x0d, limits);
    }
}

proof fn raw_stays_within(s: Decoding, byte: u8, limits: Limits)
    requires
        within(s, limits),
        s.quoted_raw(byte, limits) is Ok,
    ensures
        within(s.quoted_raw(byte, limits)->Ok_0, limits),
        s.octets().is_prefix_of(s.quoted_raw(byte, limits)->Ok_0.octets()),
{
    if byte == 0x20 || byte == 0x09 || byte == 0x0d {
    } else if byte == 0x0a {
        octet_stays_within(Decoding { whitespace: Seq::empty(), ..s }, 0x0a, limits);
    } else {
        flushing_stays_within(s, limits);
        octet_stays_within(s.flushed(limits)->Ok_0, byte, limits);
    }
}

proof fn byte_stays_within(s: Decoding, byte: u8, limits: Limits)
    requires
        within(s, limits),
        s.byte(byte, limits) is Ok,
    ensures
        within(s.byte(byte, limits)->Ok_0, limits),
        s.octets().is_prefix_of(s.byte(byte, limits)->Ok_0.octets()),
{
    match s.encoding {
        TransferEncoding::Identity => {
            emitting_stays_within(s, seq![byte], limits);
        },
        TransferEncoding::Base64 => {
            let q = s.base64.push(byte);
            if !is_ascii_space(byte) && q.len() >= 4 {
                let held = Decoding { base64: q, ..s };
                emitting_stays_within(held, quartet_octets(q), limits);
            }
        },
        TransferEncoding::QuotedPrintable => {
            if s.carriage_return && byte == 0x0a {
                let line = Decoding { whitespace: Seq::empty(), carriage_return: false, ..s };
                octet_stays_within(line, 0x0d, limits);
                octet_stays_within(line.quoted_octet(0x0d, limits)->Ok_0, 0x0a, limits);
            } else if s.carriage_return {
                flushing_stays_within(s, limits);
                raw_stays_within(s.flushed(limits)->Ok_0, byte, limits);
            } else {
                raw_stays_within(s, byte, limits);
            }
        },
    }
}

proof fn bytes_stay_within(s: Decoding, wire: Seq<u8>, count: int, limits: Limits)
    requires
        within(s, limits),
        s.bytes(wire, count, limits) is Ok,
    ensures
        within(s.bytes(wire, count, limits)->Ok_0, limits),
        s.octets().is_prefix_of(s.bytes(wire, count, limits)->Ok_0.octets()),
    decreases count,
{
    if count > 0 {
        bytes_stay_within(s, wire, count - 1, limits);
        byte_stays_within(s.bytes(wire, count - 1, limits)->Ok_0, wire[count - 1], limits);
    }
}

/// Decoding never exceeds its ceilings, and never takes back an octet.
pub proof fn decoding_stays_within(s: Decoding, wire: Seq<u8>, limits: Limits)
    requires
        within(s, limits),
        s.decoded(wire, limits) is Ok,
    ensures
        within(s.decoded(wire, limits)->Ok_0, limits),
        s.octets().is_prefix_of(s.decoded(wire, limits)->Ok_0.octets()),
{
    match s.encoding {
        TransferEncoding::Identity => {
            emitting_stays_within(s, wire, limits);
        },
        _ => {
            bytes_stay_within(s, wire, wire.len() as int, limits);
        },
    }
}

/// What a decoder has used so far.
pub struct DecoderMetrics {
    pub decoded_bytes: usize,
    pub decode_steps: usize,
    pub max_state_bytes: usize,
}

/// How an exec step relates to the state machine.
pub open spec fn stepped(
    before: Decoder,
    expected: Result<Decoding, Error>,
    r: Result<(), Error>,
    after: Decoder,
) -> bool {
    &&& after.decode_steps == before.decode_steps
    &&& after.goes_on_from(before)
    &&& match r {
        Ok(()) => expected == Ok::<Decoding, Error>(after@) && after.well_formed(),
        Err(error) => expected == Err::<Decoding, Error>(error),
    }
}

impl Decoder {
    /// The octets are counted: those that were handed out, and those that wait.
    pub open spec fn accounted(self) -> bool {
        &&& self.decoded_offset == absorbed(self.digest).len()
        &&& self.decoded_offset + self.pending@.len() <= usize::MAX
    }

    pub open spec fn well_formed(self) -> bool {
        self@.well_formed() && self.accounted()
    }

    /// Nothing that was decoded before is lost, also where the wire form turns out to be wrong.
    pub open spec fn goes_on_from(self, before: Decoder) -> bool {
        &&& self.accounted()
        &&& self.digest == before.digest
        &&& self.decoded_offset == before.decoded_offset
        &&& before.pending@.is_prefix_of(self.pending@)
        &&& self.max_state_bytes >= before.max_state_bytes
    }

    pub fn new(encoding: TransferEncoding) -> (r: Self)
        ensures
            r.well_formed(),
            r@ == Decoding::fresh(encoding),
            r.decode_steps == 0,
            r.max_state_bytes == 0,
    {
        let fresh = Decoder {
            encoding,
            pending: Vec::new(),
            base64: Vec::new(),
            base64_padded: false,
            quoted_printable: Vec::new(),
            whitespace: Vec::new(),
            carriage_return: false,
            decoded_offset: 0,
            decode_steps: 0,
            max_state_bytes: 0,
            digest: start(),
        };
        assert(fresh.pending@ =~= Seq::<u8>::empty());
        fresh
    }

    fn state_limit(limits: &Limits) -> (r: usize)
        ensures
            r == state_limit(*limits),
    {
        WIRE_SLICE_BYTES.saturating_add(limits.max_attachment_chunk_bytes)
    }

    fn retained_bytes(&self) -> (r: usize)
        ensures
            r == (if self@.retained() > usize::MAX {
                usize::MAX as int
            } else {
                self@.retained()
            }),
    {
        let carried: usize = if self.carriage_return {
            1
        } else {
            0
        };
        self.pending.len().saturating_add(self.base64.len()).saturating_add(
            self.quoted_printable.len(),
        ).saturating_add(self.whitespace.len()).saturating_add(carried)
    }

    fn account_state(&mut self)
        ensures
            *final(self) == (Decoder { max_state_bytes: final(self).max_state_bytes, ..*old(self) }),
            final(self)@ == old(self)@.noted(),
    {
        let held: usize = self.retained_bytes().saturating_add(128);
        if held > self.max_state_bytes {
            self.max_state_bytes = held;
        }
    }

    fn append(&mut self, bytes: &[u8], limits: &Limits) -> (r: Result<(), Error>)
        requires
            old(self).accounted(),
        ensures
            final(self).decode_steps == old(self).decode_steps,
            final(self).goes_on_from(*old(self)),
            match r {
                Ok(()) => old(self)@.emitted(bytes@, *limits) == Ok::<Decoding, Error>(final(self)@),
                Err(error) => old(self)@.emitted(bytes@, *limits) == Err::<Decoding, Error>(error)
                    && *final(self) == *old(self),
            },
    {
        let used: usize = self.decoded_offset + self.pending.len();
        if bytes.len() > limits.max_attachment_decoded_bytes.saturating_sub(used) || bytes.len()
            > Self::state_limit(limits).saturating_sub(self.retained_bytes()) {
            return Err(Error::Limit);
        }
        self.pending.extend_from_slice(bytes);
        assert(self.pending@ =~= old(self).pending@ + bytes@);
        self.account_state();
        Ok(())
    }

    fn base64_octet(&mut self, byte: u8, limits: &Limits) -> (r: Result<(), Error>)
        requires
            old(self).well_formed(),
        ensures
            stepped(*old(self), old(self)@.base64_byte(byte, *limits), r, *final(self)),
            r is Err ==> final(self)@.pending == old(self)@.pending && final(self)@.peak == old(self)@.peak,
    {
        if ascii_space(byte) {
            return Ok(());
        }
        if self.base64_padded || !(base64_value(byte).is_some() || byte == EQUALS) {
            return Err(Error::Protocol);
        }
        if self.retained_bytes() >= Self::state_limit(limits) {
            return Err(Error::Limit);
        }
        self.base64.push(byte);
        let ghost q = self.base64@;
        assert(q =~= old(self).base64@.push(byte));
        if self.base64.len() == 4 {
            let decoded = match quartet_bytes(&self.base64) {
                Some(decoded) => decoded,
                None => {
                    return Err(Error::Protocol);
                },
            };
            let padded = self.base64[2] == EQUALS || self.base64[3] == EQUALS;
            match self.append(decoded.as_slice(), limits) {
                Err(error) => {
                    return Err(error);
                },
                Ok(()) => {},
            }
            self.base64_padded = padded;
            self.base64.clear();
            assert(self.base64@ =~= Seq::<u8>::empty());
        }
        self.account_state();
        Ok(())
    }

    fn quoted_printable_octet(&mut self, byte: u8, limits: &Limits) -> (r: Result<(), Error>)
        requires
            old(self).well_formed(),
        ensures
            stepped(*old(self), old(self)@.quoted_octet(byte, *limits), r, *final(self)),
    {
        if self.quoted_printable.len() == 0 && byte != EQUALS {
            let one: [u8; 1] = [byte];
            assert(one@ =~= seq![byte]);
            return self.append(one.as_slice(), limits);
        }
        if self.retained_bytes() >= Self::state_limit(limits) {
            return Err(Error::Limit);
        }
        self.quoted_printable.push(byte);
        let ghost q = self.quoted_printable@;
        assert(q =~= old(self).quoted_printable@.push(byte));
        if self.quoted_printable.len() == 3 {
            let first = self.quoted_printable[1];
            let second = self.quoted_printable[2];
            self.quoted_printable.clear();
            assert(self.quoted_printable@ =~= Seq::<u8>::empty());
            if first == 0x0d && second == 0x0a {
                return Ok(());
            }
            match (hex(first), hex(second)) {
                (Some(high), Some(low)) => {
                    let one: [u8; 1] = [high * 16 + low];
                    assert(one@ =~= seq![(hex_value(q[1])->0 * 16 + hex_value(q[2])->0) as u8]);
                    return self.append(one.as_slice(), limits);
                },
                _ => {
                    return Err(Error::Protocol);
                },
            }
        }
        Ok(())
    }

    fn flush_raw_prefix(&mut self, limits: &Limits) -> (r: Result<(), Error>)
        requires
            old(self).well_formed(),
        ensures
            stepped(*old(self), old(self)@.flushed(*limits), r, *final(self)),
    {
        let mut held: Vec<u8> = Vec::new();
        core::mem::swap(&mut held, &mut self.whitespace);
        let ghost open = Decoding { whitespace: Seq::empty(), ..old(self)@ };
        assert(self.whitespace@ =~= Seq::<u8>::empty());
        assert(self@ == open);
        let mut i: usize = 0;
        while i < held.len()
            invariant
                i <= held@.len(),
                held@ == old(self).whitespace@,
                self.well_formed(),
                self.decode_steps == old(self).decode_steps,
                self.goes_on_from(*old(self)),
                open == (Decoding { whitespace: Seq::empty(), ..old(self)@ }),
                open.quoted_octets(held@, i as int, *limits) == Ok::<Decoding, Error>(self@),
            decreases held@.len() - i,
        {
            let ghost before = self@;
            match self.quoted_printable_octet(held[i], limits) {
                Ok(()) => {},
                Err(error) => {
                    proof {
                        assert(open.quoted_octets(held@, i + 1, *limits) == Err::<Decoding, Error>(
                            error,
                        ));
                        quoted_failure_stays(open, held@, i + 1, held@.len() as int, *limits);
                    }
                    return Err(error);
                },
            }
            i = i + 1;
        }
        if self.carriage_return {
            self.carriage_return = false;
            return self.quoted_printable_octet(0x0d, limits);
        }
        Ok(())
    }

    fn raw_byte(&mut self, byte: u8, limits: &Limits) -> (r: Result<(), Error>)
        requires
            old(self).well_formed(),
        ensures
            stepped(*old(self), old(self)@.quoted_raw(byte, *limits), r, *final(self)),
    {
        if byte == 0x20 || byte == 0x09 {
            // Raw SP/HT remains undecided until its physical line continues or ends. Retained
            // padding shares the finite output-state budget.
            if self.retained_bytes() >= Self::state_limit(limits) {
                return Err(Error::Limit);
            }
            self.whitespace.push(byte);
            assert(self.whitespace@ =~= old(self).whitespace@.push(byte));
            return Ok(());
        }
        if byte == 0x0d {
            if self.retained_bytes() >= Self::state_limit(limits) {
                return Err(Error::Limit);
            }
            self.carriage_return = true;
            return Ok(());
        }
        if byte == 0x0a {
            self.whitespace.clear();
            assert(self.whitespace@ =~= Seq::<u8>::empty());
            return self.quoted_printable_octet(0x0a, limits);
        }
        match self.flush_raw_prefix(limits) {
            Ok(()) => self.quoted_printable_octet(byte, limits),
            Err(error) => Err(error),
        }
    }

    fn raw_quoted_printable(&mut self, byte: u8, limits: &Limits) -> (r: Result<(), Error>)
        requires
            old(self).well_formed(),
        ensures
            stepped(*old(self), old(self)@.quoted_byte(byte, *limits), r, *final(self)),
    {
        if self.carriage_return {
            if byte == 0x0a {
                self.whitespace.clear();
                assert(self.whitespace@ =~= Seq::<u8>::empty());
                self.carriage_return = false;
                return match self.quoted_printable_octet(0x0d, limits) {
                    Ok(()) => self.quoted_printable_octet(0x0a, limits),
                    Err(error) => Err(error),
                };
            }
            match self.flush_raw_prefix(limits) {
                Ok(()) => {},
                Err(error) => {
                    return Err(error);
                },
            }
        }
        self.raw_byte(byte, limits)
    }

    /// Decodes another piece of the wire form. After a refusal the decoder is of no further use.
    pub fn push(&mut self, wire: &[u8], limits: &Limits) -> (r: Result<(), Error>)
        requires
            old(self).well_formed(),
        ensures
            final(self).goes_on_from(*old(self)),
            final(self).decode_steps == (if old(self).decode_steps + wire@.len() > usize::MAX {
                old(self).decode_steps as int
            } else {
                old(self).decode_steps + wire@.len()
            }),
            match pushed(old(self)@, old(self).decode_steps as nat, wire@, *limits) {
                Ok((after, steps)) => r is Ok && final(self)@ == after && final(self).decode_steps
                    == steps && final(self).well_formed(),
                Err(error) => r == Err::<(), Error>(error) && if old(self).decode_steps + wire@.len()
                    > limits.max_decode_steps {
                    final(self)@ == old(self)@
                } else {
                    stops(old(self)@, wire@, *limits, final(self)@)
                },
            },
    {
        self.decode_steps = match self.decode_steps.checked_add(wire.len()) {
            Some(steps) => steps,
            None => {
                return Err(Error::Limit);
            },
        };
        if self.decode_steps > limits.max_decode_steps {
            return Err(Error::Limit);
        }
        match self.encoding {
            TransferEncoding::Identity => {
                return self.append(wire, limits);
            },
            _ => {},
        }
        let ghost steps = self.decode_steps;
        let mut i: usize = 0;
        while i < wire.len()
            invariant
                i <= wire@.len(),
                self.well_formed(),
                self.decode_steps == steps,
                self.goes_on_from(*old(self)),
                steps == old(self).decode_steps + wire@.len(),
                steps <= limits.max_decode_steps,
                self.encoding == old(self).encoding,
                !(self.encoding is Identity),
                old(self)@.bytes(wire@, i as int, *limits) == Ok::<Decoding, Error>(self@),
            decreases wire@.len() - i,
        {
            let ghost before = self@;
            let outcome = match self.encoding {
                TransferEncoding::Base64 => self.base64_octet(wire[i], limits),
                _ => {
                    let outcome = self.raw_quoted_printable(wire[i], limits);
                    if outcome.is_ok() {
                        self.account_state();
                    }
                    outcome
                },
            };
            match outcome {
                Ok(()) => {
                    proof {
                        encoding_stays(before, wire@[i as int], *limits);
                    }
                },
                Err(error) => {
                    proof {
                        assert(old(self)@.bytes(wire@, i as int, *limits) == Ok::<Decoding, Error>(
                            before,
                        ));
                        assert(self@.keeps(before));
                        assert(old(self)@.bytes(wire@, i + 1, *limits) == Err::<Decoding, Error>(
                            error,
                        ));
                        failure_stays(
                            old(self)@,
                            wire@,
                            i + 1,
                            wire@.len() as int,
                            *limits,
                        );
                    }
                    return Err(error);
                },
            }
            i = i + 1;
        }
        Ok(())
    }

    /// The wire form has ended.
    pub fn finish(&mut self, limits: &Limits) -> (r: Result<(), Error>)
        requires
            old(self).well_formed(),
        ensures
            stepped(*old(self), old(self)@.finished(*limits), r, *final(self)),
    {
        match self.encoding {
            TransferEncoding::Identity => Ok(()),
            TransferEncoding::Base64 => {
                if self.base64.len() == 0 {
                    Ok(())
                } else {
                    Err(Error::Protocol)
                }
            },
            TransferEncoding::QuotedPrintable => {
                if self.carriage_return {
                    // A lone CR is data, not a complete transport line ending.
                    match self.flush_raw_prefix(limits) {
                        Ok(()) => {},
                        Err(error) => {
                            return Err(error);
                        },
                    }
                } else {
                    self.whitespace.clear();
                    assert(self.whitespace@ =~= Seq::<u8>::empty());
                }
                if self.quoted_printable.len() == 0 {
                    Ok(())
                } else {
                    Err(Error::Protocol)
                }
            },
        }
    }

    /// Hands out the first octets that wait, at most `max` of them.
    pub fn take_chunk(&mut self, max: usize) -> (r: Vec<u8>)
        requires
            old(self).well_formed(),
        ensures
            final(self).well_formed(),
            r@.len() == (if max < old(self).pending@.len() {
                max as nat
            } else {
                old(self).pending@.len()
            }),
            r@ == old(self).pending@.take(r@.len() as int),
            final(self)@ == (Decoding {
                taken: old(self)@.taken + r@,
                pending: old(self).pending@.skip(r@.len() as int),
                ..old(self)@
            }),
            final(self)@.octets() == old(self)@.octets(),
            final(self).decoded_offset == old(self).decoded_offset + r@.len(),
            final(self).decode_steps == old(self).decode_steps,
            final(self).max_state_bytes == old(self).max_state_bytes,
    {
        let take: usize = if max < self.pending.len() {
            max
        } else {
            self.pending.len()
        };
        let bytes = copy_range(self.pending.as_slice(), 0, take);
        let rest = copy_range(self.pending.as_slice(), take, self.pending.len());
        assert(bytes@ =~= self.pending@.take(take as int));
        assert(rest@ =~= self.pending@.skip(take as int));
        self.pending = rest;
        absorb(&mut self.digest, bytes.as_slice());
        self.decoded_offset = self.decoded_offset + take;
        assert(self@.octets() =~= old(self)@.octets());
        bytes
    }

    pub fn pending_len(&self) -> (r: usize)
        ensures
            r == self@.pending.len(),
    {
        self.pending.len()
    }

    pub fn decoded_offset(&self) -> (r: usize)
        requires
            self.well_formed(),
        ensures
            r == self@.taken.len(),
    {
        self.decoded_offset
    }

    pub fn snapshot(&self) -> (r: DecoderMetrics)
        requires
            self.accounted(),
        ensures
            r.decoded_bytes == self@.octets().len(),
            r.decode_steps == self.decode_steps,
            r.max_state_bytes == self.max_state_bytes,
    {
        DecoderMetrics {
            decoded_bytes: self.decoded_offset + self.pending.len(),
            decode_steps: self.decode_steps,
            max_state_bytes: self.max_state_bytes,
        }
    }

    /// The number and the digest of the octets that were handed out.
    pub fn integrity(&self) -> (r: (u64, [u8; 32]))
        requires
            self.well_formed(),
        ensures
            r.0 == self@.taken.len(),
            r.1@ == sha256(self@.taken),
    {
        (self.decoded_offset as u64, digest_of(&self.digest))
    }
}

proof fn quoted_failure_stays(s: Decoding, bytes: Seq<u8>, few: int, many: int, limits: Limits)
    requires
        few <= many,
        s.quoted_octets(bytes, few, limits) is Err,
    ensures
        s.quoted_octets(bytes, many, limits) == s.quoted_octets(bytes, few, limits),
    decreases many - few,
{
    if few < many {
        quoted_failure_stays(s, bytes, few, many - 1, limits);
        assert(many > 0) by {
            if many <= 0 {
                assert(s.quoted_octets(bytes, few, limits) is Ok);
            }
        }
    }
}

proof fn failure_stays(s: Decoding, wire: Seq<u8>, few: int, many: int, limits: Limits)
    requires
        few <= many,
        s.bytes(wire, few, limits) is Err,
    ensures
        s.bytes(wire, many, limits) == s.bytes(wire, few, limits),
    decreases many - few,
{
    if few < many {
        failure_stays(s, wire, few, many - 1, limits);
        assert(many > 0) by {
            if many <= 0 {
                assert(s.bytes(wire, few, limits) is Ok);
            }
        }
    }
}

proof fn quoted_octets_keep(s: Decoding, bytes: Seq<u8>, count: int, limits: Limits)
    ensures
        s.quoted_octets(bytes, count, limits) matches Ok(after) ==> after.encoding == s.encoding,
    decreases count,
{
    if count > 0 {
        quoted_octets_keep(s, bytes, count - 1, limits);
    }
}

#[verifier::spinoff_prover]
#[verifier::rlimit(60)]
proof fn encoding_stays(s: Decoding, byte: u8, limits: Limits)
    ensures
        s.byte(byte, limits) matches Ok(after) ==> after.encoding == s.encoding,
{
    quoted_octets_keep(
        Decoding { whitespace: Seq::empty(), ..s },
        s.whitespace,
        s.whitespace.len() as int,
        limits,
    );
    match s.flushed(limits) {
        Ok(after) => {
            quoted_octets_keep(
                Decoding { whitespace: Seq::empty(), ..after },
                after.whitespace,
                after.whitespace.len() as int,
                limits,
            );
        },
        Err(_) => {},
    }
}

/// The octets of four bytes of base64, where they are well-formed.
fn quartet_bytes(q: &Vec<u8>) -> (r: Option<Vec<u8>>)
    requires
        q@.len() == 4,
    ensures
        match r {
            Some(bytes) => is_quartet(q@) && bytes@ == quartet_octets(q@),
            None => !is_quartet(q@),
        },
{
    let (first, second) = match (base64_value(q[0]), base64_value(q[1])) {
        (Some(first), Some(second)) => (first, second),
        _ => {
            return None;
        },
    };
    let mut out: Vec<u8> = Vec::new();
    out.push(first * 4 + second / 16);
    match (base64_value(q[2]), base64_value(q[3])) {
        (Some(third), Some(fourth)) => {
            out.push((second % 16) * 16 + third / 4);
            out.push((third % 4) * 64 + fourth);
        },
        (Some(third), None) => {
            if q[3] != EQUALS || third % 4 != 0 {
                return None;
            }
            out.push((second % 16) * 16 + third / 4);
        },
        (None, None) => {
            if q[2] != EQUALS || q[3] != EQUALS || second % 16 != 0 {
                return None;
            }
        },
        _ => {
            return None;
        },
    }
    assert(out@ =~= quartet_octets(q@));
    Some(out)
}

/// A byte of the base64 alphabet for a number below sixty-four.
#[verifier::opaque]
pub open spec fn base64_char(value: int) -> u8 {
    if value < 26 {
        (0x41 + value) as u8
    } else if value < 52 {
        (0x61 + (value - 26)) as u8
    } else if value < 62 {
        (0x30 + (value - 52)) as u8
    } else if value == 62 {
        0x2b
    } else {
        0x2f
    }
}

/// Octets written in base64: three octets in four letters of six bits each, and `=` where the last
/// group is short.
pub open spec fn base64_form(octets: Seq<u8>) -> Seq<u8>
    decreases octets.len(),
{
    if octets.len() == 0 {
        Seq::empty()
    } else if octets.len() == 1 {
        let bits = octets[0] * 0x10;
        seq![base64_char(bits / 64), base64_char(bits % 64), 0x3d, 0x3d]
    } else if octets.len() == 2 {
        let bits = octets[0] * 0x400 + octets[1] * 4;
        seq![
            base64_char(bits / 4096),
            base64_char(bits / 64 % 64),
            base64_char(bits % 64),
            0x3d,
        ]
    } else {
        let bits = octets[0] * 0x1_0000 + octets[1] * 0x100 + octets[2];
        seq![
            base64_char(bits / 0x4_0000),
            base64_char(bits / 4096 % 64),
            base64_char(bits / 64 % 64),
            base64_char(bits % 64),
        ] + base64_form(octets.skip(3))
    }
}

/// A hexadecimal digit.
pub open spec fn hex_char(value: int, capital: bool) -> u8 {
    if value < 10 {
        (0x30 + value) as u8
    } else if capital {
        (0x41 + (value - 10)) as u8
    } else {
        (0x61 + (value - 10)) as u8
    }
}

/// Octets written in quoted-printable, each as `=` and its two hexadecimal digits.
pub open spec fn escaped_form(octets: Seq<u8>, capital: bool) -> Seq<u8>
    decreases octets.len(),
{
    if octets.len() == 0 {
        Seq::empty()
    } else {
        let last = octets.last();
        escaped_form(octets.drop_last(), capital) + seq![
            0x3du8,
            hex_char(last as int / 16, capital),
            hex_char(last as int % 16, capital),
        ]
    }
}

/// Decoding the wire form from this state on adds these octets, unless a limit is met.
pub open spec fn adds(s: Decoding, wire: Seq<u8>, octets: Seq<u8>, limits: Limits) -> bool {
    match s.decoded(wire, limits) {
        Ok(after) => after.octets() == s.octets() + octets,
        Err(error) => error == Error::Limit,
    }
}

/// Decoding the whole wire form gives these octets, unless a limit is met.
pub open spec fn stands_for(
    encoding: TransferEncoding,
    wire: Seq<u8>,
    octets: Seq<u8>,
    limits: Limits,
) -> bool {
    match Decoding::fresh(encoding).decoded(wire, limits) {
        Err(error) => error == Error::Limit,
        Ok(decoded) => match decoded.finished(limits) {
            Err(error) => error == Error::Limit,
            Ok(end) => end.octets() == octets,
        },
    }
}

/// Nothing of the wire form is undecided.
pub open spec fn is_settled(s: Decoding) -> bool {
    s.base64.len() == 0 && s.quoted.len() == 0 && s.whitespace.len() == 0 && !s.carriage_return
}

proof fn letters_are_read(value: int)
    requires
        0 <= value < 64,
    ensures
        is_sextet(base64_char(value)),
        sextet(base64_char(value)) == value,
        base64_char(value) != EQUALS,
        !is_ascii_space(base64_char(value)),
{
    reveal(base64_char);
}

/// One byte of the wire form.
#[verifier::opaque]
spec fn step(s: Decoding, byte: u8, limits: Limits) -> Result<Decoding, Error> {
    s.byte(byte, limits)
}

spec fn steps(s: Decoding, wire: Seq<u8>, count: int, limits: Limits) -> Result<Decoding, Error>
    decreases count,
{
    if count <= 0 {
        Ok(s)
    } else {
        match steps(s, wire, count - 1, limits) {
            Err(error) => Err(error),
            Ok(before) => step(before, wire[count - 1], limits),
        }
    }
}

proof fn bytes_are_steps(s: Decoding, wire: Seq<u8>, count: int, limits: Limits)
    ensures
        s.bytes(wire, count, limits) == steps(s, wire, count, limits),
    decreases count,
{
    if count > 0 {
        bytes_are_steps(s, wire, count - 1, limits);
        reveal(step);
    }
}

proof fn steps_join(s: Decoding, first: Seq<u8>, second: Seq<u8>, count: int, limits: Limits)
    requires
        0 <= count <= second.len(),
    ensures
        steps(s, first + second, first.len() + count, limits) == (match steps(
            s,
            first,
            first.len() as int,
            limits,
        ) {
            Err(error) => Err(error),
            Ok(after) => steps(after, second, count, limits),
        }),
    decreases count,
{
    if count > 0 {
        steps_join(s, first, second, count - 1, limits);
        assert((first + second)[first.len() + count - 1] == second[count - 1]);
    } else {
        steps_agree(s, first + second, first, first.len() as int, limits);
    }
}

proof fn steps_agree(s: Decoding, a: Seq<u8>, b: Seq<u8>, count: int, limits: Limits)
    requires
        count <= a.len(),
        count <= b.len(),
        forall|i: int| 0 <= i < count ==> a[i] == b[i],
    ensures
        steps(s, a, count, limits) == steps(s, b, count, limits),
    decreases count,
{
    if count > 0 {
        steps_agree(s, a, b, count - 1, limits);
    }
}

/// One letter of a group of four that is not the last one.
proof fn letters_are_held(s: Decoding, letter: u8, limits: Limits)
    requires
        s.encoding is Base64,
        !s.padded,
        s.base64.len() < 3,
        is_sextet(letter) || letter == EQUALS,
    ensures
        match step(s, letter, limits) {
            Ok(after) => {
                &&& after.encoding is Base64
                &&& !after.padded
                &&& after.base64 == s.base64.push(letter)
                &&& after.taken == s.taken && after.pending == s.pending
            },
            Err(error) => error == Error::Limit,
        },
{
    reveal(step);
    assert(!is_ascii_space(letter));
}

/// The last letter of a group of four.
proof fn groups_are_read(s: Decoding, letter: u8, limits: Limits)
    requires
        s.encoding is Base64,
        !s.padded,
        s.base64.len() == 3,
        is_quartet(s.base64.push(letter)),
    ensures
        match step(s, letter, limits) {
            Ok(after) => {
                &&& after.encoding is Base64
                &&& after.padded == is_padded(s.base64.push(letter))
                &&& after.base64.len() == 0
                &&& after.taken == s.taken && after.pending == s.pending + quartet_octets(
                    s.base64.push(letter),
                )
            },
            Err(error) => error == Error::Limit,
        },
{
    reveal(step);
    let q = s.base64.push(letter);
    assert(q[3] == letter);
    assert(!is_ascii_space(letter));
}

/// Four letters, one after the other.
proof fn quartets_are_read(s: Decoding, q: Seq<u8>, limits: Limits)
    requires
        s.encoding is Base64,
        s.base64.len() == 0,
        !s.padded,
        is_quartet(q),
    ensures
        match steps(s, q, 4, limits) {
            Ok(after) => {
                &&& after.octets() == s.octets() + quartet_octets(q)
                &&& after.encoding is Base64
                &&& after.base64.len() == 0
                &&& after.padded == is_padded(q)
            },
            Err(error) => error == Error::Limit,
        },
{
    reveal_with_fuel(steps, 5);
    letters_are_held(s, q[0], limits);
    if let Ok(one) = step(s, q[0], limits) {
        letters_are_held(one, q[1], limits);
        if let Ok(two) = step(one, q[1], limits) {
            letters_are_held(two, q[2], limits);
            if let Ok(three) = step(two, q[2], limits) {
                assert(three.base64.push(q[3]) =~= q);
                groups_are_read(three, q[3], limits);
                if let Ok(four) = step(three, q[3], limits) {
                    assert(four.octets() =~= s.octets() + quartet_octets(q));
                }
            }
        }
    }
}

proof fn bits_are_split(a: u32, b: u32, c: u32)
    by (bit_vector)
    requires
        a < 256 && b < 256 && c < 256,
    ensures
        (a * 0x1_0000 + b * 0x100 + c) / 0x4_0000 < 64,
        (a * 0x1_0000 + b * 0x100 + c) / 0x4_0000 * 4 + (a * 0x1_0000 + b * 0x100 + c) / 4096 % 64 / 16
            == a,
        (a * 0x1_0000 + b * 0x100 + c) / 4096 % 64 % 16 * 16 + (a * 0x1_0000 + b * 0x100 + c) / 64 % 64
            / 4 == b,
        (a * 0x1_0000 + b * 0x100 + c) / 64 % 64 % 4 * 64 + (a * 0x1_0000 + b * 0x100 + c) % 64 == c,
{
}

proof fn sixteen_bits_are_split(a: u32, b: u32)
    by (bit_vector)
    requires
        a < 256 && b < 256,
    ensures
        (a * 0x400 + b * 4) / 4096 < 64,
        (a * 0x400 + b * 4) / 4096 * 4 + (a * 0x400 + b * 4) / 64 % 64 / 16 == a,
        (a * 0x400 + b * 4) / 64 % 64 % 16 * 16 + (a * 0x400 + b * 4) % 64 / 4 == b,
        (a * 0x400 + b * 4) % 64 % 4 == 0,
{
}

proof fn one_octet_is_a_quartet(a: u8)
    ensures
        ({
            let q = base64_form(seq![a]);
            is_quartet(q) && quartet_octets(q) == seq![a] && q.len() == 4
        }),
{
    let bits = a * 0x10;
    letters_are_read(bits / 64);
    letters_are_read(bits % 64);
    assert(quartet_octets(base64_form(seq![a])) =~= seq![a]);
}

proof fn two_octets_are_a_quartet(a: u8, b: u8)
    ensures
        ({
            let q = base64_form(seq![a, b]);
            is_quartet(q) && quartet_octets(q) == seq![a, b] && q.len() == 4
        }),
{
    let bits = a * 0x400 + b * 4;
    let (first, second, third) = (bits / 4096, bits / 64 % 64, bits % 64);
    sixteen_bits_are_split(a as u32, b as u32);
    letters_are_read(first);
    letters_are_read(second);
    letters_are_read(third);
    let q = base64_form(seq![a, b]);
    assert(q == seq![base64_char(first), base64_char(second), base64_char(third), 0x3du8]);
    assert(quartet_octets(q) =~= seq![a, b]);
}

proof fn three_octets_are_a_quartet(a: u8, b: u8, c: u8)
    ensures
        ({
            let bits = a * 0x1_0000 + b * 0x100 + c;
            let q = seq![
                base64_char(bits / 0x4_0000),
                base64_char(bits / 4096 % 64),
                base64_char(bits / 64 % 64),
                base64_char(bits % 64),
            ];
            is_quartet(q) && quartet_octets(q) == seq![a, b, c] && !is_padded(q)
        }),
{
    let bits = a * 0x1_0000 + b * 0x100 + c;
    let (first, second, third, fourth) = (
        bits / 0x4_0000,
        bits / 4096 % 64,
        bits / 64 % 64,
        bits % 64,
    );
    bits_are_split(a as u32, b as u32, c as u32);
    letters_are_read(first);
    letters_are_read(second);
    letters_are_read(third);
    letters_are_read(fourth);
    let q = seq![
        base64_char(first),
        base64_char(second),
        base64_char(third),
        base64_char(fourth),
    ];
    assert(quartet_octets(q) =~= seq![a, b, c]);
}

proof fn base64_is_read(s: Decoding, octets: Seq<u8>, limits: Limits)
    requires
        s.encoding is Base64,
        s.base64.len() == 0,
        !s.padded,
    ensures
        match steps(s, base64_form(octets), base64_form(octets).len() as int, limits) {
            Ok(after) => after.octets() == s.octets() + octets && after.base64.len() == 0
                && after.encoding is Base64,
            Err(error) => error == Error::Limit,
        },
    decreases octets.len(),
{
    let form = base64_form(octets);
    if octets.len() == 0 {
        assert(s.octets() + octets =~= s.octets());
    } else if octets.len() == 1 {
        assert(octets =~= seq![octets[0]]);
        one_octet_is_a_quartet(octets[0]);
        quartets_are_read(s, form, limits);
    } else if octets.len() == 2 {
        assert(octets =~= seq![octets[0], octets[1]]);
        two_octets_are_a_quartet(octets[0], octets[1]);
        quartets_are_read(s, form, limits);
    } else {
        let bits = octets[0] * 0x1_0000 + octets[1] * 0x100 + octets[2];
        let q = seq![
            base64_char(bits / 0x4_0000),
            base64_char(bits / 4096 % 64),
            base64_char(bits / 64 % 64),
            base64_char(bits % 64),
        ];
        let rest = base64_form(octets.skip(3));
        assert(form == q + rest);
        three_octets_are_a_quartet(octets[0], octets[1], octets[2]);
        quartets_are_read(s, q, limits);
        assert(octets.take(3) =~= seq![octets[0], octets[1], octets[2]]);
        steps_join(s, q, rest, rest.len() as int, limits);
        if let Ok(after) = steps(s, q, 4, limits) {
            base64_is_read(after, octets.skip(3), limits);
            assert(s.octets() + octets.take(3) + octets.skip(3) =~= s.octets() + octets);
        }
    }
}

/// What was written in base64 is read back octet for octet, as long as no limit is met.
pub proof fn base64_reads_back(octets: Seq<u8>, limits: Limits)
    ensures
        stands_for(TransferEncoding::Base64, base64_form(octets), octets, limits),
{
    let s = Decoding::fresh(TransferEncoding::Base64);
    base64_is_read(s, octets, limits);
    bytes_are_steps(s, base64_form(octets), base64_form(octets).len() as int, limits);
    assert(s.octets() + octets =~= octets);
}

/// White space in base64 stands for nothing.
pub proof fn base64_ignores_white_space(s: Decoding, space: u8, limits: Limits)
    requires
        s.encoding is Base64,
        space == 0x20 || space == 0x09 || space == 0x0a || space == 0x0d,
    ensures
        s.byte(space, limits) == Ok::<Decoding, Error>(s),
{
}

/// No octet is decoded from base64 behind its padding, nor from a byte outside of its alphabet.
pub proof fn base64_refuses_strange_bytes(s: Decoding, byte: u8, limits: Limits)
    requires
        s.encoding is Base64,
        byte != 0x20 && byte != 0x09 && byte != 0x0a && byte != 0x0c && byte != 0x0d,
        s.padded || (byte != 0x3d && forall|value: int| 0 <= value < 64 ==> byte != #[trigger] base64_char(value)),
    ensures
        s.byte(byte, limits) == Err::<Decoding, Error>(Error::Protocol),
{
    if is_sextet(byte) {
        reveal(base64_char);
        assert(base64_char(sextet(byte)) == byte);
    }
}

/// Where nothing is held back, a byte that is no white space is looked at right away.
proof fn nothing_is_flushed(s: Decoding, byte: u8, limits: Limits)
    requires
        s.encoding is QuotedPrintable,
        s.whitespace.len() == 0,
        !s.carriage_return,
    ensures
        s.flushed(limits) == Ok::<Decoding, Error>(s),
        byte != 0x20 && byte != 0x09 && byte != 0x0d ==> s.quoted_byte(byte, limits) == s.quoted_octet(
            byte,
            limits,
        ),
{
    assert(s.whitespace =~= Seq::<u8>::empty());
    assert(Decoding { whitespace: Seq::empty(), ..s } == s);
    assert(s.quoted_octets(s.whitespace, 0, limits) == Ok::<Decoding, Error>(s));
}

/// A byte of an escape that is not the last one.
proof fn escapes_are_held(s: Decoding, byte: u8, limits: Limits)
    requires
        s.encoding is QuotedPrintable,
        s.whitespace.len() == 0,
        !s.carriage_return,
        s.quoted.len() < 2,
        s.quoted.len() == 0 ==> byte == 0x3d,
        byte != 0x20 && byte != 0x09 && byte != 0x0d,
    ensures
        match step(s, byte, limits) {
            Ok(after) => {
                &&& after.encoding is QuotedPrintable
                &&& after.whitespace.len() == 0 && !after.carriage_return && after.base64 == s.base64
                &&& after.quoted == s.quoted.push(byte)
                &&& after.taken == s.taken && after.pending == s.pending
            },
            Err(error) => error == Error::Limit,
        },
{
    reveal(step);
    nothing_is_flushed(s, byte, limits);
}

proof fn escapes_are_read(s: Decoding, octet: u8, capital: bool, limits: Limits)
    requires
        s.encoding is QuotedPrintable,
        is_settled(s),
    ensures
        ({
            let wire = seq![
                0x3du8,
                hex_char(octet as int / 16, capital),
                hex_char(octet as int % 16, capital),
            ];
            match steps(s, wire, 3, limits) {
                Ok(after) => after.octets() == s.octets().push(octet) && after.encoding is QuotedPrintable
                    && is_settled(after),
                Err(error) => error == Error::Limit,
            }
        }),
{
    let high = hex_char(octet as int / 16, capital);
    let low = hex_char(octet as int % 16, capital);
    let wire = seq![0x3du8, high, low];
    assert(hex_value(high) == Some(octet as int / 16));
    assert(hex_value(low) == Some(octet as int % 16));
    reveal_with_fuel(steps, 4);
    escapes_are_held(s, 0x3d, limits);
    if let Ok(one) = step(s, 0x3d, limits) {
        escapes_are_held(one, high, limits);
        if let Ok(two) = step(one, high, limits) {
            assert(two.quoted =~= seq![0x3du8, high]);
            escapes_end(two, high, low, limits);
            if let Ok(after) = step(two, low, limits) {
                assert(after.octets() =~= s.octets().push(octet));
            }
        }
    }
}

/// The last byte of an escape.
proof fn escapes_end(s: Decoding, high: u8, low: u8, limits: Limits)
    requires
        s.encoding is QuotedPrintable,
        s.base64.len() == 0 && s.whitespace.len() == 0 && !s.carriage_return,
        s.quoted == seq![0x3du8, high],
        hex_value(high) is Some && hex_value(low) is Some,
    ensures
        match step(s, low, limits) {
            Ok(after) => {
                &&& after.encoding is QuotedPrintable
                &&& is_settled(after)
                &&& after.taken == s.taken && after.pending == s.pending.push(
                    (hex_value(high)->0 * 16 + hex_value(low)->0) as u8,
                )
            },
            Err(error) => error == Error::Limit,
        },
{
    reveal(step);
    nothing_is_flushed(s, low, limits);
    let q = s.quoted.push(low);
    assert(q.len() == 3 && q[1] == high && q[2] == low);
    let octet = (hex_value(high)->0 * 16 + hex_value(low)->0) as u8;
    assert(s.pending + seq![octet] =~= s.pending.push(octet));
}

proof fn escaped_octets_are_read(octets: Seq<u8>, capital: bool, limits: Limits)
    ensures
        match steps(
            Decoding::fresh(TransferEncoding::QuotedPrintable),
            escaped_form(octets, capital),
            escaped_form(octets, capital).len() as int,
            limits,
        ) {
            Ok(after) => after.octets() == octets && after.encoding is QuotedPrintable && is_settled(after),
            Err(error) => error == Error::Limit,
        },
    decreases octets.len(),
{
    let s = Decoding::fresh(TransferEncoding::QuotedPrintable);
    if octets.len() == 0 {
        assert(s.octets() =~= octets);
    } else {
        let before = escaped_form(octets.drop_last(), capital);
        let last = octets.last();
        let wire = seq![0x3du8, hex_char(last as int / 16, capital), hex_char(last as int % 16, capital)];
        escaped_octets_are_read(octets.drop_last(), capital, limits);
        steps_join(s, before, wire, 3, limits);
        if let Ok(after) = steps(s, before, before.len() as int, limits) {
            escapes_are_read(after, last, capital, limits);
            assert(octets.drop_last().push(last) =~= octets);
        }
    }
}

/// What was written in quoted-printable is read back octet for octet, with capital and with small
/// digits, as long as no limit is met.
pub proof fn quoted_printable_reads_back(octets: Seq<u8>, capital: bool, limits: Limits)
    ensures
        stands_for(
            TransferEncoding::QuotedPrintable,
            escaped_form(octets, capital),
            octets,
            limits,
        ),
{
    let s = Decoding::fresh(TransferEncoding::QuotedPrintable);
    let wire = escaped_form(octets, capital);
    escaped_octets_are_read(octets, capital, limits);
    bytes_are_steps(s, wire, wire.len() as int, limits);
    if let Ok(end) = s.decoded(wire, limits) {
        assert(Decoding { whitespace: Seq::empty(), ..end }.octets() == end.octets());
    }
}

/// In quoted-printable a byte that needs no escape stands for itself, a soft line break for nothing,
/// white space before a line end for nothing, and a line end for itself.
pub proof fn quoted_printable_text_is_kept(s: Decoding, plain: u8, space: u8, limits: Limits)
    requires
        s.encoding is QuotedPrintable,
        is_settled(s),
        0x21 <= plain <= 0x7e && plain != 0x3d,
        space == 0x20 || space == 0x09,
    ensures
        adds(s, seq![plain], seq![plain], limits),
        adds(s, seq![0x3du8, 0x0d, 0x0a], Seq::empty(), limits),
        adds(s, seq![space, 0x0d, 0x0a], seq![0x0du8, 0x0a], limits),
        adds(s, seq![0x0du8, 0x0a], seq![0x0du8, 0x0a], limits),
        adds(s, seq![space, plain], seq![space, plain], limits),
{
    plain_bytes_are_kept(s, plain, limits);
    soft_breaks_are_dropped(s, limits);
    line_ends_are_kept(s, limits);
    let spaced = Decoding { whitespace: seq![space], ..s };
    let wire = seq![space, 0x0du8, 0x0a];
    let words = seq![space, plain];
    assert(s.whitespace.push(space) =~= seq![space]);
    assert(s.bytes(wire, 0, limits) == Ok::<Decoding, Error>(s));
    assert(s.bytes(words, 0, limits) == Ok::<Decoding, Error>(s));
    assert(s.bytes(wire, 1, limits) == s.byte(space, limits));
    assert(s.bytes(words, 1, limits) == s.byte(space, limits));
    assert(s.bytes(words, 2, limits) == match s.bytes(words, 1, limits) {
        Err(error) => Err(error),
        Ok(before) => before.byte(plain, limits),
    });
    if let Ok(one) = s.byte(space, limits) {
        assert(one.whitespace =~= seq![space]);
        spaces_end_with_the_line(one, wire, limits);
        spaces_are_kept(one, space, plain, limits);
        assert(s.bytes(wire, 2, limits) == one.byte(0x0d, limits));
        assert(s.bytes(wire, 3, limits) == match s.bytes(wire, 2, limits) {
            Err(error) => Err(error),
            Ok(before) => before.byte(0x0a, limits),
        });
    }
}

proof fn plain_bytes_are_kept(s: Decoding, plain: u8, limits: Limits)
    requires
        s.encoding is QuotedPrintable,
        is_settled(s),
        0x21 <= plain <= 0x7e && plain != 0x3d,
    ensures
        adds(s, seq![plain], seq![plain], limits),
{
    let wire = seq![plain];
    nothing_is_flushed(s, plain, limits);
    assert(s.bytes(wire, 0, limits) == Ok::<Decoding, Error>(s));
    assert(s.bytes(wire, 1, limits) == s.byte(plain, limits));
    assert(s.taken + (s.pending + wire) =~= s.octets() + wire);
}

proof fn soft_breaks_are_dropped(s: Decoding, limits: Limits)
    requires
        s.encoding is QuotedPrintable,
        is_settled(s),
    ensures
        adds(s, seq![0x3du8, 0x0d, 0x0a], Seq::empty(), limits),
{
    let wire = seq![0x3du8, 0x0d, 0x0a];
    bytes_are_steps(s, wire, 3, limits);
    reveal_with_fuel(steps, 4);
    escapes_are_held(s, 0x3d, limits);
    if let Ok(one) = step(s, 0x3d, limits) {
        assert(one.quoted =~= seq![0x3du8]);
        breaks_are_dropped(one, limits);
        if let Ok(two) = step(one, 0x0d, limits) {
            if let Ok(after) = step(two, 0x0a, limits) {
                assert(after.octets() =~= s.octets() + Seq::<u8>::empty());
            }
        }
    }
}

proof fn breaks_are_dropped(s: Decoding, limits: Limits)
    requires
        s.encoding is QuotedPrintable,
        s.whitespace.len() == 0 && !s.carriage_return,
        s.quoted == seq![0x3du8],
    ensures
        match step(s, 0x0d, limits) {
            Ok(held) => match step(held, 0x0a, limits) {
                Ok(after) => after.taken == s.taken && after.pending == s.pending,
                Err(error) => error == Error::Limit,
            },
            Err(error) => error == Error::Limit,
        },
{
    reveal(step);
    if let Ok(held) = s.byte(0x0d, limits) {
        let line = Decoding { whitespace: Seq::empty(), carriage_return: false, ..held };
        assert(line.quoted == seq![0x3du8]);
        if let Ok(three) = line.quoted_octet(0x0d, limits) {
            assert(three.quoted =~= seq![0x3du8, 0x0d]);
            assert(three.quoted.push(0x0a)[1] == 0x0d);
        }
    }
}

proof fn line_ends_are_kept(s: Decoding, limits: Limits)
    requires
        s.encoding is QuotedPrintable,
        is_settled(s),
    ensures
        adds(s, seq![0x0du8, 0x0a], seq![0x0du8, 0x0a], limits),
{
    let wire = seq![0x0du8, 0x0a];
    assert(s.bytes(wire, 0, limits) == Ok::<Decoding, Error>(s));
    assert(s.bytes(wire, 1, limits) == s.byte(0x0d, limits));
    if let Ok(one) = s.bytes(wire, 1, limits) {
        assert(s.bytes(wire, 2, limits) == one.byte(0x0a, limits));
        lines_end(one, limits);
        if let Ok(two) = one.byte(0x0a, limits) {
            assert(two.octets() =~= s.octets() + wire);
        }
    }
}

/// A line feed behind a carriage return ends the line, without the white space before it.
proof fn lines_end(s: Decoding, limits: Limits)
    requires
        s.encoding is QuotedPrintable,
        s.carriage_return,
        s.quoted.len() == 0,
    ensures
        match s.byte(0x0a, limits) {
            Ok(after) => after.taken == s.taken && after.pending == s.pending + seq![0x0du8, 0x0a],
            Err(error) => error == Error::Limit,
        },
{
    let line = Decoding { whitespace: Seq::empty(), carriage_return: false, ..s };
    if let Ok(one) = line.quoted_octet(0x0d, limits) {
        assert(one.quoted.len() == 0);
        assert(one.pending == s.pending + seq![0x0du8]);
        if let Ok(two) = one.quoted_octet(0x0a, limits) {
            assert(two.pending =~= s.pending + seq![0x0du8, 0x0a]);
        }
    }
}

proof fn spaces_end_with_the_line(s: Decoding, wire: Seq<u8>, limits: Limits)
    requires
        s.encoding is QuotedPrintable,
        !s.carriage_return,
        s.quoted.len() == 0,
    ensures
        match s.byte(0x0d, limits) {
            Ok(one) => match one.byte(0x0a, limits) {
                Ok(after) => after.octets() == s.octets() + seq![0x0du8, 0x0a],
                Err(error) => error == Error::Limit,
            },
            Err(error) => error == Error::Limit,
        },
{
    if let Ok(one) = s.byte(0x0d, limits) {
        lines_end(one, limits);
        if let Ok(two) = one.byte(0x0a, limits) {
            assert(two.octets() =~= s.octets() + seq![0x0du8, 0x0a]);
        }
    }
}

proof fn spaces_are_kept(s: Decoding, space: u8, plain: u8, limits: Limits)
    requires
        s.encoding is QuotedPrintable,
        !s.carriage_return,
        s.quoted.len() == 0,
        s.whitespace == seq![space],
        space == 0x20 || space == 0x09,
        0x21 <= plain <= 0x7e && plain != 0x3d,
    ensures
        match s.byte(plain, limits) {
            Ok(after) => after.octets() == s.octets() + seq![space, plain],
            Err(error) => error == Error::Limit,
        },
{
    let open = Decoding { whitespace: Seq::empty(), ..s };
    assert(open.quoted_octets(s.whitespace, 0, limits) == Ok::<Decoding, Error>(open));
    assert(open.quoted_octets(s.whitespace, 1, limits) == open.quoted_octet(space, limits));
    if let Ok(one) = s.flushed(limits) {
        assert(one.pending == s.pending + seq![space]);
        assert(one.quoted.len() == 0);
        if let Ok(two) = one.quoted_octet(plain, limits) {
            assert(two.pending == one.pending + seq![plain]);
        }
        if let Ok(after) = s.byte(plain, limits) {
            assert(after.octets() =~= s.octets() + seq![space, plain]);
        }
    }
}

/// An escape that is not two hexadecimal digits is refused.
pub proof fn strange_escapes_are_refused(s: Decoding, first: u8, second: u8, limits: Limits)
    requires
        s.encoding is QuotedPrintable,
        s.quoted == seq![0x3du8, first],
        s.whitespace.len() == 0,
        !s.carriage_return,
        0x21 <= first <= 0x7e && 0x21 <= second <= 0x7e,
        !(exists|high: int, low: int, a: bool, b: bool|
            0 <= high < 16 && 0 <= low < 16 && first == #[trigger] hex_char(high, a) && second
                == #[trigger] hex_char(low, b)),
        s.has_room(limits),
    ensures
        s.byte(second, limits) == Err::<Decoding, Error>(Error::Protocol),
{
    nothing_is_flushed(s, second, limits);
    let q = s.quoted.push(second);
    assert(q[1] == first && q[2] == second);
    if hex_value(first) is Some && hex_value(second) is Some {
        let a = !(0x61 <= first <= 0x66);
        let b = !(0x61 <= second <= 0x66);
        assert(hex_char(hex_value(first)->0, a) == first);
        assert(hex_char(hex_value(second)->0, b) == second);
    }
}

/// What is not encoded is kept octet for octet.
pub proof fn plain_octets_are_kept(octets: Seq<u8>, limits: Limits)
    ensures
        stands_for(TransferEncoding::Identity, octets, octets, limits),
{
    let s = Decoding::fresh(TransferEncoding::Identity);
    assert(s.pending + octets =~= octets);
    assert(s.taken + (s.pending + octets) =~= octets);
}

} // verus!

//! One exchange with an IMAP server: admission of bytes, and the meaning of each response.
use io_imap::codec::fragmentizer::Fragmentizer;
use std::collections::BTreeSet;
use vstd::prelude::*;

use super::decode::{
    kind_of, performs, read_command, read_response, sole_response, wire_command,
};
use super::fetch::{quotes_before, Fetch};
use super::framing::{
    announcement, ends_in_crlf, framing, nothing_comes_of_nothing, one_byte_is_split, progress, Fragment,
    Framing,
};
use super::types::{item_views, Code, Item, Response, ResponseView, StatusKind};
use super::{Error, Limits, Metrics};
use crate::text::{ascii_space, equal_ignoring_case, is_ascii_space, same, same_ignoring_case};

verus! {

pub open spec fn at_least(a: usize, b: int) -> int {
    if a > b {
        a as int
    } else {
        b
    }
}

/// Charges `count` steps of work, or refuses them.
pub fn step(metrics: &mut Metrics, limits: &Limits, count: usize) -> (r: Result<(), Error>)
    ensures
        r == (if count == 0 || old(metrics).parser_steps + count <= limits.max_parser_steps {
            Ok::<(), Error>(())
        } else {
            Err(Error::Limit)
        }),
        r is Err ==> *final(metrics) == *old(metrics),
        r is Ok ==> *final(metrics) == (Metrics {
            parser_steps: (old(metrics).parser_steps + count) as usize,
            ..*old(metrics)
        }),
        within_budget(*old(metrics), *limits) ==> within_budget(*final(metrics), *limits),
{
    if count > limits.max_parser_steps.saturating_sub(metrics.parser_steps) {
        return Err(Error::Limit);
    }
    metrics.parser_steps = metrics.parser_steps + count;
    Ok(())
}

/// The parentheses that are open after the first `i` bytes of a line, `start` of them from before.
pub open spec fn nested(line: Seq<u8>, start: nat, i: int) -> nat
    decreases i,
{
    if i <= 0 {
        start
    } else {
        let before = nested(line, start, i - 1);
        let (quoted, escaped) = quotes_before(line, i - 1);
        if quoted || escaped {
            before
        } else if line[i - 1] == 0x28 {
            before + 1
        } else if line[i - 1] == 0x29 && before > 0 {
            (before - 1) as nat
        } else {
            before
        }
    }
}

/// Byte `i` opens a parenthesis outside of quoted strings.
pub open spec fn opens_at(line: Seq<u8>, i: int) -> bool {
    0 <= i < line.len() && line[i] == 0x28 && quotes_before(line, i) == (false, false)
}

/// No parenthesis of the line is nested deeper than `maximum`.
pub open spec fn nesting_fits(line: Seq<u8>, start: nat, maximum: nat) -> bool {
    forall|i: int| #[trigger] opens_at(line, i) ==> nested(line, start, i + 1) <= maximum
}

fn scan_line(line: &[u8], start: usize, maximum: usize) -> (r: Option<usize>)
    ensures
        match r {
            Some(depth) => nesting_fits(line@, start as nat, maximum as nat) && depth == nested(
                line@,
                start as nat,
                line@.len() as int,
            ),
            None => !nesting_fits(line@, start as nat, maximum as nat),
        },
{
    let mut quoted = false;
    let mut escaped = false;
    let mut depth: usize = start;
    for i in 0..line.len()
        invariant
            quotes_before(line@, i as int) == (quoted, escaped),
            escaped ==> quoted,
            depth == nested(line@, start as nat, i as int),
            forall|j: int|
                j < i && #[trigger] opens_at(line@, j) ==> nested(line@, start as nat, j + 1)
                    <= maximum,
    {
        let byte = line[i];
        assert(quotes_before(line@, i + 1) == quotes_before(line@, i + 1));
        assert(nested(line@, start as nat, i + 1) == nested(line@, start as nat, i + 1));
        if escaped {
            escaped = false;
        } else if quoted && byte == 0x5c {
            escaped = true;
        } else if byte == 0x22 {
            quoted = !quoted;
        } else if !quoted {
            if byte == 0x28 {
                if depth >= maximum {
                    assert(opens_at(line@, i as int));
                    return None;
                }
                depth = depth + 1;
            } else if byte == 0x29 {
                depth = depth.saturating_sub(1);
            }
        }
    }
    Some(depth)
}

/// One response that is being read.
#[derive(Debug)]
pub struct Frame {
    pub guard: Fragmentizer,
    pub bytes: usize,
    pub nesting: usize,
}

/// What a line costs, and whether it is accepted, in a response of `bytes` bytes so far.
pub open spec fn line_verdict(
    line: Seq<u8>,
    nesting: nat,
    bytes: usize,
    literal: usize,
    limits: Limits,
    metrics: Metrics,
) -> Result<Metrics, Error> {
    if !ends_in_crlf(line) {
        Err(Error::Protocol)
    } else if !nesting_fits(line, nesting, limits.max_nesting as nat) {
        Err(Error::Limit)
    } else {
        match announcement(line) {
            None => Ok(metrics),
            Some(length) => if literal_fits(length as nat, bytes, literal, limits, metrics) {
                Ok(
                    Metrics {
                        max_literal_bytes: at_least(
                            metrics.max_literal_bytes,
                            length as int,
                        ) as usize,
                        ..metrics
                    },
                )
            } else {
                Err(Error::Limit)
            },
        }
    }
}

/// The announced literal fits what is left of the response and of the operation.
pub open spec fn literal_fits(
    length: nat,
    bytes: usize,
    literal: usize,
    limits: Limits,
    metrics: Metrics,
) -> bool {
    &&& length <= literal
    &&& length == 0 || bytes + length <= limits.max_response_bytes
    &&& length == 0 || metrics.wire_bytes + length <= limits.max_operation_bytes
}

/// What an operation has spent after one more byte of a response.
pub open spec fn charged(metrics: Metrics, bytes: usize) -> Metrics {
    Metrics {
        parser_steps: (metrics.parser_steps + 1) as usize,
        wire_bytes: (metrics.wire_bytes + 1) as usize,
        max_response_bytes: at_least(metrics.max_response_bytes, bytes + 1) as usize,
        max_buffered_bytes: at_least(metrics.max_buffered_bytes, (bytes + 1) * 2 + 4096) as usize,
        ..metrics
    }
}

/// What a byte means for a response.
pub enum Reception {
    /// The response goes on, with these contents, this nesting and these costs.
    More { framing: Framing, nesting: nat, metrics: Metrics },
    /// The response is complete.
    Whole { message: Seq<u8>, metrics: Metrics },
    Refused(Error),
}

/// The byte behind the contents of `before` in a response that is nested `nesting` deep. Every line is
/// judged when it ends, and so before a literal that it announces is read.
pub open spec fn reception(
    before: Framing,
    nesting: nat,
    byte: u8,
    literal: usize,
    limits: Limits,
    metrics: Metrics,
) -> Reception {
    let text = before.message.push(byte);
    let spent = charged(metrics, before.message.len() as usize);
    if metrics.parser_steps >= limits.max_parser_steps {
        Reception::Refused(Error::Limit)
    } else {
        match before.missing {
            Some(missing) => Reception::More {
                framing: if missing == 1 {
                    Framing { message: text, begun: text.len(), missing: None, ..before }
                } else {
                    Framing { message: text, missing: Some((missing - 1) as u32), ..before }
                },
                nesting,
                metrics: spent,
            },
            None => if byte != 0x0a {
                Reception::More { framing: Framing { message: text, ..before }, nesting, metrics: spent }
            } else {
                let line = text.skip(before.begun as int);
                match line_verdict(line, nesting, text.len() as usize, literal, limits, spent) {
                    Err(error) => Reception::Refused(error),
                    Ok(noted) => match announcement(line) {
                        Some(length) => Reception::More {
                            framing: Framing {
                                message: text,
                                begun: text.len(),
                                missing: if length == 0 {
                                    None
                                } else {
                                    Some(length)
                                },
                                ..before
                            },
                            nesting: nested(line, nesting, line.len() as int),
                            metrics: noted,
                        },
                        None => if noted.parser_steps + text.len() * 2 <= limits.max_parser_steps {
                            Reception::Whole {
                                message: text,
                                metrics: Metrics {
                                    parser_steps: (noted.parser_steps + text.len() * 2) as usize,
                                    ..noted
                                },
                            }
                        } else {
                            Reception::Refused(Error::Limit)
                        },
                    },
                }
            },
        }
    }
}

impl Frame {
    /// Everything that was read was split, and the response goes on.
    pub open spec fn well_formed(self, limits: Limits) -> bool {
        let framing = framing(self.guard);
        &&& framing.message.len() == self.bytes
        &&& framing.waiting.len() == 0
        &&& framing.begun <= self.bytes
        &&& framing.missing != Some(0u32)
        &&& !framing.complete
        &&& framing.maximum == limits.max_response_bytes
    }

    /// Starts a response, unless the operation has received all that it may.
    pub fn begin(limits: &Limits, metrics: &mut Metrics) -> (r: Result<Self, Error>)
        requires
            limits.valid(),
        ensures
            match r {
                Ok(frame) => {
                    &&& old(metrics).responses < limits.max_responses
                    &&& frame.well_formed(*limits)
                    &&& framing(frame.guard) == Framing::fresh(limits.max_response_bytes as u32)
                    &&& frame.bytes == 0
                    &&& frame.nesting == 0
                    &&& *final(metrics) == (Metrics {
                        responses: (old(metrics).responses + 1) as usize,
                        ..*old(metrics)
                    })
                },
                Err(error) => {
                    &&& error == Error::Limit
                    &&& old(metrics).responses >= limits.max_responses
                    &&& *final(metrics) == *old(metrics)
                },
            },
            within_budget(*old(metrics), *limits) ==> within_budget(*final(metrics), *limits),
    {
        if metrics.responses >= limits.max_responses {
            return Err(Error::Limit);
        }
        metrics.responses = metrics.responses + 1;
        Ok(Frame { guard: Fragmentizer::new(limits.max_response_bytes as u32), bytes: 0, nesting: 0 })
    }

    /// Another byte of the response may be read.
    pub open spec fn open(self, limits: Limits, metrics: Metrics) -> bool {
        self.bytes < limits.max_response_bytes && metrics.wire_bytes < limits.max_operation_bytes
    }

    pub fn ready(&self, limits: &Limits, metrics: &Metrics) -> (r: Result<(), Error>)
        ensures
            r == (if self.open(*limits, *metrics) {
                Ok::<(), Error>(())
            } else {
                Err(Error::Limit)
            }),
    {
        if self.bytes >= limits.max_response_bytes || metrics.wire_bytes
            >= limits.max_operation_bytes {
            return Err(Error::Limit);
        }
        Ok(())
    }

    /// Accounts for one byte that was read.
    pub fn byte(&mut self, limits: &Limits, metrics: &mut Metrics) -> (r: Result<(), Error>)
        requires
            limits.valid(),
            old(self).open(*limits, *old(metrics)),
        ensures
            *final(self) == (Frame { bytes: (old(self).bytes + 1) as usize, ..*old(self) }),
            r == (if old(metrics).parser_steps < limits.max_parser_steps {
                Ok::<(), Error>(())
            } else {
                Err(Error::Limit)
            }),
            r is Err ==> *final(metrics) == *old(metrics),
            r is Ok ==> *final(metrics) == charged(*old(metrics), old(self).bytes),
            within_budget(*old(metrics), *limits) ==> within_budget(*final(metrics), *limits),
    {
        self.bytes = self.bytes + 1;
        step(metrics, limits, 1)?;
        metrics.wire_bytes = metrics.wire_bytes + 1;
        if self.bytes > metrics.max_response_bytes {
            metrics.max_response_bytes = self.bytes;
        }
        if self.bytes * 2 + 4096 > metrics.max_buffered_bytes {
            metrics.max_buffered_bytes = self.bytes * 2 + 4096;
        }
        Ok(())
    }

    /// Inspects a complete line before the recursive decoder sees it. Literal bytes are separate
    /// fragments and cannot affect the depth.
    pub fn line(
        &mut self,
        line: &[u8],
        crlf: bool,
        announced: Option<u32>,
        literal: usize,
        limits: &Limits,
        metrics: &mut Metrics,
    ) -> (r: Result<(), Error>)
        ensures
            r == (if !crlf {
                Err::<(), Error>(Error::Protocol)
            } else if !nesting_fits(line@, old(self).nesting as nat, limits.max_nesting as nat) || (
            announced matches Some(length) && !literal_fits(
                length as nat,
                old(self).bytes,
                literal,
                *limits,
                *old(metrics),
            )) {
                Err(Error::Limit)
            } else {
                Ok(())
            }),
            r is Err ==> *final(self) == *old(self) && *final(metrics) == *old(metrics),
            r is Ok ==> *final(self) == (Frame { nesting: final(self).nesting, ..*old(self) }),
            r is Ok ==> final(self).nesting == nested(
                line@,
                old(self).nesting as nat,
                line@.len() as int,
            ),
            r is Ok ==> *final(metrics) == (match announced {
                None => *old(metrics),
                Some(length) => Metrics {
                    max_literal_bytes: at_least(
                        old(metrics).max_literal_bytes,
                        length as int,
                    ) as usize,
                    ..*old(metrics)
                },
            }),
    {
        if !crlf {
            return Err(Error::Protocol);
        }
        let depth: usize = match scan_line(line, self.nesting, limits.max_nesting) {
            None => {
                return Err(Error::Limit);
            },
            Some(depth) => depth,
        };
        match announced {
            None => {},
            Some(length) => {
                let length: usize = length as usize;
                if length > literal || length > limits.max_response_bytes.saturating_sub(self.bytes)
                    || length > limits.max_operation_bytes.saturating_sub(metrics.wire_bytes) {
                    return Err(Error::Limit);
                }
                if length > metrics.max_literal_bytes {
                    metrics.max_literal_bytes = length;
                }
            },
        }
        self.nesting = depth;
        Ok(())
    }

    /// Charges the decoding of the complete response.
    pub fn complete(&self, limits: &Limits, metrics: &mut Metrics) -> (r: Result<(), Error>)
        requires
            limits.valid(),
            self.bytes <= limits.max_response_bytes,
        ensures
            r == (if self.bytes == 0 || old(metrics).parser_steps + self.bytes * 2
                <= limits.max_parser_steps {
                Ok::<(), Error>(())
            } else {
                Err(Error::Limit)
            }),
            r is Err ==> *final(metrics) == *old(metrics),
            r is Ok ==> *final(metrics) == (Metrics {
                parser_steps: (old(metrics).parser_steps + self.bytes * 2) as usize,
                ..*old(metrics)
            }),
            within_budget(*old(metrics), *limits) ==> within_budget(*final(metrics), *limits),
    {
        step(metrics, limits, self.bytes * 2)
    }

    /// Takes the next byte of a response, whose literals may be up to `literal` bytes long. Answers with
    /// the whole response once it is complete.
    pub fn receive(
        &mut self,
        byte: u8,
        literal: usize,
        limits: &Limits,
        metrics: &mut Metrics,
    ) -> (r: Result<Option<Vec<u8>>, Error>)
        requires
            limits.valid(),
            old(self).well_formed(*limits),
            old(self).open(*limits, *old(metrics)),
        ensures
            match reception(
                framing(old(self).guard),
                old(self).nesting as nat,
                byte,
                literal,
                *limits,
                *old(metrics),
            ) {
                Reception::More { framing: after, nesting, metrics: spent } => {
                    &&& r == Ok::<Option<Vec<u8>>, Error>(None)
                    &&& final(self).well_formed(*limits)
                    &&& framing(final(self).guard) == after
                    &&& final(self).bytes == old(self).bytes + 1
                    &&& final(self).nesting == nesting
                    &&& *final(metrics) == spent
                },
                Reception::Whole { message, metrics: spent } => {
                    &&& r matches Ok(Some(whole))
                    &&& whole@ == message
                    &&& *final(metrics) == spent
                },
                Reception::Refused(error) => r == Err::<Option<Vec<u8>>, Error>(error),
            },
            within_budget(*old(metrics), *limits) ==> within_budget(*final(metrics), *limits),
    {
        let ghost before = framing(self.guard);
        let ghost nesting = self.nesting as nat;
        let ghost verdict = reception(before, nesting, byte, literal, *limits, *metrics);
        let ghost text = before.message.push(byte);
        self.byte(limits, metrics)?;
        let ghost spent = *metrics;
        let mut one: Vec<u8> = Vec::new();
        one.push(byte);
        self.guard.enqueue_bytes(one.as_slice());
        assert(framing(self.guard).waiting =~= seq![byte]);
        loop
            invariant
                limits.valid(),
                before == framing(old(self).guard),
                nesting == old(self).nesting,
                old(self).bytes == before.message.len(),
                before.waiting.len() == 0,
                before.missing != Some(0u32),
                before.begun <= before.message.len(),
                !before.complete,
                before.maximum == limits.max_response_bytes,
                text == before.message.push(byte),
                text.len() <= limits.max_response_bytes,
                self.bytes == text.len(),
                verdict == reception(before, nesting, byte, literal, *limits, *old(metrics)),
                old(metrics).parser_steps < limits.max_parser_steps,
                spent == charged(*old(metrics), before.message.len() as usize),
                within_budget(*old(metrics), *limits) ==> within_budget(*metrics, *limits),
                ({
                    let now = framing(self.guard);
                    ||| now == (Framing { waiting: seq![byte], ..before }) && self.nesting == nesting
                        && *metrics == spent
                    ||| {
                        &&& now.waiting.len() == 0
                        &&& now.message == text
                        &&& !now.complete
                        &&& now.maximum == before.maximum
                        &&& verdict matches Reception::More { framing: last, nesting: deep, metrics: noted }
                        &&& self.nesting == deep
                        &&& *metrics == noted
                        &&& now.missing != Some(0u32) ==> now == last
                        &&& now.missing == Some(0u32) ==> last == (Framing {
                            begun: text.len(),
                            missing: None,
                            ..now
                        })
                    }
                }),
            decreases
                    2 * framing(self.guard).waiting.len() + (if framing(self.guard).missing is Some {
                        1nat
                    } else {
                        0nat
                    }),
        {
            proof {
                one_byte_is_split(before, byte);
                if framing(self.guard).waiting.len() == 0 {
                    nothing_comes_of_nothing(framing(self.guard));
                }
            }
            match progress(&mut self.guard) {
                None => {
                    return Ok(None);
                },
                Some(Fragment::Literal { .. }) => {},
                Some(Fragment::Line { start, end, announced, crlf }) => {
                    let line = crate::text::copy_range(self.guard.message_bytes(), start, end);
                    assert(line@ =~= text.skip(before.begun as int));
                    self.line(line.as_slice(), crlf, announced, literal, limits, metrics)?;
                },
            }
            if self.guard.is_message_complete() {
                self.complete(limits, metrics)?;
                let bytes = self.guard.message_bytes();
                assert(bytes@.subrange(0, bytes@.len() as int) =~= text);
                return Ok(Some(crate::text::copy_range(bytes, 0, bytes.len())));
            }
        }
    }
}

/// A literal is read only where it fits: what is still missing of one never exceeds what the response
/// and the operation may still take.
pub proof fn literals_stay_within(
    before: Framing,
    nesting: nat,
    byte: u8,
    literal: usize,
    limits: Limits,
    metrics: Metrics,
)
    requires
        limits.valid(),
        before.message.len() < limits.max_response_bytes,
        metrics.wire_bytes < limits.max_operation_bytes,
        before.missing matches Some(missing) ==> 1 <= missing && before.message.len() + missing
            <= limits.max_response_bytes && metrics.wire_bytes + missing
            <= limits.max_operation_bytes,
    ensures
        reception(before, nesting, byte, literal, limits, metrics) matches Reception::More {
            framing,
            metrics: spent,
            ..
        } ==> (framing.missing matches Some(missing) ==> 1 <= missing && framing.message.len()
            + missing <= limits.max_response_bytes && spent.wire_bytes + missing
            <= limits.max_operation_bytes),
{
}

/// Puts another response behind the ones that were received for the same command.
pub fn join(received: &mut Vec<u8>, next: &Vec<u8>, limits: &Limits, metrics: &mut Metrics) -> (r:
    Result<(), Error>)
    requires
        limits.valid(),
        old(received)@.len() <= limits.max_response_bytes,
    ensures
        r == (if old(received)@.len() + next@.len() <= limits.max_response_bytes {
            Ok::<(), Error>(())
        } else {
            Err(Error::Limit)
        }),
        r is Err ==> final(received)@ == old(received)@ && *final(metrics) == *old(metrics),
        r is Ok ==> final(received)@ == old(received)@ + next@,
        r is Ok ==> *final(metrics) == (Metrics {
            max_buffered_bytes: at_least(
                old(metrics).max_buffered_bytes,
                (old(received)@.len() + next@.len()) as int * 2 + 4096,
            ) as usize,
            ..*old(metrics)
        }),
{
    if next.len() > limits.max_response_bytes.saturating_sub(received.len()) {
        return Err(Error::Limit);
    }
    received.extend_from_slice(next.as_slice());
    assert(received@ =~= old(received)@ + next@);
    if received.len() * 2 + 4096 > metrics.max_buffered_bytes {
        metrics.max_buffered_bytes = received.len() * 2 + 4096;
    }
    Ok(())
}

/// What an operation has spent stays within its ceilings.
pub open spec fn within_budget(metrics: Metrics, limits: Limits) -> bool {
    &&& metrics.responses <= limits.max_responses
    &&& metrics.parser_steps <= limits.max_parser_steps
    &&& metrics.wire_bytes <= limits.max_operation_bytes
}

/// Which command an exchange carries, as far as its responses depend on it.
#[derive(Clone, Copy, Debug, PartialEq, Eq, Structural)]
pub enum CommandKind {
    Logout,
    Search,
    Other,
}

/// What is known about the command in flight and the selected mailbox.
#[derive(Debug)]
pub struct Exchange {
    pub examining: bool,
    pub read_only: bool,
    pub authenticating: bool,
    pub tag: Option<String>,
    pub fetch: Option<Fetch>,
    pub logging_out: bool,
    pub logout_bye: bool,
    pub logout_tagged: bool,
    pub searching: bool,
    pub search_responses: usize,
    pub sequences: BTreeSet<u32>,
    pub uid_validity: Option<u32>,
}

/// The state of an exchange, with what its responses depend on.
pub struct State {
    pub examining: bool,
    pub read_only: bool,
    pub authenticating: bool,
    pub tag: Option<Seq<char>>,
    pub fetch: Option<Fetch>,
    pub logging_out: bool,
    pub logout_bye: bool,
    pub logout_tagged: bool,
    pub searching: bool,
    pub search_responses: nat,
    pub sequences: Set<u32>,
    pub uid_validity: Option<u32>,
}

pub open spec fn optional_view(text: Option<String>) -> Option<Seq<char>> {
    match text {
        Some(text) => Some(text@),
        None => None,
    }
}

impl View for Exchange {
    type V = State;

    open spec fn view(&self) -> State {
        State {
            examining: self.examining,
            read_only: self.read_only,
            authenticating: self.authenticating,
            tag: optional_view(self.tag),
            fetch: self.fetch,
            logging_out: self.logging_out,
            logout_bye: self.logout_bye,
            logout_tagged: self.logout_tagged,
            searching: self.searching,
            search_responses: self.search_responses as nat,
            sequences: self.sequences@,
            uid_validity: self.uid_validity,
        }
    }
}

/// The bytes `REFERRAL`.
pub open spec fn referral_word() -> Seq<u8> {
    seq![0x52, 0x45, 0x46, 0x45, 0x52, 0x52, 0x41, 0x4c]
}

/// The text up to the first white space is `word`, up to case.
pub open spec fn first_word_is(text: Seq<u8>, word: Seq<u8>) -> bool {
    &&& word.len() <= text.len()
    &&& equal_ignoring_case(text.take(word.len() as int), word)
    &&& text.len() == word.len() || is_ascii_space(text[word.len() as int])
}

/// Redirections and writable selections are refused wherever they appear.
pub open spec fn code_verdict(code: Option<Code>) -> Result<(), Error> {
    match code {
        Some(Code::Referral) => Err(Error::Unsupported),
        Some(Code::ReadWrite) => Err(Error::UnsafeSelection),
        Some(Code::Other(text)) => if first_word_is(text@, referral_word()) {
            Err(Error::Unsupported)
        } else {
            Ok(())
        },
        _ => Ok(()),
    }
}

pub fn check_code(code: &Option<Code>) -> (r: Result<(), Error>)
    ensures
        r == code_verdict(*code),
{
    match code {
        Some(Code::Referral) => Err(Error::Unsupported),
        Some(Code::ReadWrite) => Err(Error::UnsafeSelection),
        Some(Code::Other(text)) => {
            let word: [u8; 8] = [0x52, 0x45, 0x46, 0x45, 0x52, 0x52, 0x41, 0x4c];
            assert(word@ =~= referral_word());
            if text.len() < 8 {
                return Ok(());
            }
            let head = vstd::slice::slice_subrange(text.as_slice(), 0, 8);
            assert(head@ =~= text@.take(8));
            if same_ignoring_case(head, word.as_slice()) && (text.len() == 8 || ascii_space(text[8])) {
                Err(Error::Unsupported)
            } else {
                Ok(())
            }
        },
        _ => Ok(()),
    }
}

/// The field may stand in the answer to an envelope FETCH.
pub open spec fn is_envelope_field(item: Item<()>) -> bool {
    item is Uid || item is Envelope || item is Flags || item is InternalDate || item is Rfc822Size
}

/// The row holds nothing but what was asked for.
pub open spec fn row_verdict(fetch: Option<Fetch>, items: Seq<Item<()>>) -> Result<(), Error> {
    match fetch {
        Some(fetch) => if fetch.accepts(items) {
            Ok(())
        } else if fetch.answered_by(items) {
            Err(Error::Limit)
        } else {
            Err(Error::Protocol)
        },
        None => if forall|i: int| 0 <= i < items.len() ==> is_envelope_field(#[trigger] items[i]) {
            Ok(())
        } else {
            Err(Error::Unsupported)
        },
    }
}

pub open spec fn verdict_of(r: Result<Vec<u8>, Error>) -> Result<(), Error> {
    match r {
        Ok(_) => Ok(()),
        Err(error) => Err(error),
    }
}

impl State {
    /// A status line with this kind and code: what it changes and whether it is accepted.
    pub open spec fn status(self, kind: StatusKind, code: Option<Code>, tagged: bool) -> (
        State,
        Result<(), Error>,
    ) {
        if code_verdict(code) is Err {
            (self, code_verdict(code))
        } else {
            let (noted, validity) = match code {
                Some(Code::UidValidity(value)) => if self.examining {
                    (
                        State { uid_validity: Some(value), ..self },
                        if self.uid_validity is Some {
                            Err::<(), Error>(Error::Protocol)
                        } else {
                            Ok(())
                        },
                    )
                } else if self.uid_validity matches Some(expected) && expected != value {
                    (self, Err(Error::UnsafeSelection))
                } else {
                    (self, Ok(()))
                },
                _ => (self, Ok(())),
            };
            if validity is Err || !self.examining || !tagged {
                (noted, validity)
            } else if kind is Success && code == Some(Code::ReadOnly) {
                (State { read_only: true, ..noted }, Ok(()))
            } else {
                (noted, Err(Error::UnsafeSelection))
            }
        }
    }

    /// What a response changes, and whether it is accepted.
    pub open spec fn inspected(self, response: Response) -> (State, Result<(), Error>) {
        match response {
            Response::Tagged { tag, kind, code } => if self.tag != Some(tag@) {
                (self, Err(Error::Protocol))
            } else {
                (State { logout_tagged: true, ..self }).status(kind, code, true)
            },
            Response::Untagged { kind, code } => self.status(kind, code, false),
            Response::Bye { code } => if code_verdict(code) is Err {
                (self, code_verdict(code))
            } else if self.logout_bye {
                (self, Err(Error::Protocol))
            } else {
                (
                    State { logout_bye: true, ..self },
                    if self.logging_out {
                        Ok(())
                    } else {
                        Err(Error::Eof)
                    },
                )
            },
            Response::Ordinary => (self, Ok(())),
            Response::Search => if !self.searching || self.search_responses != 0 {
                (self, Err(Error::Protocol))
            } else {
                (State { search_responses: 1, ..self }, Ok(()))
            },
            Response::Fetch { sequence, items } => if self.sequences.contains(sequence) {
                (self, Err(Error::Protocol))
            } else {
                (
                    State { sequences: self.sequences.insert(sequence), ..self },
                    if self.examining {
                        Err(Error::Protocol)
                    } else {
                        row_verdict(self.fetch, items@)
                    },
                )
            },
            Response::OtherData => (self, Err(Error::Unsupported)),
            Response::Continuation => (self, Err(Error::Protocol)),
        }
    }

    /// The frame lacks a separator, and there is no room for it.
    pub open spec fn cannot_repair(self, frame: Seq<u8>, maximum: nat) -> bool {
        &&& self.fetch matches Some(fetch)
        &&& frame.len() >= maximum
        &&& exists|end: int, i: int| #[trigger] fetch.joined(frame, end, i)
    }

    /// The frame with the separator that it lacks, or as it is where it lacks none.
    pub open spec fn repairs(self, frame: Seq<u8>, text: Seq<u8>) -> bool {
        match self.fetch {
            Some(fetch) => {
                ||| text == frame && forall|end: int, i: int| !#[trigger] fetch.joined(frame, end, i)
                ||| exists|end: int, i: int| #[trigger]
                    fetch.joined(frame, end, i) && text == frame.insert(fetch.insertion(i), 0x20)
            },
            None => text == frame,
        }
    }

    /// What a decoded frame changes, and whether it is accepted.
    pub open spec fn judges(
        self,
        found: Option<ResponseView>,
        appending: bool,
        after: State,
        verdict: Result<(), Error>,
    ) -> bool {
        match found {
            None => after == self && verdict == Err::<(), Error>(Error::Protocol),
            Some(ResponseView::Continuation) if appending => after == self && verdict == Ok::<
                (),
                Error,
            >(()),
            Some(found) => exists|response: Response| #[trigger]
                response@ == found && (after, verdict) == self.inspected(response),
        }
    }

    /// The state in which a command goes out.
    pub open spec fn sent(self, tag: Seq<char>, kind: CommandKind, fetch: Option<Fetch>) -> State {
        State {
            tag: Some(tag),
            fetch,
            logging_out: kind is Logout,
            logout_bye: false,
            logout_tagged: false,
            searching: kind is Search,
            search_responses: 0,
            sequences: Set::empty(),
            ..self
        }
    }

    /// A completed command leaves no tag behind, and a search has been answered exactly once.
    pub open spec fn completed(self) -> (State, Result<(), Error>) {
        if self.searching && self.search_responses != 1 {
            (self, Err(Error::Protocol))
        } else {
            (State { tag: None, ..self }, Ok(()))
        }
    }
}

fn envelope_fields(items: &Vec<Item<()>>) -> (r: bool)
    ensures
        r == forall|i: int| 0 <= i < items@.len() ==> is_envelope_field(#[trigger] items@[i]),
{
    for i in 0..items.len()
        invariant
            forall|j: int| 0 <= j < i ==> is_envelope_field(#[trigger] items@[j]),
    {
        match &items[i] {
            Item::Uid(_)
            | Item::Envelope(_)
            | Item::Flags(_)
            | Item::InternalDate(_)
            | Item::Rfc822Size(_) => {},
            _ => {
                assert(!is_envelope_field(items@[i as int]));
                return false;
            },
        }
    }
    true
}

/// `end` is where the first word of the bytes ends.
pub open spec fn ends_first_word(bytes: Seq<u8>, end: int) -> bool {
    &&& 0 <= end <= bytes.len()
    &&& forall|i: int| 0 <= i < end ==> #[trigger] bytes[i] != 0x20
    &&& end < bytes.len() ==> bytes[end] == 0x20
}

/// The bytes as characters.
pub open spec fn characters(bytes: Seq<u8>) -> Seq<char> {
    bytes.map_values(|byte: u8| byte as char)
}

impl Exchange {
    /// A connection that has sent nothing.
    pub fn new() -> (r: Self)
        ensures
            r@ == (State {
                examining: false,
                read_only: false,
                authenticating: false,
                tag: None,
                fetch: None,
                logging_out: false,
                logout_bye: false,
                logout_tagged: false,
                searching: false,
                search_responses: 0,
                sequences: Set::empty(),
                uid_validity: None,
            }),
    {
        Exchange {
            examining: false,
            read_only: false,
            authenticating: false,
            tag: None,
            fetch: None,
            logging_out: false,
            logout_bye: false,
            logout_tagged: false,
            searching: false,
            search_responses: 0,
            sequences: BTreeSet::new(),
            uid_validity: None,
        }
    }

    /// Notes the command that is about to be written.
    pub fn send(&mut self, tag: String, kind: CommandKind, fetch: Option<Fetch>)
        ensures
            final(self)@ == old(self)@.sent(tag@, kind, fetch),
    {
        self.tag = Some(tag);
        self.fetch = fetch;
        self.logging_out = matches!(kind, CommandKind::Logout);
        self.logout_bye = false;
        self.logout_tagged = false;
        self.searching = matches!(kind, CommandKind::Search);
        self.search_responses = 0;
        self.sequences.clear();
    }

    /// Reads back a command that is about to be written, and notes it.
    pub fn sending(&mut self, bytes: &[u8]) -> (r: Result<(), Error>)
        ensures
            match wire_command(bytes@) {
                Some((tag, command)) => r == Ok::<(), Error>(()) && exists|fetch: Option<Fetch>| #[trigger]
                    performs(command, fetch) && final(self)@ == old(self)@.sent(
                        tag,
                        kind_of(command),
                        fetch,
                    ),
                None => r == Err::<(), Error>(Error::Protocol) && final(self)@ == old(self)@,
            },
    {
        match read_command(bytes) {
            Some(outgoing) => {
                self.send(outgoing.tag, outgoing.kind, outgoing.fetch);
                Ok(())
            },
            None => Err(Error::Protocol),
        }
    }

    /// Notes a command that is about to be written up to its first literal, by the tag in front of it.
    pub fn sending_start(&mut self, bytes: &[u8])
        ensures
            exists|end: int| #[trigger]
                ends_first_word(bytes@, end) && final(self)@ == old(self)@.sent(
                    characters(bytes@.take(end)),
                    CommandKind::Other,
                    None,
                ),
    {
        let mut tag = String::new();
        let mut i: usize = 0;
        while i < bytes.len() && bytes[i] != 0x20
            invariant
                i <= bytes@.len(),
                forall|j: int| 0 <= j < i ==> #[trigger] bytes@[j] != 0x20,
                tag@ == characters(bytes@.take(i as int)),
            decreases bytes@.len() - i,
        {
            tag.push(bytes[i] as char);
            i = i + 1;
            assert(tag@ =~= characters(bytes@.take(i as int)));
        }
        assert(ends_first_word(bytes@, i as int));
        self.send(tag, CommandKind::Other, None);
    }

    /// The longest literal that the response in flight may announce.
    pub fn literal_limit(&self, limits: &Limits) -> (r: usize)
        ensures
            r == (match self.fetch {
                Some(Fetch::Bytes { count, .. }) if count < limits.max_literal_bytes =>
                    count as usize,
                _ => limits.max_literal_bytes,
            }),
    {
        match &self.fetch {
            Some(fetch) => match fetch.literal_limit() {
                Some(count) => if count < limits.max_literal_bytes {
                    count
                } else {
                    limits.max_literal_bytes
                },
                None => limits.max_literal_bytes,
            },
            None => limits.max_literal_bytes,
        }
    }

    fn status(&mut self, kind: StatusKind, code: &Option<Code>, tagged: bool) -> (r: Result<
        (),
        Error,
    >)
        ensures
            (final(self)@, r) == old(self)@.status(kind, *code, tagged),
    {
        check_code(code)?;
        match code {
            Some(Code::UidValidity(value)) => {
                if self.examining {
                    let repeated = self.uid_validity.is_some();
                    self.uid_validity = Some(*value);
                    if repeated {
                        return Err(Error::Protocol);
                    }
                } else {
                    match self.uid_validity {
                        Some(expected) => {
                            if expected != *value {
                                return Err(Error::UnsafeSelection);
                            }
                        },
                        None => {},
                    }
                }
            },
            _ => {},
        }
        if self.examining && tagged {
            if kind != StatusKind::Success || !matches!(code, Some(Code::ReadOnly)) {
                return Err(Error::UnsafeSelection);
            }
            self.read_only = true;
        }
        Ok(())
    }

    /// Checks a decoded response against the command in flight.
    pub fn inspect(&mut self, response: &Response) -> (r: Result<(), Error>)
        ensures
            (final(self)@, r) == old(self)@.inspected(*response),
    {
        match response {
            Response::Tagged { tag, kind, code } => {
                let expected = match &self.tag {
                    Some(sent) => same(sent.as_str(), tag.as_str()),
                    None => false,
                };
                if !expected {
                    return Err(Error::Protocol);
                }
                self.logout_tagged = true;
                self.status(*kind, code, true)
            },
            Response::Untagged { kind, code } => self.status(*kind, code, false),
            Response::Bye { code } => {
                check_code(code)?;
                if self.logout_bye {
                    return Err(Error::Protocol);
                }
                self.logout_bye = true;
                if self.logging_out {
                    Ok(())
                } else {
                    Err(Error::Eof)
                }
            },
            Response::Ordinary => Ok(()),
            Response::Search => {
                if !self.searching || self.search_responses != 0 {
                    return Err(Error::Protocol);
                }
                self.search_responses = 1;
                Ok(())
            },
            Response::Fetch { sequence, items } => {
                let ghost before = self.sequences@;
                if !self.sequences.insert(*sequence) {
                    assert(self.sequences@ =~= before);
                    return Err(Error::Protocol);
                }
                if self.examining {
                    return Err(Error::Protocol);
                }
                match &self.fetch {
                    Some(fetch) => match fetch.validate(items) {
                        Ok(()) => Ok(()),
                        Err(error) => Err(error),
                    },
                    None => {
                        if envelope_fields(items) {
                            Ok(())
                        } else {
                            Err(Error::Unsupported)
                        }
                    },
                }
            },
            Response::OtherData => Err(Error::Unsupported),
            Response::Continuation => Err(Error::Protocol),
        }
    }

    /// Decodes a complete frame and judges it before anything else sees it. Answers with the frame as it
    /// was judged. While a draft goes out, the server's request to go on is no concern of the exchange.
    pub fn received(&mut self, frame: Vec<u8>, limits: &Limits, appending: bool) -> (r: Result<
        Vec<u8>,
        Error,
    >)
        ensures
            if old(self)@.cannot_repair(frame@, limits.max_response_bytes as nat) {
                r == Err::<Vec<u8>, Error>(Error::Limit) && final(self)@ == old(self)@
            } else {
                exists|text: Seq<u8>| #[trigger]
                    old(self)@.repairs(frame@, text) && (r matches Ok(whole) ==> whole@ == text)
                        && old(self)@.judges(sole_response(text), appending, final(self)@, verdict_of(r))
            },
    {
        let ghost old_frame = frame;
        let repaired = match &self.fetch {
            Some(fetch) => match fetch.repair_partial_separator(
                frame.as_slice(),
                limits.max_response_bytes,
            ) {
                Ok(repaired) => repaired,
                Err(error) => {
                    return Err(error);
                },
            },
            None => None,
        };
        let frame = match repaired {
            Some(repaired) => repaired,
            None => frame,
        };
        assert(old(self)@.repairs(old_frame@, frame@));
        let response = match read_response(frame.as_slice()) {
            Some(response) => response,
            None => {
                return Err(Error::Protocol);
            },
        };
        if !(appending && matches!(response, Response::Continuation)) {
            match self.inspect(&response) {
                Ok(()) => {},
                Err(error) => {
                    return Err(error);
                },
            }
        }
        Ok(frame)
    }

    /// A logout waits for its tagged answer after the server has said goodbye.
    pub fn awaits_logout(&self) -> (r: bool)
        ensures
            r == (self@.logging_out && self@.logout_bye && !self@.logout_tagged),
    {
        self.logging_out && self.logout_bye && !self.logout_tagged
    }

    /// Ends a command whose answer has been decoded.
    pub fn complete(&mut self) -> (r: Result<(), Error>)
        ensures
            (final(self)@, r) == old(self)@.completed(),
    {
        if self.searching && self.search_responses != 1 {
            return Err(Error::Protocol);
        }
        self.tag = None;
        Ok(())
    }

    /// How the failure of a command is reported.
    pub fn failure(&self) -> (r: Error)
        ensures
            r == (if self@.authenticating {
                Error::Authentication
            } else {
                Error::Protocol
            }),
    {
        if self.authenticating {
            Error::Authentication
        } else {
            Error::Protocol
        }
    }
}

/// A mailbox counts as read-only only after the tagged answer to its EXAMINE said so, and an
/// accepted answer to EXAMINE always says so.
pub proof fn selections_are_read_only(before: State, response: Response)
    ensures
        ({
            let (after, verdict) = before.inspected(response);
            &&& after.read_only && !before.read_only ==> before.examining && (response
                matches Response::Tagged { kind, code, .. } && kind is Success && code == Some(
                Code::ReadOnly,
            ))
            &&& verdict is Ok && before.examining && response is Tagged ==> after.read_only
        }),
{
}

/// A response is judged by what it says: two responses of the same plain values change the same and are
/// accepted alike.
pub proof fn judged_by_what_is_said(before: State, a: Response, b: Response)
    requires
        a@ == b@,
    ensures
        before.inspected(a) == before.inspected(b),
{
    match (a, b) {
        (Response::Fetch { items: left, .. }, Response::Fetch { items: right, .. }) => {
            assert(item_views(left@).len() == left@.len());
            assert(item_views(right@).len() == right@.len());
            assert forall|i: int| 0 <= i < left@.len() implies left@[i]@ == right@[i]@ by {
                assert(item_views(left@)[i] == left@[i]@);
                assert(item_views(right@)[i] == right@[i]@);
            }
            rows_say_the_same(before.fetch, left@, right@);
        },
        _ => {},
    }
}

proof fn rows_say_the_same(fetch: Option<Fetch>, left: Seq<Item<()>>, right: Seq<Item<()>>)
    requires
        left.len() == right.len(),
        forall|i: int| 0 <= i < left.len() ==> #[trigger] left[i]@ == right[i]@,
    ensures
        row_verdict(fetch, left) == row_verdict(fetch, right),
{
    assert forall|i: int| 0 <= i < left.len() implies is_envelope_field(left[i])
        == is_envelope_field(right[i]) by {
        assert(left[i]@ == right[i]@);
    }
    match fetch {
        Some(fetch) => {
            row_carries_over(fetch, left, right);
            row_carries_over(fetch, right, left);
        },
        None => {},
    }
}

proof fn row_carries_over(fetch: Fetch, left: Seq<Item<()>>, right: Seq<Item<()>>)
    requires
        left.len() == right.len(),
        forall|i: int| 0 <= i < left.len() ==> #[trigger] left[i]@ == right[i]@,
    ensures
        fetch.answered_by(left) ==> fetch.answered_by(right),
        fetch.accepts(left) ==> fetch.accepts(right),
{
    assert forall|i: int| fetch.is_data(left, i) == #[trigger] fetch.is_data(right, i) by {
        if 0 <= i < 2 && left.len() == 2 {
            assert(left[i]@ == right[i]@);
            assert(left[1 - i]@ == right[1 - i]@);
        }
    }
    assert forall|i: int| #[trigger] fetch.is_data(right, i) implies Fetch::data_of(left[i])
        == Fetch::data_of(right[i]) by {
        assert(left[i]@ == right[i]@);
    }
    if fetch.answered_by(left) {
        let i = choose|i: int|
            0 <= i < left.len() && #[trigger] left[i] == Item::<()>::Uid(fetch.wanted());
        assert(left[i]@ == right[i]@);
        assert(right[i] == Item::<()>::Uid(fetch.wanted()));
        match fetch {
            Fetch::Metadata { .. } => {
                let (i, j) = choose|i: int, j: int| #[trigger] Fetch::is_metadata(left, i, j);
                assert(left[i]@ == right[i]@);
                assert(left[j]@ == right[j]@);
                assert(left[3 - i - j]@ == right[3 - i - j]@);
                assert(Fetch::is_metadata(right, i, j));
            },
            Fetch::Bytes { .. } => {
                let i = choose|i: int| #[trigger] fetch.is_data(left, i);
                assert(fetch.is_data(right, i));
            },
        }
    }
}

/// Every sequence number is accepted at most once for a command, and a selection accepts none.
pub proof fn rows_are_accepted_once(
    before: State,
    sequence: u32,
    items: Vec<Item<()>>,
    again: Vec<Item<()>>,
)
    ensures
        ({
            let (after, _) = before.inspected(Response::Fetch { sequence, items });
            let (_, second) = after.inspected(Response::Fetch { sequence, items: again });
            second is Err
        }),
        before.examining ==> before.inspected(Response::Fetch { sequence, items }).1 is Err,
{
}

/// The incarnation of a selected mailbox never changes unnoticed: after a selection noted one, every
/// later accepted response keeps it.
pub proof fn incarnations_are_kept(before: State, response: Response)
    requires
        before.uid_validity is Some,
        before.inspected(response).1 is Ok,
    ensures
        before.inspected(response).0.uid_validity == before.uid_validity,
{
}

/// A search is complete only when exactly one result was received for it.
pub proof fn searches_are_answered_once(before: State, tag: Seq<char>)
    ensures
        before.sent(tag, CommandKind::Search, None).completed().1 is Err,
        before.sent(tag, CommandKind::Search, None).inspected(Response::Search).0.completed().1
            is Ok,
        ({
            let (once, _) = before.sent(tag, CommandKind::Search, None).inspected(Response::Search);
            once.inspected(Response::Search).1 is Err
        }),
{
}

/// Which codes are refused: a referral to another server, by its own code or as the first word of an
/// unknown one in upper or lower case, and a selection that could be written to. All others are not.
pub proof fn referrals_and_writable_selections_are_refused(code: Code)
    ensures
        code_verdict(None) is Ok,
        code is Referral ==> code_verdict(Some(code)) == Err::<(), Error>(Error::Unsupported),
        code is ReadWrite ==> code_verdict(Some(code)) == Err::<(), Error>(Error::UnsafeSelection),
        code is ReadOnly || code is UidValidity || code is Unlisted ==> code_verdict(Some(code)) is Ok,
        code matches Code::Other(text) ==> (code_verdict(Some(code)) is Err <==> text@.len() >= 8 && (forall|i: int|
            0 <= i < 8 ==> crate::text::lowered(#[trigger] text@[i]) as int == "referral"@[i] as int) && (text@.len()
            == 8 || is_ascii_space(text@[8]))),
        code matches Code::Other(text) ==> code_verdict(Some(code)) is Err ==> code_verdict(Some(code)) == Err::<
            (),
            Error,
        >(Error::Unsupported),
{
    reveal_strlit("referral");
    let word = referral_word();
    assert(word.len() == 8);
    assert(forall|i: int|
        0 <= i < 8 ==> crate::text::lowered(#[trigger] word[i]) as int == "referral"@[i] as int);
    if let Code::Other(text) = code {
        if text@.len() >= 8 {
            let head = text@.take(8);
            assert(forall|i: int| 0 <= i < 8 ==> #[trigger] head[i] == text@[i]);
            if equal_ignoring_case(head, word) {
                assert forall|i: int| 0 <= i < 8 implies crate::text::lowered(#[trigger] text@[i]) as int
                    == "referral"@[i] as int by {
                    assert(head[i] == text@[i]);
                    assert(crate::text::lowered(word[i]) as int == "referral"@[i] as int);
                }
            } else if forall|i: int|
                0 <= i < 8 ==> crate::text::lowered(#[trigger] text@[i]) as int == "referral"@[i] as int {
                assert forall|i: int| 0 <= i < head.len() implies crate::text::lowered(#[trigger] head[i])
                    == crate::text::lowered(word[i]) by {
                    assert(crate::text::lowered(text@[i]) as int == "referral"@[i] as int);
                    assert(crate::text::lowered(word[i]) as int == "referral"@[i] as int);
                }
                assert(equal_ignoring_case(head, word));
            }
        }
    }
}

/// What a server may say at which time: an answer has to carry the tag of the command, a farewell belongs
/// to a logout, a continuation and unknown data are refused.
pub proof fn answers_belong_to_their_command(before: State, response: Response)
    ensures
        response matches Response::Tagged { tag, .. } ==> before.tag != Some(tag@) ==> before.inspected(response)
            == (before, Err::<(), Error>(Error::Protocol)),
        response is Bye && !before.logging_out ==> before.inspected(response).1 is Err,
        response matches Response::Bye { code } ==> before.logging_out && !before.logout_bye && code is None
            ==> before.inspected(response) == (State { logout_bye: true, ..before }, Ok::<(), Error>(())),
        response matches Response::Bye { code: None } ==> !before.logging_out && !before.logout_bye
            ==> before.inspected(response).1 == Err::<(), Error>(Error::Eof),
        response is Continuation ==> before.inspected(response) == (before, Err::<(), Error>(Error::Protocol)),
        response is OtherData ==> before.inspected(response) == (before, Err::<(), Error>(Error::Unsupported)),
        response is Ordinary ==> before.inspected(response) == (before, Ok::<(), Error>(())),
        response is Search && !before.searching ==> before.inspected(response).1 == Err::<(), Error>(Error::Protocol),
        response is Fetch && before.examining ==> before.inspected(response).1 is Err,
        before.inspected(response).0.tag == before.tag && before.inspected(response).0.examining == before.examining,
        before.inspected(response).0.logout_tagged && !before.logout_tagged ==> response is Tagged,
{
}

/// A row that no read asked for may hold the fields of an envelope and nothing else; one that answers a
/// read has to be its answer, and may not bring more than was asked for.
pub proof fn rows_answer_their_read(fetch: Fetch, items: Seq<Item<()>>)
    ensures
        row_verdict(None, items) is Ok <==> forall|i: int|
            0 <= i < items.len() ==> (#[trigger] items[i]) is Uid || items[i] is Envelope || items[i] is Flags
                || items[i] is InternalDate || items[i] is Rfc822Size,
        row_verdict(None, items) is Err ==> row_verdict(None, items) == Err::<(), Error>(Error::Unsupported),
        row_verdict(Some(fetch), items) is Ok <==> fetch.accepts(items),
        row_verdict(Some(fetch), items) == Err::<(), Error>(Error::Limit) <==> fetch.answered_by(items)
            && !fetch.accepts(items),
        row_verdict(Some(fetch), items) == Err::<(), Error>(Error::Protocol) <==> !fetch.answered_by(items),
{
    if forall|i: int|
        0 <= i < items.len() ==> (#[trigger] items[i]) is Uid || items[i] is Envelope || items[i] is Flags
            || items[i] is InternalDate || items[i] is Rfc822Size {
        assert forall|i: int| 0 <= i < items.len() implies is_envelope_field(#[trigger] items[i]) by {}
    } else {
        let i = choose|i: int|
            0 <= i < items.len() && !((#[trigger] items[i]) is Uid || items[i] is Envelope || items[i] is Flags
                || items[i] is InternalDate || items[i] is Rfc822Size);
        assert(!is_envelope_field(items[i]));
    }
}

/// A command starts a new exchange: nothing of the last one counts for it, and the selection stays.
pub proof fn commands_start_anew(before: State, tag: Seq<char>, kind: CommandKind, fetch: Option<Fetch>, sequence: u32)
    ensures
        ({
            let after = before.sent(tag, kind, fetch);
            &&& after.tag == Some(tag) && after.fetch == fetch
            &&& after.logging_out <==> kind is Logout
            &&& after.searching <==> kind is Search
            &&& !after.logout_bye && !after.logout_tagged && after.search_responses == 0
            &&& !after.sequences.contains(sequence)
            &&& after.examining == before.examining && after.read_only == before.read_only && after.uid_validity
                == before.uid_validity && after.authenticating == before.authenticating
        }),
        before.completed().1 is Ok <==> !before.searching || before.search_responses == 1,
        before.completed().1 is Ok ==> before.completed().0.tag is None,
{
}

/// Parentheses nest: as many opening ones as stand in a row go that deep, and they are refused exactly
/// where that is deeper than the limit.
pub proof fn nesting_counts_open_parentheses(line: Seq<u8>, start: nat, maximum: nat)
    requires
        forall|i: int| 0 <= i < line.len() ==> #[trigger] line[i] == 0x28,
    ensures
        nested(line, start, line.len() as int) == start + line.len(),
        line.len() > 0 ==> (nesting_fits(line, start, maximum) <==> start + line.len() <= maximum),
{
    let n = line.len() as int;
    parentheses_add_up(line, start, n);
    if n > 0 {
        parentheses_add_up(line, start, n - 1);
        assert(opens_at(line, n - 1));
        if start + n <= maximum {
            assert forall|i: int| #[trigger] opens_at(line, i) implies nested(line, start, i + 1) <= maximum by {
                parentheses_add_up(line, start, i + 1);
            }
        }
    }
}

proof fn parentheses_add_up(line: Seq<u8>, start: nat, i: int)
    requires
        forall|k: int| 0 <= k < line.len() ==> #[trigger] line[k] == 0x28,
        0 <= i <= line.len(),
    ensures
        nested(line, start, i) == start + i,
        quotes_before(line, i) == (false, false),
    decreases i,
{
    if i > 0 {
        parentheses_add_up(line, start, i - 1);
        assert(line[i - 1] == 0x28);
    }
}

/// Each byte of a response is charged once to the steps and to the bytes on the wire, and the greatest
/// sizes are kept.
pub proof fn bytes_are_charged(metrics: Metrics, bytes: usize)
    requires
        metrics.parser_steps < usize::MAX && metrics.wire_bytes < usize::MAX,
        2 * bytes + 4098 <= usize::MAX,
    ensures
        charged(metrics, bytes).parser_steps == metrics.parser_steps + 1,
        charged(metrics, bytes).wire_bytes == metrics.wire_bytes + 1,
        charged(metrics, bytes).max_response_bytes >= metrics.max_response_bytes && charged(
            metrics,
            bytes,
        ).max_response_bytes >= bytes + 1,
        charged(metrics, bytes).max_buffered_bytes >= metrics.max_buffered_bytes,
        charged(metrics, bytes).responses == metrics.responses && charged(metrics, bytes).append_outcome
            == metrics.append_outcome,
{
}

/// A line of a response has to end in a carriage return and a line feed, may not nest too deeply, and may
/// announce no more than fits; what it announces is noted as the greatest literal where it is.
pub proof fn lines_are_judged(line: Seq<u8>, nesting: nat, bytes: usize, literal: usize, limits: Limits, metrics: Metrics)
    ensures
        !ends_in_crlf(line) ==> line_verdict(line, nesting, bytes, literal, limits, metrics) == Err::<Metrics, Error>(
            Error::Protocol,
        ),
        line_verdict(line, nesting, bytes, literal, limits, metrics) == Err::<Metrics, Error>(Error::Protocol)
            ==> !ends_in_crlf(line),
        line_verdict(line, nesting, bytes, literal, limits, metrics) is Ok ==> nesting_fits(
            line,
            nesting,
            limits.max_nesting as nat,
        ),
        line_verdict(line, nesting, bytes, literal, limits, metrics) matches Ok(noted) ==> (announcement(line) matches Some(
            length,
        ) ==> length <= literal && (length > 0 ==> bytes + length <= limits.max_response_bytes && metrics.wire_bytes
            + length <= limits.max_operation_bytes) && noted.max_literal_bytes >= length && noted.max_literal_bytes
            >= metrics.max_literal_bytes),
        line_verdict(line, nesting, bytes, literal, limits, metrics) matches Ok(noted) ==> noted.wire_bytes
            == metrics.wire_bytes && noted.parser_steps == metrics.parser_steps,
        announcement(line) matches Some(length) ==> length > literal ==> line_verdict(
            line,
            nesting,
            bytes,
            literal,
            limits,
            metrics,
        ) is Err,
        ends_in_crlf(line) && nesting_fits(line, nesting, limits.max_nesting as nat) && announcement(line) is None
            ==> line_verdict(line, nesting, bytes, literal, limits, metrics) == Ok::<Metrics, Error>(metrics),
{
}

} // verus!

//! Splitting a response into lines and literals before it is decoded.
use io_imap::codec::fragmentizer::{FragmentInfo, Fragmentizer, LineEnding};
use vstd::prelude::*;

use crate::text::is_digit;

verus! {

/// The fragmentizer of `io_imap`.
#[verifier::external_type_specification]
#[verifier::external_body]
pub struct ExFragmentizer(io_imap::codec::fragmentizer::Fragmentizer);

/// What a fragmentizer holds.
pub struct Framing {
    /// The bytes of the message, as far as they were split.
    pub message: Seq<u8>,
    /// The bytes that were handed over and are still to be split.
    pub waiting: Seq<u8>,
    /// Where the fragment that is being read begins.
    pub begun: nat,
    /// What is missing of the literal that is being read; nothing where a line is.
    pub missing: Option<u32>,
    /// The message has ended.
    pub complete: bool,
    /// The most bytes that a message may have.
    pub maximum: u32,
}

/// A fragment of a message, from its first byte to the one behind its last.
#[derive(Clone, Copy, Debug, PartialEq, Eq, Structural)]
pub enum Fragment {
    Line { start: usize, end: usize, announced: Option<u32>, crlf: bool },
    Literal { start: usize, end: usize },
}

/// The contents of a fragmentizer.
pub uninterp spec fn framing(guard: Fragmentizer) -> Framing;

/// The digits at the end of a text.
pub open spec fn last_digits(text: Seq<u8>) -> Seq<u8>
    decreases text.len(),
{
    if text.len() > 0 && is_digit(text.last()) {
        last_digits(text.drop_last()).push(text.last())
    } else {
        Seq::empty()
    }
}

/// The number that digits spell.
pub open spec fn spelled_number(digits: Seq<u8>) -> nat
    decreases digits.len(),
{
    if digits.len() == 0 {
        0
    } else {
        spelled_number(digits.drop_last()) * 10 + (digits.last() - 0x30) as nat
    }
}

/// The line ends with a carriage return and a line feed.
pub open spec fn ends_in_crlf(line: Seq<u8>) -> bool {
    line.len() >= 2 && line[line.len() - 2] == 0x0d && line.last() == 0x0a
}

/// The length of the literal that a line announces: it is in braces at the end of the line, and a `+`
/// may stand behind it.
pub open spec fn announcement(line: Seq<u8>) -> Option<u32> {
    let text = if ends_in_crlf(line) {
        line.take(line.len() - 2)
    } else {
        line.drop_last()
    };
    let inner = text.drop_last();
    let number = if inner.len() > 0 && inner.last() == 0x2b {
        inner.drop_last()
    } else {
        inner
    };
    let digits = last_digits(number);
    if line.len() > 0 && text.len() > 0 && text.last() == 0x7d && 0 < digits.len() < number.len()
        && number[number.len() - digits.len() - 1] == 0x7b && spelled_number(digits) <= u32::MAX {
        Some(spelled_number(digits) as u32)
    } else {
        None
    }
}

impl Framing {
    /// Nothing was handed over yet.
    pub open spec fn fresh(maximum: u32) -> Framing {
        Framing {
            message: Seq::empty(),
            waiting: Seq::empty(),
            begun: 0,
            missing: None,
            complete: false,
            maximum,
        }
    }

    /// The first `count` of the waiting bytes belong to the message.
    pub open spec fn split(self, count: int) -> Framing {
        Framing {
            message: self.message + self.waiting.take(count),
            waiting: self.waiting.skip(count),
            ..self
        }
    }

    /// The next fragment, where the waiting bytes complete one: a line up to its line feed, or a literal
    /// of the announced length. A line without an announcement completes the message.
    pub open spec fn next(self) -> (Framing, Option<Fragment>) {
        match self.missing {
            Some(missing) => if self.waiting.len() < missing {
                (
                    Framing {
                        missing: Some((missing - self.waiting.len()) as u32),
                        ..self.split(self.waiting.len() as int)
                    },
                    None,
                )
            } else {
                let after = self.split(missing as int);
                (
                    Framing { begun: after.message.len(), missing: None, ..after },
                    Some(
                        Fragment::Literal {
                            start: self.begun as usize,
                            end: after.message.len() as usize,
                        },
                    ),
                )
            },
            None => match self.waiting.index_of_first(0x0a) {
                None => (self.split(self.waiting.len() as int), None),
                Some(at) => {
                    let after = self.split(at + 1);
                    let line = after.message.skip(self.begun as int);
                    let announced = announcement(line);
                    (
                        Framing {
                            begun: after.message.len(),
                            missing: announced,
                            complete: announced is None,
                            ..after
                        },
                        Some(
                            Fragment::Line {
                                start: self.begun as usize,
                                end: after.message.len() as usize,
                                announced,
                                crlf: ends_in_crlf(line),
                            },
                        ),
                    )
                },
            },
        }
    }
}

/// Where nothing waits, no fragment is completed but a literal without any bytes.
pub(crate) proof fn nothing_comes_of_nothing(before: Framing)
    requires
        before.waiting.len() == 0,
    ensures
        before.missing == Some(0u32) ==> before.next().0 == (Framing {
            begun: before.message.len(),
            missing: None,
            ..before
        }) && before.next().1 is Some,
        before.missing != Some(0u32) ==> before.next() == (before, None::<Fragment>),
{
    before.waiting.index_of_first_ensures(0x0a);
    assert(before.split(0).message =~= before.message);
    assert(before.split(0).waiting =~= before.waiting);
}

/// A single byte goes to the literal that is being read, or to the line, which it ends where it is a line
/// feed.
pub(crate) proof fn one_byte_is_split(before: Framing, byte: u8)
    requires
        before.waiting.len() == 0,
        before.missing != Some(0u32),
    ensures
        ({
            let text = before.message.push(byte);
            let line = text.skip(before.begun as int);
            let (after, fragment) = (Framing { waiting: seq![byte], ..before }).next();
            match before.missing {
                Some(1) => {
                    &&& after == (Framing {
                        message: text,
                        begun: text.len(),
                        missing: None,
                        ..before
                    })
                    &&& fragment is Some && fragment->0 is Literal
                },
                Some(missing) => {
                    &&& after == (Framing {
                        message: text,
                        missing: Some((missing - 1) as u32),
                        ..before
                    })
                    &&& fragment is None
                },
                None => if byte == 0x0a {
                    &&& after == (Framing {
                        message: text,
                        begun: text.len(),
                        missing: announcement(line),
                        complete: announcement(line) is None,
                        ..before
                    })
                    &&& fragment == Some(
                        Fragment::Line {
                            start: before.begun as usize,
                            end: text.len() as usize,
                            announced: announcement(line),
                            crlf: ends_in_crlf(line),
                        },
                    )
                } else {
                    after == (Framing { message: text, ..before }) && fragment is None
                },
            }
        }),
{
    let one = Framing { waiting: seq![byte], ..before };
    one.waiting.index_of_first_ensures(0x0a);
    assert(one.waiting[0] == byte);
    assert(one.split(1).message =~= before.message.push(byte));
    assert(one.split(1).waiting =~= before.waiting);
}

/// `Fragmentizer::new` waits for the first line of a message.
pub assume_specification[ Fragmentizer::new ](max_message_size: u32) -> (r: Fragmentizer)
    ensures
        framing(r) == Framing::fresh(max_message_size),
;

/// `Fragmentizer::enqueue_bytes` hands bytes over and splits nothing.
pub assume_specification[ Fragmentizer::enqueue_bytes ](guard: &mut Fragmentizer, bytes: &[u8])
    ensures
        framing(*final(guard)) == (Framing {
            waiting: framing(*old(guard)).waiting + bytes@,
            ..framing(*old(guard))
        }),
;

/// `Fragmentizer::is_message_complete` says whether the last line was one without an announcement.
pub assume_specification[ Fragmentizer::is_message_complete ](guard: &Fragmentizer) -> (r: bool)
    ensures
        r == framing(*guard).complete,
;

/// `Fragmentizer::message_bytes` gives the bytes of the message, as far as they were split.
pub assume_specification[ Fragmentizer::message_bytes ](guard: &Fragmentizer) -> (r: &[u8])
    ensures
        r@ == framing(*guard).message,
;

/// `Fragmentizer::progress` splits the waiting bytes up to the end of the fragment that is being read.
/// It is stated for a message that has not ended and stays within its maximum.
#[verifier::external_body]
pub(crate) fn progress(guard: &mut Fragmentizer) -> (r: Option<Fragment>)
    requires
        !framing(*old(guard)).complete,
        framing(*old(guard)).message.len() + framing(*old(guard)).waiting.len() <= framing(
            *old(guard),
        ).maximum,
    ensures
        (framing(*final(guard)), r) == framing(*old(guard)).next(),
{
    guard.progress().map(|info| match info {
        FragmentInfo::Line { start, end, announcement, ending } => Fragment::Line {
            start,
            end,
            announced: announcement.map(|announced| announced.length),
            crlf: matches!(ending, LineEnding::CrLf),
        },
        FragmentInfo::Literal { start, end } => Fragment::Literal { start, end },
    })
}

/// A line that ends in a number between braces announces that many bytes, with or without a plus sign
/// behind the number.
pub proof fn lines_announce_literals(before: Seq<u8>, digits: Seq<u8>)
    requires
        digits.len() > 0,
        forall|i: int| 0 <= i < digits.len() ==> is_digit(#[trigger] digits[i]),
        spelled_number(digits) <= u32::MAX,
    ensures
        announcement(before + seq![0x7bu8] + digits + seq![0x7du8, 0x0du8, 0x0au8]) == Some(
            spelled_number(digits) as u32,
        ),
        announcement(before + seq![0x7bu8] + digits + seq![0x2bu8, 0x7du8, 0x0du8, 0x0au8]) == Some(
            spelled_number(digits) as u32,
        ),
{
    let number = before + seq![0x7bu8] + digits;
    digits_stand_last(before + seq![0x7bu8], digits);
    let plain = number + seq![0x7du8, 0x0du8, 0x0au8];
    assert(before + seq![0x7bu8] + digits + seq![0x7du8, 0x0du8, 0x0au8] =~= plain);
    assert(plain.take(plain.len() - 2) =~= number + seq![0x7du8]);
    assert((number + seq![0x7du8]).drop_last() =~= number);
    assert(is_digit(digits[digits.len() - 1]));
    assert(number.last() == digits.last());
    assert(number[number.len() - digits.len() - 1] == 0x7b);
    let waited = number + seq![0x2bu8, 0x7du8, 0x0du8, 0x0au8];
    assert(before + seq![0x7bu8] + digits + seq![0x2bu8, 0x7du8, 0x0du8, 0x0au8] =~= waited);
    assert(waited.take(waited.len() - 2) =~= number + seq![0x2bu8, 0x7du8]);
    assert((number + seq![0x2bu8, 0x7du8]).drop_last() =~= number + seq![0x2bu8]);
    assert((number + seq![0x2bu8]).drop_last() =~= number);
}

proof fn digits_stand_last(before: Seq<u8>, digits: Seq<u8>)
    requires
        before.len() > 0,
        !is_digit(before.last()),
        forall|i: int| 0 <= i < digits.len() ==> is_digit(#[trigger] digits[i]),
    ensures
        last_digits(before + digits) == digits,
    decreases digits.len(),
{
    let whole = before + digits;
    if digits.len() == 0 {
        assert(whole =~= before);
        assert(last_digits(whole) =~= digits);
    } else {
        let shorter = digits.drop_last();
        assert forall|i: int| 0 <= i < shorter.len() implies is_digit(#[trigger] shorter[i]) by {
            assert(shorter[i] == digits[i]);
        }
        digits_stand_last(before, shorter);
        assert(whole.drop_last() =~= before + shorter);
        assert(whole.last() == digits.last());
        assert(is_digit(digits[digits.len() - 1]));
        assert(last_digits(whole) =~= digits);
    }
}

/// A number is spelled in tens, the first digit weighing most.
pub proof fn numbers_are_spelled_in_tens(digits: Seq<u8>, last: u8)
    requires
        is_digit(last),
    ensures
        spelled_number(digits.push(last)) == 10 * spelled_number(digits) + (last - 0x30),
        spelled_number(Seq::empty()) == 0,
{
    assert(digits.push(last).drop_last() =~= digits);
}

} // verus!

//! Reading one section of a message in bounded pieces.
use vstd::prelude::*;

use crate::imap::{Error, Limits};

verus! {

/// The largest piece that is asked for at once.
pub const PIECE_BYTES: usize = 16384;

/// A section that is being read. A short answer ends it; the size that the server announced is only
/// an admission hint.
#[derive(Debug)]
pub struct Chunks {
    pub received: Vec<u8>,
    pub ceiling: usize,
    pub budget: usize,
    pub piece: usize,
}

/// The size of one piece under these limits.
pub open spec fn piece_size(limits: Limits) -> nat {
    let half = limits.max_response_bytes / 2;
    let literal = if limits.max_literal_bytes < PIECE_BYTES {
        limits.max_literal_bytes
    } else {
        PIECE_BYTES
    };
    if half < literal {
        half as nat
    } else {
        literal as nat
    }
}

impl Chunks {
    pub open spec fn well_formed(self) -> bool {
        &&& 0 < self.piece <= PIECE_BYTES
        &&& self.received@.len() <= self.ceiling <= self.budget < 0x1000_0000
    }

    /// A read of at most `budget` bytes that expects `expected` of them.
    pub fn new(expected: Option<usize>, budget: usize, limits: &Limits) -> (r: Result<Self, Error>)
        requires
            budget < 0x1000_0000,
        ensures
            match r {
                Ok(chunks) => {
                    &&& chunks.well_formed()
                    &&& chunks.received@ == Seq::<u8>::empty()
                    &&& chunks.budget == budget
                    &&& chunks.ceiling == (match expected {
                        Some(expected) => expected,
                        None => budget,
                    })
                    &&& chunks.piece == piece_size(*limits)
                },
                Err(error) => if expected matches Some(expected) && expected > budget {
                    error == Error::Limit
                } else {
                    error == Error::InvalidInput && piece_size(*limits) == 0
                },
            },
    {
        let ceiling: usize = match expected {
            Some(expected) => expected,
            None => budget,
        };
        if ceiling > budget {
            return Err(Error::Limit);
        }
        let mut piece: usize = PIECE_BYTES;
        if limits.max_literal_bytes < piece {
            piece = limits.max_literal_bytes;
        }
        if limits.max_response_bytes / 2 < piece {
            piece = limits.max_response_bytes / 2;
        }
        if piece == 0 {
            return Err(Error::InvalidInput);
        }
        let received: Vec<u8> = Vec::new();
        assert(received@ =~= Seq::<u8>::empty());
        Ok(Chunks { received, ceiling, budget, piece })
    }

    /// How many bytes are asked for next: one more than expected at most, to see the end.
    pub open spec fn wanted(self) -> int {
        let rest = self.ceiling + 1 - self.received@.len();
        if self.piece < rest {
            self.piece as int
        } else {
            rest
        }
    }

    /// Where the next piece starts, and how long it may be.
    pub fn next(&self) -> (r: (u32, u32))
        requires
            self.well_formed(),
        ensures
            r.0 == self.received@.len(),
            r.1 == self.wanted(),
            r.1 > 0,
    {
        let rest: usize = self.ceiling + 1 - self.received.len();
        let count: usize = if self.piece < rest {
            self.piece
        } else {
            rest
        };
        (self.received.len() as u32, count as u32)
    }

    /// The verdict on the next piece: whether it ends the section.
    pub open spec fn verdict(self, piece: Seq<u8>) -> Result<bool, Error> {
        if self.received@.len() + piece.len() > self.budget {
            Err(Error::Limit)
        } else if self.received@.len() + piece.len() > self.ceiling {
            Err(Error::Protocol)
        } else {
            Ok(piece.len() < self.wanted())
        }
    }

    pub fn accept(&mut self, piece: &Vec<u8>) -> (r: Result<bool, Error>)
        requires
            old(self).well_formed(),
        ensures
            r == old(self).verdict(piece@),
            final(self).ceiling == old(self).ceiling,
            final(self).budget == old(self).budget,
            final(self).piece == old(self).piece,
            r is Ok ==> final(self).well_formed() && final(self).received@ == old(self).received@
                + piece@,
            r is Err ==> final(self).received@ == old(self).received@,
            r == Ok::<bool, Error>(false) ==> final(self).received@.len()
                > old(self).received@.len(),
    {
        let (_offset, count) = self.next();
        if piece.len() > self.budget - self.received.len() {
            return Err(Error::Limit);
        }
        if piece.len() > self.ceiling - self.received.len() {
            return Err(Error::Protocol);
        }
        self.received.extend_from_slice(piece.as_slice());
        assert(self.received@ =~= old(self).received@ + piece@);
        Ok(piece.len() < count as usize)
    }
}

/// A body is read in pieces that fit a literal and half a response, and the last request asks for one byte
/// more than there should be, so that a body that goes on is noticed.
pub proof fn pieces_fit_their_responses(limits: Limits, chunks: Chunks, piece: Seq<u8>)
    ensures
        2 * piece_size(limits) <= limits.max_response_bytes,
        piece_size(limits) <= limits.max_literal_bytes,
        piece_size(limits) <= PIECE_BYTES,
        chunks.well_formed() ==> 0 < chunks.wanted() <= chunks.piece && chunks.received@.len() + chunks.wanted()
            <= chunks.ceiling + 1,
        chunks.verdict(piece) == Ok::<bool, Error>(true) ==> piece.len() < chunks.wanted(),
        chunks.verdict(piece) == Ok::<bool, Error>(false) ==> piece.len() >= chunks.wanted(),
        chunks.verdict(piece) is Ok ==> chunks.received@.len() + piece.len() <= chunks.ceiling,
        chunks.verdict(piece) == Err::<bool, Error>(Error::Limit) <==> chunks.received@.len() + piece.len()
            > chunks.budget,
        chunks.received@.len() + piece.len() <= chunks.budget && chunks.received@.len() + piece.len() > chunks.ceiling
            ==> chunks.verdict(piece) == Err::<bool, Error>(Error::Protocol),
{
}

} // verus!

//! The header of a delta: the declared source and target lengths.
use vstd::prelude::*;

use crate::error::DeltaError;
use crate::varint::{
    decode_varint, group_sum, lemma_above_quotient, lemma_width_bound, lemma_within_quotient,
    lemma_terminator_bound, max_groups, pow128, terminator_from,
};

verus! {

/// The two lengths at the front of a delta, and how many bytes they took.
#[derive(Debug, Clone, Copy, PartialEq, Eq, Structural)]
pub struct DeltaHeader {
    /// The length the source buffer must have.
    pub source_len: usize,
    /// The length the rebuilt target must have.
    pub target_len: usize,
    /// Where the command stream starts in the delta.
    pub get_offset: usize,
}

/// The header at the front of the delta `d`: the source length, then the
/// target length, each a size field, and the width of the two together.
pub open spec fn header_of(d: Seq<u8>) -> Result<DeltaHeader, DeltaError> {
    match decode_varint(d) {
        Err(e) => Err(e),
        Ok((source_len, n1)) => match decode_varint(d.skip(n1 as int)) {
            Err(e) => Err(e),
            Ok((target_len, n2)) => Ok(
                DeltaHeader { source_len, target_len, get_offset: (n1 + n2) as usize },
            ),
        },
    }
}

impl DeltaHeader {
    /// Reads the header at the front of `delta`.
    pub fn new(delta: &[u8]) -> (r: Result<DeltaHeader, DeltaError>)
        ensures
            r == header_of(delta@),
            r matches Ok(h) ==> h.get_offset <= delta@.len(),
    {
        assert(delta@.skip(0) =~= delta@);
        let (source_len, n1) = match DeltaHeader::decode_size(delta, 0) {
            Ok(p) => p,
            Err(e) => return Err(e),
        };
        proof { lemma_width_bound(delta@, n1 as nat); }
        let (target_len, n2) = match DeltaHeader::decode_size(delta, n1) {
            Ok(p) => p,
            Err(e) => return Err(e),
        };
        proof { lemma_width_bound(delta@.skip(n1 as int), n2 as nat); }
        let len = delta.len();
        assert(delta@.skip(n1 as int).len() == len - n1);
        Ok(DeltaHeader { source_len, target_len, get_offset: n1 + n2 })
    }

    /// Decodes the size field that starts at `bytes[start]`: its value and
    /// the number of bytes it occupies.
    pub fn decode_size(bytes: &[u8], start: usize) -> (r: Result<(usize, usize), DeltaError>)
        requires
            start <= bytes@.len(),
        ensures
            r matches Ok((v, n)) ==> decode_varint(bytes@.skip(start as int)) == Ok::<(usize, nat), DeltaError>((v, n as nat)),
            r matches Err(e) ==> decode_varint(bytes@.skip(start as int)) == Err::<(usize, nat), DeltaError>(e),
    {
        let ghost s = bytes@.skip(start as int);
        let mut pos: usize = start;
        let mut size: usize = 0;
        let mut fits = true;
        let mut weight: usize = 1;
        let mut weight_fits = true;
        let cap: usize = ((usize::BITS + 6) / 7) as usize;
        loop
            invariant
                s == bytes@.skip(start as int),
                cap == max_groups(),
                start <= pos <= bytes@.len(),
                pos - start <= cap,
                forall|j: int| 0 <= j < pos - start ==> s[j] >= 128,
                terminator_from(s, 0) == terminator_from(s, (pos - start) as nat),
                fits ==> size == group_sum(s, (pos - start) as nat),
                !fits ==> group_sum(s, (pos - start) as nat) > usize::MAX,
                s.len() == bytes@.len() - start,
                weight >= 1,
                weight_fits ==> weight == pow128((pos - start) as nat),
                !weight_fits ==> pow128((pos - start) as nat) > usize::MAX,
            decreases bytes@.len() - pos,
        {
            let ghost i = (pos - start) as nat;
            if pos - start >= cap {
                proof { lemma_terminator_bound(s, i); }
                return Err(DeltaError::SizeOverflow);
            }
            if pos >= bytes.len() {
                return Err(DeltaError::TruncatedStream);
            }
            let byte = bytes[pos];
            let group = (byte % 128) as usize;
            assert(s[i as int] == byte);
            assert(group_sum(s, i + 1) == group_sum(s, i) + group * pow128(i));
            if fits && group != 0 {
                if !weight_fits {
                    assert(group * pow128(i) >= pow128(i)) by (nonlinear_arith)
                        requires group >= 1;
                    fits = false;
                } else if group > (usize::MAX - size) / weight {
                    proof { lemma_above_quotient(group as int, (usize::MAX - size) as int, weight as int); }
                    fits = false;
                } else {
                    proof { lemma_within_quotient(group as int, (usize::MAX - size) as int, weight as int); }
                    size = size + group * weight;
                }
            } else if !fits {
                assert(group * pow128(i) >= 0) by (nonlinear_arith)
                    requires group >= 0;
            } else {
                assert(group * pow128(i) == 0) by (nonlinear_arith)
                    requires group == 0;
            }
            if weight_fits {
                if weight > usize::MAX / 128 {
                    proof { lemma_above_quotient(weight as int, usize::MAX as int, 128); }
                    weight_fits = false;
                } else {
                    proof { lemma_within_quotient(weight as int, usize::MAX as int, 128); }
                    weight = weight * 128;
                }
            }
            pos = pos + 1;
            if byte < 128 {
                assert(terminator_from(s, i) == Some(i + 1));
                if fits {
                    return Ok((size, pos - start));
                } else {
                    return Err(DeltaError::SizeOverflow);
                }
            }
        }
    }
}

} // verus!

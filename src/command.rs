//! The command stream that follows the header, and what it produces.
use vstd::prelude::*;

use crate::error::DeltaError;
use crate::header::header_of;

verus! {

/// One decoded command.
#[derive(Debug, Clone, Copy, PartialEq, Eq, Structural)]
pub enum DeltaOp {
    /// Append this many literal bytes, which follow the command in the stream.
    Insert(usize),
    /// Append the source bytes at this offset, of this length.
    Copy(usize, usize),
}

/// `256` raised to the power `i`: the weight of the `i`-th byte of a
/// little-endian field.
pub open spec fn pow256(i: nat) -> nat
    decreases i,
{
    if i == 0 {
        1
    } else {
        256 * pow256((i - 1) as nat)
    }
}

/// The powers of 256 that a field of at most four bytes uses.
pub proof fn lemma_pow256_small(j: nat)
    requires
        j <= 4,
    ensures
        1 <= pow256(j) <= 0x1_0000_0000,
        j < 4 ==> pow256(j) <= 0x100_0000,
{
    reveal_with_fuel(pow256, 5);
}

/// Whether bit `k` of a copy command is set, that is, whether operand byte
/// `k` (offset bytes 0 to 3, then length bytes 0 to 2) is present.
pub open spec fn has_operand(cmd: u8, k: nat) -> bool {
    (cmd >> (k as u8)) & 1u8 == 1u8
}

/// How many of the operand bytes `0 .. k` are present.
pub open spec fn operands_before(cmd: u8, k: nat) -> nat
    decreases k,
{
    if k == 0 {
        0
    } else {
        operands_before(cmd, (k - 1) as nat) + if has_operand(cmd, (k - 1) as nat) {
            1nat
        } else {
            0nat
        }
    }
}

/// Counting present operands never goes down, and a present operand `k`
/// comes before the count at `b`, for `k < b`.
pub proof fn lemma_operands_before_grows(cmd: u8, a: nat, b: nat)
    requires
        a <= b,
    ensures
        operands_before(cmd, a) <= operands_before(cmd, b),
        a < b && has_operand(cmd, a) ==> operands_before(cmd, a) + 1 <= operands_before(cmd, b),
    decreases b - a,
{
    if a < b {
        lemma_operands_before_grows(cmd, a, (b - 1) as nat);
    }
}

/// Operand byte `k` of a copy command whose present operands are `ops`, in
/// order; an absent one is zero.
pub open spec fn slot(cmd: u8, ops: Seq<u8>, k: nat) -> nat {
    if has_operand(cmd, k) {
        ops[operands_before(cmd, k) as int] as nat
    } else {
        0
    }
}

/// The little-endian field made of operand bytes `first .. first + count`.
pub open spec fn field(cmd: u8, ops: Seq<u8>, first: nat, count: nat) -> nat
    decreases count,
{
    if count == 0 {
        0
    } else {
        field(cmd, ops, first, (count - 1) as nat) + slot(cmd, ops, (first + count - 1) as nat)
            * pow256((count - 1) as nat)
    }
}

/// The source offset of a copy command: operand bytes 0 to 3.
pub open spec fn copy_offset(cmd: u8, ops: Seq<u8>) -> nat {
    field(cmd, ops, 0, 4)
}

/// The length of a copy command: operand bytes 4 to 6, where zero stands
/// for `0x10000`.
pub open spec fn copy_length(cmd: u8, ops: Seq<u8>) -> nat {
    let l = field(cmd, ops, 4, 3);
    if l == 0 {
        0x10000
    } else {
        l
    }
}

/// The command at the front of the non-empty stream `d`, and how many bytes
/// it occupies; the literal bytes of an insert are not counted.
pub open spec fn command_of(d: Seq<u8>) -> Result<(DeltaOp, nat), DeltaError>
    recommends
        d.len() > 0,
{
    let cmd = d[0];
    if cmd < 128 {
        Ok((DeltaOp::Insert(cmd as usize), 1))
    } else if 1 + operands_before(cmd, 7) > d.len() {
        Err(DeltaError::TruncatedStream)
    } else {
        let ops = d.skip(1);
        Ok(
            (
                DeltaOp::Copy(copy_offset(cmd, ops) as usize, copy_length(cmd, ops) as usize),
                1 + operands_before(cmd, 7),
            ),
        )
    }
}

/// What `op` appends, given the source and the stream `d` after the command
/// byte and its operands, and how many further stream bytes it consumes.
pub open spec fn apply_op(source: Seq<u8>, d: Seq<u8>, op: DeltaOp) -> Result<
    (Seq<u8>, nat),
    DeltaError,
> {
    match op {
        DeltaOp::Insert(len) => if len <= d.len() {
            Ok((d.take(len as int), len as nat))
        } else {
            Err(DeltaError::InsertOutOfBounds)
        },
        DeltaOp::Copy(offset, len) => if offset + len <= source.len() {
            Ok((source.subrange(offset as int, offset + len), 0))
        } else {
            Err(DeltaError::CopyOutOfBounds)
        },
    }
}

/// `prefix` put in front of a successful result; an error is kept.
pub open spec fn prepend(prefix: Seq<u8>, r: Result<Seq<u8>, DeltaError>) -> Result<
    Seq<u8>,
    DeltaError,
> {
    match r {
        Ok(s) => Ok(prefix + s),
        Err(e) => Err(e),
    }
}

/// The bytes that the command stream `d` produces against `source`, or the
/// first error met, commands taken in order until the stream is exhausted.
pub open spec fn run_stream(source: Seq<u8>, d: Seq<u8>) -> Result<Seq<u8>, DeltaError>
    decreases d.len(),
{
    if d.len() == 0 {
        Ok(Seq::empty())
    } else {
        match command_of(d) {
            Err(e) => Err(e),
            Ok((op, n)) => {
                let after = d.skip(n as int);
                match apply_op(source, after, op) {
                    Err(e) => Err(e),
                    Ok((piece, m)) => prepend(piece, run_stream(source, after.skip(m as int))),
                }
            },
        }
    }
}

/// A finished command stream checked against the declared target length.
pub open spec fn check_target(r: Result<Seq<u8>, DeltaError>, target_len: usize) -> Result<
    Seq<u8>,
    DeltaError,
> {
    match r {
        Err(e) => Err(e),
        Ok(out) => if out.len() != target_len {
            Err(DeltaError::TargetLengthMismatch)
        } else {
            Ok(out)
        },
    }
}

/// The contents of a returned buffer, or the error.
pub open spec fn result_bytes(r: Result<Vec<u8>, DeltaError>) -> Result<Seq<u8>, DeltaError> {
    match r {
        Ok(v) => Ok(v@),
        Err(e) => Err(e),
    }
}

/// Putting two prefixes in front of a result, one after the other, is
/// putting their concatenation in front.
pub proof fn lemma_prepend_prepend(a: Seq<u8>, b: Seq<u8>, r: Result<Seq<u8>, DeltaError>)
    ensures
        prepend(a, prepend(b, r)) == prepend(a + b, r),
{
    if let Ok(s) = r {
        assert(a + (b + s) =~= (a + b) + s);
    }
}

/// The target that `delta` rebuilds from `source`, or why it cannot.
pub open spec fn patch_result(source: Seq<u8>, delta: Seq<u8>) -> Result<Seq<u8>, DeltaError> {
    match header_of(delta) {
        Err(e) => Err(e),
        Ok(h) => if h.source_len != source.len() {
            Err(DeltaError::SourceLengthMismatch)
        } else {
            check_target(run_stream(source, delta.skip(h.get_offset as int)), h.target_len)
        },
    }
}

} // verus!

//! Applying the commands of a delta to a source buffer.
use vstd::prelude::*;

use crate::command::{
    apply_op, check_target, command_of, field, lemma_operands_before_grows, lemma_pow256_small,
    lemma_prepend_prepend, operands_before, patch_result, pow256, prepend, result_bytes,
    run_stream, slot, DeltaOp,
};
use crate::error::DeltaError;
use crate::header::{header_of, DeltaHeader};

verus! {

/// A delta whose header has been read, with a cursor into its command stream.
pub struct DeltaPatcher<'a> {
    source: &'a [u8],
    delta: &'a [u8],
    pos: usize,
    target_len: usize,
}

/// Appends `from[start .. end]` to `buf`.
fn append_range(buf: &mut Vec<u8>, from: &[u8], start: usize, end: usize)
    requires
        start <= end <= from@.len(),
    ensures
        final(buf)@ == old(buf)@ + from@.subrange(start as int, end as int),
{
    let ghost init = buf@;
    let mut i: usize = start;
    while i < end
        invariant
            start <= i <= end <= from@.len(),
            buf@ == init + from@.subrange(start as int, i as int),
        decreases end - i,
    {
        buf.push(from[i]);
        i = i + 1;
        assert(buf@ =~= init + from@.subrange(start as int, i as int));
    }
}

/// How many operand bytes follow the copy command `cmd`.
fn operand_count(cmd: u8) -> (n: usize)
    ensures
        n == operands_before(cmd, 7),
{
    let mut n: usize = 0;
    let mut k: u8 = 0;
    while k < 7
        invariant
            k <= 7,
            n == operands_before(cmd, k as nat),
            n <= k,
        decreases 7 - k,
    {
        if (cmd >> k) & 1 == 1 {
            n = n + 1;
        }
        k = k + 1;
    }
    n
}

impl<'a> DeltaPatcher<'a> {
    /// The cursor lies within the delta.
    pub closed spec fn wf(&self) -> bool {
        self.pos <= self.delta@.len()
    }

    /// The source buffer that copies read from.
    pub closed spec fn source_bytes(&self) -> Seq<u8> {
        self.source@
    }

    /// The commands not yet read.
    pub closed spec fn remaining(&self) -> Seq<u8> {
        self.delta@.skip(self.pos as int)
    }

    /// The target length that the header declared.
    pub closed spec fn declared_target_len(&self) -> usize {
        self.target_len
    }

    /// Reads the header of `delta` and checks it against `source`.
    pub fn new(source: &'a [u8], delta: &'a [u8]) -> (r: Result<Self, DeltaError>)
        ensures
            header_of(delta@) matches Err(e) ==> r == Err::<Self, DeltaError>(e),
            header_of(delta@) matches Ok(h) ==> {
                if h.source_len != source@.len() {
                    r == Err::<Self, DeltaError>(DeltaError::SourceLengthMismatch)
                } else {
                    &&& r is Ok
                    &&& r->Ok_0.wf()
                    &&& r->Ok_0.source_bytes() == source@
                    &&& r->Ok_0.remaining() == delta@.skip(h.get_offset as int)
                    &&& r->Ok_0.declared_target_len() == h.target_len
                }
            },
    {
        let header = match DeltaHeader::new(delta) {
            Ok(h) => h,
            Err(e) => return Err(e),
        };
        if header.source_len != source.len() {
            return Err(DeltaError::SourceLengthMismatch);
        }
        Ok(DeltaPatcher { source, delta, pos: header.get_offset, target_len: header.target_len })
    }

    /// Reads the field made of operand bytes `first .. first + count` of the
    /// copy command `cmd`, whose operands start at `ops_start`; `at` is where
    /// operand byte `first`, if present, stands. Returns the field and where
    /// the next operand stands.
    fn read_field(&self, cmd: u8, ops_start: usize, at: usize, first: u8, count: u8) -> (r: (
        u64,
        usize,
    ))
        requires
            first + count <= 7,
            count <= 4,
            ops_start + operands_before(cmd, 7) <= self.delta@.len(),
            at == ops_start + operands_before(cmd, first as nat),
        ensures
            r.0 == field(cmd, self.delta@.skip(ops_start as int), first as nat, count as nat),
            r.0 < pow256(count as nat),
            r.1 == ops_start + operands_before(cmd, (first + count) as nat),
    {
        let ghost ops = self.delta@.skip(ops_start as int);
        let mut value: u64 = 0;
        let mut weight: u64 = 1;
        let mut at: usize = at;
        let mut j: u8 = 0;
        while j < count
            invariant
                ops == self.delta@.skip(ops_start as int),
                first + count <= 7,
                count <= 4,
                j <= count,
                ops_start + operands_before(cmd, 7) <= self.delta@.len(),
                at == ops_start + operands_before(cmd, (first + j) as nat),
                value == field(cmd, ops, first as nat, j as nat),
                value < pow256(j as nat),
                weight == pow256(j as nat),
            decreases count - j,
        {
            let k: u8 = first + j;
            proof {
                lemma_pow256_small(j as nat);
                lemma_operands_before_grows(cmd, k as nat, 7);
            }
            let ghost s = slot(cmd, ops, k as nat);
            if (cmd >> k) & 1 == 1 {
                let b = self.delta[at];
                assert(ops[operands_before(cmd, k as nat) as int] == b);
                assert(s == b);
                assert(value + b * weight < 256 * weight) by (nonlinear_arith)
                    requires
                        value < weight,
                        b < 256,
                ;
                value = value + (b as u64) * weight;
                at = at + 1;
            } else {
                assert(s == 0);
                assert(s * weight == 0) by (nonlinear_arith)
                    requires
                        s == 0,
                ;
            }
            weight = weight * 256;
            j = j + 1;
        }
        (value, at)
    }

    /// Reads the next command, or `None` where the stream is exhausted. The
    /// literal bytes of an insert are left for `run_command`.
    pub fn read_command(&mut self) -> (r: Result<Option<DeltaOp>, DeltaError>)
        requires
            old(self).wf(),
        ensures
            final(self).wf(),
            final(self).source_bytes() == old(self).source_bytes(),
            final(self).declared_target_len() == old(self).declared_target_len(),
            old(self).remaining().len() == 0 ==> r == Ok::<Option<DeltaOp>, DeltaError>(None)
                && final(self).remaining() == old(self).remaining(),
            old(self).remaining().len() > 0 ==> match command_of(old(self).remaining()) {
                Err(e) => r == Err::<Option<DeltaOp>, DeltaError>(e),
                Ok((op, n)) => {
                    &&& r == Ok::<Option<DeltaOp>, DeltaError>(Some(op))
                    &&& final(self).remaining() == old(self).remaining().skip(n as int)
                    &&& final(self).remaining().len() < old(self).remaining().len()
                },
            },
    {
        let ghost rest = self.remaining();
        if self.pos >= self.delta.len() {
            return Ok(None);
        }
        let cmd = self.delta[self.pos];
        assert(rest[0] == cmd);
        if cmd < 128 {
            self.pos = self.pos + 1;
            assert(self.remaining() =~= rest.skip(1));
            return Ok(Some(DeltaOp::Insert(cmd as usize)));
        }
        let ops_start = self.pos + 1;
        let need = operand_count(cmd);
        if need > self.delta.len() - ops_start {
            return Err(DeltaError::TruncatedStream);
        }
        assert(rest.skip(1) =~= self.delta@.skip(ops_start as int));
        let (offset, at) = self.read_field(cmd, ops_start, ops_start, 0, 4);
        let (raw_len, end) = self.read_field(cmd, ops_start, at, 4, 3);
        proof {
            lemma_pow256_small(4);
            lemma_pow256_small(3);
        }
        let length: u64 = if raw_len == 0 {
            0x10000
        } else {
            raw_len
        };
        self.pos = end;
        assert(self.remaining() =~= rest.skip(1 + operands_before(cmd, 7) as int));
        Ok(Some(DeltaOp::Copy(offset as usize, length as usize)))
    }

    /// Carries out `command`: appends what it produces to `buf`, and moves
    /// past the literal bytes of an insert.
    pub fn run_command(&mut self, command: DeltaOp, buf: &mut Vec<u8>) -> (r: Result<(), DeltaError>)
        requires
            old(self).wf(),
        ensures
            final(self).wf(),
            final(self).source_bytes() == old(self).source_bytes(),
            final(self).declared_target_len() == old(self).declared_target_len(),
            match apply_op(old(self).source_bytes(), old(self).remaining(), command) {
                Err(e) => {
                    &&& r == Err::<(), DeltaError>(e)
                    &&& final(buf)@ == old(buf)@
                    &&& final(self).remaining() == old(self).remaining()
                },
                Ok((piece, m)) => {
                    &&& r == Ok::<(), DeltaError>(())
                    &&& final(buf)@ == old(buf)@ + piece
                    &&& final(self).remaining() == old(self).remaining().skip(m as int)
                    &&& final(self).remaining().len() <= old(self).remaining().len()
                },
            },
    {
        let ghost rest = self.remaining();
        match command {
            DeltaOp::Copy(start, length) => {
                if start > self.source.len() || length > self.source.len() - start {
                    return Err(DeltaError::CopyOutOfBounds);
                }
                append_range(buf, self.source, start, start + length);
                assert(self.remaining() =~= rest.skip(0));
            },
            DeltaOp::Insert(length) => {
                if length > self.delta.len() - self.pos {
                    return Err(DeltaError::InsertOutOfBounds);
                }
                append_range(buf, self.delta, self.pos, self.pos + length);
                assert(self.delta@.subrange(self.pos as int, self.pos + length) =~= rest.take(
                    length as int,
                ));
                self.pos = self.pos + length;
                assert(self.remaining() =~= rest.skip(length as int));
            },
        }
        Ok(())
    }

    /// Runs every remaining command and checks the length of what they
    /// produced against the header.
    pub fn run_to_end(&mut self) -> (r: Result<Vec<u8>, DeltaError>)
        requires
            old(self).wf(),
        ensures
            final(self).wf(),
            final(self).source_bytes() == old(self).source_bytes(),
            final(self).declared_target_len() == old(self).declared_target_len(),
            r is Ok ==> final(self).remaining().len() == 0,
            result_bytes(r) == check_target(
                run_stream(old(self).source_bytes(), old(self).remaining()),
                old(self).declared_target_len(),
            ),
    {
        let ghost src = self.source_bytes();
        let ghost rest0 = self.remaining();
        let mut buf: Vec<u8> = Vec::with_capacity(self.target_len);
        assert(prepend(buf@, run_stream(src, rest0)) == run_stream(src, rest0)) by {
            if let Ok(s) = run_stream(src, rest0) {
                assert(buf@ + s =~= s);
            }
        }
        loop
            invariant
                self.wf(),
                self.source_bytes() == src,
                self.declared_target_len() == old(self).declared_target_len(),
                src == old(self).source_bytes(),
                rest0 == old(self).remaining(),
                self.declared_target_len() == self.target_len,
                run_stream(src, rest0) == prepend(buf@, run_stream(src, self.remaining())),
            ensures
                self.wf(),
                self.source_bytes() == src,
                self.remaining().len() == 0,
                self.target_len == old(self).declared_target_len(),
                run_stream(src, rest0) == Ok::<Seq<u8>, DeltaError>(buf@),
            decreases self.remaining().len(),
        {
            let ghost rest = self.remaining();
            let ghost before = buf@;
            let command = match self.read_command() {
                Err(e) => return Err(e),
                Ok(None) => {
                    assert(before + Seq::<u8>::empty() =~= before);
                    break;
                },
                Ok(Some(c)) => c,
            };
            match self.run_command(command, &mut buf) {
                Err(e) => return Err(e),
                Ok(()) => {},
            }
            proof {
                let (op, n) = command_of(rest)->Ok_0;
                let (piece, m) = apply_op(src, rest.skip(n as int), op)->Ok_0;
                lemma_prepend_prepend(before, piece, run_stream(src, self.remaining()));
            }
        }
        if buf.len() != self.target_len {
            return Err(DeltaError::TargetLengthMismatch);
        }
        Ok(buf)
    }
}

/// Rebuilds the target that `delta` describes against `source`.
pub fn patch(source: &[u8], delta: &[u8]) -> (r: Result<Vec<u8>, DeltaError>)
    ensures
        result_bytes(r) == patch_result(source@, delta@),
{
    let mut patcher = match DeltaPatcher::new(source, delta) {
        Ok(p) => p,
        Err(e) => return Err(e),
    };
    patcher.run_to_end()
}

} // verus!

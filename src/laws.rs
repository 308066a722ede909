//! What holds of every delta, stated over the decoding functions.
use vstd::prelude::*;

use crate::command::{
    apply_op, command_of, copy_offset, field, operands_before, patch_result, pow256, prepend,
    run_stream, slot, DeltaOp,
};
use crate::error::DeltaError;
use crate::header::{header_of, DeltaHeader};
use crate::varint::{encode_varint, lemma_decode_encoded};

verus! {

/// A little-endian field of `count` operand bytes is below `256^count`.
pub proof fn lemma_field_bound(cmd: u8, ops: Seq<u8>, first: nat, count: nat)
    ensures
        field(cmd, ops, first, count) < pow256(count),
    decreases count,
{
    if count > 0 {
        let c = (count - 1) as nat;
        lemma_field_bound(cmd, ops, first, c);
        let f = field(cmd, ops, first, c);
        let s = slot(cmd, ops, (first + c) as nat);
        let p = pow256(c);
        assert(s < 256);
        assert(f + s * p < 256 * p) by (nonlinear_arith)
            requires
                f < p,
                s < 256,
        ;
    }
}

/// One edit that a delta can carry: literal bytes, or the span of the source
/// at an offset, of a length.
pub enum Edit {
    Literal(Seq<u8>),
    Span(nat, nat),
}

/// An edit that one command can carry against `source`: at most 127 literal
/// bytes, or a non-empty span within the source whose offset fits in four
/// bytes and whose length fits in three.
pub open spec fn edit_fits(source: Seq<u8>, e: Edit) -> bool {
    match e {
        Edit::Literal(b) => b.len() <= 127,
        Edit::Span(offset, len) => 0 < len < 0x100_0000 && offset < 0x1_0000_0000 && offset + len
            <= source.len(),
    }
}

/// The bytes that an edit stands for.
pub open spec fn edit_output(source: Seq<u8>, e: Edit) -> Seq<u8> {
    match e {
        Edit::Literal(b) => b,
        Edit::Span(offset, len) => source.subrange(offset as int, (offset + len) as int),
    }
}

/// The command for an edit: an insert with its literal bytes, or a copy
/// that carries all four offset bytes and all three length bytes.
pub open spec fn encode_edit(e: Edit) -> Seq<u8> {
    match e {
        Edit::Literal(b) => seq![b.len() as u8] + b,
        Edit::Span(offset, len) => {
            let x = offset as u32;
            let y = len as u32;
            seq![
                0xffu8,
                (x & 0xff) as u8,
                ((x >> 8u32) & 0xff) as u8,
                ((x >> 16u32) & 0xff) as u8,
                ((x >> 24u32) & 0xff) as u8,
                (y & 0xff) as u8,
                ((y >> 8u32) & 0xff) as u8,
                ((y >> 16u32) & 0xff) as u8,
            ]
        },
    }
}

/// The commands for a list of edits, in order.
pub open spec fn encode_edits(es: Seq<Edit>) -> Seq<u8>
    decreases es.len(),
{
    if es.len() == 0 {
        Seq::empty()
    } else {
        encode_edit(es[0]) + encode_edits(es.drop_first())
    }
}

/// The bytes that a list of edits stands for.
pub open spec fn edits_output(source: Seq<u8>, es: Seq<Edit>) -> Seq<u8>
    decreases es.len(),
{
    if es.len() == 0 {
        Seq::empty()
    } else {
        edit_output(source, es[0]) + edits_output(source, es.drop_first())
    }
}

/// The delta made of a header with the two lengths and the commands for `es`.
pub open spec fn encode_delta(source_len: nat, target_len: nat, es: Seq<Edit>) -> Seq<u8> {
    encode_varint(source_len) + encode_varint(target_len) + encode_edits(es)
}

/// Every operand bit of `0xff` is set.
proof fn lemma_full_command_bits(k: u8)
    by (bit_vector)
    requires
        k < 7,
    ensures
        (0xffu8 >> k) & 1u8 == 1u8,
{
}

/// A copy command `0xff` carries all seven operand bytes.
proof fn lemma_full_command_operands(k: nat)
    requires
        k <= 7,
    ensures
        operands_before(0xffu8, k) == k,
    decreases k,
{
    if k > 0 {
        lemma_full_command_operands((k - 1) as nat);
        lemma_full_command_bits((k - 1) as u8);
    }
}

/// The four little-endian bytes of a `u32` put back together.
proof fn lemma_le_bytes(x: u32)
    by (bit_vector)
    ensures
        x & 0xff < 256,
        (x >> 8u32) & 0xff < 256,
        (x >> 16u32) & 0xff < 256,
        (x >> 24u32) & 0xff < 256,
        (x & 0xff) + ((x >> 8u32) & 0xff) * 256 + ((x >> 16u32) & 0xff) * 65536 + ((x >> 24u32)
            & 0xff) * 16777216 == x,
        x < 0x100_0000 ==> (x >> 24u32) & 0xff == 0,
{
}

/// The command for a fitting edit, followed by anything, produces the
/// edit's bytes and then what follows.
proof fn lemma_run_edit(source: Seq<u8>, e: Edit, rest: Seq<u8>)
    requires
        edit_fits(source, e),
    ensures
        run_stream(source, encode_edit(e) + rest) == prepend(
            edit_output(source, e),
            run_stream(source, rest),
        ),
{
    let d = encode_edit(e) + rest;
    match e {
        Edit::Literal(b) => {
            let after = d.skip(1);
            assert(after =~= b + rest);
            assert(after.take(b.len() as int) =~= b);
            assert(after.skip(b.len() as int) =~= rest);
        },
        Edit::Span(offset, len) => {
            let x = offset as u32;
            let y = len as u32;
            let ops = d.skip(1);
            lemma_full_command_operands(7);
            lemma_full_command_operands(0);
            lemma_full_command_operands(1);
            lemma_full_command_operands(2);
            lemma_full_command_operands(3);
            lemma_full_command_operands(4);
            lemma_full_command_operands(5);
            lemma_full_command_operands(6);
            lemma_full_command_bits(0);
            lemma_full_command_bits(1);
            lemma_full_command_bits(2);
            lemma_full_command_bits(3);
            lemma_full_command_bits(4);
            lemma_full_command_bits(5);
            lemma_full_command_bits(6);
            lemma_le_bytes(x);
            lemma_le_bytes(y);
            reveal_with_fuel(pow256, 4);
            reveal_with_fuel(field, 5);
            assert(copy_offset(0xffu8, ops) == offset);
            assert(field(0xffu8, ops, 4, 3) == len);
            assert(d.skip(8) =~= rest);
            assert(rest.skip(0) =~= rest);
        },
    }
}

/// The commands for fitting edits produce the edits' bytes, in order.
proof fn lemma_run_edits(source: Seq<u8>, es: Seq<Edit>)
    requires
        forall|i: int| 0 <= i < es.len() ==> edit_fits(source, #[trigger] es[i]),
    ensures
        run_stream(source, encode_edits(es)) == Ok::<Seq<u8>, DeltaError>(edits_output(source, es)),
    decreases es.len(),
{
    if es.len() > 0 {
        let tail = es.drop_first();
        assert(edit_fits(source, es[0]));
        assert forall|i: int| 0 <= i < tail.len() implies edit_fits(source, #[trigger] tail[i]) by {
            assert(tail[i] == es[i + 1]);
        }
        lemma_run_edits(source, tail);
        lemma_run_edit(source, es[0], encode_edits(tail));
    } else {
        assert(encode_edits(es) =~= Seq::<u8>::empty());
    }
}

/// For buffers `a` and `b` and fitting edits of `a` that make up `b`, the
/// delta that declares both lengths and carries those edits rebuilds
/// exactly `b`.
pub proof fn lemma_encoded_round_trip(a: Seq<u8>, b: Seq<u8>, es: Seq<Edit>)
    requires
        forall|i: int| 0 <= i < es.len() ==> edit_fits(a, #[trigger] es[i]),
        edits_output(a, es) == b,
        a.len() <= usize::MAX,
        b.len() <= usize::MAX,
        encode_delta(a.len(), b.len(), es).len() <= usize::MAX,
    ensures
        patch_result(a, encode_delta(a.len(), b.len(), es)) == Ok::<Seq<u8>, DeltaError>(b),
        patch_result(a, encode_delta(a.len(), b.len(), es)) matches Ok(out) && out.len() == b.len(),
{
    let e1 = encode_varint(a.len());
    let e2 = encode_varint(b.len());
    let c = encode_edits(es);
    let d = encode_delta(a.len(), b.len(), es);
    assert(d =~= e1 + (e2 + c));
    lemma_decode_encoded(a.len(), e2 + c);
    assert(d.skip(e1.len() as int) =~= e2 + c);
    lemma_decode_encoded(b.len(), c);
    assert(header_of(d) == Ok::<DeltaHeader, DeltaError>(
        DeltaHeader {
            source_len: a.len() as usize,
            target_len: b.len() as usize,
            get_offset: (e1.len() + e2.len()) as usize,
        },
    ));
    assert(d.skip((e1.len() + e2.len()) as int) =~= c);
    lemma_run_edits(a, es);
}

/// A delta whose header declares the length of `a` and the length of `b`,
/// and whose commands produce `b` from `a`, rebuilds exactly `b`.
pub proof fn lemma_patch_round_trip(a: Seq<u8>, b: Seq<u8>, d: Seq<u8>)
    requires
        header_of(d) matches Ok(h) && h.source_len == a.len() && h.target_len == b.len()
            && run_stream(a, d.skip(h.get_offset as int)) == Ok::<Seq<u8>, DeltaError>(b),
    ensures
        patch_result(a, d) == Ok::<Seq<u8>, DeltaError>(b),
        patch_result(a, d) matches Ok(out) && out.len() == b.len(),
{
}

/// A delta whose declared source length is not the length of `a` fails on
/// `a` with `SourceLengthMismatch`, whatever its commands.
pub proof fn lemma_source_length_mismatch(a: Seq<u8>, d: Seq<u8>)
    requires
        header_of(d) matches Ok(h) && h.source_len != a.len(),
    ensures
        patch_result(a, d) == Err::<Seq<u8>, DeltaError>(DeltaError::SourceLengthMismatch),
{
}

/// A command byte `0x00` is an insert of nothing: the stream goes on after
/// it as if it were not there.
pub proof fn lemma_empty_insert(source: Seq<u8>, d: Seq<u8>)
    requires
        d.len() > 0,
        d[0] == 0,
    ensures
        run_stream(source, d) == run_stream(source, d.skip(1)),
{
    let after = d.skip(1);
    assert(after.skip(0) =~= after);
    if let Ok(s) = run_stream(source, after) {
        assert(after.take(0) + s =~= s);
    }
}

/// A command byte `0x7f` inserts the 127 bytes that follow it, and the
/// stream goes on after them.
pub proof fn lemma_longest_insert(source: Seq<u8>, d: Seq<u8>)
    requires
        d.len() >= 128,
        d[0] == 0x7f,
    ensures
        run_stream(source, d) == prepend(d.subrange(1, 128), run_stream(source, d.skip(128))),
{
    let after = d.skip(1);
    assert(after.take(127) =~= d.subrange(1, 128));
    assert(after.skip(127) =~= d.skip(128));
}

/// A copy command whose length bytes are all absent or zero copies
/// `0x10000` bytes, not none.
pub proof fn lemma_zero_length_copy(source: Seq<u8>, d: Seq<u8>)
    requires
        d.len() > 0,
        d[0] >= 128,
        1 + operands_before(d[0], 7) <= d.len(),
        field(d[0], d.skip(1), 4, 3) == 0,
    ensures
        command_of(d) == Ok::<(DeltaOp, nat), DeltaError>(
            (
                DeltaOp::Copy(copy_offset(d[0], d.skip(1)) as usize, 0x10000),
                1 + operands_before(d[0], 7),
            ),
        ),
        copy_offset(d[0], d.skip(1)) + 0x10000 <= source.len() ==> (apply_op(
            source,
            d.skip(1 + operands_before(d[0], 7) as int),
            DeltaOp::Copy(copy_offset(d[0], d.skip(1)) as usize, 0x10000),
        ) matches Ok((piece, _)) && piece.len() == 0x10000),
{
    lemma_field_bound(d[0], d.skip(1), 0, 4);
    reveal_with_fuel(pow256, 5);
}

/// A copy command that reaches past the end of the source stops the stream
/// with `CopyOutOfBounds`.
pub proof fn lemma_copy_out_of_bounds(source: Seq<u8>, d: Seq<u8>)
    requires
        d.len() > 0,
        command_of(d) matches Ok((DeltaOp::Copy(offset, len), _)) && offset + len > source.len(),
    ensures
        run_stream(source, d) == Err::<Seq<u8>, DeltaError>(DeltaError::CopyOutOfBounds),
{
}

/// Commands that produce one byte fewer than the declared target length
/// make the delta fail with `TargetLengthMismatch`.
pub proof fn lemma_target_one_short(a: Seq<u8>, d: Seq<u8>)
    requires
        header_of(d) matches Ok(h) && h.source_len == a.len() && (run_stream(
            a,
            d.skip(h.get_offset as int),
        ) matches Ok(out) && out.len() + 1 == h.target_len),
    ensures
        patch_result(a, d) == Err::<Seq<u8>, DeltaError>(DeltaError::TargetLengthMismatch),
{
}

} // verus!

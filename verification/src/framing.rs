//! Big-endian numbers and length-prefixed byte strings.
use vstd::prelude::*;

verus! {

/// The four bytes of a number, the highest first.
#[verifier::opaque]
pub open spec fn be32(value: u32) -> Seq<u8> {
    seq![
        (value / 0x100_0000) as u8,
        (value / 0x1_0000 % 0x100) as u8,
        (value / 0x100 % 0x100) as u8,
        (value % 0x100) as u8,
    ]
}

/// The eight bytes of a number, the highest first.
pub open spec fn be64(value: u64) -> Seq<u8> {
    be32((value / 0x1_0000_0000) as u32) + be32((value % 0x1_0000_0000) as u32)
}

/// The bytes of a number are as many as its width.
pub proof fn lemma_be_len(narrow: u32, wide: u64)
    ensures
        be32(narrow).len() == 4,
        be64(wide).len() == 8,
{
    reveal(be32);
}

/// Appends the four bytes of a number.
pub fn push_be32(out: &mut Vec<u8>, value: u32)
    ensures
        final(out)@ == old(out)@ + be32(value),
{
    let ghost before = out@;
    out.push((value / 0x100_0000) as u8);
    out.push((value / 0x1_0000 % 0x100) as u8);
    out.push((value / 0x100 % 0x100) as u8);
    out.push((value % 0x100) as u8);
    proof {
        reveal(be32);
    }
    assert(out@ =~= before + be32(value));
}

/// Appends the eight bytes of a number.
pub fn push_be64(out: &mut Vec<u8>, value: u64)
    ensures
        final(out)@ == old(out)@ + be64(value),
{
    let ghost before = out@;
    push_be32(out, (value / 0x1_0000_0000) as u32);
    push_be32(out, (value % 0x1_0000_0000) as u32);
    assert(out@ =~= before + be64(value));
}

/// Appends bytes.
pub fn push_bytes(out: &mut Vec<u8>, bytes: &[u8])
    ensures
        final(out)@ == old(out)@ + bytes@,
{
    let ghost before = out@;
    for i in 0..bytes.len()
        invariant
            out@ == before + bytes@.take(i as int),
    {
        out.push(bytes[i]);
        assert(before + bytes@.take(i + 1) =~= (before + bytes@.take(i as int)).push(bytes@[i as int]));
    }
    assert(bytes@.take(bytes@.len() as int) =~= bytes@);
}

/// A byte string behind its length.
pub open spec fn framed(bytes: Seq<u8>) -> Seq<u8> {
    be64(bytes.len() as u64) + bytes
}

/// Appends a byte string behind its length.
pub fn push_framed(out: &mut Vec<u8>, bytes: &[u8])
    ensures
        final(out)@ == old(out)@ + framed(bytes@),
{
    let ghost before = out@;
    push_be64(out, bytes.len() as u64);
    push_bytes(out, bytes);
    assert(out@ =~= before + framed(bytes@));
}

/// A number is determined by its bytes.
pub proof fn lemma_be32_injective(a: u32, b: u32)
    requires
        be32(a) == be32(b),
    ensures
        a == b,
{
    reveal(be32);
    let x = be32(a);
    let y = be32(b);
    assert(x[0] == y[0] && x[1] == y[1] && x[2] == y[2] && x[3] == y[3]);
    assert(a == (x[0] * 0x100_0000 + x[1] * 0x1_0000 + x[2] * 0x100 + x[3]) as u32);
    assert(b == (y[0] * 0x100_0000 + y[1] * 0x1_0000 + y[2] * 0x100 + y[3]) as u32);
}

/// A number is determined by its bytes.
pub proof fn lemma_be64_injective(a: u64, b: u64)
    requires
        be64(a) == be64(b),
    ensures
        a == b,
{
    lemma_be_len((a / 0x1_0000_0000) as u32, a);
    lemma_be_len((b / 0x1_0000_0000) as u32, b);
    let x = be64(a);
    let y = be64(b);
    assert(x.take(4) =~= be32((a / 0x1_0000_0000) as u32));
    assert(y.take(4) =~= be32((b / 0x1_0000_0000) as u32));
    assert(x.skip(4) =~= be32((a % 0x1_0000_0000) as u32));
    assert(y.skip(4) =~= be32((b % 0x1_0000_0000) as u32));
    lemma_be32_injective((a / 0x1_0000_0000) as u32, (b / 0x1_0000_0000) as u32);
    lemma_be32_injective((a % 0x1_0000_0000) as u32, (b % 0x1_0000_0000) as u32);
}

/// Two framed byte strings with something behind them are equal only where the
/// byte strings and what is behind them are.
pub proof fn law_framing_is_unambiguous(a: Seq<u8>, x: Seq<u8>, b: Seq<u8>, y: Seq<u8>)
    requires
        a.len() <= u64::MAX,
        b.len() <= u64::MAX,
        framed(a) + x == framed(b) + y,
    ensures
        a == b,
        x == y,
{
    lemma_be_len(0, a.len() as u64);
    lemma_be_len(0, b.len() as u64);
    let all = framed(a) + x;
    assert(all.take(8) =~= be64(a.len() as u64));
    assert((framed(b) + y).take(8) =~= be64(b.len() as u64));
    lemma_be64_injective(a.len() as u64, b.len() as u64);
    let n = a.len() as int;
    assert(all.subrange(8, 8 + n) =~= a);
    assert((framed(b) + y).subrange(8, 8 + n) =~= b);
    assert(all.skip(8 + n) =~= x);
    assert((framed(b) + y).skip(8 + n) =~= y);
}

/// Numbers are written with their highest byte first: the first of four bytes
/// counts 2 to the 24th, the last one 1; of eight bytes the first four are the
/// higher half.
pub proof fn law_numbers_are_written_highest_byte_first(narrow: u32, wide: u64)
    ensures
        be32(narrow).len() == 4,
        be32(narrow)[0] * 0x100_0000 + be32(narrow)[1] * 0x1_0000 + be32(narrow)[2] * 0x100 + be32(narrow)[3] == narrow,
        be64(wide).len() == 8,
        be64(wide).take(4) == be32((wide / 0x1_0000_0000) as u32),
        be64(wide).skip(4) == be32((wide % 0x1_0000_0000) as u32),
{
    reveal(be32);
    lemma_be_len(narrow, wide);
    assert(be64(wide).take(4) =~= be32((wide / 0x1_0000_0000) as u32));
    assert(be64(wide).skip(4) =~= be32((wide % 0x1_0000_0000) as u32));
}

/// A byte string stands behind the eight bytes of its length.
pub proof fn law_byte_strings_stand_behind_their_length(bytes: Seq<u8>)
    ensures
        framed(bytes).len() == 8 + bytes.len(),
        framed(bytes).take(8) == be64(bytes.len() as u64),
        framed(bytes).skip(8) == bytes,
{
    lemma_be_len(0, bytes.len() as u64);
    assert(framed(bytes).take(8) =~= be64(bytes.len() as u64));
    assert(framed(bytes).skip(8) =~= bytes);
}

} // verus!

//! Little-endian framing of integers and byte strings.
use vstd::prelude::*;

verus! {

/// The `n` low bytes of `v`, least significant first: what `to_le_bytes`
/// gives for an integer type that is `n` bytes wide and holds `v`.
pub open spec fn le_bytes(v: nat, n: nat) -> Seq<u8>
    decreases n,
{
    if n == 0 {
        Seq::empty()
    } else {
        seq![(v % 256) as u8] + le_bytes(v / 256, (n - 1) as nat)
    }
}

/// The number of bytes of a `usize` on the target.
pub open spec fn usize_width() -> nat {
    (usize::BITS / 8) as nat
}

/// The two's complement bit pattern of an `i32`, read as an unsigned number.
pub open spec fn i32_bits(v: i32) -> nat {
    if v < 0 {
        (v + 0x1_0000_0000) as nat
    } else {
        v as nat
    }
}

/// `le_bytes` always yields exactly `n` bytes.
pub proof fn lemma_le_bytes_len(v: nat, n: nat)
    ensures
        le_bytes(v, n).len() == n,
    decreases n,
{
    if n > 0 {
        lemma_le_bytes_len(v / 256, (n - 1) as nat);
    }
}

/// `256` to the power `n`: one more than the largest value of `n` bytes.
pub open spec fn byte_range(n: nat) -> nat
    decreases n,
{
    if n == 0 {
        1
    } else {
        256 * byte_range((n - 1) as nat)
    }
}

/// The number whose little-endian bytes `b` are.
pub open spec fn le_value(b: Seq<u8>) -> nat
    decreases b.len(),
{
    if b.len() == 0 {
        0
    } else {
        b[0] as nat + 256 * le_value(b.skip(1))
    }
}

/// Reading back the bytes written for `v` gives `v` without what does not
/// fit in `n` bytes; all of `v` when it fits.
pub proof fn lemma_le_roundtrip(v: nat, n: nat)
    ensures
        byte_range(n) > 0,
        le_value(le_bytes(v, n)) == v % byte_range(n),
        v < byte_range(n) ==> le_value(le_bytes(v, n)) == v,
    decreases n,
{
    if n > 0 {
        let n1 = (n - 1) as nat;
        lemma_le_roundtrip(v / 256, n1);
        assert(le_bytes(v, n).skip(1) =~= le_bytes(v / 256, n1));
        vstd::arithmetic::div_mod::lemma_mod_breakdown(v as int, 256, byte_range(n1) as int);
    }
}

/// `u64` values fit in eight bytes.
pub proof fn lemma_u64_fits(v: u64)
    ensures
        (v as nat) < byte_range(8),
{
    reveal_with_fuel(byte_range, 9);
}

/// `usize` values fit in a `usize`'s bytes.
pub proof fn lemma_usize_fits(v: usize)
    ensures
        (v as nat) < byte_range(usize_width()),
{
    reveal_with_fuel(byte_range, 9);
    assert(usize::BITS == 32 || usize::BITS == 64);
    if usize::BITS == 32 {
        assert(usize::MAX == 0xffff_ffff);
    } else {
        assert(usize::MAX == 0xffff_ffff_ffff_ffff);
    }
}

/// Different `i32`s have different bit patterns.
pub proof fn lemma_i32_bits_injective(a: i32, b: i32)
    requires
        i32_bits(a) == i32_bits(b),
    ensures
        a == b,
{
}

/// The bit pattern of an `i32` fits in four bytes.
pub proof fn lemma_i32_bits_fit(a: i32)
    ensures
        i32_bits(a) < byte_range(4),
{
    reveal_with_fuel(byte_range, 5);
}

/// The `i32` that four little-endian bytes hold in two's complement.
pub open spec fn i32_from_le(b: Seq<u8>) -> int {
    let u = le_value(b);
    if u >= 0x8000_0000 {
        u - 0x1_0000_0000
    } else {
        u as int
    }
}

/// The four bytes written for an `i32` are its two's complement: read back
/// as an `i32` they give the value itself, and as an unsigned number the
/// value modulo `2^32`.
pub proof fn lemma_i32_bytes_read_back(v: i32)
    ensures
        i32_bits(v) as int == (v as int) % 0x1_0000_0000,
        v < 0 ==> i32_bits(v) == v + 0x1_0000_0000,
        i32_from_le(le_bytes(i32_bits(v), 4)) == v,
        le_value(le_bytes(i32_bits(v), 4)) == (v as int) % 0x1_0000_0000,
{
    reveal_with_fuel(byte_range, 5);
    lemma_i32_bits_fit(v);
    lemma_le_roundtrip(i32_bits(v), 4);
}

/// Two values that fit in `n` bytes and have the same bytes are equal.
pub proof fn lemma_le_bytes_injective(v1: nat, v2: nat, n: nat)
    requires
        v1 < byte_range(n),
        v2 < byte_range(n),
        le_bytes(v1, n) == le_bytes(v2, n),
    ensures
        v1 == v2,
{
    lemma_le_roundtrip(v1, n);
    lemma_le_roundtrip(v2, n);
}

/// Two concatenations with first parts of the same length are equal exactly
/// when both parts are.
pub proof fn lemma_concat_split<A>(a1: Seq<A>, b1: Seq<A>, a2: Seq<A>, b2: Seq<A>)
    requires
        a1.len() == a2.len(),
        a1 + b1 == a2 + b2,
    ensures
        a1 == a2,
        b1 == b2,
{
    assert(a1 =~= (a1 + b1).subrange(0, a1.len() as int));
    assert(a2 =~= (a2 + b2).subrange(0, a2.len() as int));
    assert(b1 =~= (a1 + b1).subrange(a1.len() as int, (a1 + b1).len() as int));
    assert(b2 =~= (a2 + b2).subrange(a2.len() as int, (a2 + b2).len() as int));
}

/// Two concatenations with last parts of the same length are equal exactly
/// when both parts are.
pub proof fn lemma_concat_split_right<A>(a1: Seq<A>, b1: Seq<A>, a2: Seq<A>, b2: Seq<A>)
    requires
        b1.len() == b2.len(),
        a1 + b1 == a2 + b2,
    ensures
        a1 == a2,
        b1 == b2,
{
    assert((a1 + b1).len() == a1.len() + b1.len());
    assert((a2 + b2).len() == a2.len() + b2.len());
    assert((a1 + b1).len() == (a2 + b2).len());
    lemma_concat_split(a1, b1, a2, b2);
}

/// Concatenation of four parts, grouped from the right.
pub proof fn lemma_concat4_assoc<A>(a: Seq<A>, b: Seq<A>, c: Seq<A>, d: Seq<A>)
    ensures
        a + b + c + d == a + (b + (c + d)),
{
    assert(a + b + c + d =~= a + (b + (c + d)));
}

/// A record of integer fields, each given as its value and its width in
/// bytes, written field after field in little-endian.
pub open spec fn le_fields(fields: Seq<(nat, nat)>) -> Seq<u8>
    decreases fields.len(),
{
    if fields.len() == 0 {
        Seq::empty()
    } else {
        le_bytes(fields[0].0, fields[0].1) + le_fields(fields.drop_first())
    }
}

/// The total width of a record's fields.
pub open spec fn fields_width(fields: Seq<(nat, nat)>) -> nat
    decreases fields.len(),
{
    if fields.len() == 0 {
        0
    } else {
        fields[0].1 + fields_width(fields.drop_first())
    }
}

/// Every field of the record fits in its width.
pub open spec fn fields_fit(fields: Seq<(nat, nat)>) -> bool {
    forall|i: int| 0 <= i < fields.len() ==> #[trigger] fields[i].0 < byte_range(fields[i].1)
}

/// A record takes the sum of its fields' widths.
pub proof fn lemma_le_fields_len(fields: Seq<(nat, nat)>)
    ensures
        le_fields(fields).len() == fields_width(fields),
    decreases fields.len(),
{
    if fields.len() > 0 {
        lemma_le_bytes_len(fields[0].0, fields[0].1);
        lemma_le_fields_len(fields.drop_first());
    }
}

/// Writing one more field appends its bytes.
pub proof fn lemma_le_fields_push(fields: Seq<(nat, nat)>, f: (nat, nat))
    ensures
        le_fields(fields.push(f)) == le_fields(fields) + le_bytes(f.0, f.1),
    decreases fields.len(),
{
    if fields.len() == 0 {
        assert(fields.push(f).drop_first() =~= Seq::<(nat, nat)>::empty());
        assert(fields.push(f)[0] == f);
        assert(le_fields(fields.push(f).drop_first()) == Seq::<u8>::empty());
        assert(le_fields(fields.push(f)) =~= le_fields(fields) + le_bytes(f.0, f.1));
    } else {
        lemma_le_fields_push(fields.drop_first(), f);
        assert(fields.push(f).drop_first() =~= fields.drop_first().push(f));
        assert(le_fields(fields.push(f)) =~= le_fields(fields) + le_bytes(f.0, f.1));
    }
}

/// Two records of fields of the same widths, every field fitting its width,
/// with the same bytes have the same fields.
pub proof fn lemma_le_fields_injective(f1: Seq<(nat, nat)>, f2: Seq<(nat, nat)>)
    requires
        f1.len() == f2.len(),
        forall|i: int| 0 <= i < f1.len() ==> #[trigger] f1[i].1 == f2[i].1,
        fields_fit(f1),
        fields_fit(f2),
        le_fields(f1) == le_fields(f2),
    ensures
        f1 == f2,
    decreases f1.len(),
{
    if f1.len() > 0 {
        let a = f1[0];
        let b = f2[0];
        lemma_le_bytes_len(a.0, a.1);
        lemma_le_bytes_len(b.0, b.1);
        lemma_concat_split(le_bytes(a.0, a.1), le_fields(f1.drop_first()), le_bytes(b.0, b.1), le_fields(f2.drop_first()));
        lemma_le_bytes_injective(a.0, b.0, a.1);
        assert forall|i: int| 0 <= i < f1.drop_first().len() implies #[trigger] f1.drop_first()[i].1
            == f2.drop_first()[i].1 by {
            assert(f1[i + 1].1 == f2[i + 1].1);
        }
        assert(fields_fit(f1.drop_first())) by {
            assert forall|i: int| 0 <= i < f1.drop_first().len() implies #[trigger] f1.drop_first()[i].0
                < byte_range(f1.drop_first()[i].1) by {
                assert(f1[i + 1].0 < byte_range(f1[i + 1].1));
            }
        }
        assert(fields_fit(f2.drop_first())) by {
            assert forall|i: int| 0 <= i < f2.drop_first().len() implies #[trigger] f2.drop_first()[i].0
                < byte_range(f2.drop_first()[i].1) by {
                assert(f2[i + 1].0 < byte_range(f2[i + 1].1));
            }
        }
        lemma_le_fields_injective(f1.drop_first(), f2.drop_first());
        assert(f1 =~= seq![a] + f1.drop_first());
        assert(f2 =~= seq![b] + f2.drop_first());
    } else {
        assert(f1 =~= f2);
    }
}

/// The fields of an executable record, as values and widths.
pub open spec fn fields_view(fields: Seq<(u64, usize)>) -> Seq<(nat, nat)> {
    fields.map_values(|f: (u64, usize)| (f.0 as nat, f.1 as nat))
}

/// Appends the fields of a record, each in little-endian of its width.
pub fn push_fields(out: &mut Vec<u8>, fields: &[(u64, usize)])
    ensures
        final(out)@ == old(out)@ + le_fields(fields_view(fields@)),
{
    let mut i: usize = 0;
    while i < fields.len()
        invariant
            i <= fields@.len(),
            out@ == old(out)@ + le_fields(fields_view(fields@.take(i as int))),
        decreases fields@.len() - i,
    {
        let (v, n) = fields[i];
        push_le(out, v, n);
        proof {
            assert(fields_view(fields@.take(i + 1)) =~= fields_view(fields@.take(i as int)).push(
                (v as nat, n as nat),
            ));
            lemma_le_fields_push(fields_view(fields@.take(i as int)), (v as nat, n as nat));
        }
        i = i + 1;
        assert(out@ =~= old(out)@ + le_fields(fields_view(fields@.take(i as int))));
    }
    assert(fields@.take(i as int) =~= fields@);
}

/// Where field `k` of a record stands: after the fields before it, its own
/// bytes.
pub proof fn lemma_le_fields_at(fields: Seq<(nat, nat)>, k: int)
    requires
        0 <= k < fields.len(),
    ensures
        le_fields(fields).subrange(
            fields_width(fields.take(k)) as int,
            (fields_width(fields.take(k)) + fields[k].1) as int,
        ) == le_bytes(fields[k].0, fields[k].1),
    decreases k,
{
    let head = le_bytes(fields[0].0, fields[0].1);
    let rest = fields.drop_first();
    lemma_le_bytes_len(fields[0].0, fields[0].1);
    lemma_le_fields_len(rest);
    lemma_le_bytes_len(fields[k].0, fields[k].1);
    if k == 0 {
        assert(fields.take(0) =~= Seq::<(nat, nat)>::empty());
        assert(le_fields(fields).subrange(0, fields[0].1 as int) =~= head);
    } else {
        lemma_le_fields_at(rest, k - 1);
        assert(fields.take(k).drop_first() =~= rest.take(k - 1));
        assert(fields.take(k)[0] == fields[0]);
        assert(fields_width(fields.take(k)) == fields[0].1 + fields_width(rest.take(k - 1)));
        lemma_le_fields_len(rest.take(k - 1));
        lemma_le_fields_prefix_width(rest, k - 1);
        let off = fields_width(rest.take(k - 1)) as int;
        assert(le_fields(fields).subrange(fields[0].1 + off, fields[0].1 + off + rest[k - 1].1)
            =~= le_fields(rest).subrange(off, off + rest[k - 1].1));
    }
}

/// The fields before field `k` take no more than the whole record.
pub proof fn lemma_le_fields_prefix_width(fields: Seq<(nat, nat)>, k: int)
    requires
        0 <= k < fields.len(),
    ensures
        fields_width(fields.take(k)) + fields[k].1 <= fields_width(fields),
    decreases k,
{
    if k == 0 {
        assert(fields.take(0) =~= Seq::<(nat, nat)>::empty());
        assert(fields_width(fields) >= fields[0].1);
    } else {
        let rest = fields.drop_first();
        lemma_le_fields_prefix_width(rest, k - 1);
        assert(fields.take(k).drop_first() =~= rest.take(k - 1));
        assert(fields.take(k)[0] == fields[0]);
    }
}

/// Appends the `n` low bytes of `v`, least significant first.
pub fn push_le(out: &mut Vec<u8>, v: u64, n: usize)
    ensures
        final(out)@ == old(out)@ + le_bytes(v as nat, n as nat),
    decreases n,
{
    if n > 0 {
        out.push((v % 256) as u8);
        push_le(out, v / 256, n - 1);
        assert(final(out)@ =~= old(out)@ + le_bytes(v as nat, n as nat));
    } else {
        assert(final(out)@ =~= old(out)@ + le_bytes(v as nat, n as nat));
    }
}

/// The width of a `usize` in bytes.
pub fn usize_bytes() -> (n: usize)
    ensures
        n == usize_width(),
        n == 4 || n == 8,
{
    (usize::BITS / 8) as usize
}

/// Appends every byte of `bytes`.
pub fn push_all(out: &mut Vec<u8>, bytes: &[u8])
    ensures
        final(out)@ == old(out)@ + bytes@,
{
    let mut i: usize = 0;
    while i < bytes.len()
        invariant
            i <= bytes@.len(),
            out@ == old(out)@ + bytes@.take(i as int),
        decreases bytes@.len() - i,
    {
        out.push(bytes[i]);
        i = i + 1;
        assert(out@ =~= old(out)@ + bytes@.take(i as int));
    }
    assert(bytes@.take(i as int) =~= bytes@);
}

} // verus!

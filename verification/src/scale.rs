//! The SCALE encoding of a money pot, the hash that identifies it, and the
//! name under which its end is scheduled.

use vstd::prelude::*;
use crate::types::{AmountType, EndType, MoneyPot, PotHash};

verus! {

/// The identifier of the pallet's currency lock, also the prefix of its schedule names.
pub const ID_LOCK_MONEY_POT: [u8; 8] = [109u8, 111u8, 110u8, 101u8, 121u8, 112u8, 111u8, 116u8];

/// The bytes of `"moneypot"`.
pub open spec fn lock_id_bytes() -> Seq<u8> {
    seq![109u8, 111u8, 110u8, 101u8, 121u8, 112u8, 111u8, 116u8]
}

/// The SCALE encoding of a `u64`: its eight bytes, least significant first.
#[verifier::opaque]
pub open spec fn le_bytes(x: u64) -> Seq<u8> {
    seq![
        (x % 0x100) as u8,
        ((x / 0x100) % 0x100) as u8,
        ((x / 0x1_0000) % 0x100) as u8,
        ((x / 0x100_0000) % 0x100) as u8,
        ((x / 0x1_0000_0000) % 0x100) as u8,
        ((x / 0x100_0000_0000) % 0x100) as u8,
        ((x / 0x1_0000_0000_0000) % 0x100) as u8,
        ((x / 0x100_0000_0000_0000) % 0x100) as u8,
    ]
}

/// The index of an amount type among its variants.
pub open spec fn amount_type_index(t: AmountType) -> u8 {
    match t {
        AmountType::Native => 0,
        AmountType::DOT => 1,
        AmountType::USD => 2,
    }
}

/// The SCALE encoding of an end type: the variant's index, then its fields.
pub open spec fn end_type_bytes(e: EndType) -> Seq<u8> {
    match e {
        EndType::Time(b) => seq![0u8] + le_bytes(b),
        EndType::AmountReached { amount_type, amount } => seq![1u8, amount_type_index(amount_type)]
            + le_bytes(amount),
    }
}

/// The SCALE encoding of an optional end type.
pub open spec fn end_time_bytes(e: Option<EndType>) -> Seq<u8> {
    match e {
        None => seq![0u8],
        Some(t) => seq![1u8] + end_type_bytes(t),
    }
}

/// The SCALE encoding of a money pot: its fields in order.
pub open spec fn money_pot_bytes(p: MoneyPot) -> Seq<u8> {
    le_bytes(p.owner) + le_bytes(p.receiver) + le_bytes(p.start_time) + end_time_bytes(p.end_time)
        + seq![if p.is_active { 1u8 } else { 0u8 }]
}

/// Blake2b with a 256-bit output, as `BlakeTwo256` computes it.
pub uninterp spec fn blake2_256(data: Seq<u8>) -> Seq<u8>;

/// The hash that identifies money pot `p`: Blake2-256 of its SCALE encoding.
pub open spec fn is_hash_of(h: PotHash, p: MoneyPot) -> bool {
    h.0@ == blake2_256(money_pot_bytes(p))
}

/// The hash of money pot `p`.
pub open spec fn hash_of(p: MoneyPot) -> PotHash {
    choose|h: PotHash| is_hash_of(h, p)
}

/// The name under which the end of the pot with hash `h` is scheduled: the
/// SCALE encoding of the pair of the lock identifier and `h`.
pub open spec fn schedule_name(h: PotHash) -> Seq<u8> {
    lock_id_bytes() + h.0@
}

/// `parity_scale_codec::Encode::encode` on a `u64`: SCALE writes fixed-width
/// integers little-endian.
#[verifier::external_body]
fn encode_u64(x: u64) -> (r: Vec<u8>)
    ensures
        r@ == le_bytes(x),
{
    parity_scale_codec::Encode::encode(&x)
}

/// `parity_scale_codec::Encode::encode` on the pair of a lock identifier and a
/// hash: SCALE writes fixed-size byte arrays as they are and a tuple as the
/// concatenation of its fields.
#[verifier::external_body]
fn encode_id_and_hash(id: [u8; 8], h: [u8; 32]) -> (r: Vec<u8>)
    ensures
        r@ == id@ + h@,
{
    parity_scale_codec::Encode::encode(&(id, h))
}

/// `<BlakeTwo256 as Hasher>::hash` of `frame_support::sp_runtime::traits`, which
/// is `sp_io::hashing::blake2_256`: the result is named `blake2_256`.
#[verifier::external_body]
fn blake_two_256(data: &[u8]) -> (r: [u8; 32])
    ensures
        r@ == blake2_256(data@),
{
    <frame_support::sp_runtime::traits::BlakeTwo256 as frame_support::sp_runtime::traits::Hash>::hash(
        data,
    ).0
}

/// Appends the encoding of `x` to `out`.
fn push_u64(out: &mut Vec<u8>, x: u64)
    ensures
        final(out)@ == old(out)@ + le_bytes(x),
{
    let mut bytes = encode_u64(x);
    out.append(&mut bytes);
}

/// The SCALE encoding of `p`.
pub fn encode_money_pot(p: &MoneyPot) -> (r: Vec<u8>)
    ensures
        r@ == money_pot_bytes(*p),
{
    let mut out: Vec<u8> = Vec::new();
    push_u64(&mut out, p.owner);
    push_u64(&mut out, p.receiver);
    push_u64(&mut out, p.start_time);
    let ghost before_end = out@;
    match p.end_time {
        None => {
            out.push(0u8);
        },
        Some(EndType::Time(b)) => {
            out.push(1u8);
            out.push(0u8);
            push_u64(&mut out, b);
        },
        Some(EndType::AmountReached { amount_type, amount }) => {
            out.push(1u8);
            out.push(1u8);
            let index: u8 = match amount_type {
                AmountType::Native => 0,
                AmountType::DOT => 1,
                AmountType::USD => 2,
            };
            out.push(index);
            push_u64(&mut out, amount);
        },
    }
    assert(out@ =~= before_end + end_time_bytes(p.end_time));
    out.push(if p.is_active { 1u8 } else { 0u8 });
    assert(out@ =~= money_pot_bytes(*p));
    out
}

/// The hash that identifies `p`.
pub fn money_pot_hash(p: &MoneyPot) -> (r: PotHash)
    ensures
        is_hash_of(r, *p),
        r == hash_of(*p),
{
    let bytes = encode_money_pot(p);
    let h = PotHash(blake_two_256(bytes.as_slice()));
    proof {
        assert(is_hash_of(h, *p));
        let c = hash_of(*p);
        assert(is_hash_of(c, *p));
        assert(c.0 =~= h.0);
    }
    h
}

/// The schedule name of the pot with hash `h`.
pub fn encode_schedule_name(h: &PotHash) -> (r: Vec<u8>)
    ensures
        r@ == schedule_name(*h),
{
    let r = encode_id_and_hash(ID_LOCK_MONEY_POT, h.0);
    assert(ID_LOCK_MONEY_POT@ =~= lock_id_bytes());
    r
}

// ---- reading an encoding back ----

/// The number that the bytes `bs` write, least significant byte first.
pub open spec fn le_value(bs: Seq<u8>) -> int
    decreases bs.len(),
{
    if bs.len() == 0 {
        0
    } else {
        bs[0] + 256 * le_value(bs.drop_first())
    }
}

proof fn lemma_le_value_8(bs: Seq<u8>)
    requires
        bs.len() == 8,
    ensures
        le_value(bs) == bs[0] + 256 * (bs[1] + 256 * (bs[2] + 256 * (bs[3] + 256 * (bs[4] + 256 * (bs[5] + 256
            * (bs[6] + 256 * bs[7])))))),
{
    let t1 = bs.drop_first();
    let t2 = t1.drop_first();
    let t3 = t2.drop_first();
    let t4 = t3.drop_first();
    let t5 = t4.drop_first();
    let t6 = t5.drop_first();
    let t7 = t6.drop_first();
    let t8 = t7.drop_first();
    assert(le_value(t8) == 0);
    assert(le_value(t7) == t7[0] + 256 * le_value(t8));
    assert(le_value(t6) == t6[0] + 256 * le_value(t7));
    assert(le_value(t5) == t5[0] + 256 * le_value(t6));
    assert(le_value(t4) == t4[0] + 256 * le_value(t5));
    assert(le_value(t3) == t3[0] + 256 * le_value(t4));
    assert(le_value(t2) == t2[0] + 256 * le_value(t3));
    assert(le_value(t1) == t1[0] + 256 * le_value(t2));
    assert(le_value(bs) == bs[0] + 256 * le_value(t1));
}

/// `y` is its last byte and 256 times the rest, and the rest of `y / c` is `y / (256 c)`.
proof fn lemma_byte_step(x: int, c: int)
    requires
        0 <= x,
        0 < c,
    ensures
        x / c == (x / c) % 256 + 256 * (x / (c * 256)),
{
    vstd::arithmetic::div_mod::lemma_fundamental_div_mod(x / c, 256);
    vstd::arithmetic::div_mod::lemma_div_denominator(x, c, 256);
}

/// The encoding of a `u64` is eight bytes that, read least significant
/// first, give the number back.
pub proof fn law_le_bytes_reads_back(x: u64)
    ensures
        le_bytes(x).len() == 8,
        le_value(le_bytes(x)) == x,
{
    reveal(le_bytes);
    let bs = le_bytes(x);
    lemma_le_value_8(bs);
    let y = x as int;
    lemma_byte_step(y, 1);
    lemma_byte_step(y, 0x100);
    lemma_byte_step(y, 0x1_0000);
    lemma_byte_step(y, 0x100_0000);
    lemma_byte_step(y, 0x1_0000_0000);
    lemma_byte_step(y, 0x100_0000_0000);
    lemma_byte_step(y, 0x1_0000_0000_0000);
    assert(y / 0x100_0000_0000_0000 < 256);
    assert(bs[0] == y % 0x100);
    assert(bs[7] == (y / 0x100_0000_0000_0000) % 0x100);
}

/// Reading the encoding of a pot back gives the pot: its owner, receiver and
/// start are the first three `u64`s, read least significant byte first; then
/// comes its end, as an option (0 for none, 1 then the end) of an end type (0
/// then the end block, or 1, the amount type's index and the target); last
/// comes 1 for an open pot and 0 for a closed one.
pub proof fn law_money_pot_bytes_read_back(p: MoneyPot)
    ensures
        ({
            let bs = money_pot_bytes(p);
            &&& le_value(bs.subrange(0, 8)) == p.owner
            &&& le_value(bs.subrange(8, 16)) == p.receiver
            &&& le_value(bs.subrange(16, 24)) == p.start_time
            &&& match p.end_time {
                None => bs.len() == 26 && bs[24] == 0,
                Some(EndType::Time(b)) => {
                    &&& bs.len() == 35
                    &&& bs[24] == 1 && bs[25] == 0
                    &&& le_value(bs.subrange(26, 34)) == b
                },
                Some(EndType::AmountReached { amount_type, amount }) => {
                    &&& bs.len() == 36
                    &&& bs[24] == 1 && bs[25] == 1
                    &&& bs[26] == (match amount_type {
                        AmountType::Native => 0u8,
                        AmountType::DOT => 1u8,
                        AmountType::USD => 2u8,
                    })
                    &&& le_value(bs.subrange(27, 35)) == amount
                },
            }
            &&& bs[bs.len() - 1] == (if p.is_active { 1u8 } else { 0u8 })
        }),
{
    law_le_bytes_reads_back(p.owner);
    law_le_bytes_reads_back(p.receiver);
    law_le_bytes_reads_back(p.start_time);
    let bs = money_pot_bytes(p);
    assert(bs.subrange(0, 8) =~= le_bytes(p.owner));
    assert(bs.subrange(8, 16) =~= le_bytes(p.receiver));
    assert(bs.subrange(16, 24) =~= le_bytes(p.start_time));
    match p.end_time {
        None => {},
        Some(EndType::Time(b)) => {
            law_le_bytes_reads_back(b);
            assert(bs.subrange(26, 34) =~= le_bytes(b));
        },
        Some(EndType::AmountReached { amount_type, amount }) => {
            law_le_bytes_reads_back(amount);
            assert(bs.subrange(27, 35) =~= le_bytes(amount));
        },
    }
}

/// The schedule name of a pot is the SCALE encoding of the pair of the lock
/// identifier and its hash: the eight bytes of "moneypot", then the
/// hash's 32 bytes, as they are.
pub proof fn law_schedule_name_bytes(h: PotHash)
    ensures
        schedule_name(h).len() == 40,
        schedule_name(h).subrange(0, 8) == seq![109u8, 111u8, 110u8, 101u8, 121u8, 112u8, 111u8, 116u8],
        schedule_name(h).subrange(8, 40) == h.0@,
{
    assert(schedule_name(h).subrange(0, 8) =~= seq![109u8, 111u8, 110u8, 101u8, 121u8, 112u8, 111u8, 116u8]);
    assert(schedule_name(h).subrange(8, 40) =~= h.0@);
}

} // verus!

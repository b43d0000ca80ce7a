//! The binary form of a gas quantity: eight bytes, least significant first.

use crate::error::GasError;
use crate::gas::Gas;
use vstd::prelude::*;

verus! {

/// Bytes in the binary form of a quantity.
pub const ENCODED_LEN: usize = 8;

/// The shape of the binary form, for a reader that checks a payload
/// against a description in place of the type: a structure of one unnamed
/// field.
#[derive(Clone, Copy, Debug, PartialEq, Eq)]
pub struct BinarySchema {
    /// The name that the structure is declared under.
    pub declaration: &'static str,
    /// The declared type of the one field.
    pub field: &'static str,
    /// Bytes that the field takes.
    pub width: usize,
}

/// 256 to the power `k`: how many values `k` bytes can tell apart.
pub open spec fn pow256(k: nat) -> nat
    decreases k,
{
    if k == 0 {
        1
    } else {
        256 * pow256((k - 1) as nat)
    }
}

/// The `width` low bytes of `value`, least significant first.
pub open spec fn le_bytes(value: nat, width: nat) -> Seq<u8>
    decreases width,
{
    if width == 0 {
        Seq::empty()
    } else {
        seq![(value % 256) as u8] + le_bytes(value / 256, (width - 1) as nat)
    }
}

/// The number that `bytes` hold, least significant byte first.
pub open spec fn le_value(bytes: Seq<u8>) -> nat
    decreases bytes.len(),
{
    if bytes.len() == 0 {
        0
    } else {
        bytes[0] as nat + 256 * le_value(bytes.drop_first())
    }
}

/// The binary form of `gas`.
pub open spec fn encoding(gas: Gas) -> Seq<u8> {
    le_bytes(gas.0 as nat, ENCODED_LEN as nat)
}

/// What decoding `bytes` gives: the quantity in the first eight bytes, if
/// there are that many.
pub open spec fn decoding(bytes: Seq<u8>) -> Result<Gas, GasError> {
    if bytes.len() < ENCODED_LEN {
        Err(GasError::DecodeError)
    } else {
        Ok(Gas(le_value(bytes.take(ENCODED_LEN as int)) as u64))
    }
}

/// `width` bytes are what `le_bytes` gives.
pub proof fn lemma_le_bytes_len(value: nat, width: nat)
    ensures
        le_bytes(value, width).len() == width,
    decreases width,
{
    if width > 0 {
        lemma_le_bytes_len(value / 256, (width - 1) as nat);
    }
}

/// What `k` bytes hold is below 256 to the `k`.
pub proof fn lemma_le_value_bound(bytes: Seq<u8>)
    ensures
        le_value(bytes) < pow256(bytes.len()),
    decreases bytes.len(),
{
    if bytes.len() > 0 {
        lemma_le_value_bound(bytes.drop_first());
    }
}

/// A value that fits in `width` bytes is what its bytes hold.
pub proof fn lemma_le_value_of_bytes(value: nat, width: nat)
    requires
        value < pow256(width),
    ensures
        le_value(le_bytes(value, width)) == value,
    decreases width,
{
    if width > 0 {
        let rest = le_bytes(value / 256, (width - 1) as nat);
        lemma_le_value_of_bytes(value / 256, (width - 1) as nat);
        assert(le_bytes(value, width).drop_first() =~= rest);
    }
}

/// Bytes are the bytes of what they hold: no two payloads of one length
/// hold the same number.
pub proof fn lemma_le_bytes_of_value(bytes: Seq<u8>)
    ensures
        le_bytes(le_value(bytes), bytes.len()) == bytes,
    decreases bytes.len(),
{
    if bytes.len() > 0 {
        lemma_le_bytes_of_value(bytes.drop_first());
        assert(seq![bytes[0]] + bytes.drop_first() =~= bytes);
    }
}

/// More bytes tell more values apart.
pub proof fn lemma_pow256_grows(j: nat, k: nat)
    requires
        j <= k,
    ensures
        pow256(j) <= pow256(k),
    decreases k,
{
    if j < k {
        lemma_pow256_grows(j, (k - 1) as nat);
    }
}

/// Eight bytes hold exactly the 64-bit numbers.
pub proof fn lemma_eight_bytes()
    ensures
        pow256(ENCODED_LEN as nat) == u64::MAX + 1,
{
    reveal_with_fuel(pow256, 9);
}

/// Decoding the binary form of a quantity gives the quantity again, also
/// with other bytes behind it.
pub proof fn lemma_binary_round_trip(gas: Gas, behind: Seq<u8>)
    ensures
        encoding(gas).len() == ENCODED_LEN,
        decoding(encoding(gas)) == Ok::<Gas, GasError>(gas),
        decoding(encoding(gas) + behind) == Ok::<Gas, GasError>(gas),
{
    lemma_eight_bytes();
    lemma_le_bytes_len(gas.0 as nat, ENCODED_LEN as nat);
    lemma_le_value_of_bytes(gas.0 as nat, ENCODED_LEN as nat);
    assert(encoding(gas).take(ENCODED_LEN as int) =~= encoding(gas));
    assert((encoding(gas) + behind).take(ENCODED_LEN as int) =~= encoding(gas));
}

/// Eight bytes are the binary form of the quantity they decode to: no two
/// payloads hold the same quantity.
pub proof fn lemma_binary_form_unique(bytes: Seq<u8>)
    requires
        bytes.len() == ENCODED_LEN,
    ensures
        decoding(bytes) is Ok,
        encoding(decoding(bytes).unwrap()) == bytes,
{
    lemma_eight_bytes();
    lemma_le_value_bound(bytes);
    lemma_le_bytes_of_value(bytes);
    assert(bytes.take(ENCODED_LEN as int) =~= bytes);
}

/// A payload of fewer than eight bytes does not decode.
pub proof fn lemma_truncated(bytes: Seq<u8>)
    requires
        bytes.len() < ENCODED_LEN,
    ensures
        decoding(bytes) == Err::<Gas, GasError>(GasError::DecodeError),
{
}

impl Gas {
    /// The shape of the binary form: a structure `Gas` whose one field is
    /// an unsigned 64-bit integer, eight bytes wide.
    pub fn binary_schema() -> (schema: BinarySchema)
        ensures
            schema.declaration@ == "Gas"@,
            schema.field@ == "u64"@,
            schema.width == ENCODED_LEN,
    {
        BinarySchema { declaration: "Gas", field: "u64", width: ENCODED_LEN }
    }

    /// The binary form of the quantity: eight bytes, least significant
    /// first.
    pub fn to_bytes(&self) -> (bytes: Vec<u8>)
        ensures
            bytes@ == encoding(*self),
            bytes@.len() == ENCODED_LEN,
    {
        let mut bytes: Vec<u8> = Vec::with_capacity(ENCODED_LEN);
        let mut rest: u64 = self.0;
        let mut done: usize = 0;
        while done < ENCODED_LEN
            invariant
                done <= ENCODED_LEN,
                bytes@.len() == done,
                encoding(*self) =~= bytes@ + le_bytes(rest as nat, (ENCODED_LEN - done) as nat),
            decreases ENCODED_LEN - done,
        {
            bytes.push((rest % 256) as u8);
            rest = rest / 256;
            done = done + 1;
        }
        bytes
    }

    /// Reads a quantity from the front of `bytes`. Fails with `DecodeError`
    /// if there are fewer than eight bytes; bytes after the eighth are not
    /// read.
    pub fn from_bytes(bytes: &[u8]) -> (r: Result<Gas, GasError>)
        ensures
            r == decoding(bytes@),
    {
        if bytes.len() < ENCODED_LEN {
            return Err(GasError::DecodeError);
        }
        let ghost payload = bytes@.take(ENCODED_LEN as int);
        let mut units: u64 = 0;
        let mut left: usize = ENCODED_LEN;
        proof {
            lemma_eight_bytes();
            assert(payload.subrange(ENCODED_LEN as int, ENCODED_LEN as int) =~= Seq::<u8>::empty());
        }
        while left > 0
            invariant
                left <= ENCODED_LEN <= bytes@.len(),
                payload == bytes@.take(ENCODED_LEN as int),
                units == le_value(payload.subrange(left as int, ENCODED_LEN as int)),
                pow256(ENCODED_LEN as nat) == u64::MAX + 1,
            decreases left,
        {
            let ghost held = payload.subrange(left as int, ENCODED_LEN as int);
            left = left - 1;
            let ghost more = payload.subrange(left as int, ENCODED_LEN as int);
            proof {
                assert(more.drop_first() =~= held);
                lemma_le_value_bound(more);
                lemma_pow256_grows(more.len(), ENCODED_LEN as nat);
            }
            units = units * 256 + bytes[left] as u64;
        }
        assert(payload.subrange(0, ENCODED_LEN as int) =~= payload);
        Ok(Gas(units))
    }
}

} // verus!

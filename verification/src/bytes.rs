//! Fixed-width little-endian unsigned integers: the primitive layer under
//! every tag, count prefix and scalar of the wire format.

use vstd::prelude::*;

verus! {

/// A scalar or length-prefix width: 1, 2, 4 or 8 bytes.
#[derive(Clone, Copy, PartialEq, Eq, Structural, Debug)]
pub enum Width {
    /// One byte.
    W1,
    /// Two bytes.
    W2,
    /// Four bytes.
    W4,
    /// Eight bytes.
    W8,
}

/// How many bytes a width spans.
pub open spec fn w_bytes(w: Width) -> nat {
    match w {
        Width::W1 => 1,
        Width::W2 => 2,
        Width::W4 => 4,
        Width::W8 => 8,
    }
}

/// 256 to the k-th power: how many values k bytes can hold.
pub open spec fn pow256(k: nat) -> nat
    decreases k,
{
    if k == 0 {
        1
    } else {
        256 * pow256((k - 1) as nat)
    }
}

/// The greatest value a width can encode.
pub open spec fn w_max(w: Width) -> nat {
    (pow256(w_bytes(w)) - 1) as nat
}

/// The little-endian encoding of n, k bytes long; n is truncated to k bytes.
pub open spec fn le_seq(k: nat, n: nat) -> Seq<u8>
    decreases k,
{
    if k == 0 {
        Seq::empty()
    } else {
        seq![(n % 256) as u8] + le_seq((k - 1) as nat, n / 256)
    }
}

/// The value a little-endian byte sequence holds.
pub open spec fn le_val(bytes: Seq<u8>) -> nat
    decreases bytes.len(),
{
    if bytes.len() == 0 {
        0
    } else {
        bytes[0] as nat + 256 * le_val(bytes.drop_first())
    }
}

/// Reading k bytes little-endian at a position: the value and the position
/// after it, or nothing if the input ends too early.
pub open spec fn dec_le(k: nat, s: Seq<u8>, pos: nat) -> Option<(nat, nat)> {
    if pos + k <= s.len() {
        Some((le_val(s.subrange(pos as int, (pos + k) as int)), (pos + k) as nat))
    } else {
        None
    }
}

/// A little-endian encoding is exactly k bytes long.
pub proof fn lemma_le_seq_len(k: nat, n: nat)
    ensures
        le_seq(k, n).len() == k,
    decreases k,
{
    if k > 0 {
        lemma_le_seq_len((k - 1) as nat, n / 256);
    }
}

/// A k-byte sequence holds a value below 256^k.
pub proof fn lemma_le_val_bound(bytes: Seq<u8>)
    ensures
        le_val(bytes) < pow256(bytes.len()),
    decreases bytes.len(),
{
    if bytes.len() > 0 {
        lemma_le_val_bound(bytes.drop_first());
    }
}

/// Larger widths hold at least as many values.
pub proof fn lemma_pow256_increases(a: nat, b: nat)
    requires
        a <= b,
    ensures
        pow256(a) <= pow256(b),
    decreases b,
{
    if a < b {
        lemma_pow256_increases(a, (b - 1) as nat);
    }
}

/// Reading back a little-endian encoding restores the value, as long as the
/// value fits the width.
pub proof fn lemma_le_round_trip(k: nat, n: nat)
    requires
        n < pow256(k),
    ensures
        le_val(le_seq(k, n)) == n,
    decreases k,
{
    if k > 0 {
        assert(n == 256 * (n / 256) + n % 256) by (nonlinear_arith);
        assert(n / 256 < pow256((k - 1) as nat)) by {
            if n / 256 >= pow256((k - 1) as nat) {
                assert(n >= 256 * (n / 256));
                assert(256 * (n / 256) >= 256 * pow256((k - 1) as nat)) by (nonlinear_arith)
                    requires
                        n / 256 >= pow256((k - 1) as nat),
                ;
            }
        }
        lemma_le_round_trip((k - 1) as nat, n / 256);
        assert(le_seq(k, n).drop_first() =~= le_seq((k - 1) as nat, n / 256));
    }
}

/// The counts each width can express: a one-byte prefix cannot number more
/// than 255 elements, two bytes stop at 65535, and so on.
pub proof fn lemma_width_limits()
    ensures
        w_max(Width::W1) == 255,
        w_max(Width::W2) == 0xffff,
        w_max(Width::W4) == 0xffff_ffff,
        w_max(Width::W8) == 0xffff_ffff_ffff_ffff,
{
    reveal_with_fuel(pow256, 9);
}

/// How many bytes a width spans, as a machine integer.
pub fn width_bytes(w: Width) -> (r: usize)
    ensures
        r as nat == w_bytes(w),
        1 <= r <= 8,
{
    match w {
        Width::W1 => 1,
        Width::W2 => 2,
        Width::W4 => 4,
        Width::W8 => 8,
    }
}

/// The greatest value a width can encode, as a machine integer.
pub fn width_max(w: Width) -> (r: u64)
    ensures
        r as nat == w_max(w),
{
    proof {
        reveal_with_fuel(pow256, 9);
    }
    match w {
        Width::W1 => 0xff,
        Width::W2 => 0xffff,
        Width::W4 => 0xffff_ffff,
        Width::W8 => 0xffff_ffff_ffff_ffff,
    }
}

/// Append the k-byte little-endian encoding of n.
pub fn write_le_bytes(k: usize, n: u64, out: &mut Vec<u8>)
    ensures
        final (out)@ == old(out)@ + le_seq(k as nat, n as nat),
    decreases k,
{
    if k == 0 {
        proof {
            assert(out@ =~= old(out)@ + le_seq(0, n as nat));
        }
        return ;
    }
    let b = (n % 256) as u8;
    out.push(b);
    write_le_bytes(k - 1, n / 256, out);
    proof {
        assert(out@ =~= old(out)@ + le_seq(k as nat, n as nat));
    }
}

/// Read k bytes little-endian at pos, for widths up to eight bytes.
pub fn read_le_bytes(k: usize, input: &Vec<u8>, pos: usize) -> (r: Option<(u64, usize)>)
    requires
        k <= 8,
    ensures
        match r {
            Some(vp) => dec_le(k as nat, input@, pos as nat) == Some(
                (vp.0 as nat, vp.1 as nat),
            ) && vp.1 <= input@.len(),
            None => dec_le(k as nat, input@, pos as nat) is None,
        },
    decreases k,
{
    if k == 0 {
        if pos > input.len() {
            return None;
        }
        proof {
            assert(input@.subrange(pos as int, pos as int) =~= Seq::<u8>::empty());
        }
        return Some((0, pos));
    }
    if pos >= input.len() {
        return None;
    }
    let b = input[pos];
    match read_le_bytes(k - 1, input, pos + 1) {
        None => None,
        Some((v, p)) => {
            proof {
                let whole = input@.subrange(pos as int, pos as int + k as int);
                let rest = input@.subrange(pos as int + 1, pos as int + k as int);
                assert(whole.drop_first() =~= rest);
                assert(whole[0] == input@[pos as int]);
                lemma_le_val_bound(rest);
                lemma_pow256_increases(rest.len(), 7);
                assert(pow256(7) == 0x100_0000_0000_0000) by {
                    reveal_with_fuel(pow256, 8);
                }
            }
            let val = b as u64 + 256 * v;
            Some((val, p))
        },
    }
}

} // verus!

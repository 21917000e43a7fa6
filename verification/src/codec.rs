//! Variable-length positional encoding of candidate integers.
//!
//! An integer is written in base 64 with the RFC 4648 base64 alphabet,
//! least-significant digit first: the symbol at position `k` of the encoded
//! string carries weight `64^k`.  Encoding is bounded by a capacity; an
//! integer whose encoding needs more symbols than the capacity allows is
//! unrepresentable and the encoder reports overflow instead of truncating.

use vstd::prelude::*;

verus! {

/// The byte of the RFC 4648 base64 symbol for digit `d` (`d < 64`):
/// `A`..`Z`, then `a`..`z`, then `0`..`9`, then `+` and `/`.
pub open spec fn symbol_of(d: nat) -> u8 {
    if d < 26 {
        (65 + d) as u8
    } else if d < 52 {
        (97 + (d - 26)) as u8
    } else if d < 62 {
        (48 + (d - 52)) as u8
    } else if d == 62 {
        43u8
    } else {
        47u8
    }
}

/// The digit value of a base64 symbol byte; the inverse of `symbol_of` on
/// the 64 alphabet bytes.
pub open spec fn digit_of(b: u8) -> nat {
    if 65 <= b && b <= 90 {
        (b - 65) as nat
    } else if 97 <= b && b <= 122 {
        (26 + (b - 97)) as nat
    } else if 48 <= b && b <= 57 {
        (52 + (b - 48)) as nat
    } else if b == 43 {
        62
    } else {
        63
    }
}

/// The encoding of `v`: its base-64 digits, least significant first.
pub open spec fn encode64(v: nat) -> Seq<u8>
    decreases v,
{
    if v < 64 {
        seq![symbol_of(v)]
    } else {
        seq![symbol_of(v % 64)] + encode64(v / 64)
    }
}

/// Decoding by positional weights: the symbol at position `k` carries
/// weight `64^k`.
pub open spec fn decode64(s: Seq<u8>) -> nat
    decreases s.len(),
{
    if s.len() == 0 {
        0
    } else {
        digit_of(s[0]) + 64 * decode64(s.drop_first())
    }
}

/// Every symbol byte is its own digit again, and every symbol is ASCII.
pub proof fn lemma_symbol_of_inverse(d: nat)
    requires
        d < 64,
    ensures
        digit_of(symbol_of(d)) == d,
        symbol_of(d) < 128,
{
}

/// An encoding always holds at least one symbol: zero still takes a digit.
pub proof fn lemma_encode64_len(v: nat)
    ensures
        encode64(v).len() >= 1,
{
}

/// Every byte of an encoding is an ASCII base64 symbol.
pub proof fn lemma_encode64_ascii(v: nat)
    ensures
        forall|i: int| 0 <= i < encode64(v).len() ==> encode64(v)[i] < 128,
    decreases v,
{
    if v < 64 {
        lemma_symbol_of_inverse(v);
    } else {
        lemma_symbol_of_inverse(v % 64);
        lemma_encode64_ascii(v / 64);
        assert forall|i: int| 0 <= i < encode64(v).len() implies encode64(v)[i] < 128 by {
            if i > 0 {
                assert(encode64(v)[i] == encode64(v / 64)[i - 1]);
            }
        }
    }
}

/// Round trip: decoding an encoding by positional weights gives the
/// encoded integer back, for every integer.
pub proof fn lemma_encode64_round_trip(v: nat)
    ensures
        decode64(encode64(v)) == v,
    decreases v,
{
    if v < 64 {
        lemma_symbol_of_inverse(v);
        let s = encode64(v);
        assert(s[0] == symbol_of(v));
        assert(s.drop_first() =~= Seq::<u8>::empty());
        assert(decode64(s) == digit_of(s[0]) + 64 * decode64(s.drop_first()));
        assert(decode64(s.drop_first()) == 0);
    } else {
        lemma_symbol_of_inverse(v % 64);
        lemma_encode64_round_trip(v / 64);
        let s = encode64(v);
        assert(s[0] == symbol_of(v % 64));
        assert(s.drop_first() =~= encode64(v / 64));
        assert(decode64(s) == digit_of(s[0]) + 64 * decode64(s.drop_first()));
        assert(v % 64 + 64 * (v / 64) == v) by {
            vstd::arithmetic::div_mod::lemma_fundamental_div_mod(v as int, 64);
        }
    }
}

/// The base64 symbol byte for digit `d`.
fn symbol(d: u64) -> (r: u8)
    requires
        d < 64,
    ensures
        r == symbol_of(d as nat),
{
    if d < 26 {
        65 + (d as u8)
    } else if d < 52 {
        97 + ((d - 26) as u8)
    } else if d < 62 {
        48 + ((d - 52) as u8)
    } else if d == 62 {
        43
    } else {
        47
    }
}

/// Appends the encoding of `value` to `buf` when it fits within `capacity`
/// symbols; reports overflow and leaves `buf` unchanged when it does not.
pub fn push_nonce(buf: &mut Vec<u8>, value: u64, capacity: usize) -> (fit: bool)
    ensures
        fit ==> encode64(value as nat).len() <= capacity && final(buf)@ == old(buf)@ + encode64(
            value as nat,
        ),
        !fit ==> encode64(value as nat).len() > capacity && final(buf)@ == old(buf)@,
{
    let base_len = buf.len();
    let mut cur = value;
    let mut j: usize = 0;
    let mut done = false;
    while !done && j < capacity
        invariant
            j <= capacity,
            buf@.len() == base_len + j,
            base_len == old(buf)@.len(),
            buf@.subrange(0, base_len as int) == old(buf)@,
            !done ==> encode64(value as nat) == buf@.skip(base_len as int) + encode64(cur as nat),
            done ==> buf@.skip(base_len as int) == encode64(value as nat) && j >= 1,
        decreases capacity - j,
    {
        let d = cur % 64;
        let ghost before = buf@;
        buf.push(symbol(d));
        assert(buf@.skip(base_len as int) =~= before.skip(base_len as int) + seq![
            symbol_of(d as nat),
        ]);
        if cur / 64 == 0 {
            assert(encode64(cur as nat) =~= seq![symbol_of(d as nat)]);
            done = true;
        } else {
            assert(encode64(cur as nat) =~= seq![symbol_of(d as nat)] + encode64(
                (cur / 64) as nat,
            ));
            cur = cur / 64;
        }
        j = j + 1;
    }
    if done {
        assert(buf@ =~= old(buf)@ + encode64(value as nat));
        true
    } else {
        proof {
            lemma_encode64_len(cur as nat);
        }
        buf.truncate(base_len);
        assert(buf@ =~= old(buf)@);
        false
    }
}

} // verus!

use vstd::prelude::*;

verus! {

use vstd::arithmetic::div_mod::{
    lemma_div_decreases,
    lemma_div_is_ordered,
    lemma_div_multiples_vanish,
    lemma_fundamental_div_mod,
};

/// One more than the largest value a varint of this library may carry.
pub open spec fn u64_bound() -> nat {
    0x1_0000_0000_0000_0000
}

/// Base-128 varint encoding of an unsigned integer: the low seven bits of the
/// value come first, and the high bit of a byte is set exactly when more
/// bytes follow.
pub open spec fn uvarint(x: nat) -> Seq<u8>
    decreases x,
{
    if x < 128 {
        seq![x as u8]
    } else {
        seq![(x % 128 + 128) as u8] + uvarint(x / 128)
    }
}

/// What reading one varint from the front of `s` yields: the decoded value
/// and how many bytes it occupied. Values that do not fit in 64 bits are
/// rejected, as is an input that ends inside a varint.
pub open spec fn dec_uvarint(s: Seq<u8>) -> Option<(nat, nat)>
    decreases s.len(),
{
    if s.len() == 0 {
        None
    } else if s[0] < 128 {
        Some(((s[0] as nat), 1nat))
    } else {
        match dec_uvarint(s.skip(1)) {
            Some(p) => {
                let v = (s[0] - 128) + 128 * p.0;
                if v < u64_bound() {
                    Some((v as nat, p.1 + 1))
                } else {
                    None
                }
            },
            None => None,
        }
    }
}

/// A successful varint read consumes between one byte and the whole input,
/// and yields a value below two to the sixty-fourth.
pub proof fn lemma_dec_uvarint_bounds(s: Seq<u8>)
    ensures
        dec_uvarint(s) matches Some(p) ==> 1 <= p.1 <= s.len() && p.0 < u64_bound(),
    decreases s.len(),
{
    if s.len() > 0 && s[0] >= 128 {
        lemma_dec_uvarint_bounds(s.skip(1));
    }
}

/// Law: a varint read from the front of its own encoding, whatever follows
/// it, yields back the encoded value and consumes exactly the encoding.
pub proof fn lemma_uvarint_round_trip(x: nat, rest: Seq<u8>)
    requires
        x < u64_bound(),
    ensures
        dec_uvarint(uvarint(x) + rest) == Some((x, uvarint(x).len())),
    decreases x,
{
    let s = uvarint(x) + rest;
    if x < 128 {
        assert(s[0] == x as u8);
        assert(dec_uvarint(s) == Some((x, 1nat)));
    } else {
        let b = (x % 128 + 128) as u8;
        assert(x % 128 + 128 < 256);
        assert(s[0] == b && b >= 128);
        assert(s.skip(1) =~= uvarint(x / 128) + rest);
        lemma_div_decreases(x as int, 128);
        lemma_uvarint_round_trip(x / 128, rest);
        lemma_fundamental_div_mod(x as int, 128);
        assert((b - 128) + 128 * (x / 128) == x);
        assert(dec_uvarint(s) == Some((x, uvarint(x).len())));
    }
}

/// Appends the varint encoding of `x` to `out`.
pub fn write_uvarint(out: &mut Vec<u8>, x: u64)
    ensures
        final(out)@ == old(out)@ + uvarint(x as nat),
    decreases x,
{
    if x < 128 {
        out.push(x as u8);
        assert(out@ =~= old(out)@ + uvarint(x as nat));
    } else {
        out.push((x % 128 + 128) as u8);
        proof {
            lemma_div_decreases(x as int, 128);
        }
        write_uvarint(out, x / 128);
        assert(out@ =~= old(out)@ + uvarint(x as nat));
    }
}

/// Reads one varint from `buf` starting at `pos`, returning the value and
/// the number of bytes consumed, or nothing on a truncated or oversized
/// varint, exactly as `dec_uvarint` says.
pub fn read_uvarint(buf: &Vec<u8>, pos: usize) -> (r: Option<(u64, usize)>)
    requires
        pos <= buf.len(),
    ensures
        match dec_uvarint(buf@.skip(pos as int)) {
            Some(p) => r matches Some(q) && q.0 as nat == p.0 && q.1 as nat == p.1 && pos + q.1
                <= buf.len(),
            None => r is None,
        },
    decreases buf.len() - pos,
{
    if pos == buf.len() {
        proof {
            assert(buf@.skip(pos as int) =~= Seq::<u8>::empty());
        }
        None
    } else {
        let b = buf[pos];
        assert(buf@.skip(pos as int)[0] == b);
        if b < 128 {
            Some((b as u64, 1))
        } else {
            proof {
                assert(buf@.skip(pos as int).skip(1) =~= buf@.skip(pos as int + 1));
            }
            match read_uvarint(buf, pos + 1) {
                None => None,
                Some(p) => {
                    let rem = (b - 128) as u64;
                    proof {
                        let m: int = u64::MAX - rem;
                        lemma_fundamental_div_mod(m, 128);
                        if 128 * (p.0 as int) <= m {
                            lemma_div_is_ordered(128 * (p.0 as int), m, 128);
                            lemma_div_multiples_vanish(p.0 as int, 128);
                        }
                    }
                    if p.0 <= (u64::MAX - rem) / 128 {
                        Some((rem + 128 * p.0, p.1 + 1))
                    } else {
                        None
                    }
                },
            }
        }
    }
}

} // verus!

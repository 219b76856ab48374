//! The envelope: a length-prefixed wrapping of serialized bytes.
//!
//! The host boundary's calling convention serializes its argument, and the
//! payload itself is a serialized string, so every outbound payload carries
//! two nested envelopes and every return value carries one. An envelope is a
//! compact length prefix followed by the raw bytes: the prefix stores
//! `4 * len` plus a two-bit mode in one, two or four little-endian bytes.
//! Lengths must stay below 2^30, which the four-byte mode exhausts.

use vstd::prelude::*;

verus! {

/// Largest length an envelope can carry.
pub const MAX_ENVELOPE_LEN: usize = 0x4000_0000;

/// The compact form of a length `n < 2^30`.
pub open spec fn compact(n: nat) -> Seq<u8> {
    if n < 64 {
        seq![(4 * n) as u8]
    } else if n < 16384 {
        let v = 4 * n + 1;
        seq![(v % 256) as u8, (v / 256) as u8]
    } else if n < 0x4000_0000 {
        let v = 4 * n + 2;
        seq![(v % 256) as u8, ((v / 256) % 256) as u8, ((v / 65536) % 256) as u8, ((v / 16777216) % 256) as u8]
    } else {
        Seq::empty()
    }
}

/// Reads a compact length prefix: the length and how many bytes it took.
/// Rejects a prefix that is not the shortest form of its value, and the
/// mode reserved for lengths of 2^30 and above.
pub open spec fn read_compact(s: Seq<u8>) -> Option<(nat, int)> {
    if s.len() < 1 {
        None
    } else {
        let b0 = s[0] as nat;
        let mode = b0 % 4;
        if mode == 0 {
            Some((b0 / 4, 1))
        } else if mode == 1 {
            if s.len() >= 2 {
                let n = b0 / 4 + (s[1] as nat) * 64;
                if n >= 64 {
                    Some((n, 2))
                } else {
                    None
                }
            } else {
                None
            }
        } else if mode == 2 {
            if s.len() >= 4 {
                let n = b0 / 4 + (s[1] as nat) * 64 + (s[2] as nat) * 16384 + (s[3] as nat)
                    * 4194304;
                if n >= 16384 && n < 0x4000_0000 {
                    Some((n, 4))
                } else {
                    None
                }
            } else {
                None
            }
        } else {
            None
        }
    }
}

/// One envelope: the compact length, then the bytes themselves.
pub open spec fn wrap(b: Seq<u8>) -> Seq<u8> {
    compact(b.len()) + b
}

/// Opens one envelope. The byte count announced by the prefix must match
/// what follows exactly; a shorter or longer buffer is a protocol fault.
pub open spec fn unwrap(s: Seq<u8>) -> Option<Seq<u8>> {
    match read_compact(s) {
        Some((n, k)) => {
            if s.len() - k == n {
                Some(s.subrange(k, s.len() as int))
            } else {
                None
            }
        },
        None => None,
    }
}

/// Reading back a compact prefix, with anything after it, yields the length
/// that was written and the width of the prefix.
pub proof fn lemma_read_compact_of_compact(n: nat, rest: Seq<u8>)
    requires
        n < 0x4000_0000,
    ensures
        read_compact(compact(n) + rest) == Some((n, compact(n).len() as int)),
{
    let s = compact(n) + rest;
    if n < 64 {
        assert(s[0] == (4 * n) as u8);
        assert((4 * n) % 4 == 0);
    } else if n < 16384 {
        let v = 4 * n + 1;
        assert(s[0] == (v % 256) as u8);
        assert(s[1] == (v / 256) as u8);
        let q = n / 64;
        let r = n % 64;
        assert(n == 64 * q + r);
        assert(v == 256 * q + 4 * r + 1);
        assert(4 * r + 1 < 256);
        assert(v % 256 == 4 * r + 1 && v / 256 == q) by (nonlinear_arith)
            requires
                v == 256 * q + 4 * r + 1,
                0 <= r < 64,
                0 <= q,
        ;
        assert((v % 256) % 4 == 1);
        assert((v % 256) / 4 == r);
        assert(r + q * 64 == n);
    } else {
        let v = 4 * n + 2;
        let b0 = v % 256;
        let b1 = (v / 256) % 256;
        let b2 = (v / 65536) % 256;
        let b3 = (v / 16777216) % 256;
        assert(s[0] == b0 as u8 && s[1] == b1 as u8 && s[2] == b2 as u8 && s[3] == b3 as u8);
        let r = n % 64;
        let q = n / 64;
        assert(n == 64 * q + r);
        assert(v == 256 * q + 4 * r + 2);
        assert(b0 == 4 * r + 2 && v / 256 == q) by (nonlinear_arith)
            requires
                b0 == v % 256,
                v == 256 * q + 4 * r + 2,
                0 <= r < 64,
                0 <= q,
        ;
        assert(b0 % 4 == 2);
        assert(b0 / 4 == r);
        assert(b1 == q % 256 && b2 == (q / 256) % 256 && b3 == (q / 65536) % 256) by (nonlinear_arith)
            requires
                b1 == (v / 256) % 256,
                b2 == (v / 65536) % 256,
                b3 == (v / 16777216) % 256,
                v / 256 == q,
                0 <= q,
        ;
        assert(q < 16777216);
        assert(q / 65536 < 256);
        assert(b3 == q / 65536);
        assert(q == q % 256 + 256 * ((q / 256) % 256) + 65536 * (q / 65536)) by (nonlinear_arith)
            requires
                0 <= q < 16777216,
        ;
        assert(r + b1 * 64 + b2 * 16384 + b3 * 4194304 == n) by (nonlinear_arith)
            requires
                n == 64 * q + r,
                q == b1 + 256 * b2 + 65536 * b3,
                0 <= r,
                0 <= b1,
                0 <= b2,
                0 <= b3,
        ;
        assert(n >= 16384);
    }
}

/// Opening an envelope that was just closed gives back the same bytes.
pub proof fn lemma_unwrap_wrap(b: Seq<u8>)
    requires
        b.len() < 0x4000_0000,
    ensures
        unwrap(wrap(b)) == Some(b),
{
    lemma_read_compact_of_compact(b.len() as nat, b);
    let s = wrap(b);
    let k = compact(b.len() as nat).len() as int;
    assert(s.subrange(k, s.len() as int) =~= b);
}

/// An envelope with its last byte cut off no longer opens: the length
/// prefix survives the cut but then announces one byte more than remains.
pub proof fn lemma_unwrap_truncated(b: Seq<u8>)
    requires
        b.len() < 0x4000_0000,
    ensures
        unwrap(wrap(b).subrange(0, wrap(b).len() - 1)) == None::<Seq<u8>>,
{
    let s = wrap(b);
    let k = compact(b.len() as nat).len() as int;
    let t = s.subrange(0, s.len() - 1);
    if b.len() == 0 {
        assert(t.len() == 0);
    } else {
        lemma_read_compact_of_compact(b.len() as nat, b);
        assert(t =~= compact(b.len() as nat) + b.subrange(0, b.len() - 1));
        lemma_read_compact_of_compact(b.len() as nat, b.subrange(0, b.len() - 1));
        assert(read_compact(t) == Some((b.len() as nat, k)));
        assert(t.len() - k == b.len() - 1);
    }
}

/// Writes the compact form of `n` onto the end of `out`.
fn push_compact(n: usize, out: &mut Vec<u8>)
    requires
        n < 0x4000_0000,
    ensures
        final(out)@ == old(out)@ + compact(n as nat),
{
    if n < 64 {
        out.push((n * 4) as u8);
        assert(out@ =~= old(out)@ + compact(n as nat));
    } else if n < 16384 {
        let v: usize = n * 4 + 1;
        out.push((v % 256) as u8);
        out.push((v / 256) as u8);
        assert(out@ =~= old(out)@ + compact(n as nat));
    } else {
        let v: usize = n * 4 + 2;
        out.push((v % 256) as u8);
        out.push(((v / 256) % 256) as u8);
        out.push(((v / 65536) % 256) as u8);
        out.push(((v / 16777216) % 256) as u8);
        assert(out@ =~= old(out)@ + compact(n as nat));
    }
}

/// Closes one envelope around `b`.
pub fn wrap_bytes(b: &Vec<u8>) -> (r: Vec<u8>)
    requires
        b@.len() < 0x4000_0000,
    ensures
        r@ == wrap(b@),
{
    let mut out: Vec<u8> = Vec::new();
    push_compact(b.len(), &mut out);
    let mut i: usize = 0;
    while i < b.len()
        invariant
            i <= b@.len(),
            out@ == compact(b@.len() as nat) + b@.subrange(0, i as int),
        decreases b@.len() - i,
    {
        out.push(b[i]);
        assert(out@ =~= compact(b@.len() as nat) + b@.subrange(0, i + 1));
        i = i + 1;
    }
    assert(b@.subrange(0, b@.len() as int) =~= b@);
    out
}

/// Reads the compact prefix of `s`, if one is there.
fn read_compact_bytes(s: &Vec<u8>) -> (r: Option<(usize, usize)>)
    ensures
        match r {
            Some((n, k)) => read_compact(s@) == Some((n as nat, k as int)) && k <= s@.len(),
            None => read_compact(s@) is None,
        },
{
    if s.len() < 1 {
        return None;
    }
    let b0 = s[0] as usize;
    let mode = b0 % 4;
    if mode == 0 {
        Some((b0 / 4, 1))
    } else if mode == 1 {
        if s.len() >= 2 {
            let n = b0 / 4 + (s[1] as usize) * 64;
            if n >= 64 {
                Some((n, 2))
            } else {
                None
            }
        } else {
            None
        }
    } else if mode == 2 {
        if s.len() >= 4 {
            let n = b0 / 4 + (s[1] as usize) * 64 + (s[2] as usize) * 16384 + (s[3] as usize)
                * 4194304;
            if n >= 16384 && n < 0x4000_0000 {
                Some((n, 4))
            } else {
                None
            }
        } else {
            None
        }
    } else {
        None
    }
}

/// Opens one envelope, handing back the bytes it carried.
pub fn unwrap_bytes(s: &Vec<u8>) -> (r: Option<Vec<u8>>)
    ensures
        match r {
            Some(b) => unwrap(s@) == Some(b@),
            None => unwrap(s@) is None,
        },
{
    match read_compact_bytes(s) {
        None => None,
        Some((n, k)) => {
            if s.len() - k == n {
                let mut out: Vec<u8> = Vec::new();
                let mut i: usize = k;
                while i < s.len()
                    invariant
                        k <= i <= s@.len(),
                        out@ == s@.subrange(k as int, i as int),
                    decreases s@.len() - i,
                {
                    out.push(s[i]);
                    assert(out@ =~= s@.subrange(k as int, i + 1));
                    i = i + 1;
                }
                Some(out)
            } else {
                None
            }
        },
    }
}

} // verus!

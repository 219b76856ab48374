//! Inbound half of the payload codec: reading a value back from its
//! canonical text.
//!
//! The reader accepts exactly the canonical form that `ser` writes,
//! four-digit control escapes included. Anything else — whitespace, stray
//! bytes, a truncated buffer, an unknown escape, an integer that does not
//! fit — is rejected as a whole; no partial value ever comes back.
//! `sparse` is the mathematical reader; the executable functions return
//! precisely its result.

use crate::json::{field_views_of, jview, views_of, Json, JsonV};
use vstd::prelude::*;

verus! {

broadcast use {
    vstd::std_specs::vec::group_vec_axioms,
    vstd::seq::axiom_seq_index_decreases,
    vstd::seq::axiom_seq_subrange_decreases,
};

/// A decimal digit byte.
pub open spec fn is_digit(b: u8) -> bool {
    48 <= b <= 57
}

/// A lower-case hexadecimal digit byte.
pub open spec fn is_hex_lower(c: u8) -> bool {
    (48 <= c <= 57) || (97 <= c <= 102)
}

/// The value of a lower-case hexadecimal digit byte.
pub open spec fn hex_val(c: u8) -> nat {
    if 48 <= c <= 57 {
        (c - 48) as nat
    } else if 97 <= c <= 102 {
        (c - 87) as nat
    } else {
        0
    }
}

/// The control byte a canonical four-digit escape stands for.
pub open spec fn esc_unhex(hi: u8, lo: u8) -> u8 {
    (hex_val(hi) * 16 + hex_val(lo)) as u8
}

/// The first position at or after `p` that does not hold a digit.
pub open spec fn digit_run_end(s: Seq<u8>, p: int) -> int
    decreases s.len() - p,
{
    if p < 0 || p >= s.len() || !is_digit(s[p]) {
        p
    } else {
        digit_run_end(s, p + 1)
    }
}

/// The value of the digits in `s[p .. e)`.
pub open spec fn digits_val(s: Seq<u8>, p: int, e: int) -> nat
    decreases e - p,
{
    if p < 0 || e > s.len() || p >= e {
        0
    } else {
        digits_val(s, p, e - 1) * 10 + (if is_digit(s[e - 1]) {
            (s[e - 1] - 48) as nat
        } else {
            0
        })
    }
}

/// Powers of ten.
pub open spec fn pow10(k: nat) -> nat
    decreases k,
{
    if k == 0 {
        1nat
    } else {
        10 * pow10((k - 1) as nat)
    }
}

/// Reads string content from `p` up to the closing quote.
pub open spec fn sparse_str(s: Seq<u8>, p: int) -> Option<(Seq<u8>, int)>
    decreases s.len() - p,
{
    if p < 0 || p >= s.len() {
        None
    } else if s[p] == 34 {
        Some((Seq::empty(), p + 1))
    } else if s[p] == 92 {
        if p + 1 < s.len() && (s[p + 1] == 34 || s[p + 1] == 92) {
            match sparse_str(s, p + 2) {
                Some((rest, q)) => Some((seq![s[p + 1]] + rest, q)),
                None => None,
            }
        } else if p + 5 < s.len() && s[p + 1] == 117 && s[p + 2] == 48 && s[p + 3] == 48 && (s[p
            + 4] == 48 || s[p + 4] == 49) && is_hex_lower(s[p + 5]) {
            match sparse_str(s, p + 6) {
                Some((rest, q)) => Some((seq![esc_unhex(s[p + 4], s[p + 5])] + rest, q)),
                None => None,
            }
        } else {
            None
        }
    } else {
        match sparse_str(s, p + 1) {
            Some((rest, q)) => Some((seq![s[p]] + rest, q)),
            None => None,
        }
    }
}

/// Reads a canonical integer starting at `p`: an optional minus sign, then
/// digits without a leading zero, fitting the machine integer.
pub open spec fn sparse_int(s: Seq<u8>, p: int) -> Option<(JsonV, int)> {
    if p < 0 || p >= s.len() {
        None
    } else {
        let neg = s[p] == 45;
        let st = if neg {
            p + 1
        } else {
            p
        };
        let e = digit_run_end(s, st);
        if e == st {
            None
        } else if s[st] == 48 && e > st + 1 {
            None
        } else if e - st > 19 {
            None
        } else {
            let m = digits_val(s, st, e);
            if neg {
                if 1 <= m <= 0x8000_0000_0000_0000 {
                    Some((JsonV::Int(-(m as int)), e))
                } else {
                    None
                }
            } else {
                if m <= 0x7fff_ffff_ffff_ffff {
                    Some((JsonV::Int(m as int), e))
                } else {
                    None
                }
            }
        }
    }
}

/// Reads one canonical value starting at `p`.
pub open spec fn sparse(s: Seq<u8>, p: int) -> Option<(JsonV, int)>
    decreases s.len() - p, 0int,
{
    if p < 0 || p >= s.len() {
        None
    } else {
        let c = s[p];
        if c == 110 {
            if p + 4 <= s.len() && s[p + 1] == 117 && s[p + 2] == 108 && s[p + 3] == 108 {
                Some((JsonV::Null, p + 4))
            } else {
                None
            }
        } else if c == 116 {
            if p + 4 <= s.len() && s[p + 1] == 114 && s[p + 2] == 117 && s[p + 3] == 101 {
                Some((JsonV::Bool(true), p + 4))
            } else {
                None
            }
        } else if c == 102 {
            if p + 5 <= s.len() && s[p + 1] == 97 && s[p + 2] == 108 && s[p + 3] == 115 && s[p + 4]
                == 101 {
                Some((JsonV::Bool(false), p + 5))
            } else {
                None
            }
        } else if c == 34 {
            match sparse_str(s, p + 1) {
                Some((content, q)) => Some((JsonV::Str(content), q)),
                None => None,
            }
        } else if c == 45 || is_digit(c) {
            sparse_int(s, p)
        } else if c == 91 {
            if p + 1 < s.len() && s[p + 1] == 93 {
                Some((JsonV::Arr(Seq::empty()), p + 2))
            } else {
                match sparse_items(s, p + 1) {
                    Some((items, q)) => {
                        if q < s.len() && s[q] == 93 {
                            Some((JsonV::Arr(items), q + 1))
                        } else {
                            None
                        }
                    },
                    None => None,
                }
            }
        } else if c == 123 {
            if p + 1 < s.len() && s[p + 1] == 125 {
                Some((JsonV::Obj(Seq::empty()), p + 2))
            } else {
                match sparse_fields(s, p + 1) {
                    Some((fields, q)) => {
                        if q < s.len() && s[q] == 125 {
                            Some((JsonV::Obj(fields), q + 1))
                        } else {
                            None
                        }
                    },
                    None => None,
                }
            }
        } else {
            None
        }
    }
}

/// Reads one or more comma-separated values starting at `p`.
pub open spec fn sparse_items(s: Seq<u8>, p: int) -> Option<(Seq<JsonV>, int)>
    decreases s.len() - p, 1int,
{
    if p < 0 || p > s.len() {
        None
    } else {
        match sparse(s, p) {
            None => None,
            Some((v, q)) => {
                if p < q && q < s.len() && s[q] == 44 {
                    match sparse_items(s, q + 1) {
                        Some((rest, r)) => Some((seq![v] + rest, r)),
                        None => None,
                    }
                } else {
                    Some((seq![v], q))
                }
            },
        }
    }
}

/// Reads one or more comma-separated `"key":value` fields starting at `p`.
pub open spec fn sparse_fields(s: Seq<u8>, p: int) -> Option<(Seq<(Seq<u8>, JsonV)>, int)>
    decreases s.len() - p, 1int,
{
    if p < 0 || p >= s.len() || s[p] != 34 {
        None
    } else {
        match sparse_str(s, p + 1) {
            None => None,
            Some((key, q1)) => {
                if p < q1 && q1 < s.len() && s[q1] == 58 {
                    match sparse(s, q1 + 1) {
                        None => None,
                        Some((v, q2)) => {
                            if q1 < q2 && q2 < s.len() && s[q2] == 44 {
                                match sparse_fields(s, q2 + 1) {
                                    Some((rest, r)) => Some((seq![(key, v)] + rest, r)),
                                    None => None,
                                }
                            } else {
                                Some((seq![(key, v)], q2))
                            }
                        },
                    }
                } else {
                    None
                }
            },
        }
    }
}

/// Reads a whole buffer as one canonical value, demanding that nothing
/// follow it.
pub open spec fn parse_json(s: Seq<u8>) -> Option<JsonV> {
    match sparse(s, 0) {
        Some((v, q)) => {
            if q == s.len() {
                Some(v)
            } else {
                None
            }
        },
        None => None,
    }
}

/// The digit run never moves backwards nor past the end, and holds only
/// digits.
pub proof fn lemma_dre_bounds(s: Seq<u8>, p: int)
    requires
        0 <= p <= s.len(),
    ensures
        p <= digit_run_end(s, p) <= s.len(),
        forall|k: int| p <= k < digit_run_end(s, p) ==> is_digit(#[trigger] s[k]),
    decreases s.len() - p,
{
    if !(p >= s.len() || !is_digit(s[p])) {
        lemma_dre_bounds(s, p + 1);
    }
}

/// A digit value stays under the power of ten of its width.
pub proof fn lemma_digits_val_bound(s: Seq<u8>, p: int, e: int)
    requires
        0 <= p <= e <= s.len(),
    ensures
        digits_val(s, p, e) < pow10((e - p) as nat),
    decreases e - p,
{
    if p == e {
    } else {
        lemma_digits_val_bound(s, p, e - 1);
        assert(10 * digits_val(s, p, e - 1) + 9 < 10 * pow10((e - 1 - p) as nat)) by (nonlinear_arith)
            requires
                digits_val(s, p, e - 1) < pow10((e - 1 - p) as nat),
        ;
        assert(digits_val(s, p, e) == digits_val(s, p, e - 1) * 10 + (if is_digit(s[e - 1]) {
            (s[e - 1] - 48) as nat
        } else {
            0nat
        }));
    }
}

/// Powers of ten grow with the exponent.
pub proof fn lemma_pow10_mono(a: nat, b: nat)
    requires
        a <= b,
    ensures
        pow10(a) <= pow10(b),
    decreases b,
{
    if a < b {
        lemma_pow10_mono(a, (b - 1) as nat);
        assert(pow10((b - 1) as nat) <= 10 * pow10((b - 1) as nat)) by (nonlinear_arith)
            requires
                pow10((b - 1) as nat) >= 0,
        ;
    }
}

/// Ten to the nineteenth, spelled out.
pub proof fn lemma_pow10_19()
    ensures
        pow10(19) == 10_000_000_000_000_000_000,
{
    reveal_with_fuel(pow10, 21);
}

/// Reads string content, returning exactly what the mathematical reader
/// returns.
#[verifier::loop_isolation(false)]
pub fn pstr(s: &Vec<u8>, p: usize) -> (r: Option<(Vec<u8>, usize)>)
    requires
        p <= s@.len(),
    ensures
        match r {
            Some((content, q)) => sparse_str(s@, p as int) == Some((content@, q as int)) && p < q
                <= s@.len(),
            None => sparse_str(s@, p as int) is None,
        },
{
    let mut acc: Vec<u8> = Vec::new();
    let mut i: usize = p;
    loop
        invariant
            p <= i <= s@.len(),
            sparse_str(s@, i as int) is Some ==> sparse_str(s@, p as int) == Some(
                (acc@ + sparse_str(s@, i as int).unwrap().0, sparse_str(s@, i as int).unwrap().1),
            ),
            sparse_str(s@, i as int) is None ==> sparse_str(s@, p as int) is None,
        decreases s@.len() - i,
    {
        if i >= s.len() {
            return None;
        }
        let b = s[i];
        if b == 34 {
            assert(sparse_str(s@, i as int) == Some((Seq::<u8>::empty(), i + 1)));
            assert(acc@ + Seq::<u8>::empty() =~= acc@);
            return Some((acc, i + 1));
        } else if b == 92 {
            if i + 1 < s.len() && (s[i + 1] == 34 || s[i + 1] == 92) {
                let c = s[i + 1];
                let ghost acc0 = acc@;
                acc.push(c);
                proof {
                    if sparse_str(s@, i + 2) is Some {
                        let (rest, q) = sparse_str(s@, i + 2).unwrap();
                        assert(sparse_str(s@, i as int) == Some((seq![c] + rest, q)));
                        assert(acc0 + (seq![c] + rest) =~= acc@ + rest);
                    }
                }
                i = i + 2;
            } else if s.len() - i > 5 && s[i + 1] == 117 && s[i + 2] == 48 && s[i + 3] == 48 && (
            s[i + 4] == 48 || s[i + 4] == 49) && (48 <= s[i + 5] && s[i + 5] <= 57 || 97 <= s[i
                + 5] && s[i + 5] <= 102) {
                let lo = s[i + 5];
                let c: u8 = (s[i + 4] - 48) * 16 + (if lo <= 57 {
                    lo - 48
                } else {
                    lo - 87
                });
                let ghost acc0 = acc@;
                acc.push(c);
                proof {
                    assert(c == esc_unhex(s@[i + 4], s@[i + 5]));
                    if sparse_str(s@, i + 6) is Some {
                        let (rest, q) = sparse_str(s@, i + 6).unwrap();
                        assert(sparse_str(s@, i as int) == Some((seq![c] + rest, q)));
                        assert(acc0 + (seq![c] + rest) =~= acc@ + rest);
                    }
                }
                i = i + 6;
            } else {
                assert(sparse_str(s@, i as int) is None);
                return None;
            }
        } else {
            let ghost acc0 = acc@;
            acc.push(b);
            proof {
                if sparse_str(s@, i + 1) is Some {
                    let (rest, q) = sparse_str(s@, i + 1).unwrap();
                    assert(sparse_str(s@, i as int) == Some((seq![b] + rest, q)));
                    assert(acc0 + (seq![b] + rest) =~= acc@ + rest);
                }
            }
            i = i + 1;
        }
    }
}

/// Reads a canonical integer, returning exactly what the mathematical
/// reader returns.
#[verifier::loop_isolation(false)]
pub fn pint(s: &Vec<u8>, p: usize) -> (r: Option<(Json, usize)>)
    requires
        p < s@.len(),
        s@[p as int] == 45 || is_digit(s@[p as int]),
    ensures
        match r {
            Some((v, q)) => sparse_int(s@, p as int) == Some((jview(v), q as int)) && p < q
                <= s@.len(),
            None => sparse_int(s@, p as int) is None,
        },
{
    let n = s.len();
    assert(n == s@.len());
    let neg = s[p] == 45;
    let st: usize = if neg {
        p + 1
    } else {
        p
    };
    let mut e: usize = st;
    while e < s.len() && 48 <= s[e] && s[e] <= 57
        invariant
            st <= e <= s@.len(),
            digit_run_end(s@, st as int) == digit_run_end(s@, e as int),
        decreases s@.len() - e,
    {
        e = e + 1;
    }
    assert(digit_run_end(s@, e as int) == e);
    proof {
        lemma_dre_bounds(s@, st as int);
    }
    if e == st {
        return None;
    }
    if s[st] == 48 && e > st + 1 {
        return None;
    }
    if e - st > 19 {
        return None;
    }
    proof {
        lemma_pow10_19();
    }
    let mut acc: u64 = 0;
    let mut j: usize = st;
    while j < e
        invariant
            st <= j <= e,
            acc as nat == digits_val(s@, st as int, j as int),
            acc < pow10((j - st) as nat),
        decreases e - j,
    {
        assert(is_digit(s@[j as int]));
        let d = s[j] - 48;
        proof {
            lemma_pow10_mono(((j - st) as nat), 18);
            assert(pow10(18) * 10 == pow10(19));
            assert(acc * 10 + 9 < pow10(((j - st) as nat) + 1)) by (nonlinear_arith)
                requires
                    acc < pow10((j - st) as nat),
                    pow10(((j - st) as nat) + 1) == 10 * pow10((j - st) as nat),
            ;
            assert(pow10(((j - st) as nat) + 1) <= pow10(19)) by {
                lemma_pow10_mono(((j - st) as nat) + 1, 19);
            }
        }
        acc = acc * 10 + (d as u64);
        j = j + 1;
    }
    if neg {
        if 1 <= acc && acc <= 0x8000_0000_0000_0000 {
            let v: i64 = if acc == 0x8000_0000_0000_0000 {
                i64::MIN
            } else {
                -(acc as i64)
            };
            assert(v as int == -(acc as int));
            Some((Json::Int(v), e))
        } else {
            None
        }
    } else {
        if acc <= 0x7fff_ffff_ffff_ffff {
            Some((Json::Int(acc as i64), e))
        } else {
            None
        }
    }
}

/// Reads one value, returning exactly what the mathematical reader returns.
pub fn pvalue(s: &Vec<u8>, p: usize) -> (r: Option<(Json, usize)>)
    ensures
        match r {
            Some((v, q)) => sparse(s@, p as int) == Some((jview(v), q as int)) && p < q <= s@.len(),
            None => sparse(s@, p as int) is None,
        },
    decreases s@.len() - p, 0int,
{
    if p >= s.len() {
        return None;
    }
    let c = s[p];
    if c == 110 {
        if s.len() - p >= 4 && s[p + 1] == 117 && s[p + 2] == 108 && s[p + 3] == 108 {
            Some((Json::Null, p + 4))
        } else {
            None
        }
    } else if c == 116 {
        if s.len() - p >= 4 && s[p + 1] == 114 && s[p + 2] == 117 && s[p + 3] == 101 {
            Some((Json::Bool(true), p + 4))
        } else {
            None
        }
    } else if c == 102 {
        if s.len() - p >= 5 && s[p + 1] == 97 && s[p + 2] == 108 && s[p + 3] == 115 && s[p + 4]
            == 101 {
            Some((Json::Bool(false), p + 5))
        } else {
            None
        }
    } else if c == 34 {
        match pstr(s, p + 1) {
            Some((content, q)) => Some((Json::Str(content), q)),
            None => None,
        }
    } else if c == 45 || (48 <= c && c <= 57) {
        pint(s, p)
    } else if c == 91 {
        if p + 1 < s.len() && s[p + 1] == 93 {
            let out: Vec<Json> = Vec::new();
            assert(views_of(out@) =~= Seq::<JsonV>::empty());
            Some((Json::Arr(out), p + 2))
        } else {
            match pitems(s, p + 1) {
                Some((items, q)) => {
                    if q < s.len() && s[q] == 93 {
                        Some((Json::Arr(items), q + 1))
                    } else {
                        None
                    }
                },
                None => None,
            }
        }
    } else if c == 123 {
        if p + 1 < s.len() && s[p + 1] == 125 {
            let out: Vec<(Vec<u8>, Json)> = Vec::new();
            assert(field_views_of(out@) =~= Seq::<(Seq<u8>, JsonV)>::empty());
            Some((Json::Obj(out), p + 2))
        } else {
            match pfields(s, p + 1) {
                Some((fields, q)) => {
                    if q < s.len() && s[q] == 125 {
                        Some((Json::Obj(fields), q + 1))
                    } else {
                        None
                    }
                },
                None => None,
            }
        }
    } else {
        None
    }
}

/// Reads comma-separated values, returning exactly what the mathematical
/// reader returns.
pub fn pitems(s: &Vec<u8>, p: usize) -> (r: Option<(Vec<Json>, usize)>)
    ensures
        match r {
            Some((items, q)) => sparse_items(s@, p as int) == Some((views_of(items@), q as int))
                && p < q <= s@.len(),
            None => sparse_items(s@, p as int) is None,
        },
    decreases s@.len() - p, 1int,
{
    match pvalue(s, p) {
        None => None,
        Some((v, q)) => {
            if q < s.len() && s[q] == 44 {
                match pitems(s, q + 1) {
                    None => None,
                    Some((mut rest, r2)) => {
                        let ghost old_rest = rest@;
                        rest.insert(0, v);
                        proof {
                            let lhs = views_of(rest@);
                            let rhs = seq![jview(v)] + views_of(old_rest);
                            assert(rest@ =~= seq![v] + old_rest);
                            assert(lhs =~= rhs);
                        }
                        Some((rest, r2))
                    },
                }
            } else {
                let mut out: Vec<Json> = Vec::new();
                out.push(v);
                proof {
                    assert(views_of(out@) =~= seq![jview(v)]);
                }
                Some((out, q))
            }
        },
    }
}

/// Reads comma-separated fields, returning exactly what the mathematical
/// reader returns.
pub fn pfields(s: &Vec<u8>, p: usize) -> (r: Option<(Vec<(Vec<u8>, Json)>, usize)>)
    ensures
        match r {
            Some((fields, q)) => sparse_fields(s@, p as int) == Some(
                (field_views_of(fields@), q as int),
            ) && p < q <= s@.len(),
            None => sparse_fields(s@, p as int) is None,
        },
    decreases s@.len() - p, 1int,
{
    if p >= s.len() || s[p] != 34 {
        return None;
    }
    match pstr(s, p + 1) {
        None => None,
        Some((key, q1)) => {
            if q1 < s.len() && s[q1] == 58 {
                match pvalue(s, q1 + 1) {
                    None => None,
                    Some((v, q2)) => {
                        if q2 < s.len() && s[q2] == 44 {
                            match pfields(s, q2 + 1) {
                                None => None,
                                Some((mut rest, r2)) => {
                                    let ghost old_rest = rest@;
                                    rest.insert(0, (key, v));
                                    proof {
                                        let ghost kv = (key@, jview(v));
                                        assert(rest@ =~= seq![(key, v)] + old_rest);
                                        assert(field_views_of(rest@) =~= seq![kv] + field_views_of(
                                            old_rest,
                                        ));
                                    }
                                    Some((rest, r2))
                                },
                            }
                        } else {
                            let mut out: Vec<(Vec<u8>, Json)> = Vec::new();
                            out.push((key, v));
                            proof {
                                let ghost kv = (out@[0].0@, jview(out@[0].1));
                                assert(field_views_of(out@) =~= seq![kv]);
                            }
                            Some((out, q2))
                        }
                    },
                }
            } else {
                None
            }
        },
    }
}

/// Reads a whole buffer as one canonical value.
pub fn parse_bytes(s: &Vec<u8>) -> (r: Option<Json>)
    ensures
        match r {
            Some(v) => parse_json(s@) == Some(jview(v)),
            None => parse_json(s@) is None,
        },
{
    match pvalue(s, 0) {
        Some((v, q)) => {
            if q == s.len() {
                Some(v)
            } else {
                None
            }
        },
        None => None,
    }
}

} // verus!

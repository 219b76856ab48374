//! The codec's round trip: reading back what was written gives the value
//! that was written, for every well-formed value.

use crate::json::{wf, JsonV};
use crate::pretty::pretty;
use crate::parse::{
    digit_run_end, digits_val, esc_unhex, hex_val, is_digit, is_hex_lower, lemma_pow10_19,
    parse_json, pow10, sparse, sparse_fields, sparse_int, sparse_items, sparse_str,
};
use crate::ser::{dec_digits, esc, esc_byte, hex_digit, ser, ser_field, ser_fields, ser_items};
use vstd::prelude::*;

verus! {

broadcast use {
    vstd::seq::axiom_seq_index_decreases,
    vstd::seq::axiom_seq_subrange_decreases,
};

/// A window of the buffer that holds `w`, read pointwise.
proof fn lemma_window(s: Seq<u8>, p: int, w: Seq<u8>)
    requires
        0 <= p,
        p + w.len() <= s.len(),
        s.subrange(p, p + w.len()) == w,
    ensures
        forall|j: int| 0 <= j < w.len() ==> s[p + j] == #[trigger] w[j],
{
    assert forall|j: int| 0 <= j < w.len() implies s[p + j] == #[trigger] w[j] by {
        assert(s.subrange(p, p + w.len())[j] == w[j]);
    }
}

/// Decimal digits are digit bytes, and there is at least one.
proof fn lemma_dec_digits_shape(n: nat)
    ensures
        dec_digits(n).len() >= 1,
        forall|i: int| 0 <= i < dec_digits(n).len() ==> is_digit(#[trigger] dec_digits(n)[i]),
        dec_digits(n)[0] == 48 <==> n == 0,
        n < 10 <==> dec_digits(n).len() == 1,
    decreases n,
{
    if n >= 10 {
        lemma_dec_digits_shape(n / 10);
        let d = dec_digits(n / 10);
        assert(dec_digits(n) == d.push((48 + n % 10) as u8));
        assert(dec_digits(n)[0] == d[0]);
        assert(n / 10 > 0);
    }
}

/// A value below ten to the `k` takes at most `k` digits.
proof fn lemma_dec_digits_len(n: nat, k: nat)
    requires
        k >= 1,
        n < pow10(k),
    ensures
        dec_digits(n).len() <= k,
    decreases k,
{
    if n < 10 {
    } else {
        assert(pow10(k) == 10 * pow10((k - 1) as nat));
        assert(k >= 2) by {
            if k == 1 {
                assert(pow10(1nat) == 10) by {
                    reveal_with_fuel(pow10, 3);
                }
            }
        }
        assert(n / 10 < pow10((k - 1) as nat)) by (nonlinear_arith)
            requires
                n < 10 * pow10((k - 1) as nat),
                n >= 10,
        ;
        lemma_dec_digits_len(n / 10, (k - 1) as nat);
    }
}

/// If a stretch of the buffer holds the decimal digits of `m`, the digit
/// value of that stretch is `m`.
proof fn lemma_digits_val_of_dec(m: nat, s: Seq<u8>, st: int, e: int)
    requires
        0 <= st <= e <= s.len(),
        s.subrange(st, e) == dec_digits(m),
    ensures
        digits_val(s, st, e) == m,
        e - st == dec_digits(m).len(),
    decreases m,
{
    lemma_dec_digits_shape(m);
    lemma_window(s, st, dec_digits(m));
    let d = dec_digits(m);
    assert(e - st == d.len());
    if m < 10 {
        assert(s[st + 0] == d[0]);
        assert(digits_val(s, st, e - 1) == 0);
        assert(s[e - 1] == (48 + m) as u8);
    } else {
        let dh = dec_digits(m / 10);
        assert(d == dh.push((48 + m % 10) as u8));
        assert(s.subrange(st, e - 1) =~= dh) by {
            assert forall|j: int| 0 <= j < dh.len() implies s.subrange(st, e - 1)[j] == dh[j] by {
                assert(s[st + j] == d[j]);
            }
        }
        lemma_digits_val_of_dec(m / 10, s, st, e - 1);
        assert(s[st + (d.len() - 1)] == d[d.len() - 1]);
        assert(s[e - 1] == (48 + m % 10) as u8);
        assert(is_digit(s[e - 1]));
        assert(digits_val(s, st, e) == (m / 10) * 10 + m % 10);
    }
}

/// Where a digit stretch ends at a non-digit, the digit run ends exactly
/// there.
proof fn lemma_dre_exact(s: Seq<u8>, st: int, e: int)
    requires
        0 <= st <= e <= s.len(),
        forall|k: int| st <= k < e ==> is_digit(#[trigger] s[k]),
        e == s.len() || !is_digit(s[e]),
    ensures
        digit_run_end(s, st) == e,
    decreases e - st,
{
    if st < e {
        lemma_dre_exact(s, st + 1, e);
    }
}

/// A delimiter byte: what may legitimately follow a value in its context.
pub open spec fn is_delim(s: Seq<u8>, q: int) -> bool {
    q == s.len() || s[q] == 44 || s[q] == 93 || s[q] == 125
}

/// The first byte of a canonical value is never a delimiter or a colon.
proof fn lemma_ser_first(v: JsonV)
    requires
        wf(v),
    ensures
        ser(v).len() >= 1,
        ser(v)[0] != 44 && ser(v)[0] != 93 && ser(v)[0] != 125 && ser(v)[0] != 58,
{
    match v {
        JsonV::Int(n) => {
            if n < 0 {
                lemma_dec_digits_shape((-n) as nat);
            } else {
                lemma_dec_digits_shape(n as nat);
                assert(ser(v)[0] == dec_digits(n as nat)[0]);
                assert(is_digit(ser(v)[0]));
            }
        },
        _ => {},
    }
}

/// Reading string content out of a buffer that holds escaped content and a
/// closing quote gives back the content.
proof fn lemma_parse_str_esc(content: Seq<u8>, s: Seq<u8>, p: int)
    requires
        0 <= p,
        p + esc(content).len() + 1 <= s.len(),
        s.subrange(p, p + esc(content).len() + 1) == esc(content) + seq![34u8],
    ensures
        sparse_str(s, p) == Some((content, p + esc(content).len() + 1)),
    decreases content.len(),
{
    let w = esc(content) + seq![34u8];
    lemma_window(s, p, w);
    if content.len() == 0 {
        assert(s[p + 0] == w[0]);
        assert(s[p] == 34);
    } else {
        let b = content[0];
        let rest = content.subrange(1, content.len() as int);
        assert(esc(content) == esc_byte(b) + esc(rest));
        let off: int = if b == 34 || b == 92 {
            2
        } else if b < 32 {
            6
        } else {
            1
        };
        assert(esc_byte(b).len() == off);
        let wr = esc(rest) + seq![34u8];
        assert(s.subrange(p + off, p + off + esc(rest).len() + 1) =~= wr) by {
            assert forall|j: int| 0 <= j < wr.len() implies s.subrange(
                p + off,
                p + off + esc(rest).len() + 1,
            )[j] == wr[j] by {
                assert(s[p + (off + j)] == w[off + j]);
                assert(w[off + j] == wr[j]);
            }
        }
        if b == 34 || b == 92 {
            assert(s[p + 0] == w[0] && s[p + 1] == w[1]);
            assert(s[p] == 92 && s[p + 1] == b);
            lemma_parse_str_esc(rest, s, p + 2);
            assert(seq![b] + rest =~= content);
        } else if b < 32 {
            assert(s[p + 0] == w[0] && s[p + 1] == w[1] && s[p + 2] == w[2] && s[p + 3] == w[3]
                && s[p + 4] == w[4] && s[p + 5] == w[5]);
            assert(s[p] == 92 && s[p + 1] == 117 && s[p + 2] == 48 && s[p + 3] == 48);
            assert(s[p + 4] == hex_digit((b / 16) as nat));
            assert(s[p + 5] == hex_digit((b % 16) as nat));
            assert(b / 16 < 2);
            assert(s[p + 4] == 48 || s[p + 4] == 49);
            assert(is_hex_lower(s[p + 5]));
            assert(hex_val(s[p + 4]) == b / 16);
            assert(hex_val(s[p + 5]) == b % 16);
            assert(esc_unhex(s[p + 4], s[p + 5]) == b);
            lemma_parse_str_esc(rest, s, p + 6);
            assert(seq![b] + rest =~= content);
        } else {
            assert(s[p + 0] == w[0]);
            assert(s[p] == b);
            assert(b != 34 && b != 92);
            lemma_parse_str_esc(rest, s, p + 1);
            assert(seq![b] + rest =~= content);
        }
    }
}

/// Reading a buffer that holds the canonical text of a well-formed value,
/// followed by a delimiter, gives back that value exactly.
pub proof fn lemma_parse_ser(v: JsonV, s: Seq<u8>, p: int)
    requires
        wf(v),
        0 <= p,
        p + ser(v).len() <= s.len(),
        s.subrange(p, p + ser(v).len()) == ser(v),
        is_delim(s, p + ser(v).len()),
    ensures
        sparse(s, p) == Some((v, p + ser(v).len())),
    decreases v, 0int,
{
    let w = ser(v);
    let q = p + w.len();
    lemma_ser_first(v);
    lemma_window(s, p, w);
    assert(s[p + 0] == w[0]);
    match v {
        JsonV::Null => {
            assert(s[p + 1] == w[1] && s[p + 2] == w[2] && s[p + 3] == w[3]);
            assert(sparse(s, p) == Some((v, q)));
        },
        JsonV::Bool(b) => {
            if b {
                assert(s[p + 1] == w[1] && s[p + 2] == w[2] && s[p + 3] == w[3]);
            } else {
                assert(s[p + 1] == w[1] && s[p + 2] == w[2] && s[p + 3] == w[3] && s[p + 4]
                    == w[4]);
            }
            assert(sparse(s, p) == Some((v, q)));
        },
        JsonV::Int(n) => {
            let m: nat = if n < 0 {
                (-n) as nat
            } else {
                n as nat
            };
            lemma_dec_digits_shape(m);
            let d = dec_digits(m);
            let st: int = if n < 0 {
                p + 1
            } else {
                p
            };
            assert(w == if n < 0 {
                seq![45u8] + d
            } else {
                d
            });
            if n < 0 {
                assert(s[p] == 45);
                assert(m >= 1);
            } else {
                assert(s[p] == d[0]);
                assert(is_digit(s[p]));
            }
            assert(s.subrange(st, q) =~= d) by {
                assert forall|j: int| 0 <= j < d.len() implies s.subrange(st, q)[j] == d[j] by {
                    assert(s[p + ((st - p) + j)] == w[(st - p) + j]);
                    assert(w[(st - p) + j] == d[j]);
                }
            }
            lemma_digits_val_of_dec(m, s, st, q);
            assert forall|k: int| st <= k < q implies is_digit(#[trigger] s[k]) by {
                assert(s.subrange(st, q)[k - st] == d[k - st]);
            }
            assert(!is_digit(s[q]) || q == s.len());
            lemma_dre_exact(s, st, q);
            assert(digit_run_end(s, st) == q);
            lemma_pow10_19();
            assert(m < pow10(19));
            lemma_dec_digits_len(m, 19);
            assert(q - st <= 19);
            assert(s[p + (st - p)] == w[st - p]);
            assert(s[st] == d[0]);
            if m == 0 {
                assert(d.len() == 1);
            } else {
                assert(s[st] != 48);
            }
            assert(sparse_int(s, p) == Some((v, q)));
            assert(sparse(s, p) == Some((v, q)));
        },
        JsonV::Str(content) => {
            assert(s[p] == 34);
            assert(w == seq![34u8] + esc(content) + seq![34u8]);
            let wr = esc(content) + seq![34u8];
            assert(s.subrange(p + 1, p + 1 + esc(content).len() + 1) =~= wr) by {
                assert forall|j: int| 0 <= j < wr.len() implies s.subrange(
                    p + 1,
                    p + 1 + esc(content).len() + 1,
                )[j] == wr[j] by {
                    assert(s[p + (1 + j)] == w[1 + j]);
                    assert(w[1 + j] == wr[j]);
                }
            }
            lemma_parse_str_esc(content, s, p + 1);
            assert(sparse(s, p) == Some((v, q)));
        },
        JsonV::Arr(items) => {
            assert(s[p] == 91);
            assert(w == seq![91u8] + ser_items(items) + seq![93u8]);
            assert(s[p + (w.len() - 1)] == w[w.len() - 1]);
            assert(s[q - 1] == 93);
            if items.len() == 0 {
                assert(items =~= Seq::<JsonV>::empty());
                assert(ser_items(items) == Seq::<u8>::empty());
                assert(w.len() == 2);
                assert(s[p + 1] == w[1]);
                assert(s[p + 1] == 93);
            } else {
                assert(wf(items[0]));
                lemma_ser_first(items[0]);
                assert(ser_items(items)[0] == ser(items[0])[0]);
                assert(s[p + 1] == w[1]);
                assert(w[1] == ser_items(items)[0]);
                assert(s[p + 1] != 93);
                let wi = ser_items(items);
                assert(s.subrange(p + 1, p + 1 + wi.len()) =~= wi) by {
                    assert forall|j: int| 0 <= j < wi.len() implies s.subrange(
                        p + 1,
                        p + 1 + wi.len(),
                    )[j] == wi[j] by {
                        assert(s[p + (1 + j)] == w[1 + j]);
                        assert(w[1 + j] == wi[j]);
                    }
                }
                lemma_parse_items(items, s, p + 1);
                assert(sparse_items(s, p + 1) == Some((items, q - 1)));
            }
            assert(sparse(s, p) == Some((v, q)));
        },
        JsonV::Obj(fields) => {
            assert(s[p] == 123);
            assert(w == seq![123u8] + ser_fields(fields) + seq![125u8]);
            assert(s[p + (w.len() - 1)] == w[w.len() - 1]);
            assert(s[q - 1] == 125);
            if fields.len() == 0 {
                assert(fields =~= Seq::<(Seq<u8>, JsonV)>::empty());
                assert(ser_fields(fields) == Seq::<u8>::empty());
                assert(w.len() == 2);
                assert(s[p + 1] == w[1]);
                assert(s[p + 1] == 125);
            } else {
                assert(ser_fields(fields)[0] == ser_field(fields[0])[0]);
                assert(ser_field(fields[0])[0] == 34);
                assert(s[p + 1] == w[1]);
                assert(w[1] == ser_fields(fields)[0]);
                assert(s[p + 1] != 125);
                let wo = ser_fields(fields);
                assert(s.subrange(p + 1, p + 1 + wo.len()) =~= wo) by {
                    assert forall|j: int| 0 <= j < wo.len() implies s.subrange(
                        p + 1,
                        p + 1 + wo.len(),
                    )[j] == wo[j] by {
                        assert(s[p + (1 + j)] == w[1 + j]);
                        assert(w[1 + j] == wo[j]);
                    }
                }
                lemma_parse_fields(fields, s, p + 1);
                assert(sparse_fields(s, p + 1) == Some((fields, q - 1)));
            }
            assert(sparse(s, p) == Some((v, q)));
        },
    }
}

/// Reading a buffer that holds the joined canonical texts of well-formed
/// values, followed by a closing bracket or brace, gives back those values.
proof fn lemma_parse_items(items: Seq<JsonV>, s: Seq<u8>, p: int)
    requires
        items.len() >= 1,
        forall|i: int| 0 <= i < items.len() ==> wf(#[trigger] items[i]),
        0 <= p,
        p + ser_items(items).len() < s.len(),
        s.subrange(p, p + ser_items(items).len()) == ser_items(items),
        s[p + ser_items(items).len()] == 93 || s[p + ser_items(items).len()] == 125,
    ensures
        sparse_items(s, p) == Some((items, p + ser_items(items).len())),
    decreases items, 1int,
{
    let w = ser_items(items);
    let q = p + w.len();
    lemma_window(s, p, w);
    assert(wf(items[0]));
    let head = ser(items[0]);
    lemma_ser_first(items[0]);
    if items.len() == 1 {
        assert(w == head);
        lemma_parse_ser(items[0], s, p);
        assert(s[q] != 44);
        assert(seq![items[0]] =~= items);
    } else {
        let rest = items.subrange(1, items.len() as int);
        assert(w == head + seq![44u8] + ser_items(rest));
        let q0 = p + head.len();
        assert(s.subrange(p, q0) =~= head) by {
            assert forall|j: int| 0 <= j < head.len() implies s.subrange(p, q0)[j] == head[j] by {
                assert(s[p + j] == w[j]);
                assert(w[j] == head[j]);
            }
        }
        assert(s[p + (q0 - p)] == w[q0 - p]);
        assert(s[q0] == 44);
        assert(is_delim(s, q0));
        lemma_parse_ser(items[0], s, p);
        let wr = ser_items(rest);
        assert(s.subrange(q0 + 1, q0 + 1 + wr.len()) =~= wr) by {
            assert forall|j: int| 0 <= j < wr.len() implies s.subrange(q0 + 1, q0 + 1 + wr.len())[j]
                == wr[j] by {
                assert(s[p + ((q0 + 1 - p) + j)] == w[(q0 + 1 - p) + j]);
                assert(w[(q0 + 1 - p) + j] == wr[j]);
            }
        }
        assert forall|i: int| 0 <= i < rest.len() implies wf(#[trigger] rest[i]) by {
            assert(rest[i] == items[i + 1]);
        }
        lemma_parse_items(rest, s, q0 + 1);
        assert(seq![items[0]] + rest =~= items);
    }
}

/// Reading a buffer that holds the joined canonical fields of well-formed
/// values, followed by a closing brace or bracket, gives back those fields.
proof fn lemma_parse_fields(fields: Seq<(Seq<u8>, JsonV)>, s: Seq<u8>, p: int)
    requires
        fields.len() >= 1,
        forall|i: int| 0 <= i < fields.len() ==> wf(#[trigger] fields[i].1),
        0 <= p,
        p + ser_fields(fields).len() < s.len(),
        s.subrange(p, p + ser_fields(fields).len()) == ser_fields(fields),
        s[p + ser_fields(fields).len()] == 93 || s[p + ser_fields(fields).len()] == 125,
    ensures
        sparse_fields(s, p) == Some((fields, p + ser_fields(fields).len())),
    decreases fields, 1int,
{
    let w = ser_fields(fields);
    let q = p + w.len();
    lemma_window(s, p, w);
    assert(wf(fields[0].1));
    let f = fields[0];
    let head = ser_field(f);
    assert(head == seq![34u8] + esc(f.0) + seq![34u8, 58u8] + ser(f.1));
    lemma_ser_first(f.1);
    assert(head.len() == esc(f.0).len() + 3 + ser(f.1).len());
    let q1 = p + 2 + esc(f.0).len();
    let q2 = q1 + 1 + ser(f.1).len();
    let last = fields.len() == 1;
    if last {
        assert(w == head);
    } else {
        assert(w == head + seq![44u8] + ser_fields(fields.subrange(1, fields.len() as int)));
    }
    assert(forall|j: int| 0 <= j < head.len() ==> #[trigger] w[j] == head[j]);
    assert(s[p + 0] == w[0]);
    assert(s[p] == 34);
    let wk = esc(f.0) + seq![34u8];
    assert(s.subrange(p + 1, p + 1 + esc(f.0).len() + 1) =~= wk) by {
        assert forall|j: int| 0 <= j < wk.len() implies s.subrange(
            p + 1,
            p + 1 + esc(f.0).len() + 1,
        )[j] == wk[j] by {
            assert(s[p + (1 + j)] == w[1 + j]);
            assert(w[1 + j] == head[1 + j]);
            assert(head[1 + j] == wk[j]);
        }
    }
    lemma_parse_str_esc(f.0, s, p + 1);
    assert(sparse_str(s, p + 1) == Some((f.0, q1)));
    assert(s[p + (q1 - p)] == w[q1 - p]);
    assert(w[q1 - p] == head[q1 - p]);
    assert(s[q1] == 58);
    let wv = ser(f.1);
    assert(s.subrange(q1 + 1, q1 + 1 + wv.len()) =~= wv) by {
        assert forall|j: int| 0 <= j < wv.len() implies s.subrange(q1 + 1, q1 + 1 + wv.len())[j]
            == wv[j] by {
            assert(s[p + ((q1 + 1 - p) + j)] == w[(q1 + 1 - p) + j]);
            assert(w[(q1 + 1 - p) + j] == head[(q1 + 1 - p) + j]);
            assert(head[(q1 + 1 - p) + j] == wv[j]);
        }
    }
    if last {
        assert(q2 == q);
        lemma_parse_ser(f.1, s, q1 + 1);
        assert(s[q2] != 44);
        assert(seq![(f.0, f.1)] =~= fields);
        assert((f.0, f.1) == f);
    } else {
        let rest = fields.subrange(1, fields.len() as int);
        assert(s[p + (q2 - p)] == w[q2 - p]);
        assert(w[q2 - p] == 44);
        assert(s[q2] == 44);
        assert(is_delim(s, q2));
        lemma_parse_ser(f.1, s, q1 + 1);
        let wr = ser_fields(rest);
        assert(s.subrange(q2 + 1, q2 + 1 + wr.len()) =~= wr) by {
            assert forall|j: int| 0 <= j < wr.len() implies s.subrange(q2 + 1, q2 + 1 + wr.len())[j]
                == wr[j] by {
                assert(s[p + ((q2 + 1 - p) + j)] == w[(q2 + 1 - p) + j]);
                assert(w[(q2 + 1 - p) + j] == wr[j]);
            }
        }
        assert forall|i: int| 0 <= i < rest.len() implies wf(#[trigger] rest[i].1) by {
            assert(rest[i] == fields[i + 1]);
        }
        lemma_parse_fields(rest, s, q2 + 1);
        assert(seq![(f.0, f.1)] + rest =~= fields);
        assert((f.0, f.1) == f);
    }
}

/// The codec's round trip on the text layer: the canonical text of any
/// well-formed value reads back as exactly that value.
pub proof fn lemma_text_round_trip(v: JsonV)
    requires
        wf(v),
    ensures
        parse_json(ser(v)) == Some(v),
{
    let s = ser(v);
    lemma_ser_first(v);
    assert(s.subrange(0, s.len() as int) =~= s);
    lemma_parse_ser(v, s, 0);
}

/// For a value that spreads over no lines — null, a boolean, an integer, a
/// string, an empty array or object — the pretty text is the canonical
/// text, and it reads back as exactly that value. For nested containers
/// the pretty text carries line breaks and indentation, which the
/// canonical reader does not accept; nothing is claimed of it here.
pub proof fn law_pretty_flat_round_trip(v: JsonV)
    requires
        wf(v),
        match v {
            JsonV::Arr(items) => items.len() == 0,
            JsonV::Obj(fields) => fields.len() == 0,
            _ => true,
        },
    ensures
        pretty(v, 0) == ser(v),
        parse_json(pretty(v, 0)) == Some(v),
{
    match v {
        JsonV::Arr(items) => {
            assert(ser_items(items) == Seq::<u8>::empty());
            assert(ser(v) =~= seq![91u8, 93u8]);
        },
        JsonV::Obj(fields) => {
            assert(ser_fields(fields) == Seq::<u8>::empty());
            assert(ser(v) =~= seq![123u8, 125u8]);
        },
        _ => {},
    }
    lemma_text_round_trip(v);
}

} // verus!

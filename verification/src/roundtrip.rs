//! The codec round-trips: rendering a well-formed value and parsing the
//! text yields the value back.
//!
//! Well-formed means what the rendering can faithfully carry: strings hold
//! no quote and no backslash (the rendering writes no escapes), and
//! integers stay within eighteen digits (all the parser reads back).

use vstd::prelude::*;

use crate::decode::digit_val;
use crate::decode::digits_end;
use crate::decode::is_digit;
use crate::decode::is_ws;
use crate::decode::num_val;
use crate::decode::parse_elems;
use crate::decode::parse_members;
use crate::decode::parse_num;
use crate::decode::parse_string;
use crate::decode::parse_text;
use crate::decode::parse_value;
use crate::decode::pow10;
use crate::decode::skip_ws;
use crate::decode::str_body_end;
use crate::encode::dec_rep;
use crate::encode::digit_char;
use crate::encode::pair_text;
use crate::encode::ser_int;
use crate::encode::ser_items;
use crate::encode::ser_pairs;
use crate::encode::ser_val;
use crate::rpc::ErrorKind;
use crate::rpc::code_text;
use crate::rpc::id_val;
use crate::rpc::msg_text;
use crate::rpc::resp_text;
use crate::rpc::resp_val;
use crate::rpc::spec_dispatch;
use crate::value::SpecValue;
use crate::value::lookup_pairs;

verus! {

/// A string the rendering carries without loss: no quote, no backslash.
pub open spec fn wf_str(s: Seq<char>) -> bool {
    forall|k: int| 0 <= k < s.len() ==> s[k] != '"' && s[k] != '\\'
}

/// An integer the rendering carries without loss: at most eighteen digits.
pub open spec fn wf_int(i: int) -> bool {
    -1000000000000000000 < i < 1000000000000000000
}

/// A value the rendering carries without loss.
pub open spec fn wf_val(v: SpecValue) -> bool
    decreases v, 1int,
{
    match v {
        SpecValue::Null => true,
        SpecValue::Bool(_) => true,
        SpecValue::Int(i) => wf_int(i),
        SpecValue::Str(s) => wf_str(s),
        SpecValue::Arr(els) => wf_list(els),
        SpecValue::Obj(ps) => wf_pairs(ps),
    }
}

pub open spec fn wf_list(els: Seq<SpecValue>) -> bool
    decreases els, 0int,
{
    els.len() == 0 || (wf_val(els[0]) && wf_list(els.subrange(1, els.len() as int)))
}

pub open spec fn wf_pairs(ps: Seq<(Seq<char>, SpecValue)>) -> bool
    decreases ps, 0int,
{
    ps.len() == 0 || (wf_str(ps[0].0) && wf_val(ps[0].1) && wf_pairs(
        ps.subrange(1, ps.len() as int),
    ))
}

/// A character a rendered value can start with.
pub open spec fn is_value_start(c: char) -> bool {
    c == 'n' || c == 't' || c == 'f' || c == '"' || c == '-' || is_digit(c) || c == '['
        || c == '{'
}

proof fn lemma_digit_char_val(d: nat)
    requires
        d < 10,
    ensures
        is_digit(digit_char(d)),
        digit_val(digit_char(d)) == d,
{
}

proof fn lemma_dec_rep_digits(n: nat)
    ensures
        dec_rep(n).len() >= 1,
        forall|k: int| 0 <= k < dec_rep(n).len() ==> is_digit(#[trigger] dec_rep(n)[k]),
    decreases n,
{
    if n < 10 {
        lemma_digit_char_val(n);
    } else {
        lemma_dec_rep_digits(n / 10);
        lemma_digit_char_val(n % 10);
        assert forall|k: int| 0 <= k < dec_rep(n).len() implies is_digit(
            #[trigger] dec_rep(n)[k],
        ) by {
            if k < dec_rep(n / 10).len() {
                assert(dec_rep(n)[k] == dec_rep(n / 10)[k]);
            } else {
                assert(dec_rep(n)[k] == digit_char(n % 10));
            }
        }
    }
}

proof fn lemma_dec_rep_len(n: nat, k: nat)
    requires
        k >= 1,
        n < pow10(k),
    ensures
        dec_rep(n).len() <= k,
    decreases k,
{
    if n < 10 {
    } else {
        assert(pow10(k) == 10 * pow10((k - 1) as nat));
        assert(n / 10 < pow10((k - 1) as nat)) by (nonlinear_arith)
            requires
                n < 10 * pow10((k - 1) as nat),
                n >= 10,
        ;
        assert(k >= 2) by {
            crate::decode::lemma_pow10_mono(1, 1);
            if k == 1 {
                assert(pow10(1) == 10);
            }
        }
        lemma_dec_rep_len(n / 10, (k - 1) as nat);
    }
}

/// A run of digits bounded by a non-digit (or the text's end) ends exactly
/// at that boundary.
proof fn lemma_digits_region(s: Seq<char>, i: int, j: int)
    requires
        0 <= i <= j <= s.len(),
        forall|k: int| i <= k < j ==> is_digit(s[k]),
        j == s.len() || !is_digit(s[j]),
    ensures
        digits_end(s, i) == j,
    decreases j - i,
{
    if i < j {
        lemma_digits_region(s, i + 1, j);
    }
}

/// Digits that spell `dec_rep(n)` evaluate back to `n`.
proof fn lemma_num_val_of_dec_rep(n: nat, s: Seq<char>, i: int)
    requires
        0 <= i,
        i + dec_rep(n).len() <= s.len(),
        s.subrange(i, i + dec_rep(n).len() as int) == dec_rep(n),
    ensures
        num_val(s, i, i + dec_rep(n).len() as int) == n,
    decreases n,
{
    let l = dec_rep(n).len() as int;
    let j = i + l;
    if n < 10 {
        lemma_digit_char_val(n);
        assert(s[j - 1] == dec_rep(n)[l - 1]);
        assert(num_val(s, i, j) == num_val(s, i, j - 1) * 10 + digit_val(s[j - 1]));
    } else {
        let hd = dec_rep(n / 10);
        assert(s.subrange(i, i + hd.len() as int) =~= hd) by {
            assert forall|k: int| 0 <= k < hd.len() implies s.subrange(
                i,
                i + hd.len() as int,
            )[k] == hd[k] by {
                assert(s[i + k] == dec_rep(n)[k]);
                assert(dec_rep(n)[k] == hd[k]);
            }
        }
        lemma_num_val_of_dec_rep((n / 10) as nat, s, i);
        lemma_digit_char_val(n % 10);
        assert(s[j - 1] == dec_rep(n)[l - 1]);
        assert(dec_rep(n)[l - 1] == digit_char(n % 10));
        assert(num_val(s, i, j) == num_val(s, i, j - 1) * 10 + digit_val(s[j - 1]));
    }
}

/// A string body without quotes or backslashes, closed by a quote, ends
/// exactly at that quote.
proof fn lemma_str_region(s: Seq<char>, i: int, j: int)
    requires
        0 <= i <= j < s.len(),
        forall|k: int| i <= k < j ==> s[k] != '"' && s[k] != '\\',
        s[j] == '"',
    ensures
        str_body_end(s, i) == Some(j),
    decreases j - i,
{
    if i < j {
        lemma_str_region(s, i + 1, j);
    }
}

/// Every rendering is nonempty and starts with a value-start character —
/// in particular, never with a blank, a comma or a closing bracket.
proof fn lemma_ser_first(v: SpecValue)
    ensures
        ser_val(v).len() >= 1,
        is_value_start(ser_val(v)[0]),
    decreases v,
{
    match v {
        SpecValue::Int(i) => {
            if i < 0 {
                lemma_dec_rep_digits((-i) as nat);
            } else {
                lemma_dec_rep_digits(i as nat);
                assert(ser_val(v)[0] == dec_rep(i as nat)[0]);
            }
        },
        _ => {},
    }
}

/// Parsing at the start of a rendered value reads exactly that value and
/// stops just past it, provided no digit follows (a digit would extend a
/// rendered number; no rendering context puts one there).
#[verifier::rlimit(80)]
proof fn lemma_parse_val_ser(v: SpecValue, s: Seq<char>, i: int)
    requires
        wf_val(v),
        0 <= i,
        i + ser_val(v).len() <= s.len(),
        s.subrange(i, i + ser_val(v).len() as int) == ser_val(v),
        i + ser_val(v).len() < s.len() ==> !is_digit(s[i + ser_val(v).len() as int]),
    ensures
        parse_value(s, i) == Some((v, i + ser_val(v).len() as int)),
    decreases v, 1int,
{
    let w = ser_val(v);
    let ln = w.len() as int;
    assert forall|k: int| 0 <= k < ln implies s[i + k] == w[k] by {
        assert(s.subrange(i, i + ln)[k] == s[i + k]);
    }
    lemma_ser_first(v);
    assert(s[i] == w[0]) by {
        assert(s.subrange(i, i + ln)[0] == s[i]);
    }
    match v {
        SpecValue::Null => {
            assert(s[i] == 'n' && s[i + 1] == 'u' && s[i + 2] == 'l' && s[i + 3] == 'l');
        },
        SpecValue::Bool(b) => {
            if b {
                assert(s[i] == 't' && s[i + 1] == 'r' && s[i + 2] == 'u' && s[i + 3] == 'e');
            } else {
                assert(s[i] == 'f' && s[i + 1] == 'a' && s[i + 2] == 'l' && s[i + 3] == 's'
                    && s[i + 4] == 'e');
            }
        },
        SpecValue::Int(iv) => {
            let n = if iv < 0 {
                (-iv) as nat
            } else {
                iv as nat
            };
            lemma_dec_rep_digits(n);
            crate::decode::lemma_pow10_18();
            lemma_dec_rep_len(n, 18);
            let d0 = if iv < 0 {
                i + 1
            } else {
                i
            };
            assert forall|k: int| d0 <= k < i + ln implies is_digit(s[k]) by {
                assert(s[k] == w[k - i]);
                assert(w[k - i] == dec_rep(n)[k - d0]);
            }
            lemma_digits_region(s, d0, i + ln);
            assert(s.subrange(d0, d0 + dec_rep(n).len() as int) =~= dec_rep(n)) by {
                assert forall|k: int| 0 <= k < dec_rep(n).len() implies s.subrange(
                    d0,
                    d0 + dec_rep(n).len() as int,
                )[k] == dec_rep(n)[k] by {
                    assert(s[d0 + k] == w[d0 + k - i]);
                }
            }
            lemma_num_val_of_dec_rep(n, s, d0);
            if iv < 0 {
                assert(s[i] == '-');
            } else {
                assert(s[i] == dec_rep(n)[0]);
                assert(is_digit(s[i]));
            }
            assert(parse_num(s, i) == Some((v, i + ln)));
        },
        SpecValue::Str(cs) => {
            assert(s[i] == '"');
            assert(s[i + ln - 1] == w[ln - 1]) by {
                assert(s.subrange(i, i + ln)[ln - 1] == s[i + ln - 1]);
            }
            assert(s[i + ln - 1] == '"');
            assert forall|k: int| i + 1 <= k < i + ln - 1 implies s[k] != '"' && s[k]
                != '\\' by {
                assert(s[k] == w[k - i]);
                assert(w[k - i] == cs[k - i - 1]);
            }
            lemma_str_region(s, i + 1, i + ln - 1);
            assert(s.subrange(i + 1, i + ln - 1) =~= cs) by {
                assert forall|k: int| 0 <= k < cs.len() implies s.subrange(
                    i + 1,
                    i + ln - 1,
                )[k] == cs[k] by {
                    assert(s[i + 1 + k] == w[1 + k]);
                }
            }
            assert(parse_string(s, i) == Some((cs, i + ln)));
        },
        SpecValue::Arr(els) => {
            assert(s[i] == '[');
            assert(s[i + ln - 1] == w[ln - 1]) by {
                assert(s.subrange(i, i + ln)[ln - 1] == s[i + ln - 1]);
            }
            assert(s[i + ln - 1] == ']');
            if els.len() == 0 {
                assert(ser_items(els).len() == 0);
                assert(ln == 2);
                assert(skip_ws(s, i + 1) == i + 1);
                assert(els =~= Seq::<SpecValue>::empty());
            } else {
                let items = ser_items(els);
                let il = items.len() as int;
                assert(ln == il + 2);
                assert forall|k: int| 0 <= k < il implies s[i + 1 + k] == items[k] by {
                    assert(s[i + 1 + k] == w[1 + k]);
                }
                assert(s.subrange(i + 1, i + 1 + il) =~= items);
                lemma_ser_first(els[0]);
                assert(items[0] == ser_val(els[0])[0]) by {
                    if els.len() == 1 {
                    } else {
                        assert(items[0] == (ser_val(els[0]) + seq![','] + ser_items(
                            els.subrange(1, els.len() as int),
                        ))[0]);
                    }
                }
                assert(s[i + 1] == w[1]) by {
                    assert(s.subrange(i, i + ln)[1] == s[i + 1]);
                }
                assert(il >= 1) by {
                    if els.len() == 1 {
                    }
                }
                assert(w[1] == (seq!['['] + items)[1]);
                assert((seq!['['] + items)[1] == items[0]);
                assert(!is_ws(s[i + 1]) && s[i + 1] != ']');
                assert(skip_ws(s, i + 1) == i + 1);
                lemma_items_ser(els, s, i + 1);
            }
        },
        SpecValue::Obj(ps) => {
            assert(s[i] == '{');
            assert(s[i + ln - 1] == w[ln - 1]) by {
                assert(s.subrange(i, i + ln)[ln - 1] == s[i + ln - 1]);
            }
            assert(s[i + ln - 1] == '}');
            if ps.len() == 0 {
                assert(ser_pairs(ps).len() == 0);
                assert(ln == 2);
                assert(skip_ws(s, i + 1) == i + 1);
                assert(ps =~= Seq::<(Seq<char>, SpecValue)>::empty());
            } else {
                let items = ser_pairs(ps);
                let il = items.len() as int;
                assert(ln == il + 2);
                assert forall|k: int| 0 <= k < il implies s[i + 1 + k] == items[k] by {
                    assert(s[i + 1 + k] == w[1 + k]);
                }
                assert(s.subrange(i + 1, i + 1 + il) =~= items);
                assert(items[0] == '"') by {
                    if ps.len() == 1 {
                        assert(items[0] == pair_text(ps[0])[0]);
                    } else {
                        assert(items[0] == (pair_text(ps[0]) + seq![','] + ser_pairs(
                            ps.subrange(1, ps.len() as int),
                        ))[0]);
                        assert(items[0] == pair_text(ps[0])[0]);
                    }
                }
                assert(s[i + 1] == w[1]) by {
                    assert(s.subrange(i, i + ln)[1] == s[i + 1]);
                }
                assert(il >= 1) by {
                    if ps.len() == 1 {
                    }
                }
                assert(w[1] == (seq!['{'] + items)[1]);
                assert((seq!['{'] + items)[1] == items[0]);
                assert(skip_ws(s, i + 1) == i + 1);
                lemma_members_ser(ps, s, i + 1);
            }
        },
    }
}

/// Parsing at the start of rendered array elements, closed by a bracket,
/// reads exactly those elements.
proof fn lemma_items_ser(els: Seq<SpecValue>, s: Seq<char>, i: int)
    requires
        wf_list(els),
        els.len() >= 1,
        0 <= i,
        i + ser_items(els).len() + 1 <= s.len(),
        s.subrange(i, i + ser_items(els).len() as int) == ser_items(els),
        s[i + ser_items(els).len() as int] == ']',
    ensures
        parse_elems(s, i) == Some((els, i + ser_items(els).len() as int + 1)),
    decreases els, 0int,
{
    let items = ser_items(els);
    let il = items.len() as int;
    assert forall|k: int| 0 <= k < il implies s[i + k] == items[k] by {
        assert(s.subrange(i, i + il)[k] == s[i + k]);
    }
    let e0 = els[0];
    let l0 = ser_val(e0).len() as int;
    lemma_ser_first(e0);
    assert(il >= 1);
    assert(s[i] == items[0]) by {
        assert(s.subrange(i, i + il)[0] == s[i]);
    }
    if els.len() == 1 {
        assert(items == ser_val(e0));
        assert(s.subrange(i, i + l0) =~= ser_val(e0));
        assert(s[i + l0] == ']');
        lemma_parse_val_ser(e0, s, i);
        assert(s[i] == ser_val(e0)[0]);
        assert(!is_ws(s[i]));
        assert(skip_ws(s, i) == i);
        assert(skip_ws(s, i + l0) == i + l0);
        assert(seq![e0] =~= els);
    } else {
        let rest = els.subrange(1, els.len() as int);
        let rl = ser_items(rest).len() as int;
        assert(items == ser_val(e0) + seq![','] + ser_items(rest));
        assert(il == l0 + 1 + rl);
        assert(s.subrange(i, i + l0) =~= ser_val(e0)) by {
            assert forall|k: int| 0 <= k < l0 implies s.subrange(i, i + l0)[k] == ser_val(
                e0,
            )[k] by {
                assert(s[i + k] == items[k]);
            }
        }
        assert(s[i + l0] == items[l0]);
        assert(items[l0] == ',');
        lemma_parse_val_ser(e0, s, i);
        assert(s[i] == ser_val(e0)[0]);
        assert(!is_ws(s[i]));
        assert(skip_ws(s, i) == i);
        assert(skip_ws(s, i + l0) == i + l0);
        assert(s.subrange(i + l0 + 1, i + l0 + 1 + rl) =~= ser_items(rest)) by {
            assert forall|k: int| 0 <= k < rl implies s.subrange(
                i + l0 + 1,
                i + l0 + 1 + rl,
            )[k] == ser_items(rest)[k] by {
                assert(s[i + l0 + 1 + k] == items[l0 + 1 + k]);
                assert(items[l0 + 1 + k] == ser_items(rest)[k]);
            }
        }
        assert(s[i + l0 + 1 + rl] == ']');
        lemma_items_ser(rest, s, i + l0 + 1);
        assert(seq![e0] + rest =~= els);
    }
}

/// Parsing at the start of rendered object fields, closed by a brace,
/// reads exactly those fields.
proof fn lemma_members_ser(ps: Seq<(Seq<char>, SpecValue)>, s: Seq<char>, i: int)
    requires
        wf_pairs(ps),
        ps.len() >= 1,
        0 <= i,
        i + ser_pairs(ps).len() + 1 <= s.len(),
        s.subrange(i, i + ser_pairs(ps).len() as int) == ser_pairs(ps),
        s[i + ser_pairs(ps).len() as int] == '}',
    ensures
        parse_members(s, i) == Some((ps, i + ser_pairs(ps).len() as int + 1)),
    decreases ps, 0int,
{
    let items = ser_pairs(ps);
    let il = items.len() as int;
    assert forall|k: int| 0 <= k < il implies s[i + k] == items[k] by {
        assert(s.subrange(i, i + il)[k] == s[i + k]);
    }
    let key = ps[0].0;
    let v0 = ps[0].1;
    let k0 = key.len() as int;
    let p0 = pair_text(ps[0]);
    let pl = p0.len() as int;
    assert(pl == k0 + 3 + ser_val(v0).len());
    assert(il >= 1);
    assert(s[i] == items[0]) by {
        assert(s.subrange(i, i + il)[0] == s[i]);
    }
    assert forall|k: int| 0 <= k < pl implies items[k] == p0[k] by {
        if ps.len() == 1 {
        } else {
            assert(items[k] == (p0 + seq![','] + ser_pairs(ps.subrange(1, ps.len() as int)))[
                k
            ]);
        }
    }
    // the pair's layout: a quote, the key, a quote, a colon, the value
    assert(s[i] == '"');
    assert forall|k: int| i + 1 <= k < i + 1 + k0 implies s[k] != '"' && s[k] != '\\' by {
        assert(s[k] == items[k - i]);
        assert(items[k - i] == p0[k - i]);
        assert(p0[k - i] == key[k - i - 1]);
    }
    assert(s[i + 1 + k0] == p0[1 + k0]);
    assert(p0[1 + k0] == '"');
    lemma_str_region(s, i + 1, i + 1 + k0);
    assert(s.subrange(i + 1, i + 1 + k0) =~= key) by {
        assert forall|k: int| 0 <= k < k0 implies s.subrange(i + 1, i + 1 + k0)[k]
            == key[k] by {
            assert(s[i + 1 + k] == items[1 + k]);
            assert(items[1 + k] == p0[1 + k]);
        }
    }
    assert(parse_string(s, i) == Some((key, i + k0 + 2)));
    assert(skip_ws(s, i) == i);
    let ek = i + k0 + 2;
    assert(s[ek] == p0[k0 + 2]);
    assert(p0[k0 + 2] == ':');
    assert(skip_ws(s, ek) == ek);
    let vs = ek + 1;
    let vl = ser_val(v0).len() as int;
    lemma_ser_first(v0);
    assert(s.subrange(vs, vs + vl) =~= ser_val(v0)) by {
        assert forall|k: int| 0 <= k < vl implies s.subrange(vs, vs + vl)[k] == ser_val(
            v0,
        )[k] by {
            assert(s[vs + k] == items[k0 + 3 + k]);
            assert(items[k0 + 3 + k] == p0[k0 + 3 + k]);
        }
    }
    assert(s[vs] == ser_val(v0)[0]);
    assert(!is_ws(s[vs]));
    assert(skip_ws(s, vs) == vs);
    let ve = vs + vl;
    if ps.len() == 1 {
        assert(il == pl);
        assert(s[ve] == '}');
        lemma_parse_val_ser(v0, s, vs);
        assert(skip_ws(s, ve) == ve);
        assert((key, v0) == ps[0]);
        assert(seq![(key, v0)] =~= ps);
    } else {
        let rest = ps.subrange(1, ps.len() as int);
        let rl = ser_pairs(rest).len() as int;
        assert(items == p0 + seq![','] + ser_pairs(rest));
        assert(il == pl + 1 + rl);
        assert(s[ve] == items[pl]);
        assert(items[pl] == ',');
        lemma_parse_val_ser(v0, s, vs);
        assert(skip_ws(s, ve) == ve);
        assert(s.subrange(ve + 1, ve + 1 + rl) =~= ser_pairs(rest)) by {
            assert forall|k: int| 0 <= k < rl implies s.subrange(ve + 1, ve + 1 + rl)[k]
                == ser_pairs(rest)[k] by {
                assert(s[ve + 1 + k] == items[pl + 1 + k]);
                assert(items[pl + 1 + k] == ser_pairs(rest)[k]);
            }
        }
        assert(s[ve + 1 + rl] == '}');
        lemma_members_ser(rest, s, ve + 1);
        assert((key, v0) == ps[0]);
        assert(seq![(key, v0)] + rest =~= ps);
    }
}

proof fn lemma_num_val_bound(s: Seq<char>, i: int, j: int)
    requires
        i <= j,
        forall|k: int| i <= k < j ==> is_digit(s[k]),
    ensures
        0 <= num_val(s, i, j) < pow10((j - i) as nat),
    decreases j - i,
{
    if i < j {
        lemma_num_val_bound(s, i, j - 1);
    }
}

proof fn lemma_str_body_chars(s: Seq<char>, i: int, j: int)
    requires
        0 <= i,
        str_body_end(s, i) == Some(j),
    ensures
        i <= j,
        forall|k: int| i <= k < j ==> s[k] != '"' && s[k] != '\\',
    decreases s.len() - i,
{
    if i < s.len() && s[i] != '"' && s[i] != '\\' {
        lemma_str_body_chars(s, i + 1, j);
    }
}

/// Whatever the parser reads is well formed: its strings hold no quote and
/// no backslash, its integers stay within eighteen digits.
proof fn lemma_parse_val_wf(s: Seq<char>, i: int, v: SpecValue, e: int)
    requires
        parse_value(s, i) == Some((v, e)),
    ensures
        wf_val(v),
    decreases s.len() - i, 0int,
{
    let c = s[i];
    if c == '"' {
        let j = str_body_end(s, i + 1)->Some_0;
        crate::decode::lemma_str_body_end(s, i + 1);
        lemma_str_body_chars(s, i + 1, j);
        let cs = s.subrange(i + 1, j);
        assert(wf_str(cs)) by {
            assert forall|t: int| 0 <= t < cs.len() implies cs[t] != '"' && cs[t]
                != '\\' by {
                assert(cs[t] == s[i + 1 + t]);
            }
        }
    } else if c == '-' || is_digit(c) {
        let neg = s[i] == '-';
        let d0 = if neg {
            i + 1
        } else {
            i
        };
        let j = digits_end(s, d0);
        crate::decode::lemma_digits_end(s, d0);
        lemma_num_val_bound(s, d0, j);
        crate::decode::lemma_pow10_mono(((j - d0) as nat), 18);
        crate::decode::lemma_pow10_18();
    } else if c == '[' {
        let j = skip_ws(s, i + 1);
        if j < s.len() && s[j] == ']' {
        } else {
            let (els, e2) = parse_elems(s, i + 1)->Some_0;
            lemma_parse_elems_wf(s, i + 1, els, e2);
        }
    } else if c == '{' {
        let j = skip_ws(s, i + 1);
        if j < s.len() && s[j] == '}' {
        } else {
            let (ps, e2) = parse_members(s, i + 1)->Some_0;
            lemma_parse_members_wf(s, i + 1, ps, e2);
        }
    }
}

proof fn lemma_parse_elems_wf(s: Seq<char>, i: int, els: Seq<SpecValue>, e: int)
    requires
        parse_elems(s, i) == Some((els, e)),
    ensures
        wf_list(els),
    decreases s.len() - i, 1int,
{
    let i0 = skip_ws(s, i);
    let (v, e0) = parse_value(s, i0)->Some_0;
    lemma_parse_val_wf(s, i0, v, e0);
    let k = skip_ws(s, e0);
    if s[k] == ']' {
        assert(els == seq![v]);
        assert(seq![v][0] == v);
        assert(seq![v].subrange(1, 1) =~= Seq::<SpecValue>::empty());
        assert(wf_list(Seq::<SpecValue>::empty()));
        assert(wf_list(seq![v]));
    } else {
        let (rest, e2) = parse_elems(s, k + 1)->Some_0;
        lemma_parse_elems_wf(s, k + 1, rest, e2);
        let l = seq![v] + rest;
        assert(els == l);
        assert(l[0] == v);
        assert(l.subrange(1, l.len() as int) =~= rest);
        assert(wf_list(l));
    }
}

proof fn lemma_parse_members_wf(s: Seq<char>, i: int, ps: Seq<(Seq<char>, SpecValue)>, e: int)
    requires
        parse_members(s, i) == Some((ps, e)),
    ensures
        wf_pairs(ps),
    decreases s.len() - i, 1int,
{
    let i0 = skip_ws(s, i);
    let (key, ek) = parse_string(s, i0)->Some_0;
    let j = str_body_end(s, i0 + 1)->Some_0;
    lemma_str_body_chars(s, i0 + 1, j);
    assert(wf_str(key)) by {
        assert forall|t: int| 0 <= t < key.len() implies key[t] != '"' && key[t]
            != '\\' by {
            assert(key[t] == s[i0 + 1 + t]);
        }
    }
    let c = skip_ws(s, ek);
    let v0 = skip_ws(s, c + 1);
    let (v, e0) = parse_value(s, v0)->Some_0;
    lemma_parse_val_wf(s, v0, v, e0);
    let k = skip_ws(s, e0);
    if s[k] == '}' {
        assert(ps == seq![(key, v)]);
        assert(seq![(key, v)][0] == (key, v));
        assert(seq![(key, v)].subrange(1, 1) =~= Seq::<(Seq<char>, SpecValue)>::empty());
        assert(wf_pairs(Seq::<(Seq<char>, SpecValue)>::empty()));
        assert(wf_pairs(seq![(key, v)]));
    } else {
        let (rest, e2) = parse_members(s, k + 1)->Some_0;
        lemma_parse_members_wf(s, k + 1, rest, e2);
        let l = seq![(key, v)] + rest;
        assert(ps == l);
        assert(l[0] == (key, v));
        assert(l.subrange(1, l.len() as int) =~= rest);
        assert(wf_pairs(l));
    }
}

proof fn lemma_lookup_wf(ps: Seq<(Seq<char>, SpecValue)>, key: Seq<char>, v: SpecValue)
    requires
        wf_pairs(ps),
        lookup_pairs(ps, key) == Some(v),
    ensures
        wf_val(v),
    decreases ps.len(),
{
    if ps.len() > 0 && ps[0].0 != key {
        assert(ps.skip(1) =~= ps.subrange(1, ps.len() as int));
        lemma_lookup_wf(ps.subrange(1, ps.len() as int), key, v);
    }
}

proof fn lemma_code_msg_wf(k: ErrorKind)
    ensures
        wf_str(code_text(k)),
        wf_str(msg_text(k)),
{
    reveal_strlit("ParseError");
    reveal_strlit("InvalidId");
    reveal_strlit("InvalidMethod");
    reveal_strlit("InvalidParams");
    reveal_strlit("MethodNotFound");
    reveal_strlit("EngineError");
    reveal_strlit("UnsupportedFrame");
    reveal_strlit("the frame is not a well-formed value");
    reveal_strlit("the id field must be null or a string");
    reveal_strlit("the method field must be a string");
    reveal_strlit("the params field must be an array");
    reveal_strlit("no handler is registered for the method");
    reveal_strlit("the engine failed to execute the request");
    reveal_strlit("only text frames are supported");
}

proof fn lemma_wf_pairs_two(p0: (Seq<char>, SpecValue), p1: (Seq<char>, SpecValue))
    requires
        wf_str(p0.0),
        wf_val(p0.1),
        wf_str(p1.0),
        wf_val(p1.1),
    ensures
        wf_pairs(seq![p0, p1]),
{
    let l = seq![p0, p1];
    assert(l.subrange(1, 2) =~= seq![p1]);
    assert(seq![p1].subrange(1, 1) =~= Seq::<(Seq<char>, SpecValue)>::empty());
    assert(wf_pairs(Seq::<(Seq<char>, SpecValue)>::empty()));
    assert(wf_pairs(seq![p1]));
}

/// LAW: every reply the dispatcher sends is itself a well-formed frame:
/// parsing the reply text yields back exactly the envelope the dispatcher
/// built. A client can always read what this server answers, whatever was
/// asked.
pub proof fn lemma_reply_parses(s: Seq<char>)
    ensures
        parse_text(resp_text(spec_dispatch(s))) == Some(resp_val(spec_dispatch(s))),
{
    let r = spec_dispatch(s);
    reveal_strlit("id");
    reveal_strlit("result");
    reveal_strlit("error");
    reveal_strlit("code");
    reveal_strlit("message");
    lemma_code_msg_wf(ErrorKind::ParseError);
    assert(wf_val(id_val(r.id))) by {
        if parse_text(s) is Some {
            let i = skip_ws(s, 0);
            let (env, e) = parse_value(s, i)->Some_0;
            lemma_parse_val_wf(s, i, env, e);
            if env is Obj && r.id is Some {
                let idv = r.id->Some_0;
                if idv is Str {
                    lemma_lookup_wf(env->Obj_0, "id"@, idv);
                }
            }
        }
    }
    match r.body {
        Ok(v) => {
            assert(v == SpecValue::Null);
            lemma_wf_pairs_two(("id"@, id_val(r.id)), ("result"@, v));
        },
        Err(k) => {
            lemma_code_msg_wf(k);
            lemma_wf_pairs_two(
                ("code"@, SpecValue::Str(code_text(k))),
                ("message"@, SpecValue::Str(msg_text(k))),
            );
            let errv = SpecValue::Obj(
                seq![
                    ("code"@, SpecValue::Str(code_text(k))),
                    ("message"@, SpecValue::Str(msg_text(k))),
                ],
            );
            lemma_wf_pairs_two(("id"@, id_val(r.id)), ("error"@, errv));
        },
    }
    assert(wf_val(resp_val(r)));
    lemma_round_trip(resp_val(r));
}

/// LAW: the codec round-trips. Rendering any well-formed value — strings
/// without quotes or backslashes, integers within eighteen digits — and
/// parsing the text yields exactly the value back.
pub proof fn lemma_round_trip(v: SpecValue)
    requires
        wf_val(v),
    ensures
        parse_text(ser_val(v)) == Some(v),
{
    let s = ser_val(v);
    lemma_ser_first(v);
    assert(!is_ws(s[0]));
    assert(skip_ws(s, 0) == 0);
    assert(s.subrange(0, s.len() as int) =~= s);
    lemma_parse_val_ser(v, s, 0);
    assert(skip_ws(s, s.len() as int) == s.len());
}

} // verus!

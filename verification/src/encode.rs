//! Rendering a wire value back into frame text.
//!
//! The spec functions give the canonical rendering — no blanks, fields and
//! elements in stored order, decimal integers — and the executable renderer
//! is proved to produce exactly that text.

use vstd::prelude::*;
use vstd::string::*;

use crate::value::JsonValue;
use crate::value::SpecValue;
use crate::value::view_val;
use crate::value::view_list;
use crate::value::view_pairs;
use crate::value::lemma_view_list_props;
use crate::value::lemma_view_pairs_props;

verus! {

/// The digit character for `d` (`d` at most nine).
pub open spec fn digit_char(d: nat) -> char {
    if d == 0 {
        '0'
    } else if d == 1 {
        '1'
    } else if d == 2 {
        '2'
    } else if d == 3 {
        '3'
    } else if d == 4 {
        '4'
    } else if d == 5 {
        '5'
    } else if d == 6 {
        '6'
    } else if d == 7 {
        '7'
    } else if d == 8 {
        '8'
    } else {
        '9'
    }
}

/// Decimal digits of `n`, most significant first.
pub open spec fn dec_rep(n: nat) -> Seq<char>
    decreases n,
{
    if n < 10 {
        seq![digit_char(n)]
    } else {
        dec_rep(n / 10) + seq![digit_char(n % 10)]
    }
}

/// Rendering of an integer: a minus sign for a negative one, then digits.
pub open spec fn ser_int(i: int) -> Seq<char> {
    if i < 0 {
        seq!['-'] + dec_rep((-i) as nat)
    } else {
        dec_rep(i as nat)
    }
}

/// Rendering of one object field: quoted key, colon, value.
pub open spec fn pair_text(kv: (Seq<char>, SpecValue)) -> Seq<char>
    decreases kv,
{
    seq!['"'] + kv.0 + seq!['"', ':'] + ser_val(kv.1)
}

/// Rendering of a wire value.
pub open spec fn ser_val(v: SpecValue) -> Seq<char>
    decreases v,
{
    match v {
        SpecValue::Null => seq!['n', 'u', 'l', 'l'],
        SpecValue::Bool(b) => if b {
            seq!['t', 'r', 'u', 'e']
        } else {
            seq!['f', 'a', 'l', 's', 'e']
        },
        SpecValue::Int(i) => ser_int(i),
        SpecValue::Str(s) => seq!['"'] + s + seq!['"'],
        SpecValue::Arr(els) => seq!['['] + ser_items(els) + seq![']'],
        SpecValue::Obj(ps) => seq!['{'] + ser_pairs(ps) + seq!['}'],
    }
}

/// Rendering of an array's elements, comma separated.
pub open spec fn ser_items(els: Seq<SpecValue>) -> Seq<char>
    decreases els,
{
    if els.len() == 0 {
        Seq::empty()
    } else if els.len() == 1 {
        ser_val(els[0])
    } else {
        ser_val(els[0]) + seq![','] + ser_items(els.subrange(1, els.len() as int))
    }
}

/// Rendering of an object's fields, comma separated.
pub open spec fn ser_pairs(ps: Seq<(Seq<char>, SpecValue)>) -> Seq<char>
    decreases ps,
{
    if ps.len() == 0 {
        Seq::empty()
    } else if ps.len() == 1 {
        pair_text(ps[0])
    } else {
        pair_text(ps[0]) + seq![','] + ser_pairs(ps.subrange(1, ps.len() as int))
    }
}

pub proof fn lemma_ser_items_snoc(els: Seq<SpecValue>, x: SpecValue)
    ensures
        ser_items(els.push(x)) == if els.len() == 0 {
            ser_val(x)
        } else {
            ser_items(els) + seq![','] + ser_val(x)
        },
    decreases els.len(),
{
    let l = els.push(x);
    if els.len() == 0 {
        assert(l =~= seq![x]);
        assert(ser_items(seq![x]) == ser_val(x));
    } else if els.len() == 1 {
        assert(l[0] == els[0]);
        assert(l.subrange(1, 2) =~= seq![x]);
        assert(ser_items(l) == ser_val(l[0]) + seq![','] + ser_items(l.subrange(1, 2)));
        assert(ser_items(seq![x]) == ser_val(x));
        assert(ser_items(els) == ser_val(els[0]));
        assert(ser_items(l) =~= ser_items(els) + seq![','] + ser_val(x));
    } else {
        let sub = els.subrange(1, els.len() as int);
        assert(l[0] == els[0]);
        assert(l.subrange(1, l.len() as int) =~= sub.push(x));
        lemma_ser_items_snoc(sub, x);
        assert(ser_items(l) =~= ser_items(els) + seq![','] + ser_val(x));
    }
}

pub proof fn lemma_ser_pairs_snoc(ps: Seq<(Seq<char>, SpecValue)>, kv: (Seq<char>, SpecValue))
    ensures
        ser_pairs(ps.push(kv)) == if ps.len() == 0 {
            pair_text(kv)
        } else {
            ser_pairs(ps) + seq![','] + pair_text(kv)
        },
    decreases ps.len(),
{
    let l = ps.push(kv);
    if ps.len() == 0 {
        assert(l =~= seq![kv]);
        assert(ser_pairs(seq![kv]) == pair_text(kv));
    } else if ps.len() == 1 {
        assert(l[0] == ps[0]);
        assert(l.subrange(1, 2) =~= seq![kv]);
        assert(ser_pairs(l) == pair_text(l[0]) + seq![','] + ser_pairs(l.subrange(1, 2)));
        assert(ser_pairs(seq![kv]) == pair_text(kv));
        assert(ser_pairs(ps) == pair_text(ps[0]));
        assert(ser_pairs(l) =~= ser_pairs(ps) + seq![','] + pair_text(kv));
    } else {
        let sub = ps.subrange(1, ps.len() as int);
        assert(l[0] == ps[0]);
        assert(l.subrange(1, l.len() as int) =~= sub.push(kv));
        lemma_ser_pairs_snoc(sub, kv);
        assert(ser_pairs(l) =~= ser_pairs(ps) + seq![','] + pair_text(kv));
    }
}

/// The one-character string for a digit.
fn digit_str(d: u64) -> (s: &'static str)
    requires
        d < 10,
    ensures
        s@ == seq![digit_char(d as nat)],
{
    if d == 0 {
        proof {
            reveal_strlit("0");
            assert("0"@ =~= seq![digit_char(0)]);
        }
        "0"
    } else if d == 1 {
        proof {
            reveal_strlit("1");
            assert("1"@ =~= seq![digit_char(1)]);
        }
        "1"
    } else if d == 2 {
        proof {
            reveal_strlit("2");
            assert("2"@ =~= seq![digit_char(2)]);
        }
        "2"
    } else if d == 3 {
        proof {
            reveal_strlit("3");
            assert("3"@ =~= seq![digit_char(3)]);
        }
        "3"
    } else if d == 4 {
        proof {
            reveal_strlit("4");
            assert("4"@ =~= seq![digit_char(4)]);
        }
        "4"
    } else if d == 5 {
        proof {
            reveal_strlit("5");
            assert("5"@ =~= seq![digit_char(5)]);
        }
        "5"
    } else if d == 6 {
        proof {
            reveal_strlit("6");
            assert("6"@ =~= seq![digit_char(6)]);
        }
        "6"
    } else if d == 7 {
        proof {
            reveal_strlit("7");
            assert("7"@ =~= seq![digit_char(7)]);
        }
        "7"
    } else if d == 8 {
        proof {
            reveal_strlit("8");
            assert("8"@ =~= seq![digit_char(8)]);
        }
        "8"
    } else {
        proof {
            reveal_strlit("9");
            assert("9"@ =~= seq![digit_char(9)]);
        }
        "9"
    }
}

/// Decimal rendering of an unsigned integer.
fn fmt_u64(n: u64) -> (s: String)
    ensures
        s@ == dec_rep(n as nat),
    decreases n,
{
    if n < 10 {
        String::from_str(digit_str(n))
    } else {
        let mut s = fmt_u64(n / 10);
        s.append(digit_str(n % 10));
        proof {
            assert(s@ =~= dec_rep(n as nat));
        }
        s
    }
}

/// Decimal rendering of a signed integer.
fn fmt_i64(n: i64) -> (s: String)
    ensures
        s@ == ser_int(n as int),
{
    if n >= 0 {
        fmt_u64(n as u64)
    } else {
        let mag: u64 = if n == i64::MIN {
            9223372036854775808u64
        } else {
            (-n) as u64
        };
        let mut s = String::from_str("-");
        let digits = fmt_u64(mag);
        s.append(digits.as_str());
        proof {
            reveal_strlit("-");
            assert("-"@ =~= seq!['-']);
            assert(s@ =~= ser_int(n as int));
        }
        s
    }
}

/// Render a wire value as frame text, exactly as [`ser_val`] states it.
pub fn to_text(v: &JsonValue) -> (s: String)
    ensures
        s@ == ser_val(v@),
    decreases crate::value::depth_val(v@),
{
    match v {
        JsonValue::Null => {
            proof {
                reveal_strlit("null");
                assert("null"@ =~= seq!['n', 'u', 'l', 'l']);
            }
            String::from_str("null")
        },
        JsonValue::Bool(b) => {
            if *b {
                proof {
                    reveal_strlit("true");
                    assert("true"@ =~= seq!['t', 'r', 'u', 'e']);
                }
                String::from_str("true")
            } else {
                proof {
                    reveal_strlit("false");
                    assert("false"@ =~= seq!['f', 'a', 'l', 's', 'e']);
                }
                String::from_str("false")
            }
        },
        JsonValue::Int(i) => fmt_i64(*i),
        JsonValue::Str(st) => {
            let mut s = String::from_str("\"");
            s.append(st.as_str());
            s.append("\"");
            proof {
                reveal_strlit("\"");
                assert("\""@ =~= seq!['"']);
                assert(s@ =~= ser_val(v@));
            }
            s
        },
        JsonValue::Arr(a) => {
            let ghost gl = view_list(a@);
            proof {
                lemma_view_list_props(a@);
            }
            let mut s = String::from_str("[");
            proof {
                reveal_strlit("[");
                assert(s@ =~= seq!['['] + ser_items(gl.take(0)));
            }
            let mut idx: usize = 0;
            while idx < a.len()
                invariant
                    idx <= a@.len(),
                    v@ == SpecValue::Arr(gl),
                    gl == view_list(a@),
                    gl.len() == a@.len(),
                    forall|t: int| 0 <= t < a@.len() ==> gl[t] == view_val(a@[t]),
                    s@ == seq!['['] + ser_items(gl.take(idx as int)),
                decreases a@.len() - idx,
            {
                if idx > 0 {
                    s.append(",");
                    proof {
                        reveal_strlit(",");
                        assert(","@ =~= seq![',']);
                    }
                }
                proof {
                    crate::value::lemma_depth_list_elem(gl, idx as int);
                    assert(crate::value::depth_val(a@[idx as int]@) < crate::value::depth_val(
                        v@,
                    ));
                }
                let piece = to_text(&a[idx]);
                s.append(piece.as_str());
                proof {
                    assert(gl.take(idx as int + 1) =~= gl.take(idx as int).push(gl[idx as int]));
                    lemma_ser_items_snoc(gl.take(idx as int), gl[idx as int]);
                    assert(s@ =~= seq!['['] + ser_items(gl.take(idx as int + 1)));
                }
                idx += 1;
            }
            s.append("]");
            proof {
                reveal_strlit("]");
                assert("]"@ =~= seq![']']);
                assert(gl.take(gl.len() as int) =~= gl);
                assert(s@ =~= ser_val(v@));
            }
            s
        },
        JsonValue::Obj(o) => {
            let ghost gp = view_pairs(o@);
            proof {
                lemma_view_pairs_props(o@);
            }
            let mut s = String::from_str("{");
            proof {
                reveal_strlit("{");
                assert(s@ =~= seq!['{'] + ser_pairs(gp.take(0)));
            }
            let mut idx: usize = 0;
            while idx < o.len()
                invariant
                    idx <= o@.len(),
                    v@ == SpecValue::Obj(gp),
                    gp == view_pairs(o@),
                    gp.len() == o@.len(),
                    forall|t: int|
                        0 <= t < o@.len() ==> gp[t] == (o@[t].0@, view_val(o@[t].1)),
                    s@ == seq!['{'] + ser_pairs(gp.take(idx as int)),
                decreases o@.len() - idx,
            {
                if idx > 0 {
                    s.append(",");
                    proof {
                        reveal_strlit(",");
                        assert(","@ =~= seq![',']);
                    }
                }
                s.append("\"");
                s.append(o[idx].0.as_str());
                s.append("\":");
                proof {
                    crate::value::lemma_depth_pairs_elem(gp, idx as int);
                    assert(crate::value::depth_val(o@[idx as int].1@) < crate::value::depth_val(
                        v@,
                    ));
                }
                let piece = to_text(&o[idx].1);
                s.append(piece.as_str());
                proof {
                    reveal_strlit("\"");
                    reveal_strlit("\":");
                    assert("\""@ =~= seq!['"']);
                    assert("\":"@ =~= seq!['"', ':']);
                    assert(gp.take(idx as int + 1) =~= gp.take(idx as int).push(gp[idx as int]));
                    lemma_ser_pairs_snoc(gp.take(idx as int), gp[idx as int]);
                    assert(s@ =~= seq!['{'] + ser_pairs(gp.take(idx as int + 1)));
                }
                idx += 1;
            }
            s.append("}");
            proof {
                reveal_strlit("}");
                assert("}"@ =~= seq!['}']);
                assert(gp.take(gp.len() as int) =~= gp);
                assert(s@ =~= ser_val(v@));
            }
            s
        },
    }
}

} // verus!

//! Canonical textual rendering of expressions: the default alias of a
//! projection item, and the text whose re-parse yields the same tree.

use vstd::prelude::*;
use crate::ast::{Expr, SpecExpr, exprv};
use crate::types::Num;

verus! {

/// The decimal digit character for `d < 10`.
pub open spec fn digit_char(d: nat) -> char {
    if d == 0 {
        '0'
    } else if d == 1 {
        '1'
    } else if d == 2 {
        '2'
    } else if d == 3 {
        '3'
    } else if d == 4 {
        '4'
    } else if d == 5 {
        '5'
    } else if d == 6 {
        '6'
    } else if d == 7 {
        '7'
    } else if d == 8 {
        '8'
    } else {
        '9'
    }
}

/// The decimal digits of `m`, most significant first.
pub open spec fn dec_digits(m: nat) -> Seq<char>
    decreases m,
{
    if m < 10 {
        seq![digit_char(m)]
    } else {
        dec_digits(m / 10).push(digit_char(m % 10))
    }
}

/// `k` zero characters.
pub open spec fn zero_chars(k: nat) -> Seq<char> {
    Seq::new(k, |i: int| '0')
}

/// The canonical text of a decimal: its digits with the point inserted
/// `scale` places from the right, under a sign when negative.
pub open spec fn render_num(n: Num) -> Seq<char> {
    let d = dec_digits(n.mant as nat);
    let core = if n.scale == 0 {
        d
    } else if d.len() > n.scale {
        d.take(d.len() - n.scale) + seq!['.'] + d.skip(d.len() - n.scale)
    } else {
        seq!['0', '.'] + zero_chars((n.scale - d.len()) as nat) + d
    };
    if n.neg {
        seq!['-'] + core
    } else {
        core
    }
}

/// The canonical text of an expression. Binary operators are written with
/// the symbolic forms unspaced and the keyword forms spaced; string
/// literals are double-quoted.
#[verifier::opaque]
pub open spec fn render(e: SpecExpr) -> Seq<char>
    decreases e,
{
    match e {
        SpecExpr::Equal(l, r) => render(*l) + "="@ + render(*r),
        SpecExpr::NotEqual(l, r) => render(*l) + "!="@ + render(*r),
        SpecExpr::Less(l, r) => render(*l) + "<"@ + render(*r),
        SpecExpr::LessEqual(l, r) => render(*l) + "<="@ + render(*r),
        SpecExpr::Greater(l, r) => render(*l) + ">"@ + render(*r),
        SpecExpr::GreaterEqual(l, r) => render(*l) + ">="@ + render(*r),
        SpecExpr::And(l, r) => render(*l) + " AND "@ + render(*r),
        SpecExpr::Xor(l, r) => render(*l) + " XOR "@ + render(*r),
        SpecExpr::Or(l, r) => render(*l) + " OR "@ + render(*r),
        SpecExpr::Not(c) => "NOT "@ + render(*c),
        SpecExpr::Add(l, r) => render(*l) + "+"@ + render(*r),
        SpecExpr::Sub(l, r) => render(*l) + "-"@ + render(*r),
        SpecExpr::Mult(l, r) => render(*l) + "*"@ + render(*r),
        SpecExpr::Div(l, r) => render(*l) + "/"@ + render(*r),
        SpecExpr::Power(l, r) => render(*l) + "^"@ + render(*r),
        SpecExpr::UnarySub(c) => "-"@ + render(*c),
        SpecExpr::Number(n) => render_num(n),
        SpecExpr::Str(s) => "\""@ + s + "\""@,
        SpecExpr::Boolean(b) => if b {
            "true"@
        } else {
            "false"@
        },
        SpecExpr::Variable(s) => s,
        SpecExpr::Lookup(c, p) => render(*c) + "."@ + p,
    }
}

/// The one-character string for the digit `d`.
fn digit_str(d: u64) -> (r: &'static str)
    requires
        d < 10,
    ensures
        r@ == seq![digit_char(d as nat)],
{
    proof {
        reveal_strlit("0");
        reveal_strlit("1");
        reveal_strlit("2");
        reveal_strlit("3");
        reveal_strlit("4");
        reveal_strlit("5");
        reveal_strlit("6");
        reveal_strlit("7");
        reveal_strlit("8");
        reveal_strlit("9");
    }
    if d == 0 {
        "0"
    } else if d == 1 {
        "1"
    } else if d == 2 {
        "2"
    } else if d == 3 {
        "3"
    } else if d == 4 {
        "4"
    } else if d == 5 {
        "5"
    } else if d == 6 {
        "6"
    } else if d == 7 {
        "7"
    } else if d == 8 {
        "8"
    } else {
        "9"
    }
}

/// The decimal digits of `m` as a string.
fn dec_str(m: u64) -> (r: String)
    ensures
        r@ == dec_digits(m as nat),
    decreases m,
{
    if m < 10 {
        String::from_str(digit_str(m))
    } else {
        let head = dec_str(m / 10);
        head.concat(digit_str(m % 10))
    }
}

/// The canonical text of a decimal.
pub fn num_to_text(n: Num) -> (r: String)
    ensures
        r@ == render_num(n),
{
    let d = dec_str(n.mant);
    let dlen = d.as_str().unicode_len();
    let scale = n.scale as usize;
    let core: String = if scale == 0 {
        d
    } else if dlen > scale {
        let head = d.as_str().substring_char(0, dlen - scale);
        let tail = d.as_str().substring_char(dlen - scale, dlen);
        proof {
            assert(head@ =~= dec_digits(n.mant as nat).take(
                dec_digits(n.mant as nat).len() - n.scale,
            ));
            assert(tail@ =~= dec_digits(n.mant as nat).skip(
                dec_digits(n.mant as nat).len() - n.scale,
            ));
        }
        let with_dot = String::from_str(head).concat(".");
        proof {
            reveal_strlit(".");
        }
        with_dot.concat(tail)
    } else {
        let mut zeros = String::from_str("0.");
        proof {
            reveal_strlit("0.");
            assert(zeros@ =~= seq!['0', '.'] + zero_chars(0));
        }
        let mut k: usize = 0;
        let pad: usize = scale - dlen;
        while k < pad
            invariant
                k <= pad,
                zeros@ == seq!['0', '.'] + zero_chars(k as nat),
            decreases pad - k,
        {
            zeros.append("0");
            proof {
                reveal_strlit("0");
                assert(zeros@ =~= seq!['0', '.'] + zero_chars((k + 1) as nat));
            }
            k = k + 1;
        }
        zeros.concat(d.as_str())
    };
    if n.neg {
        proof {
            reveal_strlit("-");
        }
        let r = String::from_str("-").concat(core.as_str());
        proof {
            assert(r@ =~= render_num(n));
        }
        r
    } else {
        proof {
            assert(core@ =~= render_num(n));
        }
        core
    }
}

/// The canonical text of an expression, the default projection alias.
pub fn render_expr(e: &Expr) -> (r: String)
    ensures
        r@ == render(exprv(*e)),
    decreases *e,
{
    proof {
        reveal(render);
    }
    match e {
        Expr::EqualExpr(x) => {
            let lt = render_expr(&x.lhs);
            let rt = render_expr(&x.rhs);
            lt.concat("=").concat(rt.as_str())
        },
        Expr::NotEqualExpr(x) => {
            let lt = render_expr(&x.lhs);
            let rt = render_expr(&x.rhs);
            lt.concat("!=").concat(rt.as_str())
        },
        Expr::LessExpr(x) => {
            let lt = render_expr(&x.lhs);
            let rt = render_expr(&x.rhs);
            lt.concat("<").concat(rt.as_str())
        },
        Expr::LessEqualExpr(x) => {
            let lt = render_expr(&x.lhs);
            let rt = render_expr(&x.rhs);
            lt.concat("<=").concat(rt.as_str())
        },
        Expr::GreaterExpr(x) => {
            let lt = render_expr(&x.lhs);
            let rt = render_expr(&x.rhs);
            lt.concat(">").concat(rt.as_str())
        },
        Expr::GreaterEqualExpr(x) => {
            let lt = render_expr(&x.lhs);
            let rt = render_expr(&x.rhs);
            lt.concat(">=").concat(rt.as_str())
        },
        Expr::AndExpr(x) => {
            let lt = render_expr(&x.lhs);
            let rt = render_expr(&x.rhs);
            lt.concat(" AND ").concat(rt.as_str())
        },
        Expr::XorExpr(x) => {
            let lt = render_expr(&x.lhs);
            let rt = render_expr(&x.rhs);
            lt.concat(" XOR ").concat(rt.as_str())
        },
        Expr::OrExpr(x) => {
            let lt = render_expr(&x.lhs);
            let rt = render_expr(&x.rhs);
            lt.concat(" OR ").concat(rt.as_str())
        },
        Expr::NotExpr(x) => {
            let ct = render_expr(&x.child);
            String::from_str("NOT ").concat(ct.as_str())
        },
        Expr::AddExpr(x) => {
            let lt = render_expr(&x.lhs);
            let rt = render_expr(&x.rhs);
            lt.concat("+").concat(rt.as_str())
        },
        Expr::SubExpr(x) => {
            let lt = render_expr(&x.lhs);
            let rt = render_expr(&x.rhs);
            lt.concat("-").concat(rt.as_str())
        },
        Expr::MultExpr(x) => {
            let lt = render_expr(&x.lhs);
            let rt = render_expr(&x.rhs);
            lt.concat("*").concat(rt.as_str())
        },
        Expr::DivExpr(x) => {
            let lt = render_expr(&x.lhs);
            let rt = render_expr(&x.rhs);
            lt.concat("/").concat(rt.as_str())
        },
        Expr::PowerExpr(x) => {
            let lt = render_expr(&x.lhs);
            let rt = render_expr(&x.rhs);
            lt.concat("^").concat(rt.as_str())
        },
        Expr::UnarySubExpr(x) => {
            let ct = render_expr(&x.child);
            String::from_str("-").concat(ct.as_str())
        },
        Expr::NumberLit(n) => num_to_text(*n),
        Expr::StringLit(s) => {
            let quoted = String::from_str("\"").concat(s.as_str());
            quoted.concat("\"")
        },
        Expr::BooleanLit(b) => {
            if *b {
                String::from_str("true")
            } else {
                String::from_str("false")
            }
        },
        Expr::Variable(s) => s.clone(),
        Expr::PropertyLookup(x) => {
            let ct = render_expr(&x.child);
            ct.concat(".").concat(x.prop_name.as_str())
        },
    }
}

} // verus!

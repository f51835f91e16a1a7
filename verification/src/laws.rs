//! Properties of pattern decomposition, stated and proved over the
//! builder's specification.

use vstd::prelude::*;
use crate::ast::{SpecExpr, SpecMatchClause, SpecPattern};
use crate::parser::{
    digit_val, digits_val, eq_nc, has_tag, has_tag_nc, is_digit, is_name_char, is_ws, pow10, scan_digits,
    scan_hex, scan_name, scan_until, scan_ws, sp_atom, sp_bool, sp_comp, sp_comp_op, sp_expr,
    sp_kw_tail, sp_lookup, sp_mul, sp_not, sp_number, sp_pow, sp_string, sp_symbolic_name,
    sp_unary, sp_add, sp_xor, sp_and,
};
use crate::render::{render, render_num};
use crate::builder::{
    sp_build_match, sp_clause_plans, sp_expand, sp_join_fold, sp_path_plan, sp_paths,
    sp_paths_from, sp_paths_upto, sp_pattern_plans, sp_paths_plans, sp_scan, sp_start, walk_down,
    walk_up,
};
use crate::implement::sp_implementable;
use crate::plan::SpecRel;

verus! {

/// A chain of exactly `k` hops over one scan.
pub open spec fn is_expand_chain(r: SpecRel, k: nat) -> bool
    decreases k,
{
    if k == 0 {
        r is Scan
    } else {
        r matches SpecRel::Expand { child, .. } && is_expand_chain(*child, (k - 1) as nat)
    }
}

/// A plan rooted in a scan, reached through hops only.
pub open spec fn scan_rooted(r: SpecRel) -> bool
    decreases r,
{
    match r {
        SpecRel::Scan { .. } => true,
        SpecRel::Expand { child, .. } => scan_rooted(*child),
        _ => false,
    }
}

/// The plan of any path is rooted in a scan, reached through hops only.
pub proof fn lemma_path_plan_scan_rooted(p: SpecPattern, path: Seq<int>)
    requires
        sp_path_plan(p, path) is Some,
    ensures
        scan_rooted(sp_path_plan(p, path)->Some_0),
    decreases path.len(),
{
    if path.len() <= 1 {
    } else {
        lemma_path_plan_scan_rooted(p, path.drop_last());
    }
}

/// The upward walk over a run of right-pointing relationships visits
/// each node index in order up to the last node.
pub proof fn lemma_walk_up_all_right(p: SpecPattern, v: int)
    requires
        p.wf(),
        0 <= v < p.nodes.len(),
        forall|k: int| v <= k < p.rels.len() ==> p.rels[k].direction is Right,
    ensures
        walk_up(p, v) == Seq::new((p.nodes.len() - v) as nat, |k: int| v + k),
    decreases p.nodes.len() - v,
{
    if v < p.rels.len() {
        lemma_walk_up_all_right(p, v + 1);
        assert(walk_up(p, v) =~= Seq::new((p.nodes.len() - v) as nat, |k: int| v + k));
    } else {
        assert(walk_up(p, v) =~= Seq::new((p.nodes.len() - v) as nat, |k: int| v + k));
    }
}

/// With every relationship pointing right, the only start node is the
/// first, so exactly one path comes out: the node indices in order.
pub proof fn lemma_paths_linear(p: SpecPattern)
    requires
        p.wf(),
        forall|k: int| 0 <= k < p.rels.len() ==> p.rels[k].direction is Right,
    ensures
        sp_paths(p) == seq![Seq::new(p.nodes.len(), |k: int| k)],
{
    lemma_walk_up_all_right(p, 0);
    assert(sp_paths_from(p, 0) =~= seq![walk_up(p, 0)]) by {
        if p.rels.len() == 0 {
            assert(walk_up(p, 0) =~= seq![0int]);
        }
    }
    assert forall|i: int| 1 <= i < p.nodes.len() implies !sp_start(p, i) by {
        assert(p.rels[i - 1].direction is Right);
    }
    lemma_paths_upto_only_zero(p, p.nodes.len() as int);
    assert(walk_up(p, 0) =~= Seq::new(p.nodes.len(), |k: int| k));
    assert(sp_paths(p) =~= seq![Seq::new(p.nodes.len(), |k: int| k)]);
}

/// When no node index in `[1, n)` is a start, the paths up to `n` are
/// those of node zero alone.
proof fn lemma_paths_upto_only_zero(p: SpecPattern, n: int)
    requires
        1 <= n,
        forall|i: int| 1 <= i < n ==> !sp_start(p, i),
        sp_start(p, 0),
    ensures
        sp_paths_upto(p, n) == sp_paths_from(p, 0),
    decreases n,
{
    if n == 1 {
        assert(sp_paths_upto(p, 0) =~= Seq::<Seq<int>>::empty());
        assert(sp_paths_upto(p, 1) =~= sp_paths_from(p, 0));
    } else {
        lemma_paths_upto_only_zero(p, n - 1);
        assert(sp_paths_upto(p, n) =~= sp_paths_from(p, 0));
    }
}

/// The plan of the in-order path over `m` nodes is a chain of `m - 1`
/// hops over one scan, given every step carries a relationship type and
/// an end label.
pub proof fn lemma_path_plan_chain(p: SpecPattern, m: int)
    requires
        p.wf(),
        1 <= m <= p.nodes.len(),
        forall|k: int| 0 <= k < p.rels.len() ==> (#[trigger] p.rels[k].types).len() > 0,
        forall|k: int| 1 <= k < p.nodes.len() ==> (#[trigger] p.nodes[k].labels).len() > 0,
    ensures
        sp_path_plan(p, Seq::new(m as nat, |k: int| k)) is Some,
        is_expand_chain(sp_path_plan(p, Seq::new(m as nat, |k: int| k))->Some_0, (m - 1) as nat),
    decreases m,
{
    let path = Seq::new(m as nat, |k: int| k);
    if m == 1 {
    } else {
        lemma_path_plan_chain(p, m - 1);
        assert(path.drop_last() =~= Seq::new((m - 1) as nat, |k: int| k));
        assert(path[m - 2] == m - 2 && path.last() == m - 1);
        assert(p.rels[m - 2].types.len() > 0);
        assert(p.nodes[m - 1].labels.len() > 0);
    }
}

/// A linear pattern — every relationship pointing right, each with a
/// type, every hopped-onto node labelled — decomposes into exactly one
/// path and builds exactly one plan: a chain of one hop per relationship
/// wrapping one scan, which lowers one to one.
pub proof fn lemma_linear_pattern(p: SpecPattern)
    requires
        p.wf(),
        forall|k: int| 0 <= k < p.rels.len() ==> p.rels[k].direction is Right,
        forall|k: int| 0 <= k < p.rels.len() ==> (#[trigger] p.rels[k].types).len() > 0,
        forall|k: int| 1 <= k < p.nodes.len() ==> (#[trigger] p.nodes[k].labels).len() > 0,
    ensures
        sp_paths(p).len() == 1,
        sp_pattern_plans(p) is Some,
        sp_pattern_plans(p)->Some_0.len() == 1,
        is_expand_chain(sp_pattern_plans(p)->Some_0[0], p.rels.len()),
        sp_implementable(sp_pattern_plans(p)->Some_0[0]),
{
    lemma_paths_linear(p);
    lemma_path_plan_chain(p, p.nodes.len() as int);
    let path = Seq::new(p.nodes.len(), |k: int| k);
    assert(sp_paths(p)[0] == path);
    assert(sp_paths(p).drop_first() =~= Seq::<Seq<int>>::empty());
    assert(sp_paths_plans(p, sp_paths(p).drop_first()) == Some(Seq::<SpecRel>::empty()));
    let r = sp_path_plan(p, path)->Some_0;
    assert(sp_pattern_plans(p)->Some_0 =~= seq![r]);
    lemma_chain_implementable(r, ((p.nodes.len() - 1) as nat));
    assert(p.rels.len() == p.nodes.len() - 1);
}

/// A chain of hops over a scan lowers: it holds no join.
pub proof fn lemma_chain_implementable(r: SpecRel, k: nat)
    requires
        is_expand_chain(r, k),
    ensures
        sp_implementable(r),
    decreases k,
{
    if k > 0 {
        match r {
            SpecRel::Expand { child, .. } => {
                lemma_chain_implementable(*child, (k - 1) as nat);
            },
            _ => {},
        }
    }
}

/// A single hop binds its start and end by the parsed direction: with a
/// right-pointing relationship the first node starts the hop and the
/// second ends it; with a left-pointing one the second starts it and
/// the first ends it.
pub proof fn lemma_hop_binding(p: SpecPattern)
    requires
        p.wf(),
        p.nodes.len() == 2,
        p.rels[0].types.len() > 0,
        p.nodes[0].labels.len() > 0,
        p.nodes[1].labels.len() > 0,
    ensures
        p.rels[0].direction is Right ==> sp_pattern_plans(p) == Some(
            seq![
                sp_expand(sp_scan(p.nodes[0]), p.nodes[0], p.nodes[1], p.rels[0])->Some_0,
            ],
        ) && sp_expand(sp_scan(p.nodes[0]), p.nodes[0], p.nodes[1], p.rels[0])->Some_0->Expand_start
            == p.nodes[0].name && sp_expand(
            sp_scan(p.nodes[0]),
            p.nodes[0],
            p.nodes[1],
            p.rels[0],
        )->Some_0->Expand_end == p.nodes[1].name,
        p.rels[0].direction is Left ==> sp_pattern_plans(p) == Some(
            seq![
                sp_expand(sp_scan(p.nodes[1]), p.nodes[1], p.nodes[0], p.rels[0])->Some_0,
            ],
        ) && sp_expand(sp_scan(p.nodes[1]), p.nodes[1], p.nodes[0], p.rels[0])->Some_0->Expand_start
            == p.nodes[1].name && sp_expand(
            sp_scan(p.nodes[1]),
            p.nodes[1],
            p.nodes[0],
            p.rels[0],
        )->Some_0->Expand_end == p.nodes[0].name,
{
    if p.rels[0].direction is Right {
        let path = seq![0int, 1int];
        assert(sp_start(p, 0));
        assert(!sp_start(p, 1));
        assert(walk_up(p, 1) =~= seq![1int]);
        assert(walk_up(p, 0) =~= path);
        assert(sp_paths_from(p, 0) =~= seq![path]);
        assert(sp_paths_upto(p, 0) =~= Seq::<Seq<int>>::empty());
        assert(sp_paths_upto(p, 1) =~= seq![path]);
        assert(sp_paths_upto(p, 2) =~= seq![path]);
        assert(path.drop_last() =~= seq![0int]);
        assert(sp_path_plan(p, seq![0int]) == Some(sp_scan(p.nodes[0])));
        assert(sp_path_plan(p, path) == sp_expand(
            sp_scan(p.nodes[0]),
            p.nodes[0],
            p.nodes[1],
            p.rels[0],
        ));
        assert(sp_paths(p) == sp_paths_upto(p, 2));
        assert(sp_paths(p).drop_first() =~= Seq::<Seq<int>>::empty());
        assert(sp_paths_plans(p, sp_paths(p).drop_first()) == Some(Seq::<SpecRel>::empty()));
        assert(sp_paths(p)[0] == path);
        assert(sp_pattern_plans(p)->Some_0 =~= seq![sp_path_plan(p, path)->Some_0]);
    } else {
        let path = seq![1int, 0int];
        assert(!sp_start(p, 0));
        assert(sp_start(p, 1));
        assert(walk_down(p, 0) =~= seq![0int]);
        assert(walk_down(p, 1) =~= path);
        assert(sp_paths_from(p, 1) =~= seq![path]);
        assert(sp_paths_upto(p, 0) =~= Seq::<Seq<int>>::empty());
        assert(sp_paths_upto(p, 1) =~= Seq::<Seq<int>>::empty());
        assert(sp_paths_upto(p, 2) =~= seq![path]);
        assert(path.drop_last() =~= seq![1int]);
        assert(sp_path_plan(p, seq![1int]) == Some(sp_scan(p.nodes[1])));
        assert(sp_path_plan(p, path) == sp_expand(
            sp_scan(p.nodes[1]),
            p.nodes[1],
            p.nodes[0],
            p.rels[0],
        ));
        assert(sp_paths(p) == sp_paths_upto(p, 2));
        assert(sp_paths(p).drop_first() =~= Seq::<Seq<int>>::empty());
        assert(sp_paths_plans(p, sp_paths(p).drop_first()) == Some(Seq::<SpecRel>::empty()));
        assert(sp_paths(p)[0] == path);
        assert(sp_pattern_plans(p)->Some_0 =~= seq![sp_path_plan(p, path)->Some_0]);
    }
}

/// Two disconnected patterns, each decomposing into one path, build one
/// Cartesian join of the two per-path plans, both rooted in scans, each
/// side kept whole — names appearing in both are not deduplicated.
pub proof fn lemma_two_path_join(m: SpecMatchClause)
    requires
        m.filter.len() == 0,
        m.pattern.len() == 2,
        sp_pattern_plans(m.pattern[0]) is Some,
        sp_pattern_plans(m.pattern[0])->Some_0.len() == 1,
        sp_pattern_plans(m.pattern[1]) is Some,
        sp_pattern_plans(m.pattern[1])->Some_0.len() == 1,
    ensures
        sp_build_match(m) == Some(
            SpecRel::Join(
                Box::new(sp_pattern_plans(m.pattern[0])->Some_0[0]),
                Box::new(sp_pattern_plans(m.pattern[1])->Some_0[0]),
            ),
        ),
{
    let a = sp_pattern_plans(m.pattern[0])->Some_0[0];
    let b = sp_pattern_plans(m.pattern[1])->Some_0[0];
    assert(m.pattern.drop_first() =~= seq![m.pattern[1]]);
    assert(m.pattern.drop_first().drop_first() =~= Seq::<SpecPattern>::empty());
    assert(sp_clause_plans(m.pattern.drop_first().drop_first()) == Some(Seq::<SpecRel>::empty()));
    assert(sp_pattern_plans(m.pattern[0])->Some_0 =~= seq![a]);
    assert(sp_pattern_plans(m.pattern[1])->Some_0 =~= seq![b]);
    assert(sp_clause_plans(m.pattern.drop_first())->Some_0 =~= seq![b]);
    assert(sp_clause_plans(m.pattern)->Some_0 =~= seq![a, b]);
    let plans = sp_clause_plans(m.pattern)->Some_0;
    assert(plans.drop_last() =~= seq![a]);
    assert(sp_join_fold(seq![a]) == Some(a));
    assert(sp_join_fold(plans) == Some(SpecRel::Join(Box::new(a), Box::new(b))));
}

// ------------------------------------------------------------------
// Re-parsing a canonical rendering
// ------------------------------------------------------------------

/// Case-insensitive equality of two character runs.
pub open spec fn eq_nc_seq(a: Seq<char>, b: Seq<char>) -> bool {
    a.len() == b.len() && forall|k: int| 0 <= k < a.len() ==> eq_nc(a[k], b[k])
}

/// An identifier-shaped name: nonempty name characters, not starting
/// with a digit, and not spelling a keyword or boolean literal in any
/// case.
pub open spec fn name_ok(nm: Seq<char>) -> bool {
    &&& nm.len() >= 1
    &&& forall|k: int| 0 <= k < nm.len() ==> is_name_char(#[trigger] nm[k])
    &&& !is_digit(nm[0])
    &&& !eq_nc_seq(nm, "true"@)
    &&& !eq_nc_seq(nm, "false"@)
    &&& !eq_nc_seq(nm, "NOT"@)
    &&& !eq_nc_seq(nm, "AND"@)
    &&& !eq_nc_seq(nm, "XOR"@)
    &&& !eq_nc_seq(nm, "OR"@)
}

/// A canonical atom: a renderable literal or a well-shaped variable.
/// Numbers are normalized, unsigned and at most nineteen digits;
/// strings carry no double quote.
pub open spec fn canon_atom(e: SpecExpr) -> bool {
    match e {
        SpecExpr::Number(n) => crate::types::num_wf(n) && !n.neg && n.mant < pow10(19)
            && n.scale <= 18,
        SpecExpr::Str(s) => forall|k: int| 0 <= k < s.len() ==> s[k] != '"',
        SpecExpr::Boolean(_) => true,
        SpecExpr::Variable(nm) => name_ok(nm),
        _ => false,
    }
}

/// A canonical lookup-level expression: an atom, or one property
/// lookup over an atom.
pub open spec fn canon_lookup(e: SpecExpr) -> bool {
    canon_atom(e) || (e matches SpecExpr::Lookup(c, nm) && canon_atom(*c) && name_ok(nm))
}

/// A position where an atom's rendering may stop: the end, or a
/// character that neither continues a name nor opens a fraction.
pub open spec fn atom_stop(u: Seq<char>, j: int) -> bool {
    j == u.len() || (0 <= j < u.len() && !is_name_char(u[j]) && (u[j] != '.' || j + 1 == u.len()
        || !is_digit(u[j + 1])) && u[j] != '"' && u[j] != '\'')
}

/// A case-insensitive match onto a name character is itself a name
/// character.
pub proof fn lemma_eq_nc_name_char(a: char, b: char)
    requires
        eq_nc(a, b),
        is_name_char(b),
    ensures
        is_name_char(a),
{
}

/// The digit character of `d` reads back as `d`.
pub proof fn lemma_digit_char_val(d: nat)
    requires
        d < 10,
    ensures
        is_digit(crate::render::digit_char(d)),
        digit_val(crate::render::digit_char(d)) == d,
{
}

/// Every character of a decimal rendering is a digit.
pub proof fn lemma_dec_digits_are_digits(m: nat)
    ensures
        forall|k: int|
            0 <= k < crate::render::dec_digits(m).len() ==> is_digit(
                #[trigger] crate::render::dec_digits(m)[k],
            ),
        crate::render::dec_digits(m).len() >= 1,
    decreases m,
{
    if m < 10 {
        lemma_digit_char_val(m);
    } else {
        lemma_dec_digits_are_digits(m / 10);
        lemma_digit_char_val(m % 10);
    }
}

/// Reading the decimal rendering of `m` back gives `m`.
pub proof fn lemma_digits_val_dec_digits(m: nat)
    ensures
        digits_val(crate::render::dec_digits(m)) == m,
    decreases m,
{
    let d = crate::render::dec_digits(m);
    if m < 10 {
        lemma_digit_char_val(m);
        assert(d.drop_last() =~= Seq::<char>::empty());
        assert(digits_val(Seq::<char>::empty()) == 0);
        assert(d.last() == crate::render::digit_char(m));
    } else {
        lemma_digits_val_dec_digits(m / 10);
        lemma_digit_char_val(m % 10);
        assert(d.drop_last() =~= crate::render::dec_digits(m / 10));
        assert(d.last() == crate::render::digit_char(m % 10));
    }
}

/// A run of zero characters reads as zero.
pub proof fn lemma_digits_val_zeros(k: nat)
    ensures
        digits_val(crate::render::zero_chars(k)) == 0,
    decreases k,
{
    if k > 0 {
        lemma_digits_val_zeros((k - 1) as nat);
        assert(crate::render::zero_chars(k).drop_last() =~= crate::render::zero_chars(
            (k - 1) as nat,
        ));
        assert(crate::render::zero_chars(k).last() == '0');
    }
}

/// Leading zeros do not change what a digit run reads as.
pub proof fn lemma_digits_val_leading_zeros(k: nat, s: Seq<char>)
    ensures
        digits_val(crate::render::zero_chars(k) + s) == digits_val(s),
    decreases s.len(),
{
    if s.len() == 0 {
        assert(crate::render::zero_chars(k) + s =~= crate::render::zero_chars(k));
        lemma_digits_val_zeros(k);
    } else {
        lemma_digits_val_leading_zeros(k, s.drop_last());
        assert((crate::render::zero_chars(k) + s).drop_last() =~= crate::render::zero_chars(k)
            + s.drop_last());
        assert((crate::render::zero_chars(k) + s).last() == s.last());
    }
}

/// A number below ten to the `k` renders in at most `k` digits.
pub proof fn lemma_dec_digits_len(m: nat, k: nat)
    requires
        k >= 1,
        m < pow10(k),
    ensures
        crate::render::dec_digits(m).len() <= k,
    decreases k,
{
    if m < 10 {
    } else {
        assert(pow10(k) == 10 * pow10((k - 1) as nat));
        assert(m / 10 < pow10((k - 1) as nat));
        assert(k - 1 >= 1) by {
            if k == 1 {
                assert(pow10(1) == 10);
            }
        }
        lemma_dec_digits_len(m / 10, (k - 1) as nat);
    }
}

/// Scanning stops exactly at the end of a known digit run.
pub proof fn lemma_scan_digits_run(u: Seq<char>, i: int, j: int)
    requires
        0 <= i <= j <= u.len(),
        forall|k: int| i <= k < j ==> is_digit(u[k]),
        j == u.len() || !is_digit(u[j]),
    ensures
        scan_digits(u, i) == j,
    decreases j - i,
{
    if i < j {
        lemma_scan_digits_run(u, i + 1, j);
    }
}

/// Scanning stops exactly at the end of a known name-character run.
pub proof fn lemma_scan_name_run(u: Seq<char>, i: int, j: int)
    requires
        0 <= i <= j <= u.len(),
        forall|k: int| i <= k < j ==> is_name_char(u[k]),
        j == u.len() || !is_name_char(u[j]),
    ensures
        scan_name(u, i) == j,
    decreases j - i,
{
    if i < j {
        lemma_scan_name_run(u, i + 1, j);
    }
}

/// Scanning for a quote stops exactly at the first one.
pub proof fn lemma_scan_until_run(u: Seq<char>, i: int, j: int, q: char)
    requires
        0 <= i <= j <= u.len(),
        forall|k: int| i <= k < j ==> u[k] != q,
        j < u.len() && u[j] == q,
    ensures
        scan_until(u, i, q) == j,
    decreases j - i,
{
    if i < j {
        lemma_scan_until_run(u, i + 1, j, q);
    }
}

/// A number literal's canonical text reads back as the same decimal.
#[verifier::rlimit(100)]
#[verifier::spinoff_prover]
pub proof fn lemma_rt_number(u: Seq<char>, i: int, n: crate::types::Num)
    requires
        crate::types::num_wf(n),
        !n.neg,
        n.mant < pow10(19),
        n.scale <= 18,
        0 <= i,
        i + render_num(n).len() <= u.len(),
        u.subrange(i, i + render_num(n).len()) == render_num(n),
        atom_stop(u, i + render_num(n).len()),
    ensures
        sp_number(u, i) == Some((n, i + render_num(n).len())),
{
    reveal_strlit("0x");
    let d = crate::render::dec_digits(n.mant as nat);
    let ld = d.len() as int;
    let r = render_num(n);
    let end = i + r.len();
    lemma_dec_digits_are_digits(n.mant as nat);
    lemma_digits_val_dec_digits(n.mant as nat);
    lemma_dec_digits_len(n.mant as nat, 19);
    assert forall|k: int| i <= k < i + r.len() implies #[trigger] u[k] == r[k - i] by {
        assert(u.subrange(i, i + r.len())[k - i] == u[k]);
    }
    // The hex prefix never matches: the second character is a digit, a
    // point, or the stop position.
    assert(!(has_tag_nc(u, i, "0x"@) && scan_hex(u, i + 2) > i + 2)) by {
        if has_tag_nc(u, i, "0x"@) {
            assert("0x"@[1] == 'x');
            assert(eq_nc(u[i + 1], "0x"@[1]));
            assert(eq_nc(u[i + 1], 'x'));
            lemma_eq_nc_name_char(u[i + 1], 'x');
            if r.len() >= 2 {
                assert(u[i + 1] == r[1]);
                if n.scale == 0 {
                    assert(r[1] == d[1]);
                    assert(is_digit(u[i + 1]));
                    assert(u[i + 1] == 'x' || u[i + 1] == 'X');
                } else if ld > n.scale {
                    if ld - n.scale >= 2 {
                        assert(r[1] == d[1]);
                        assert(is_digit(u[i + 1]));
                    } else {
                        assert(r[1] == '.');
                    }
                    assert(u[i + 1] == 'x' || u[i + 1] == 'X');
                } else {
                    assert(r[1] == '.');
                    assert(u[i + 1] == 'x' || u[i + 1] == 'X');
                }
            } else {
                assert(r.len() == 1);
                assert(i + 1 == end);
                assert(i + 2 <= u.len());
                assert(end < u.len());
                assert(!is_name_char(u[end]));
                assert(u[i + 1] == 'x' || u[i + 1] == 'X');
            }
        }
    }
    if n.scale == 0 {
        assert(r =~= d);
        assert(forall|k: int| i <= k < end ==> is_digit(u[k]));
        lemma_scan_digits_run(u, i, end);
        assert(!(end < u.len() && u[end] == '.' && scan_digits(u, end + 1) > end + 1)) by {
            if end < u.len() && u[end] == '.' {
                if end + 1 < u.len() {
                    assert(!is_digit(u[end + 1]));
                }
                assert(scan_digits(u, end + 1) == end + 1);
            }
        }
        assert(u.subrange(i, end) =~= d);
        assert(crate::types::spec_norm(false, n.mant as nat, 0) == n);
    } else if ld > n.scale {
        let cut = i + ld - n.scale;
        assert(r =~= d.take(ld - n.scale) + seq!['.'] + d.skip(ld - n.scale));
        assert(forall|k: int| i <= k < cut ==> is_digit(u[k])) by {
            assert(forall|k: int| 0 <= k < ld - n.scale ==> r[k] == d[k]);
        }
        assert(u[cut] == '.');
        lemma_scan_digits_run(u, i, cut);
        assert(forall|k: int| cut + 1 <= k < end ==> is_digit(u[k])) by {
            assert(forall|k: int|
                ld - n.scale + 1 <= k < r.len() ==> r[k] == d[k - 1]);
        }
        assert(end == u.len() || !is_digit(u[end])) by {
            if end < u.len() {
                assert(!is_name_char(u[end]));
            }
        }
        lemma_scan_digits_run(u, cut + 1, end);
        assert(scan_digits(u, cut + 1) - cut - 1 == n.scale);
        let digits = u.subrange(i, cut) + u.subrange(cut + 1, end);
        assert(digits =~= d);
        assert(digits.len() <= 19);
        assert(crate::types::spec_norm(false, n.mant as nat, n.scale as nat) == n);
    } else {
        let z = crate::render::zero_chars((n.scale - ld) as nat);
        assert(r =~= seq!['0', '.'] + z + d);
        assert(u[i] == '0' && is_digit(u[i]));
        assert(u[i + 1] == '.');
        lemma_scan_digits_run(u, i, i + 1);
        assert(forall|k: int| i + 2 <= k < end ==> is_digit(u[k])) by {
            assert(forall|k: int| 2 <= k < 2 + z.len() ==> r[k] == '0');
            assert(forall|k: int| 2 + z.len() <= k < r.len() ==> r[k] == d[k - 2 - z.len()]);
        }
        assert(end == u.len() || !is_digit(u[end])) by {
            if end < u.len() {
                assert(!is_name_char(u[end]));
            }
        }
        lemma_scan_digits_run(u, i + 2, end);
        assert(scan_digits(u, i + 2) - i - 2 == n.scale);
        let digits = u.subrange(i, i + 1) + u.subrange(i + 2, end);
        assert(digits =~= crate::render::zero_chars(1) + (z + d));
        lemma_digits_val_leading_zeros(1, z + d);
        lemma_digits_val_leading_zeros((n.scale - ld) as nat, d);
        assert(digits_val(digits) == n.mant as nat);
        assert(digits.len() == 1 + n.scale <= 19);
        assert(crate::types::spec_norm(false, n.mant as nat, n.scale as nat) == n);
    }
}

/// A string literal's canonical text reads back as the same characters.
pub proof fn lemma_rt_string(u: Seq<char>, i: int, s: Seq<char>)
    requires
        forall|k: int| 0 <= k < s.len() ==> s[k] != '"',
        0 <= i,
        i + s.len() + 2 <= u.len(),
        u.subrange(i, i + s.len() + 2) == "\""@ + s + "\""@,
    ensures
        sp_string(u, i) == Some((s, i + s.len() + 2)),
{
    reveal_strlit("\"");
    let r = "\""@ + s + "\""@;
    assert forall|k: int| i <= k < i + r.len() implies #[trigger] u[k] == r[k - i] by {
        assert(u.subrange(i, i + r.len())[k - i] == u[k]);
    }
    assert(u[i] == r[0]);
    assert(u[i] == '"');
    assert forall|k: int| i + 1 <= k < i + 1 + s.len() implies u[k] != '"' by {
        assert(u[k] == r[k - i]);
        assert(r[k - i] == s[k - i - 1]);
    }
    assert(u[i + 1 + s.len()] == '"');
    lemma_scan_until_run(u, i + 1, i + 1 + s.len(), '"');
    assert(u.subrange(i + 1, i + 1 + s.len()) =~= s);
}

/// A boolean literal's canonical text reads back as the same boolean.
pub proof fn lemma_rt_bool(u: Seq<char>, i: int, b: bool)
    requires
        0 <= i,
        i + render(SpecExpr::Boolean(b)).len() <= u.len(),
        u.subrange(i, i + render(SpecExpr::Boolean(b)).len()) == render(SpecExpr::Boolean(b)),
        atom_stop(u, i + render(SpecExpr::Boolean(b)).len()),
    ensures
        sp_bool(u, i) == Some((b, i + render(SpecExpr::Boolean(b)).len())),
{
    reveal(render);
    reveal_strlit("true");
    reveal_strlit("false");
    let r = render(SpecExpr::Boolean(b));
    let end = i + r.len();
    assert forall|k: int| i <= k < i + r.len() implies #[trigger] u[k] == r[k - i] by {
        assert(u.subrange(i, i + r.len())[k - i] == u[k]);
    }
    if b {
        assert forall|k: int| 0 <= k < 4 implies eq_nc(u[i + k], "true"@[k]) by {
            assert(u[i + k] == r[k]);
        }
        assert(has_tag_nc(u, i, "true"@));
        assert(!(i + 4 < u.len() && is_name_char(u[i + 4])));
    } else {
        assert(!has_tag_nc(u, i, "true"@)) by {
            assert(u[i] == 'f');
            if has_tag_nc(u, i, "true"@) {
                assert(eq_nc(u[i + 0], "true"@[0]));
            }
        }
        assert forall|k: int| 0 <= k < 5 implies eq_nc(u[i + k], "false"@[k]) by {
            assert(u[i + k] == r[k]);
        }
        assert(has_tag_nc(u, i, "false"@));
        assert(!(i + 5 < u.len() && is_name_char(u[i + 5])));
    }
}

/// A well-shaped name reads back as the same name.
pub proof fn lemma_rt_name(u: Seq<char>, i: int, nm: Seq<char>)
    requires
        name_ok(nm),
        0 <= i,
        i + nm.len() <= u.len(),
        u.subrange(i, i + nm.len()) == nm,
        i + nm.len() == u.len() || !is_name_char(u[i + nm.len()]),
    ensures
        sp_symbolic_name(u, i) == Some((nm, i + nm.len())),
{
    assert forall|k: int| i <= k < i + nm.len() implies is_name_char(u[k]) by {
        assert(u.subrange(i, i + nm.len())[k - i] == u[k]);
        assert(u[k] == nm[k - i]);
    }
    lemma_scan_name_run(u, i, i + nm.len());
    assert(u.subrange(i, i + nm.len()) =~= nm);
}

/// Name characters are never whitespace.
pub proof fn lemma_name_char_not_ws(c: char)
    requires
        is_name_char(c),
    ensures
        !is_ws(c),
{
}

/// A canonical atom's rendering is nonempty; what it opens with is
/// fixed by its kind: a digit, a quote, a boolean's first letter, or
/// the name's first character.
pub proof fn lemma_render_first_char(e: SpecExpr)
    requires
        canon_atom(e),
    ensures
        render(e).len() >= 1,
        e is Number ==> is_digit(render(e)[0]),
        e is Str ==> render(e)[0] == '"',
        e is Boolean ==> (render(e)[0] == 't' || render(e)[0] == 'f'),
        e matches SpecExpr::Variable(nm) ==> render(e)[0] == nm[0] && is_name_char(render(e)[0])
            && !is_digit(render(e)[0]),
    decreases e,
{
    reveal(render);
    reveal_strlit("true");
    reveal_strlit("false");
    reveal_strlit("\"");
    match e {
        SpecExpr::Number(n) => {
            let d = crate::render::dec_digits(n.mant as nat);
            lemma_dec_digits_are_digits(n.mant as nat);
            if n.scale == 0 {
                assert(render(e)[0] == d[0]);
            } else if d.len() > n.scale {
                assert(render(e)[0] == d[0]);
            } else {
                assert(render(e)[0] == '0');
            }
        },
        SpecExpr::Str(s) => {
            assert(render(e) == "\""@ + s + "\""@);
            assert(render(e)[0] == '"');
        },
        SpecExpr::Boolean(b) => {
            if b {
                assert(render(e)[0] == 't');
            } else {
                assert(render(e)[0] == 'f');
            }
        },
        SpecExpr::Variable(nm) => {
            assert(render(e)[0] == nm[0]);
        },
        _ => {},
    }
}

/// A canonical atom's rendering at `i` in `u` reads back as the same
/// atom, wherever the following character cannot extend it.
pub proof fn lemma_rt_atom(u: Seq<char>, i: int, e: SpecExpr)
    requires
        canon_atom(e),
        0 <= i,
        i + render(e).len() <= u.len(),
        u.subrange(i, i + render(e).len()) == render(e),
        atom_stop(u, i + render(e).len()),
    ensures
        sp_atom(u, i) == Some((e, i + render(e).len())),
{
    reveal(render);
    reveal_strlit("0x");
    reveal_strlit("true");
    reveal_strlit("false");
    let r = render(e);
    let end = i + r.len();
    lemma_render_first_char(e);
    assert forall|k: int| i <= k < i + r.len() implies #[trigger] u[k] == r[k - i] by {
        assert(u.subrange(i, i + r.len())[k - i] == u[k]);
    }
    match e {
        SpecExpr::Number(n) => {
            assert(r == render_num(n));
            lemma_rt_number(u, i, n);
        },
        SpecExpr::Str(s) => {
            reveal_strlit("\"");
            assert(r =~= "\""@ + s + "\""@);
            assert(u[i] == r[0]);
            assert(u[i] == '"');
            assert(sp_number(u, i) is None) by {
                if has_tag_nc(u, i, "0x"@) {
                    assert(eq_nc(u[i + 0], "0x"@[0]));
                }
                assert(scan_digits(u, i) == i);
            }
            lemma_rt_string(u, i, s);
        },
        SpecExpr::Boolean(b) => {
            assert(u[i] == r[0]);
            assert(u[i] == 't' || u[i] == 'f');
            assert(sp_number(u, i) is None) by {
                if has_tag_nc(u, i, "0x"@) {
                    assert(eq_nc(u[i + 0], "0x"@[0]));
                }
                assert(scan_digits(u, i) == i);
            }
            assert(sp_string(u, i) is None);
            lemma_rt_bool(u, i, b);
        },
        SpecExpr::Variable(nm) => {
            assert(u[i] == r[0]);
            assert(u[i] == nm[0]);
            assert(is_name_char(u[i]) && !is_digit(u[i]));
            assert(sp_number(u, i) is None) by {
                if has_tag_nc(u, i, "0x"@) {
                    assert(eq_nc(u[i + 0], "0x"@[0]));
                    assert(u[i] == '0' || u[i] == '0');
                }
                assert(scan_digits(u, i) == i);
            }
            assert(sp_string(u, i) is None);
            assert(sp_bool(u, i) is None) by {
                if has_tag_nc(u, i, "true"@) && !(i + 4 < u.len() && is_name_char(u[i + 4])) {
                    if nm.len() > 4 {
                        assert(u[i + 4] == nm[4]);
                        assert(is_name_char(u[i + 4]));
                    } else if nm.len() == 4 {
                        assert forall|k: int| 0 <= k < 4 implies eq_nc(nm[k], "true"@[k]) by {
                            assert(eq_nc(u[i + k], "true"@[k]));
                            assert(u[i + k] == nm[k]);
                        }
                        assert(eq_nc_seq(nm, "true"@));
                    } else {
                        let j = nm.len() as int;
                        assert(eq_nc(u[i + j], "true"@[j]));
                        assert(is_name_char("true"@[j]));
                        lemma_eq_nc_name_char(u[i + j], "true"@[j]);
                        assert(i + j == end);
                        if end == u.len() {
                            assert(i + 4 <= u.len());
                        } else {
                            assert(!is_name_char(u[end]));
                        }
                    }
                }
                if has_tag_nc(u, i, "false"@) && !(i + 5 < u.len() && is_name_char(u[i + 5])) {
                    if nm.len() > 5 {
                        assert(u[i + 5] == nm[5]);
                        assert(is_name_char(u[i + 5]));
                    } else if nm.len() == 5 {
                        assert forall|k: int| 0 <= k < 5 implies eq_nc(nm[k], "false"@[k]) by {
                            assert(eq_nc(u[i + k], "false"@[k]));
                            assert(u[i + k] == nm[k]);
                        }
                        assert(eq_nc_seq(nm, "false"@));
                    } else {
                        let j = nm.len() as int;
                        assert(eq_nc(u[i + j], "false"@[j]));
                        assert(is_name_char("false"@[j]));
                        lemma_eq_nc_name_char(u[i + j], "false"@[j]);
                        assert(i + j == end);
                        if end == u.len() {
                            assert(i + 5 <= u.len());
                        } else {
                            assert(!is_name_char(u[end]));
                        }
                    }
                }
            }
            lemma_rt_name(u, i, nm);
        },
        _ => {},
    }
}

/// A canonical lookup-level expression, parsed as a whole string, reads
/// back as itself with everything consumed.
pub proof fn lemma_rt_lookup_whole(e: SpecExpr)
    requires
        canon_lookup(e),
    ensures
        sp_lookup(render(e), 0) == Some((e, render(e).len() as int)),
{
    reveal(render);
    let u = render(e);
    let len = u.len() as int;
    if canon_atom(e) {
        assert(u.subrange(0, len) =~= u);
        lemma_rt_atom(u, 0, e);
        assert(scan_ws(u, len) == len);
    } else {
        match e {
            SpecExpr::Lookup(c, nm) => {
                let rc = render(*c);
                let lc = rc.len() as int;
                assert(u =~= rc + "."@ + nm) by {
                    reveal_strlit(".");
                }
                reveal_strlit(".");
                assert(u.subrange(0, lc) =~= rc);
                assert(u[lc] == '.');
                assert(u[lc + 1] == nm[0]);
                assert(atom_stop(u, lc));
                lemma_rt_atom(u, 0, *c);
                assert(scan_ws(u, lc) == lc);
                assert(is_name_char(u[lc + 1]));
                lemma_name_char_not_ws(u[lc + 1]);
                assert(scan_ws(u, lc + 1) == lc + 1);
                assert(u.subrange(lc + 1, len) =~= nm);
                lemma_rt_name(u, lc + 1, nm);
            },
            _ => {},
        }
    }
}

/// Re-parsing the canonical text of any canonical atom or single
/// property lookup yields the same tree, with the whole text consumed:
/// the round trip for every literal form, variables, and lookups.
pub proof fn lemma_roundtrip_atom_lookup(e: SpecExpr)
    requires
        canon_lookup(e),
    ensures
        sp_expr(render(e), 0) == Some((e, render(e).len() as int)),
{
    reveal(sp_expr);
    reveal(render);
    reveal_strlit("NOT");
    reveal_strlit("!=");
    reveal_strlit("<=");
    reveal_strlit(">=");
    reveal_strlit("=");
    reveal_strlit("<");
    reveal_strlit(">");
    let u = render(e);
    let len = u.len() as int;
    lemma_rt_lookup_whole(e);
    // The sign branch of the unary level never fires: the first
    // character opens an atom.
    assert(!(0 < u.len() && (u[0] == '+' || u[0] == '-'))) by {
        if canon_atom(e) {
            lemma_render_first_char(e);
        } else {
            match e {
                SpecExpr::Lookup(c, nm) => {
                    reveal_strlit(".");
                    lemma_render_first_char(*c);
                    assert(u[0] == render(*c)[0]);
                },
                _ => {},
            }
        }
    }
    assert(sp_unary(u, 0) == Some((e, len)));
    assert(scan_ws(u, len) == len);
    assert(sp_pow(u, 0) == Some((e, len)));
    assert(sp_mul(u, 0) == Some((e, len)));
    assert(sp_add(u, 0) == Some((e, len)));
    assert(sp_comp_op(u, len) is None);
    assert(sp_comp(u, 0) == Some((e, len)));
    // The NOT branch never fires: either the keyword does not match, or
    // no whitespace follows it.
    assert(!(has_tag_nc(u, 0, "NOT"@) && scan_ws(u, 3) > 3)) by {
        if has_tag_nc(u, 0, "NOT"@) {
            assert(eq_nc(u[0], "NOT"@[0]));
            if 3 < u.len() {
                assert(!is_ws(u[3])) by {
                    lemma_not_tag_keeps_name_chars(e, u);
                }
                assert(scan_ws(u, 3) == 3);
            } else {
                assert(u.len() == 3);
                assert(scan_ws(u, 3) == 3);
            }
        }
    }
    assert(sp_not(u, 0) == Some((e, len)));
    assert(sp_kw_tail(u, len, "AND"@) is None);
    assert(sp_and(u, 0) == Some((e, len)));
    assert(sp_kw_tail(u, len, "XOR"@) is None);
    assert(sp_xor(u, 0) == Some((e, len)));
    assert(sp_kw_tail(u, len, "OR"@) is None);
    assert(sp_expr(u, 0) == Some((e, len)));
}

/// When a canonical lookup-level rendering opens with a letter matching
/// `N`, every character of it is a name character or the lookup point,
/// so none is whitespace.
proof fn lemma_not_tag_keeps_name_chars(e: SpecExpr, u: Seq<char>)
    requires
        canon_lookup(e),
        u == render(e),
        eq_nc(u[0], 'N'),
        u.len() > 3,
    ensures
        !is_ws(u[3]),
{
    reveal(render);
    reveal_strlit("true");
    reveal_strlit("false");
    reveal_strlit(".");
    if canon_atom(e) {
        lemma_render_first_char(e);
        match e {
            SpecExpr::Variable(nm) => {
                assert(u[3] == nm[3]);
                lemma_name_char_not_ws(u[3]);
            },
            _ => {
                assert(u[0] == 'N' || u[0] == 'n');
                assert(false);
            },
        }
    } else {
        match e {
            SpecExpr::Lookup(c, nm) => {
                let rc = render(*c);
                let lc = rc.len() as int;
                assert(u =~= rc + "."@ + nm);
                lemma_render_first_char(*c);
                assert(u[0] == rc[0]);
                match *c {
                    SpecExpr::Variable(cn) => {
                        if 3 < lc {
                            assert(u[3] == cn[3]);
                            lemma_name_char_not_ws(u[3]);
                        } else if 3 == lc {
                            assert(u[3] == '.');
                        } else {
                            assert(u[3] == nm[3 - lc - 1]);
                            lemma_name_char_not_ws(u[3]);
                        }
                    },
                    _ => {
                        assert(u[0] == 'N' || u[0] == 'n');
                        assert(false);
                    },
                }
            },
            _ => {},
        }
    }
}

/// A canonical comparison: one comparison operator over two canonical
/// lookup-level sides.
pub open spec fn canon_comparison(e: SpecExpr) -> bool {
    match e {
        SpecExpr::Equal(l, r) => canon_lookup(*l) && canon_lookup(*r),
        SpecExpr::NotEqual(l, r) => canon_lookup(*l) && canon_lookup(*r),
        SpecExpr::Less(l, r) => canon_lookup(*l) && canon_lookup(*r),
        SpecExpr::LessEqual(l, r) => canon_lookup(*l) && canon_lookup(*r),
        SpecExpr::Greater(l, r) => canon_lookup(*l) && canon_lookup(*r),
        SpecExpr::GreaterEqual(l, r) => canon_lookup(*l) && canon_lookup(*r),
        _ => false,
    }
}

/// A canonical lookup-level expression embedded in `u` reads back as
/// itself through every level up to the additive one, wherever what
/// follows can neither extend an atom nor read as one of the tighter
/// operators.
#[verifier::rlimit(100)]
#[verifier::spinoff_prover]
pub proof fn lemma_rt_operand(u: Seq<char>, i: int, e: SpecExpr)
    requires
        canon_lookup(e),
        0 <= i,
        i + render(e).len() <= u.len(),
        u.subrange(i, i + render(e).len()) == render(e),
        atom_stop(u, i + render(e).len()),
        ({
            let j2 = scan_ws(u, i + render(e).len());
            j2 == u.len() || (u[j2] != '.' && u[j2] != '^' && u[j2] != '*' && u[j2] != '/' && u[j2]
                != '+' && u[j2] != '-')
        }),
    ensures
        sp_lookup(u, i) == Some((e, i + render(e).len())),
        sp_add(u, i) == Some((e, i + render(e).len())),
{
    reveal(render);
    let r = render(e);
    let end = i + r.len();
    if canon_atom(e) {
        lemma_rt_atom(u, i, e);
        assert(sp_lookup(u, i) == Some((e, end)));
    } else {
        match e {
            SpecExpr::Lookup(c, nm) => {
                let rc = render(*c);
                let lc = i + rc.len() as int;
                reveal_strlit(".");
                assert(r =~= rc + "."@ + nm);
                assert forall|k: int| i <= k < i + r.len() implies #[trigger] u[k] == r[k - i] by {
                    assert(u.subrange(i, i + r.len())[k - i] == u[k]);
                }
                assert(u.subrange(i, lc) =~= rc);
                assert(u[lc] == '.');
                assert(u[lc + 1] == nm[0]);
                assert(atom_stop(u, lc));
                lemma_rt_atom(u, i, *c);
                assert(scan_ws(u, lc) == lc);
                assert(is_name_char(u[lc + 1]));
                lemma_name_char_not_ws(u[lc + 1]);
                assert(scan_ws(u, lc + 1) == lc + 1);
                assert(u.subrange(lc + 1, end) =~= nm);
                lemma_rt_name(u, lc + 1, nm);
                assert(sp_lookup(u, i) == Some((e, end)));
            },
            _ => {},
        }
    }
    // The sign branch of the unary level never fires.
    assert(!(0 <= i < u.len() && (u[i] == '+' || u[i] == '-'))) by {
        if canon_atom(e) {
            lemma_render_first_char(e);
            assert(u[i] == r[0]) by {
                assert(u.subrange(i, i + r.len())[0] == u[i]);
            }
        } else {
            match e {
                SpecExpr::Lookup(c, nm) => {
                    reveal_strlit(".");
                    lemma_render_first_char(*c);
                    assert(u[i] == r[0]) by {
                        assert(u.subrange(i, i + r.len())[0] == u[i]);
                    }
                    assert(r[0] == render(*c)[0]);
                },
                _ => {},
            }
        }
    }
    assert(sp_unary(u, i) == Some((e, end)));
    assert(sp_pow(u, i) == Some((e, end)));
    assert(sp_mul(u, i) == Some((e, end)));
    assert(sp_add(u, i) == Some((e, end)));
}

/// The comparison operator of a canonical comparison, and its canonical
/// text.
pub open spec fn comp_op_of(e: SpecExpr) -> crate::parser::CompOp {
    match e {
        SpecExpr::Equal(_, _) => crate::parser::CompOp::Eq,
        SpecExpr::NotEqual(_, _) => crate::parser::CompOp::Ne,
        SpecExpr::Less(_, _) => crate::parser::CompOp::Lt,
        SpecExpr::LessEqual(_, _) => crate::parser::CompOp::Le,
        SpecExpr::Greater(_, _) => crate::parser::CompOp::Gt,
        _ => crate::parser::CompOp::Ge,
    }
}

/// The sides of a canonical comparison.
pub open spec fn comp_sides(e: SpecExpr) -> (SpecExpr, SpecExpr) {
    match e {
        SpecExpr::Equal(l, r) => (*l, *r),
        SpecExpr::NotEqual(l, r) => (*l, *r),
        SpecExpr::Less(l, r) => (*l, *r),
        SpecExpr::LessEqual(l, r) => (*l, *r),
        SpecExpr::Greater(l, r) => (*l, *r),
        SpecExpr::GreaterEqual(l, r) => (*l, *r),
        _ => arbitrary(),
    }
}

/// The operator text standing between the sides of a canonical
/// comparison's rendering.
pub open spec fn comp_op_text(e: SpecExpr) -> Seq<char> {
    match e {
        SpecExpr::Equal(_, _) => "="@,
        SpecExpr::NotEqual(_, _) => "!="@,
        SpecExpr::Less(_, _) => "<"@,
        SpecExpr::LessEqual(_, _) => "<="@,
        SpecExpr::Greater(_, _) => ">"@,
        _ => ">="@,
    }
}

/// A tag cannot match where one of its characters differs.
pub proof fn lemma_tag_differs(u: Seq<char>, j: int, t: Seq<char>, k: int)
    requires
        0 <= k < t.len(),
        0 <= j,
        j + t.len() <= u.len() ==> u[j + k] != t[k],
    ensures
        !has_tag(u, j, t),
{
    if has_tag(u, j, t) {
        assert(u.subrange(j, j + t.len())[k] == u[j + k]);
    }
}

/// The comparison level reads a canonical comparison's text back as
/// the same tree.
#[verifier::rlimit(100)]
#[verifier::spinoff_prover]
pub proof fn lemma_comp_core(e: SpecExpr)
    requires
        canon_comparison(e),
    ensures
        sp_comp(render(e), 0) == Some((e, render(e).len() as int)),
        scan_ws(render(e), render(e).len() as int) == render(e).len() as int,
{
    reveal(render);
    reveal_strlit("!=");
    reveal_strlit("<=");
    reveal_strlit(">=");
    reveal_strlit("=");
    reveal_strlit("<");
    reveal_strlit(">");
    let u = render(e);
    let len = u.len() as int;
    let (l, r) = comp_sides(e);
    let ot = comp_op_text(e);
    let ll = render(l).len() as int;
    let ro = ll + ot.len() as int;
    assert(u =~= render(l) + ot + render(r));
    assert forall|k: int| 0 <= k < u.len() implies #[trigger] u[k] == (render(l) + ot + render(
        r,
    ))[k] by {}
    lemma_render_first_char_lookup(l);
    lemma_render_first_char_lookup(r);
    assert(u[ll] == ot[0]);
    assert(u[ro] == render(r)[0]);
    let rf = render(r)[0];
    assert(is_digit(rf) || rf == '"' || rf == 't' || rf == 'f' || is_name_char(rf));
    lemma_first_char_plain(rf);
    // The left side parses up to the operator.
    assert(u.subrange(0, ll) =~= render(l));
    assert(atom_stop(u, ll)) by {
        assert(ot[0] == '=' || ot[0] == '!' || ot[0] == '<' || ot[0] == '>');
    }
    assert(scan_ws(u, ll) == ll);
    lemma_rt_operand(u, 0, l);
    // The operator reads back as itself, two-character forms first.
    assert(ll + 2 <= u.len());
    assert(sp_comp_op(u, ll) == Some((comp_op_of(e), ro))) by {
        if ot.len() == 2 {
            assert(u[ll + 1] == ot[1]);
            assert(u.subrange(ll, ll + 2) =~= ot);
        } else {
            assert(u.subrange(ll, ll + 1) =~= ot);
            assert(u[ll + 1] == rf);
        }
        match e {
            SpecExpr::Equal(_, _) => {
                lemma_tag_differs(u, ll, "!="@, 0);
                lemma_tag_differs(u, ll, "<="@, 0);
                lemma_tag_differs(u, ll, ">="@, 0);
            },
            SpecExpr::NotEqual(_, _) => {},
            SpecExpr::Less(_, _) => {
                lemma_tag_differs(u, ll, "!="@, 0);
                lemma_tag_differs(u, ll, "<="@, 1);
                lemma_tag_differs(u, ll, ">="@, 0);
                lemma_tag_differs(u, ll, "="@, 0);
            },
            SpecExpr::LessEqual(_, _) => {
                lemma_tag_differs(u, ll, "!="@, 0);
            },
            SpecExpr::Greater(_, _) => {
                lemma_tag_differs(u, ll, "!="@, 0);
                lemma_tag_differs(u, ll, "<="@, 0);
                lemma_tag_differs(u, ll, ">="@, 1);
                lemma_tag_differs(u, ll, "="@, 0);
                lemma_tag_differs(u, ll, "<"@, 0);
            },
            SpecExpr::GreaterEqual(_, _) => {
                lemma_tag_differs(u, ll, "!="@, 0);
                lemma_tag_differs(u, ll, "<="@, 0);
            },
            _ => {},
        }
    }
    // The right side parses up to the end.
    assert(u.subrange(ro, len) =~= render(r));
    assert(atom_stop(u, len));
    assert(scan_ws(u, len) == len);
    assert(scan_ws(u, ro) == ro);
    lemma_rt_operand(u, ro, r);
    assert(sp_comp(u, 0) == Some((e, len)));
}

/// A canonical comparison's text never opens the `NOT` branch: either
/// the keyword does not match, or no whitespace follows it.
#[verifier::rlimit(100)]
#[verifier::spinoff_prover]
pub proof fn lemma_comp_not_branch(e: SpecExpr)
    requires
        canon_comparison(e),
    ensures
        !(has_tag_nc(render(e), 0, "NOT"@) && scan_ws(render(e), 3) > 3),
{
    reveal(render);
    reveal_strlit("NOT");
    reveal_strlit("!=");
    reveal_strlit("<=");
    reveal_strlit(">=");
    reveal_strlit("=");
    reveal_strlit("<");
    reveal_strlit(">");
    let u = render(e);
    let (l, r) = comp_sides(e);
    let ot = comp_op_text(e);
    let ll = render(l).len() as int;
    assert(u =~= render(l) + ot + render(r));
    lemma_render_first_char_lookup(l);
    assert(ot[0] == '=' || ot[0] == '!' || ot[0] == '<' || ot[0] == '>');
    assert forall|k: int| 0 <= k < u.len() implies #[trigger] u[k] == (render(l) + ot + render(
        r,
    ))[k] by {}
    if has_tag_nc(u, 0, "NOT"@) {
        assert(eq_nc(u[0int + 0], "NOT"@[0]));
        assert(eq_nc(u[0int + 1], "NOT"@[1]));
        assert(eq_nc(u[0int + 2], "NOT"@[2]));
        assert(eq_nc(u[0], 'N'));
        assert(eq_nc(u[1], 'O'));
        assert(eq_nc(u[2], 'T'));
        assert(ll >= 3) by {
            if ll == 1 {
                assert(u[1] == ot[0]);
            } else if ll == 2 {
                assert(u[2] == ot[0]);
            }
        }
        if 3 < u.len() {
            assert(!is_ws(u[3])) by {
                if ll == 3 {
                    assert(u[3] == ot[0]);
                } else {
                    assert(u[0] == render(l)[0]);
                    lemma_not_tag_keeps_name_chars(l, render(l));
                    assert(u[3] == render(l)[3]);
                }
            }
            assert(scan_ws(u, 3) == 3);
        } else {
            assert(scan_ws(u, 3) == 3);
        }
    }
}

/// Re-parsing the canonical text of a comparison over lookup-level
/// sides yields the same tree, with the whole text consumed.
pub proof fn lemma_roundtrip_comparison(e: SpecExpr)
    requires
        canon_comparison(e),
    ensures
        sp_expr(render(e), 0) == Some((e, render(e).len() as int)),
{
    reveal(sp_expr);
    let u = render(e);
    let len = u.len() as int;
    lemma_comp_core(e);
    lemma_comp_not_branch(e);
    assert(sp_not(u, 0) == Some((e, len)));
    assert(sp_kw_tail(u, len, "AND"@) is None);
    assert(sp_and(u, 0) == Some((e, len)));
    assert(sp_kw_tail(u, len, "XOR"@) is None);
    assert(sp_xor(u, 0) == Some((e, len)));
    assert(sp_kw_tail(u, len, "OR"@) is None);
    assert(sp_expr(u, 0) == Some((e, len)));
}

/// A canonical lookup-level rendering is nonempty and opens as its
/// atom does.
pub proof fn lemma_render_first_char_lookup(e: SpecExpr)
    requires
        canon_lookup(e),
    ensures
        render(e).len() >= 1,
        is_digit(render(e)[0]) || render(e)[0] == '"' || render(e)[0] == 't' || render(e)[0] == 'f'
            || is_name_char(render(e)[0]),
{
    reveal(render);
    if canon_atom(e) {
        lemma_render_first_char(e);
        match e {
            SpecExpr::Number(_) => {},
            SpecExpr::Str(_) => {},
            SpecExpr::Boolean(_) => {},
            SpecExpr::Variable(_) => {},
            _ => {},
        }
    } else {
        match e {
            SpecExpr::Lookup(c, nm) => {
                reveal_strlit(".");
                lemma_render_first_char(*c);
                assert(render(e)[0] == render(*c)[0]);
            },
            _ => {},
        }
    }
}

/// The characters a rendering can open with are neither whitespace nor
/// operator characters.
pub proof fn lemma_first_char_plain(c: char)
    requires
        is_digit(c) || c == '"' || c == 't' || c == 'f' || is_name_char(c),
    ensures
        !is_ws(c),
        c != '=' && c != '!' && c != '<' && c != '>' && c != '.' && c != '+' && c != '-' && c != '^'
            && c != '*' && c != '/',
{
}

/// A canonical conjunction: `AND` over two canonical lookup-level
/// sides.
pub open spec fn canon_conjunction(e: SpecExpr) -> bool {
    e matches SpecExpr::And(l, r) && canon_lookup(*l) && canon_lookup(*r)
}

/// One side of a conjunction, parsed from `i` through the `NOT` and
/// comparison levels: the rendering reads back as the side itself,
/// wherever what follows is the conjunction keyword or the end.
#[verifier::rlimit(100)]
#[verifier::spinoff_prover]
pub proof fn lemma_conj_side(u: Seq<char>, i: int, e: SpecExpr)
    requires
        canon_lookup(e),
        0 <= i,
        i + render(e).len() <= u.len(),
        u.subrange(i, i + render(e).len()) == render(e),
        atom_stop(u, i + render(e).len()),
        ({
            let j2 = scan_ws(u, i + render(e).len());
            j2 == u.len() || (u[j2] != '.' && u[j2] != '^' && u[j2] != '*' && u[j2] != '/' && u[j2]
                != '+' && u[j2] != '-' && u[j2] != '=' && u[j2] != '!' && u[j2] != '<' && u[j2]
                != '>')
        }),
        // What stands right after the rendering, when anything does, is
        // either a space opening the keyword or the end of the string.
        i + render(e).len() == u.len() || (u[i + render(e).len()] == ' ' && i + render(e).len() + 1
            < u.len() && (u[i + render(e).len() + 1] == 'A' || u[i + render(e).len() + 1] == 'X'
            || u[i + render(e).len() + 1] == 'O')),
    ensures
        sp_not(u, i) == Some((e, i + render(e).len())),
{
    reveal(render);
    reveal_strlit("NOT");
    reveal_strlit(".");
    reveal_strlit("!=");
    reveal_strlit("<=");
    reveal_strlit(">=");
    reveal_strlit("=");
    reveal_strlit("<");
    reveal_strlit(">");
    let r = render(e);
    let end = i + r.len();
    assert forall|k: int| i <= k < i + r.len() implies #[trigger] u[k] == r[k - i] by {
        assert(u.subrange(i, i + r.len())[k - i] == u[k]);
    }
    lemma_render_first_char_lookup(e);
    lemma_rt_operand(u, i, e);
    // The comparison level stops: no operator stands after the side.
    let j2 = scan_ws(u, end);
    assert(j2 == end || j2 == end + 1) by {
        if end < u.len() {
            if u[end] == ' ' {
                assert(!is_ws(u[end + 1]));
                assert(scan_ws(u, end + 1) == end + 1);
            } else {
                assert(scan_ws(u, end) == end);
            }
        }
    }
    assert(sp_comp_op(u, j2) is None) by {
        if j2 < u.len() {
            lemma_tag_differs(u, j2, "!="@, 0);
            lemma_tag_differs(u, j2, "<="@, 0);
            lemma_tag_differs(u, j2, ">="@, 0);
            lemma_tag_differs(u, j2, "="@, 0);
            lemma_tag_differs(u, j2, "<"@, 0);
            lemma_tag_differs(u, j2, ">"@, 0);
        } else {
            lemma_tag_differs(u, j2, "!="@, 0);
            lemma_tag_differs(u, j2, "<="@, 0);
            lemma_tag_differs(u, j2, ">="@, 0);
            lemma_tag_differs(u, j2, "="@, 0);
            lemma_tag_differs(u, j2, "<"@, 0);
            lemma_tag_differs(u, j2, ">"@, 0);
        }
    }
    assert(sp_comp(u, i) == Some((e, end)));
    // The `NOT` branch stays shut.
    assert(!(has_tag_nc(u, i, "NOT"@) && scan_ws(u, i + 3) > i + 3)) by {
        if has_tag_nc(u, i, "NOT"@) {
            assert(eq_nc(u[i + 0], "NOT"@[0]));
            assert(eq_nc(u[i + 1], "NOT"@[1]));
            assert(eq_nc(u[i + 2], "NOT"@[2]));
            assert(u[i] == r[0]);
            if r.len() == 1 {
                assert(u[i + 1] == ' ' || i + 1 == u.len());
            } else if r.len() == 2 {
                assert(u[i + 2] == ' ' || i + 2 == u.len());
            } else if r.len() == 3 {
                if canon_atom(e) {
                    match e {
                        SpecExpr::Variable(nm) => {
                            assert forall|k: int| 0 <= k < 3 implies eq_nc(
                                nm[k],
                                "NOT"@[k],
                            ) by {
                                assert(eq_nc(u[i + k], "NOT"@[k]));
                                assert(u[i + k] == nm[k]);
                            }
                            assert(eq_nc_seq(nm, "NOT"@));
                        },
                        _ => {},
                    }
                } else {
                    match e {
                        SpecExpr::Lookup(c, nm) => {
                            lemma_render_first_char(*c);
                            assert(render(*c).len() == 1);
                            assert(r =~= render(*c) + "."@ + nm);
                            assert(u[i + 1] == '.');
                        },
                        _ => {},
                    }
                }
            } else {
                assert(!is_ws(u[i + 3])) by {
                    if canon_atom(e) {
                        lemma_render_first_char(e);
                        match e {
                            SpecExpr::Variable(nm) => {
                                assert(u[i + 3] == nm[3]);
                                lemma_name_char_not_ws(u[i + 3]);
                            },
                            _ => {
                                assert(u[i] == r[0]);
                                assert(false);
                            },
                        }
                    } else {
                        match e {
                            SpecExpr::Lookup(c, nm) => {
                                lemma_render_first_char(*c);
                                assert(r =~= render(*c) + "."@ + nm);
                                let lc = render(*c).len() as int;
                                match *c {
                                    SpecExpr::Variable(cn) => {
                                        if 3 < lc {
                                            assert(u[i + 3] == cn[3]);
                                            lemma_name_char_not_ws(u[i + 3]);
                                        } else if 3 == lc {
                                            assert(u[i + 3] == '.');
                                        } else {
                                            assert(u[i + 3] == nm[3 - lc - 1]);
                                            lemma_name_char_not_ws(u[i + 3]);
                                        }
                                    },
                                    _ => {
                                        assert(u[i] == render(*c)[0]);
                                        assert(false);
                                    },
                                }
                            },
                            _ => {},
                        }
                    }
                }
                assert(scan_ws(u, i + 3) == i + 3);
            }
        }
    }
}

/// Re-parsing the canonical text of a conjunction over lookup-level
/// sides yields the same tree, with the whole text consumed.
#[verifier::rlimit(100)]
#[verifier::spinoff_prover]
pub proof fn lemma_roundtrip_conjunction(e: SpecExpr)
    requires
        canon_conjunction(e),
    ensures
        sp_expr(render(e), 0) == Some((e, render(e).len() as int)),
{
    reveal(sp_expr);
    reveal(render);
    reveal_strlit(" AND ");
    let u = render(e);
    let len = u.len() as int;
    let (l, r) = (e->And_0, e->And_1);
    let ll = render(*l).len() as int;
    let p = ll + 5;
    assert(u =~= render(*l) + " AND "@ + render(*r));
    assert forall|k: int| 0 <= k < u.len() implies #[trigger] u[k] == (render(*l) + " AND "@
        + render(*r))[k] by {}
    lemma_render_first_char_lookup(*l);
    lemma_render_first_char_lookup(*r);
    assert(u[ll] == ' ' && u[ll + 1] == 'A' && u[ll + 2] == 'N' && u[ll + 3] == 'D' && u[ll + 4]
        == ' ');
    assert(u[p] == render(*r)[0]);
    lemma_first_char_plain(render(*r)[0]);
    // The left side.
    assert(u.subrange(0, ll) =~= render(*l));
    assert(atom_stop(u, ll));
    assert(scan_ws(u, ll + 1) == ll + 1);
    assert(scan_ws(u, ll) == ll + 1);
    lemma_conj_side(u, 0, *l);
    // The keyword.
    assert(sp_kw_tail(u, ll, "AND"@) == Some(p)) by {
        assert forall|k: int| 0 <= k < 3 implies eq_nc(u[ll + 1 + k], "AND"@[k]) by {
            reveal_strlit("AND");
        }
        reveal_strlit("AND");
        assert(has_tag_nc(u, ll + 1, "AND"@));
        assert(!is_ws(u[p]));
        assert(scan_ws(u, ll + 4 + 1) == p);
        assert(scan_ws(u, ll + 1 + 3) == p);
    }
    // The right side.
    assert(u.subrange(p, len) =~= render(*r));
    assert(atom_stop(u, len));
    assert(scan_ws(u, len) == len);
    lemma_conj_side(u, p, *r);
    assert(sp_and(u, 0) == Some((e, len)));
    // Nothing looser follows.
    assert(sp_kw_tail(u, len, "XOR"@) is None);
    assert(sp_xor(u, 0) == Some((e, len)));
    assert(sp_kw_tail(u, len, "OR"@) is None);
    assert(sp_expr(u, 0) == Some((e, len)));
}

} // verus!


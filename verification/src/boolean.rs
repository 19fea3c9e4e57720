//! Boolean expression tree over solids.
//!
//! A `Boolean<S>` is a lazily evaluated expression built from solids with
//! union, subtraction and intersection. Its internal representation is a flat
//! DNF in DIMACS style: literal `k > 0` means "inside solid `k`", literal
//! `-k` means "outside solid `k`" (solids numbered from 1), and each clause (a
//! conjunction of literals) is terminated by `0`. The expression denotes the
//! region covered by at least one clause.
use vstd::prelude::*;

use crate::error::Error;

verus! {

// ==================== Semantics ====================

/// Splitting state after reading `c`: the completed non-empty clauses and the
/// literals of the clause still open.
pub open spec fn split_state(c: Seq<i64>) -> (Seq<Seq<i64>>, Seq<i64>)
    decreases c.len(),
{
    if c.len() == 0 {
        (Seq::empty(), Seq::empty())
    } else {
        let prev = split_state(c.drop_last());
        let x = c.last();
        if x == 0 {
            if prev.1.len() > 0 {
                (prev.0.push(prev.1), Seq::empty())
            } else {
                (prev.0, Seq::empty())
            }
        } else {
            (prev.0, prev.1.push(x))
        }
    }
}

/// The non-empty clauses of a flat list, in order (segments between `0`s;
/// empty segments are dropped).
pub open spec fn clause_list(c: Seq<i64>) -> Seq<Seq<i64>> {
    let st = split_state(c);
    if st.1.len() > 0 {
        st.0.push(st.1)
    } else {
        st.0
    }
}

/// A literal holds at a point whose membership in each solid is `asg`.
pub open spec fn lit_holds(l: i64, asg: Seq<bool>) -> bool {
    if l > 0 {
        asg[l - 1]
    } else {
        !asg[-l - 1]
    }
}

/// Every literal of the clause holds.
pub open spec fn clause_holds(cl: Seq<i64>, asg: Seq<bool>) -> bool {
    forall|k: int| 0 <= k < cl.len() ==> #[trigger] lit_holds(cl[k], asg)
}

/// Some clause of the list holds.
pub open spec fn some_clause_holds(cls: Seq<Seq<i64>>, asg: Seq<bool>) -> bool {
    exists|k: int| 0 <= k < cls.len() && #[trigger] clause_holds(cls[k], asg)
}

/// The flat DNF `c` holds at the point `asg`.
pub open spec fn dnf_holds(c: Seq<i64>, asg: Seq<bool>) -> bool {
    some_clause_holds(clause_list(c), asg)
}

/// Literals are non-zero solid references within `1..=n` (either sign), or `0`.
pub open spec fn lits_in_range(c: Seq<i64>, n: nat) -> bool {
    forall|k: int| 0 <= k < c.len() ==> -n <= #[trigger] c[k] <= n
}

/// A flat DNF over `n` solids: every clause is terminated and every literal
/// names one of the solids.
pub open spec fn dnf_well_formed(c: Seq<i64>, n: nat) -> bool {
    &&& n <= i64::MAX
    &&& (c.len() == 0 || c.last() == 0)
    &&& lits_in_range(c, n)
}

/// Renumber a literal when the solids of another expression are placed before it.
pub open spec fn shift_lit(l: i64, s: int) -> i64 {
    if l > 0 {
        (l + s) as i64
    } else if l < 0 {
        (l - s) as i64
    } else {
        0
    }
}

pub open spec fn shift_seq(c: Seq<i64>, s: int) -> Seq<i64> {
    c.map_values(|l: i64| shift_lit(l, s))
}

pub open spec fn shift_clauses(cls: Seq<Seq<i64>>, s: int) -> Seq<Seq<i64>> {
    cls.map_values(|cl: Seq<i64>| shift_seq(cl, s))
}

/// Terminate every clause with `0` and concatenate.
pub open spec fn flatten(cls: Seq<Seq<i64>>) -> Seq<i64>
    decreases cls.len(),
{
    if cls.len() == 0 {
        Seq::empty()
    } else {
        flatten(cls.drop_last()) + cls.last() + seq![0i64]
    }
}

/// The conjunction of clause `x` with each clause of `cb`, in order.
pub open spec fn rows(x: Seq<i64>, cb: Seq<Seq<i64>>) -> Seq<Seq<i64>> {
    cb.map_values(|y: Seq<i64>| x + y)
}

/// All pairwise conjunctions, `ca`-major.
pub open spec fn product(ca: Seq<Seq<i64>>, cb: Seq<Seq<i64>>) -> Seq<Seq<i64>>
    decreases ca.len(),
{
    if ca.len() == 0 {
        Seq::empty()
    } else {
        product(ca.drop_last(), cb) + rows(ca.last(), cb)
    }
}

/// Extend each partial conjunction with the negation of each literal of `cl`,
/// partial-major.
pub open spec fn extend_negated(acc: Seq<Seq<i64>>, cl: Seq<i64>) -> Seq<Seq<i64>>
    decreases acc.len(),
{
    if acc.len() == 0 {
        Seq::empty()
    } else {
        extend_negated(acc.drop_last(), cl) + cl.map_values(|l: i64| acc.last().push((-l) as i64))
    }
}

/// The DNF of the negation of a DNF, by distribution (one negated literal
/// chosen from every clause).
pub open spec fn negation(cls: Seq<Seq<i64>>) -> Seq<Seq<i64>>
    decreases cls.len(),
{
    if cls.len() == 0 {
        seq![Seq::empty()]
    } else {
        extend_negated(negation(cls.drop_last()), cls.last())
    }
}

/// Clauses of the union: `b`'s literals renumbered after `a`'s `na` solids.
pub open spec fn union_clauses(ca: Seq<i64>, na: nat, cb: Seq<i64>) -> Seq<i64> {
    ca + shift_seq(cb, na as int)
}

/// Clauses of the intersection.
pub open spec fn intersect_clauses(ca: Seq<i64>, na: nat, cb: Seq<i64>) -> Seq<i64> {
    flatten(product(clause_list(ca), shift_clauses(clause_list(cb), na as int)))
}

/// Clauses of the difference `a - b`.
pub open spec fn subtract_clauses(ca: Seq<i64>, na: nat, cb: Seq<i64>) -> Seq<i64> {
    if clause_list(cb).len() == 0 {
        ca
    } else {
        intersect_clauses(ca, na, flatten(negation(clause_list(cb))))
    }
}


// ==================== Lemmas on the flat representation ====================

/// Literals of a clause: non-zero and within `-n..=n`.
pub open spec fn clause_lits_ok(cl: Seq<i64>, n: nat) -> bool {
    forall|k: int| 0 <= k < cl.len() ==> #[trigger] cl[k] != 0 && -n <= cl[k] <= n
}

/// Every completed clause is non-empty with good literals; so is the open one.
proof fn lemma_split_state_props(c: Seq<i64>, n: nat)
    requires
        lits_in_range(c, n),
    ensures
        forall|i: int|
            0 <= i < split_state(c).0.len() ==> #[trigger] split_state(c).0[i].len() > 0
                && clause_lits_ok(split_state(c).0[i], n),
        clause_lits_ok(split_state(c).1, n),
    decreases c.len(),
{
    if c.len() > 0 {
        let p = c.drop_last();
        assert(lits_in_range(p, n)) by {
            assert forall|k: int| 0 <= k < p.len() implies -n <= #[trigger] p[k] <= n by {
                assert(p[k] == c[k]);
            }
        }
        lemma_split_state_props(p, n);
        let x = c.last();
        assert(-n <= c[c.len() - 1] <= n);
        let prev = split_state(p);
        if x == 0 {
            if prev.1.len() > 0 {
                let d = prev.0.push(prev.1);
                assert forall|i: int| 0 <= i < d.len() implies #[trigger] d[i].len() > 0
                    && clause_lits_ok(d[i], n) by {
                    if i < prev.0.len() {
                        assert(d[i] == prev.0[i]);
                    }
                }
            }
        } else {
            let cur = prev.1.push(x);
            assert forall|k: int| 0 <= k < cur.len() implies #[trigger] cur[k] != 0 && -n <= cur[k] <= n by {
                if k < prev.1.len() {
                    assert(cur[k] == prev.1[k]);
                }
            }
        }
    }
}

/// Every clause of `clause_list(c)` is non-empty with non-zero literals in range.
pub proof fn lemma_clause_list_props(c: Seq<i64>, n: nat)
    requires
        lits_in_range(c, n),
    ensures
        forall|i: int|
            0 <= i < clause_list(c).len() ==> #[trigger] clause_list(c)[i].len() > 0
                && clause_lits_ok(clause_list(c)[i], n),
{
    lemma_split_state_props(c, n);
    let st = split_state(c);
    if st.1.len() > 0 {
        let d = st.0.push(st.1);
        assert forall|i: int| 0 <= i < d.len() implies #[trigger] d[i].len() > 0
            && clause_lits_ok(d[i], n) by {
            if i < st.0.len() {
                assert(d[i] == st.0[i]);
            }
        }
    }
}

/// Splitting a zero-free sequence leaves it open as the current clause.
proof fn lemma_split_zero_free(x: Seq<i64>)
    requires
        forall|k: int| 0 <= k < x.len() ==> #[trigger] x[k] != 0,
    ensures
        split_state(x) == (Seq::<Seq<i64>>::empty(), x),
    decreases x.len(),
{
    if x.len() > 0 {
        let p = x.drop_last();
        assert forall|k: int| 0 <= k < p.len() implies #[trigger] p[k] != 0 by {
            assert(p[k] == x[k]);
        }
        lemma_split_zero_free(p);
        assert(p.push(x.last()) =~= x);
    }
}

/// Splitting continues independently after a point where no clause is open.
proof fn lemma_split_concat(a: Seq<i64>, x: Seq<i64>)
    requires
        split_state(a).1.len() == 0,
    ensures
        split_state(a + x) == (split_state(a).0 + split_state(x).0, split_state(x).1),
    decreases x.len(),
{
    if x.len() == 0 {
        assert(a + x =~= a);
        assert(split_state(a).0 + Seq::<Seq<i64>>::empty() =~= split_state(a).0);
    } else {
        let xp = x.drop_last();
        lemma_split_concat(a, xp);
        assert((a + x).drop_last() =~= a + xp);
        assert((a + x).last() == x.last());
        let da = split_state(a).0;
        let dx = split_state(xp).0;
        let cur = split_state(xp).1;
        assert((da + dx).push(cur) =~= da + dx.push(cur));
    }
}

/// Clause lists of a concatenation after a terminated prefix.
pub proof fn lemma_clause_list_concat(a: Seq<i64>, x: Seq<i64>)
    requires
        a.len() == 0 || a.last() == 0,
    ensures
        clause_list(a + x) == clause_list(a) + clause_list(x),
{
    lemma_split_concat(a, x);
    let da = split_state(a).0;
    let st = split_state(x);
    if st.1.len() > 0 {
        assert((da + st.0).push(st.1) =~= da + st.0.push(st.1));
    }
}

/// Flattening is a homomorphism for concatenation.
proof fn lemma_flatten_concat(s1: Seq<Seq<i64>>, s2: Seq<Seq<i64>>)
    ensures
        flatten(s1 + s2) == flatten(s1) + flatten(s2),
    decreases s2.len(),
{
    if s2.len() == 0 {
        assert(s1 + s2 =~= s1);
        assert(flatten(s1) + flatten(s2) =~= flatten(s1));
    } else {
        lemma_flatten_concat(s1, s2.drop_last());
        assert((s1 + s2).drop_last() =~= s1 + s2.drop_last());
        assert((s1 + s2).last() == s2.last());
        assert(flatten(s1 + s2) =~= flatten(s1) + flatten(s2));
    }
}

/// Splitting a flattened list of non-empty zero-free clauses gives the list back.
pub proof fn lemma_split_flatten(cls: Seq<Seq<i64>>)
    requires
        forall|i: int| 0 <= i < cls.len() ==> #[trigger] cls[i].len() > 0,
        forall|i: int, k: int| 0 <= i < cls.len() && 0 <= k < cls[i].len() ==> #[trigger] cls[i][k] != 0,
    ensures
        split_state(flatten(cls)) == (cls, Seq::<i64>::empty()),
        clause_list(flatten(cls)) == cls,
    decreases cls.len(),
{
    if cls.len() > 0 {
        let p = cls.drop_last();
        assert forall|i: int| 0 <= i < p.len() implies #[trigger] p[i].len() > 0 by {
            assert(p[i] == cls[i]);
        }
        assert forall|i: int, k: int| 0 <= i < p.len() && 0 <= k < p[i].len() implies #[trigger] p[i][k] != 0 by {
            assert(p[i] == cls[i]);
        }
        lemma_split_flatten(p);
        let last = cls.last();
        assert forall|k: int| 0 <= k < last.len() implies #[trigger] last[k] != 0 by {
            assert(last[k] == cls[cls.len() - 1][k]);
        }
        lemma_split_zero_free(last);
        let tail = last + seq![0i64];
        assert(tail.drop_last() =~= last);
        assert(split_state(tail) == (seq![last], Seq::<i64>::empty()));
        assert(flatten(cls) == flatten(p) + tail) by {
            assert(flatten(p) + last + seq![0i64] =~= flatten(p) + tail);
        }
        lemma_split_concat(flatten(p), tail);
        assert(p + seq![last] =~= cls);
    }
}

/// Shifting preserves zero-ness, so clause lists shift clause by clause.
proof fn lemma_split_shift(c: Seq<i64>, n: nat, s: nat)
    requires
        lits_in_range(c, n),
        n + s <= i64::MAX,
    ensures
        split_state(shift_seq(c, s as int)) == (
            shift_clauses(split_state(c).0, s as int),
            shift_seq(split_state(c).1, s as int),
        ),
    decreases c.len(),
{
    if c.len() == 0 {
        assert(shift_seq(c, s as int) =~= Seq::<i64>::empty());
        assert(shift_clauses(Seq::<Seq<i64>>::empty(), s as int) =~= Seq::<Seq<i64>>::empty());
        assert(shift_seq(Seq::<i64>::empty(), s as int) =~= Seq::<i64>::empty());
    } else {
        let p = c.drop_last();
        assert(lits_in_range(p, n)) by {
            assert forall|k: int| 0 <= k < p.len() implies -n <= #[trigger] p[k] <= n by {
                assert(p[k] == c[k]);
            }
        }
        lemma_split_shift(p, n, s);
        assert(shift_seq(c, s as int).drop_last() =~= shift_seq(p, s as int));
        let x = c.last();
        assert(-n <= c[c.len() - 1] <= n);
        assert(shift_seq(c, s as int).last() == shift_lit(x, s as int));
        let prev = split_state(p);
        if x == 0 {
            if prev.1.len() > 0 {
                assert(shift_clauses(prev.0.push(prev.1), s as int) =~= shift_clauses(prev.0, s as int).push(
                    shift_seq(prev.1, s as int),
                ));
            }
            assert(shift_seq(Seq::<i64>::empty(), s as int) =~= Seq::<i64>::empty());
        } else {
            assert(shift_seq(prev.1.push(x), s as int) =~= shift_seq(prev.1, s as int).push(
                shift_lit(x, s as int),
            ));
        }
    }
}

/// Clause lists of a shifted DNF are the shifted clause lists.
pub proof fn lemma_clause_list_shift(c: Seq<i64>, n: nat, s: nat)
    requires
        lits_in_range(c, n),
        n + s <= i64::MAX,
    ensures
        clause_list(shift_seq(c, s as int)) == shift_clauses(clause_list(c), s as int),
{
    lemma_split_shift(c, n, s);
    let st = split_state(c);
    if st.1.len() > 0 {
        assert(shift_clauses(st.0.push(st.1), s as int) =~= shift_clauses(st.0, s as int).push(
            shift_seq(st.1, s as int),
        ));
    }
}

proof fn lemma_product_step(ca: Seq<Seq<i64>>, cb: Seq<Seq<i64>>, i: int)
    requires
        0 <= i < ca.len(),
    ensures
        product(ca.take(i + 1), cb) == product(ca.take(i), cb) + rows(ca[i], cb),
{
    assert(ca.take(i + 1).drop_last() =~= ca.take(i));
    assert(ca.take(i + 1).last() == ca[i]);
}

proof fn lemma_rows_step(x: Seq<i64>, cb: Seq<Seq<i64>>, j: int)
    requires
        0 <= j < cb.len(),
    ensures
        rows(x, cb.take(j + 1)) == rows(x, cb.take(j)).push(x + cb[j]),
{
    assert(rows(x, cb.take(j + 1)) =~= rows(x, cb.take(j)).push(x + cb[j]));
}

proof fn lemma_flatten_push(s: Seq<Seq<i64>>, c: Seq<i64>)
    ensures
        flatten(s.push(c)) == flatten(s) + c + seq![0i64],
{
    assert(s.push(c).drop_last() =~= s);
    assert(s.push(c).last() == c);
}

proof fn lemma_extend_negated_props(acc: Seq<Seq<i64>>, cl: Seq<i64>, n: nat, len: nat)
    requires
        n <= i64::MAX,
        forall|i: int| 0 <= i < acc.len() ==> #[trigger] acc[i].len() == len && clause_lits_ok(acc[i], n),
        clause_lits_ok(cl, n),
    ensures
        forall|i: int|
            0 <= i < extend_negated(acc, cl).len() ==> #[trigger] extend_negated(acc, cl)[i].len()
                == len + 1 && clause_lits_ok(extend_negated(acc, cl)[i], n),
    decreases acc.len(),
{
    if acc.len() > 0 {
        let p = acc.drop_last();
        assert forall|i: int| 0 <= i < p.len() implies #[trigger] p[i].len() == len && clause_lits_ok(p[i], n) by {
            assert(p[i] == acc[i]);
        }
        lemma_extend_negated_props(p, cl, n, len);
        let left = extend_negated(p, cl);
        let last = acc.last();
        assert(last.len() == len && clause_lits_ok(last, n)) by {
            assert(last == acc[acc.len() - 1]);
        }
        let right = cl.map_values(|l: i64| last.push((-l) as i64));
        let e = extend_negated(acc, cl);
        assert(e == left + right);
        assert forall|i: int| 0 <= i < e.len() implies #[trigger] e[i].len() == len + 1 && clause_lits_ok(e[i], n) by {
            if i < left.len() {
                assert(e[i] == left[i]);
            } else {
                let k = i - left.len();
                assert(e[i] == right[k]);
                assert(right[k] == last.push((-cl[k]) as i64));
                assert(cl[k] != 0 && -n <= cl[k] <= n);
                let q = right[k];
                assert forall|m: int| 0 <= m < q.len() implies #[trigger] q[m] != 0 && -n <= q[m] <= n by {
                    if m < last.len() {
                        assert(q[m] == last[m]);
                    }
                }
            }
        }
    }
}

/// Each clause of the negation picks one negated literal from every clause.
pub proof fn lemma_negation_props(cls: Seq<Seq<i64>>, n: nat)
    requires
        n <= i64::MAX,
        forall|i: int| 0 <= i < cls.len() ==> #[trigger] clause_lits_ok(cls[i], n),
    ensures
        forall|i: int|
            0 <= i < negation(cls).len() ==> #[trigger] negation(cls)[i].len() == cls.len()
                && clause_lits_ok(negation(cls)[i], n),
    decreases cls.len(),
{
    if cls.len() == 0 {
        let e = seq![Seq::<i64>::empty()];
        assert forall|i: int| 0 <= i < e.len() implies #[trigger] e[i].len() == 0 && clause_lits_ok(e[i], n) by {
            assert(e[i] == Seq::<i64>::empty());
        }
    } else {
        let p = cls.drop_last();
        assert forall|i: int| 0 <= i < p.len() implies #[trigger] clause_lits_ok(p[i], n) by {
            assert(p[i] == cls[i]);
        }
        lemma_negation_props(p, n);
        assert(clause_lits_ok(cls.last(), n)) by {
            assert(cls.last() == cls[cls.len() - 1]);
        }
        lemma_extend_negated_props(negation(p), cls.last(), n, p.len());
    }
}

/// Flattening clauses with good literals gives a terminated DNF in range.
pub proof fn lemma_flatten_well_formed(cls: Seq<Seq<i64>>, n: nat)
    requires
        forall|i: int| 0 <= i < cls.len() ==> #[trigger] clause_lits_ok(cls[i], n),
    ensures
        lits_in_range(flatten(cls), n),
        flatten(cls).len() == 0 || flatten(cls).last() == 0,
    decreases cls.len(),
{
    if cls.len() > 0 {
        let p = cls.drop_last();
        assert forall|i: int| 0 <= i < p.len() implies #[trigger] clause_lits_ok(p[i], n) by {
            assert(p[i] == cls[i]);
        }
        lemma_flatten_well_formed(p, n);
        let last = cls.last();
        assert(clause_lits_ok(last, n)) by {
            assert(last == cls[cls.len() - 1]);
        }
        let f = flatten(cls);
        let fp = flatten(p);
        assert(f == fp + last + seq![0i64]);
        assert forall|k: int| 0 <= k < f.len() implies -n <= #[trigger] f[k] <= n by {
            if k < fp.len() {
                assert(f[k] == fp[k]);
            } else if k < fp.len() + last.len() {
                assert(f[k] == last[k - fp.len()]);
            } else {
                assert(f[k] == 0);
            }
        }
    }
}

// ==================== Executable helpers ====================

/// The literal sequences of a vector of clauses.
pub open spec fn vecs_view(v: Seq<Vec<i64>>) -> Seq<Seq<i64>> {
    v.map_values(|x: Vec<i64>| x@)
}

/// Split a flat DNF into its non-empty clauses (the segments between `0`s).
fn split_clauses(c: &Vec<i64>) -> (r: Vec<Vec<i64>>)
    ensures
        vecs_view(r@) == clause_list(c@),
{
    let mut done: Vec<Vec<i64>> = Vec::new();
    let mut cur: Vec<i64> = Vec::new();
    let n = c.len();
    for k in 0..n
        invariant
            n == c@.len(),
            vecs_view(done@) == split_state(c@.take(k as int)).0,
            cur@ == split_state(c@.take(k as int)).1,
    {
        let x = c[k];
        assert(c@.take(k + 1).drop_last() =~= c@.take(k as int));
        assert(c@.take(k + 1).last() == x);
        if x == 0 {
            if cur.len() > 0 {
                let ghost old_done = done@;
                let full = cur;
                done.push(full);
                assert(vecs_view(done@) =~= vecs_view(old_done).push(full@));
                cur = Vec::new();
            } else {
                cur = Vec::new();
            }
        } else {
            cur.push(x);
        }
    }
    assert(c@.take(n as int) =~= c@);
    if cur.len() > 0 {
        let ghost old_done = done@;
        let ghost cv = cur@;
        done.push(cur);
        assert(vecs_view(done@) =~= vecs_view(old_done).push(cv));
    }
    done
}

/// Append all literals of `src` to `out`.
fn append_lits(out: &mut Vec<i64>, src: &Vec<i64>)
    ensures
        final(out)@ == old(out)@ + src@,
{
    let n = src.len();
    for k in 0..n
        invariant
            n == src@.len(),
            out@ == old(out)@ + src@.take(k as int),
    {
        out.push(src[k]);
        assert(src@.take(k + 1) =~= src@.take(k as int).push(src@[k as int]));
        assert(old(out)@ + src@.take(k + 1) =~= (old(out)@ + src@.take(k as int)).push(src@[k as int]));
    }
    assert(src@.take(n as int) =~= src@);
}

/// Renumber the literals of one clause.
fn shift_clause(cl: &Vec<i64>, shift: i64, n: Ghost<nat>) -> (r: Vec<i64>)
    requires
        shift >= 0,
        n@ + shift <= i64::MAX,
        forall|k: int| 0 <= k < cl@.len() ==> -n@ <= #[trigger] cl@[k] <= n@,
    ensures
        r@ == shift_seq(cl@, shift as int),
{
    let mut out: Vec<i64> = Vec::new();
    let len = cl.len();
    for k in 0..len
        invariant
            len == cl@.len(),
            shift >= 0,
            n@ + shift <= i64::MAX,
            forall|m: int| 0 <= m < cl@.len() ==> -n@ <= #[trigger] cl@[m] <= n@,
            out@ == shift_seq(cl@.take(k as int), shift as int),
    {
        let lit = cl[k];
        assert(-n@ <= cl@[k as int] <= n@);
        if lit == 0 {
            out.push(0);
        } else if lit > 0 {
            out.push(lit + shift);
        } else {
            out.push(lit - shift);
        }
        assert(cl@.take(k + 1) =~= cl@.take(k as int).push(lit));
        assert(shift_seq(cl@.take(k + 1), shift as int) =~= shift_seq(cl@.take(k as int), shift as int).push(
            shift_lit(lit, shift as int),
        ));
    }
    assert(cl@.take(len as int) =~= cl@);
    out
}

// ==================== Semantic lemmas ====================

proof fn lemma_lit_prefix(l: i64, asg_a: Seq<bool>, asg_b: Seq<bool>)
    requires
        l != 0,
        -asg_a.len() <= l <= asg_a.len(),
    ensures
        lit_holds(l, asg_a + asg_b) == lit_holds(l, asg_a),
{
    if l > 0 {
        assert((asg_a + asg_b)[l - 1] == asg_a[l - 1]);
    } else {
        assert((asg_a + asg_b)[-l - 1] == asg_a[-l - 1]);
    }
}

proof fn lemma_lit_shifted(l: i64, asg_a: Seq<bool>, asg_b: Seq<bool>)
    requires
        l != 0,
        -asg_b.len() <= l <= asg_b.len(),
        asg_a.len() + asg_b.len() <= i64::MAX,
    ensures
        lit_holds(shift_lit(l, asg_a.len() as int), asg_a + asg_b) == lit_holds(l, asg_b),
        shift_lit(l, asg_a.len() as int) != 0,
{
    let na = asg_a.len() as int;
    if l > 0 {
        assert((asg_a + asg_b)[l + na - 1] == asg_b[l - 1]);
    } else {
        assert((asg_a + asg_b)[-l + na - 1] == asg_b[-l - 1]);
    }
}

proof fn lemma_clause_prefix(cl: Seq<i64>, asg_a: Seq<bool>, asg_b: Seq<bool>)
    requires
        clause_lits_ok(cl, asg_a.len()),
    ensures
        clause_holds(cl, asg_a + asg_b) == clause_holds(cl, asg_a),
{
    assert forall|k: int| 0 <= k < cl.len() implies #[trigger] lit_holds(cl[k], asg_a + asg_b)
        == lit_holds(cl[k], asg_a) by {
        lemma_lit_prefix(cl[k], asg_a, asg_b);
    }
    if clause_holds(cl, asg_a) {
        assert forall|k: int| 0 <= k < cl.len() implies #[trigger] lit_holds(cl[k], asg_a + asg_b) by {
            assert(lit_holds(cl[k], asg_a));
        }
    }
    if clause_holds(cl, asg_a + asg_b) {
        assert forall|k: int| 0 <= k < cl.len() implies #[trigger] lit_holds(cl[k], asg_a) by {
            assert(lit_holds(cl[k], asg_a + asg_b));
        }
    }
}

proof fn lemma_clause_shifted(cl: Seq<i64>, asg_a: Seq<bool>, asg_b: Seq<bool>)
    requires
        clause_lits_ok(cl, asg_b.len()),
        asg_a.len() + asg_b.len() <= i64::MAX,
    ensures
        clause_holds(shift_seq(cl, asg_a.len() as int), asg_a + asg_b) == clause_holds(cl, asg_b),
        clause_lits_ok(shift_seq(cl, asg_a.len() as int), asg_a.len() + asg_b.len()),
{
    let sc = shift_seq(cl, asg_a.len() as int);
    assert forall|k: int| 0 <= k < cl.len() implies #[trigger] lit_holds(sc[k], asg_a + asg_b)
        == lit_holds(cl[k], asg_b) by {
        lemma_lit_shifted(cl[k], asg_a, asg_b);
    }
    assert forall|k: int| 0 <= k < sc.len() implies #[trigger] sc[k] != 0 && -(asg_a.len()
        + asg_b.len()) <= sc[k] <= asg_a.len() + asg_b.len() by {
        lemma_lit_shifted(cl[k], asg_a, asg_b);
    }
    if clause_holds(cl, asg_b) {
        assert forall|k: int| 0 <= k < sc.len() implies #[trigger] lit_holds(sc[k], asg_a + asg_b) by {
            assert(lit_holds(cl[k], asg_b));
        }
    }
    if clause_holds(sc, asg_a + asg_b) {
        assert forall|k: int| 0 <= k < cl.len() implies #[trigger] lit_holds(cl[k], asg_b) by {
            assert(lit_holds(sc[k], asg_a + asg_b));
        }
    }
}

proof fn lemma_some_concat(x: Seq<Seq<i64>>, y: Seq<Seq<i64>>, asg: Seq<bool>)
    ensures
        some_clause_holds(x + y, asg) == (some_clause_holds(x, asg) || some_clause_holds(y, asg)),
{
    let xy = x + y;
    if some_clause_holds(xy, asg) {
        let k = choose|k: int| 0 <= k < xy.len() && #[trigger] clause_holds(xy[k], asg);
        if k < x.len() {
            assert(xy[k] == x[k]);
        } else {
            assert(xy[k] == y[k - x.len()]);
        }
    }
    if some_clause_holds(x, asg) {
        let k = choose|k: int| 0 <= k < x.len() && #[trigger] clause_holds(x[k], asg);
        assert(xy[k] == x[k]);
    }
    if some_clause_holds(y, asg) {
        let k = choose|k: int| 0 <= k < y.len() && #[trigger] clause_holds(y[k], asg);
        assert(xy[k + x.len()] == y[k]);
    }
}

/// Clause sets over `a`'s solids keep their meaning when `b`'s solids are appended.
proof fn lemma_some_prefix(cls: Seq<Seq<i64>>, asg_a: Seq<bool>, asg_b: Seq<bool>)
    requires
        forall|i: int| 0 <= i < cls.len() ==> #[trigger] clause_lits_ok(cls[i], asg_a.len()),
    ensures
        some_clause_holds(cls, asg_a + asg_b) == some_clause_holds(cls, asg_a),
{
    if some_clause_holds(cls, asg_a + asg_b) {
        let k = choose|k: int| 0 <= k < cls.len() && #[trigger] clause_holds(cls[k], asg_a + asg_b);
        lemma_clause_prefix(cls[k], asg_a, asg_b);
    }
    if some_clause_holds(cls, asg_a) {
        let k = choose|k: int| 0 <= k < cls.len() && #[trigger] clause_holds(cls[k], asg_a);
        lemma_clause_prefix(cls[k], asg_a, asg_b);
    }
}

/// Renumbered clause sets over `b`'s solids mean the same after `a`'s solids.
proof fn lemma_some_shifted(cls: Seq<Seq<i64>>, asg_a: Seq<bool>, asg_b: Seq<bool>)
    requires
        forall|i: int| 0 <= i < cls.len() ==> #[trigger] clause_lits_ok(cls[i], asg_b.len()),
        asg_a.len() + asg_b.len() <= i64::MAX,
    ensures
        some_clause_holds(shift_clauses(cls, asg_a.len() as int), asg_a + asg_b)
            == some_clause_holds(cls, asg_b),
        forall|i: int|
            0 <= i < cls.len() ==> #[trigger] clause_lits_ok(
                shift_clauses(cls, asg_a.len() as int)[i],
                asg_a.len() + asg_b.len(),
            ),
{
    let sc = shift_clauses(cls, asg_a.len() as int);
    assert forall|i: int| 0 <= i < cls.len() implies #[trigger] clause_lits_ok(sc[i], asg_a.len() + asg_b.len()) by {
        lemma_clause_shifted(cls[i], asg_a, asg_b);
    }
    if some_clause_holds(sc, asg_a + asg_b) {
        let k = choose|k: int| 0 <= k < sc.len() && #[trigger] clause_holds(sc[k], asg_a + asg_b);
        lemma_clause_shifted(cls[k], asg_a, asg_b);
    }
    if some_clause_holds(cls, asg_b) {
        let k = choose|k: int| 0 <= k < cls.len() && #[trigger] clause_holds(cls[k], asg_b);
        lemma_clause_shifted(cls[k], asg_a, asg_b);
        assert(clause_holds(sc[k], asg_a + asg_b));
    }
}

proof fn lemma_clause_concat(x: Seq<i64>, y: Seq<i64>, asg: Seq<bool>)
    ensures
        clause_holds(x + y, asg) == (clause_holds(x, asg) && clause_holds(y, asg)),
{
    let xy = x + y;
    if clause_holds(xy, asg) {
        assert forall|k: int| 0 <= k < x.len() implies #[trigger] lit_holds(x[k], asg) by {
            assert(xy[k] == x[k]);
        }
        assert forall|k: int| 0 <= k < y.len() implies #[trigger] lit_holds(y[k], asg) by {
            assert(xy[k + x.len()] == y[k]);
        }
    }
    if clause_holds(x, asg) && clause_holds(y, asg) {
        assert forall|k: int| 0 <= k < xy.len() implies #[trigger] lit_holds(xy[k], asg) by {
            if k < x.len() {
                assert(xy[k] == x[k]);
            } else {
                assert(xy[k] == y[k - x.len()]);
            }
        }
    }
}

proof fn lemma_some_rows(x: Seq<i64>, cb: Seq<Seq<i64>>, asg: Seq<bool>)
    ensures
        some_clause_holds(rows(x, cb), asg) == (clause_holds(x, asg) && some_clause_holds(cb, asg)),
{
    let r = rows(x, cb);
    if some_clause_holds(r, asg) {
        let k = choose|k: int| 0 <= k < r.len() && #[trigger] clause_holds(r[k], asg);
        lemma_clause_concat(x, cb[k], asg);
    }
    if clause_holds(x, asg) && some_clause_holds(cb, asg) {
        let k = choose|k: int| 0 <= k < cb.len() && #[trigger] clause_holds(cb[k], asg);
        lemma_clause_concat(x, cb[k], asg);
        assert(clause_holds(r[k], asg));
    }
}

proof fn lemma_some_product(ca: Seq<Seq<i64>>, cb: Seq<Seq<i64>>, asg: Seq<bool>)
    ensures
        some_clause_holds(product(ca, cb), asg) == (some_clause_holds(ca, asg) && some_clause_holds(
            cb,
            asg,
        )),
    decreases ca.len(),
{
    if ca.len() > 0 {
        let p = ca.drop_last();
        lemma_some_product(p, cb, asg);
        lemma_some_concat(product(p, cb), rows(ca.last(), cb), asg);
        lemma_some_rows(ca.last(), cb, asg);
        assert(ca == p.push(ca.last()));
        lemma_some_concat(p, seq![ca.last()], asg);
        assert(p + seq![ca.last()] =~= ca);
        if clause_holds(ca.last(), asg) {
            assert(seq![ca.last()][0] == ca.last());
        }
        if some_clause_holds(seq![ca.last()], asg) {
            let k = choose|k: int| 0 <= k < 1 && #[trigger] clause_holds(seq![ca.last()][k], asg);
            assert(k == 0);
        }
    }
}

/// Non-empty clauses stay non-empty and zero-free literals stay in range.
proof fn lemma_product_props(ca: Seq<Seq<i64>>, cb: Seq<Seq<i64>>, n: nat)
    requires
        forall|i: int| 0 <= i < ca.len() ==> #[trigger] ca[i].len() > 0 && clause_lits_ok(ca[i], n),
        forall|i: int| 0 <= i < cb.len() ==> #[trigger] clause_lits_ok(cb[i], n),
    ensures
        forall|i: int|
            0 <= i < product(ca, cb).len() ==> #[trigger] product(ca, cb)[i].len() > 0
                && clause_lits_ok(product(ca, cb)[i], n),
    decreases ca.len(),
{
    if ca.len() > 0 {
        let p = ca.drop_last();
        assert forall|i: int| 0 <= i < p.len() implies #[trigger] p[i].len() > 0 && clause_lits_ok(p[i], n) by {
            assert(p[i] == ca[i]);
        }
        lemma_product_props(p, cb, n);
        let x = ca.last();
        assert(x.len() > 0 && clause_lits_ok(x, n)) by {
            assert(x == ca[ca.len() - 1]);
        }
        let left = product(p, cb);
        let right = rows(x, cb);
        let pr = product(ca, cb);
        assert(pr == left + right);
        assert forall|i: int| 0 <= i < pr.len() implies #[trigger] pr[i].len() > 0 && clause_lits_ok(pr[i], n) by {
            if i < left.len() {
                assert(pr[i] == left[i]);
            } else {
                let k = i - left.len();
                assert(pr[i] == x + cb[k]);
                let q = x + cb[k];
                assert(clause_lits_ok(cb[k], n));
                assert forall|m: int| 0 <= m < q.len() implies #[trigger] q[m] != 0 && -n <= q[m] <= n by {
                    if m < x.len() {
                        assert(q[m] == x[m]);
                    } else {
                        assert(q[m] == cb[k][m - x.len()]);
                    }
                }
            }
        }
    }
}

proof fn lemma_some_extend_negated(acc: Seq<Seq<i64>>, cl: Seq<i64>, asg: Seq<bool>)
    requires
        forall|k: int| 0 <= k < cl.len() ==> #[trigger] cl[k] != 0 && cl[k] != i64::MIN,
    ensures
        some_clause_holds(extend_negated(acc, cl), asg) == (some_clause_holds(acc, asg)
            && !clause_holds(cl, asg)),
    decreases acc.len(),
{
    if acc.len() > 0 {
        let p = acc.drop_last();
        let last = acc.last();
        lemma_some_extend_negated(p, cl, asg);
        let right = cl.map_values(|l: i64| last.push((-l) as i64));
        lemma_some_concat(extend_negated(p, cl), right, asg);
        // the new partials extending `last`
        assert(some_clause_holds(right, asg) == (clause_holds(last, asg) && !clause_holds(cl, asg))) by {
            if some_clause_holds(right, asg) {
                let k = choose|k: int| 0 <= k < right.len() && #[trigger] clause_holds(right[k], asg);
                lemma_clause_concat(last, seq![(-cl[k]) as i64], asg);
                assert(right[k] =~= last + seq![(-cl[k]) as i64]);
                assert(lit_holds(seq![(-cl[k]) as i64][0], asg));
                assert(!lit_holds(cl[k], asg));
            }
            if clause_holds(last, asg) && !clause_holds(cl, asg) {
                let k = choose|k: int| 0 <= k < cl.len() && !#[trigger] lit_holds(cl[k], asg);
                lemma_clause_concat(last, seq![(-cl[k]) as i64], asg);
                assert(right[k] =~= last + seq![(-cl[k]) as i64]);
                assert forall|m: int| 0 <= m < 1 implies #[trigger] lit_holds(seq![(-cl[k]) as i64][m], asg) by {}
                assert(clause_holds(right[k], asg));
            }
        }
        lemma_some_concat(p, seq![last], asg);
        assert(p + seq![last] =~= acc);
        if some_clause_holds(seq![last], asg) {
            let k = choose|k: int| 0 <= k < 1 && #[trigger] clause_holds(seq![last][k], asg);
            assert(k == 0);
        }
        if clause_holds(last, asg) {
            assert(seq![last][0] == last);
        }
    }
}

proof fn lemma_some_negation(cls: Seq<Seq<i64>>, asg: Seq<bool>)
    requires
        forall|i: int, k: int|
            0 <= i < cls.len() && 0 <= k < cls[i].len() ==> #[trigger] cls[i][k] != 0 && cls[i][k]
                != i64::MIN,
    ensures
        some_clause_holds(negation(cls), asg) == !some_clause_holds(cls, asg),
    decreases cls.len(),
{
    if cls.len() == 0 {
        let e = seq![Seq::<i64>::empty()];
        assert(clause_holds(e[0], asg));
    } else {
        let p = cls.drop_last();
        let last = cls.last();
        assert forall|i: int, k: int| 0 <= i < p.len() && 0 <= k < p[i].len() implies #[trigger] p[i][k]
            != 0 && p[i][k] != i64::MIN by {
            assert(p[i] == cls[i]);
        }
        lemma_some_negation(p, asg);
        assert forall|k: int| 0 <= k < last.len() implies #[trigger] last[k] != 0 && last[k] != i64::MIN by {
            assert(last == cls[cls.len() - 1]);
        }
        lemma_some_extend_negated(negation(p), last, asg);
        lemma_some_concat(p, seq![last], asg);
        assert(p + seq![last] =~= cls);
        if some_clause_holds(seq![last], asg) {
            let k = choose|k: int| 0 <= k < 1 && #[trigger] clause_holds(seq![last][k], asg);
            assert(k == 0);
        }
        if clause_holds(last, asg) {
            assert(seq![last][0] == last);
        }
    }
}

// ==================== Laws ====================

/// The union holds exactly where either operand holds: a point's membership
/// in the combined solids is its membership in `a`'s followed by `b`'s.
pub proof fn lemma_union_semantics(
    ca: Seq<i64>,
    cb: Seq<i64>,
    asg_a: Seq<bool>,
    asg_b: Seq<bool>,
)
    requires
        dnf_well_formed(ca, asg_a.len()),
        dnf_well_formed(cb, asg_b.len()),
        asg_a.len() + asg_b.len() <= i64::MAX,
    ensures
        dnf_holds(union_clauses(ca, asg_a.len(), cb), asg_a + asg_b) == (dnf_holds(ca, asg_a)
            || dnf_holds(cb, asg_b)),
        dnf_well_formed(union_clauses(ca, asg_a.len(), cb), asg_a.len() + asg_b.len()),
{
    let na = asg_a.len();
    let nb = asg_b.len();
    lemma_clause_list_concat(ca, shift_seq(cb, na as int));
    lemma_clause_list_shift(cb, nb, na);
    lemma_clause_list_props(ca, na);
    lemma_clause_list_props(cb, nb);
    lemma_some_concat(clause_list(ca), shift_clauses(clause_list(cb), na as int), asg_a + asg_b);
    assert forall|i: int| 0 <= i < clause_list(ca).len() implies #[trigger] clause_lits_ok(clause_list(ca)[i], na) by {}
    assert forall|i: int| 0 <= i < clause_list(cb).len() implies #[trigger] clause_lits_ok(clause_list(cb)[i], nb) by {}
    lemma_some_prefix(clause_list(ca), asg_a, asg_b);
    lemma_some_shifted(clause_list(cb), asg_a, asg_b);
    let u = union_clauses(ca, na, cb);
    let sb = shift_seq(cb, na as int);
    assert forall|k: int| 0 <= k < u.len() implies -(na + nb) <= #[trigger] u[k] <= na + nb by {
        if k < ca.len() {
            assert(u[k] == ca[k]);
        } else {
            assert(u[k] == sb[k - ca.len()]);
            assert(-nb <= cb[k - ca.len()] <= nb);
        }
    }
    if u.len() > 0 {
        if cb.len() > 0 {
            assert(u.last() == sb[cb.len() - 1]);
        } else {
            assert(u.last() == ca.last());
        }
    }
}

/// The intersection holds exactly where both operands hold.
pub proof fn lemma_intersect_semantics(
    ca: Seq<i64>,
    cb: Seq<i64>,
    asg_a: Seq<bool>,
    asg_b: Seq<bool>,
)
    requires
        lits_in_range(ca, asg_a.len()),
        lits_in_range(cb, asg_b.len()),
        asg_a.len() + asg_b.len() <= i64::MAX,
    ensures
        dnf_holds(intersect_clauses(ca, asg_a.len(), cb), asg_a + asg_b) == (dnf_holds(ca, asg_a)
            && dnf_holds(cb, asg_b)),
        dnf_well_formed(intersect_clauses(ca, asg_a.len(), cb), asg_a.len() + asg_b.len()),
{
    let na = asg_a.len();
    let nb = asg_b.len();
    let n = na + nb;
    let asg = asg_a + asg_b;
    lemma_clause_list_props(ca, na);
    lemma_clause_list_props(cb, nb);
    let CA = clause_list(ca);
    let CB = clause_list(cb);
    let SB = shift_clauses(CB, na as int);
    assert forall|i: int| 0 <= i < CA.len() implies #[trigger] clause_lits_ok(CA[i], na) by {}
    assert forall|i: int| 0 <= i < CB.len() implies #[trigger] clause_lits_ok(CB[i], nb) by {}
    lemma_some_prefix(CA, asg_a, asg_b);
    lemma_some_shifted(CB, asg_a, asg_b);
    assert forall|i: int| 0 <= i < CA.len() implies #[trigger] CA[i].len() > 0 && clause_lits_ok(CA[i], n) by {
        assert forall|k: int| 0 <= k < CA[i].len() implies #[trigger] CA[i][k] != 0 && -n <= CA[i][k] <= n by {
            assert(clause_lits_ok(CA[i], na));
        }
    }
    assert forall|i: int| 0 <= i < SB.len() implies #[trigger] clause_lits_ok(SB[i], n) by {}
    lemma_product_props(CA, SB, n);
    let P = product(CA, SB);
    assert forall|i: int| 0 <= i < P.len() implies #[trigger] P[i].len() > 0 by {}
    assert forall|i: int, k: int| 0 <= i < P.len() && 0 <= k < P[i].len() implies #[trigger] P[i][k] != 0 by {
        assert(clause_lits_ok(P[i], n));
    }
    lemma_split_flatten(P);
    lemma_some_product(CA, SB, asg);
    assert forall|i: int| 0 <= i < P.len() implies #[trigger] clause_lits_ok(P[i], n) by {}
    lemma_flatten_well_formed(P, n);
}

/// The difference `a - b` holds exactly where `a` holds and `b` does not.
pub proof fn lemma_subtract_semantics(
    ca: Seq<i64>,
    cb: Seq<i64>,
    asg_a: Seq<bool>,
    asg_b: Seq<bool>,
)
    requires
        dnf_well_formed(ca, asg_a.len()),
        lits_in_range(cb, asg_b.len()),
        asg_a.len() + asg_b.len() <= i64::MAX,
    ensures
        dnf_holds(subtract_clauses(ca, asg_a.len(), cb), asg_a + asg_b) == (dnf_holds(ca, asg_a)
            && !dnf_holds(cb, asg_b)),
        clause_list(cb).len() == 0 ==> dnf_well_formed(subtract_clauses(ca, asg_a.len(), cb), asg_a.len()),
        clause_list(cb).len() > 0 ==> dnf_well_formed(
            subtract_clauses(ca, asg_a.len(), cb),
            asg_a.len() + asg_b.len(),
        ),
{
    let na = asg_a.len();
    let nb = asg_b.len();
    lemma_clause_list_props(ca, na);
    lemma_clause_list_props(cb, nb);
    let CA = clause_list(ca);
    let CB = clause_list(cb);
    assert forall|i: int| 0 <= i < CA.len() implies #[trigger] clause_lits_ok(CA[i], na) by {}
    lemma_some_prefix(CA, asg_a, asg_b);
    if CB.len() == 0 {
        assert(!dnf_holds(cb, asg_b));
    } else {
        assert forall|i: int| 0 <= i < CB.len() implies #[trigger] clause_lits_ok(CB[i], nb) by {}
        lemma_negation_props(CB, nb);
        let NEG = negation(CB);
        assert forall|i: int| 0 <= i < NEG.len() implies #[trigger] clause_lits_ok(NEG[i], nb) by {}
        lemma_flatten_well_formed(NEG, nb);
        assert forall|i: int| 0 <= i < NEG.len() implies #[trigger] NEG[i].len() > 0 by {}
        assert forall|i: int, k: int| 0 <= i < NEG.len() && 0 <= k < NEG[i].len() implies #[trigger] NEG[i][k] != 0 by {
            assert(clause_lits_ok(NEG[i], nb));
        }
        lemma_split_flatten(NEG);
        assert forall|i: int, k: int| 0 <= i < CB.len() && 0 <= k < CB[i].len() implies #[trigger] CB[i][k]
            != 0 && CB[i][k] != i64::MIN by {
            assert(clause_lits_ok(CB[i], nb));
        }
        lemma_some_negation(CB, asg_b);
        lemma_intersect_semantics(ca, flatten(NEG), asg_a, asg_b);
    }
}

/// The empty expression is the identity of union: `empty + b` is `b`.
pub proof fn lemma_union_empty_identity(cb: Seq<i64>)
    ensures
        union_clauses(Seq::empty(), 0, cb) == cb,
{
    assert(union_clauses(Seq::empty(), 0, cb) =~= cb);
}

/// The empty expression annihilates intersection: `empty * b` has no clause.
pub proof fn lemma_intersect_empty_annihilates(cb: Seq<i64>)
    ensures
        intersect_clauses(Seq::empty(), 0, cb).len() == 0,
{
    assert(split_state(Seq::<i64>::empty()) == (Seq::<Seq<i64>>::empty(), Seq::<i64>::empty()));
    assert(clause_list(Seq::<i64>::empty()).len() == 0);
}

/// A single solid holds exactly at the points inside it.
pub proof fn lemma_single_solid_semantics(asg: Seq<bool>)
    requires
        asg.len() == 1,
    ensures
        dnf_holds(seq![1i64, 0i64], asg) == asg[0],
{
    let c = seq![1i64, 0i64];
    assert(c.drop_last() =~= seq![1i64]);
    assert(seq![1i64].drop_last() =~= Seq::<i64>::empty());
    assert(seq![1i64].last() == 1);
    assert(split_state(Seq::<i64>::empty()) == (Seq::<Seq<i64>>::empty(), Seq::<i64>::empty()));
    assert(Seq::<i64>::empty().push(1i64) =~= seq![1i64]);
    assert(split_state(seq![1i64]) == (Seq::<Seq<i64>>::empty(), seq![1i64]));
    assert(clause_list(c) =~= seq![seq![1i64]]);
    if asg[0] {
        assert(clause_holds(clause_list(c)[0], asg));
    }
    if dnf_holds(c, asg) {
        let k = choose|k: int| 0 <= k < clause_list(c).len() && #[trigger] clause_holds(clause_list(c)[k], asg);
        assert(k == 0);
        assert(lit_holds(clause_list(c)[0][0], asg));
    }
}

// ==================== Expression ====================

/// A boolean expression over solids, kept as a flat DNF.
pub struct Boolean<S> {
    pub(crate) solids: Vec<S>,
    pub(crate) clauses: Vec<i64>,
}

impl<S> Boolean<S> {
    /// The solids, in numbering order (solid `k` is at position `k - 1`).
    pub closed spec fn solids_view(&self) -> Seq<S> {
        self.solids@
    }

    /// The flat, 0-terminated DNF.
    pub closed spec fn clauses_view(&self) -> Seq<i64> {
        self.clauses@
    }

    /// The expression is a DNF over its own solids.
    pub open spec fn well_formed(&self) -> bool {
        dnf_well_formed(self.clauses_view(), self.solids_view().len())
    }

    /// The expression holds at a point whose membership in each solid is `asg`.
    pub open spec fn holds(&self, asg: Seq<bool>) -> bool {
        dnf_holds(self.clauses_view(), asg)
    }

    /// Assemble an expression from its parts.
    pub(crate) fn from_parts(solids: Vec<S>, clauses: Vec<i64>) -> (r: Self)
        ensures
            r.solids_view() == solids@,
            r.clauses_view() == clauses@,
    {
        Boolean { solids, clauses }
    }

    /// The expression that is exactly one solid: `[1, 0]`.
    pub fn from_solid(s: S) -> (r: Self)
        ensures
            r.solids_view() == seq![s],
            r.clauses_view() == seq![1i64, 0i64],
            r.well_formed(),
    {
        let mut solids = Vec::new();
        solids.push(s);
        let mut clauses = Vec::new();
        clauses.push(1i64);
        clauses.push(0i64);
        Boolean { solids, clauses }
    }

    /// The empty expression (no solid, no clause): the identity of union.
    pub fn new_empty() -> (r: Self)
        ensures
            r.solids_view().len() == 0,
            r.clauses_view().len() == 0,
            r.well_formed(),
    {
        Boolean { solids: Vec::new(), clauses: Vec::new() }
    }

    /// The solids referenced by the expression, in numbering order.
    pub fn solids(&self) -> (r: &[S])
        ensures
            r@ == self.solids_view(),
    {
        self.solids.as_slice()
    }

    /// The flat, 0-terminated DNF.
    pub fn clauses(&self) -> (r: &[i64])
        ensures
            r@ == self.clauses_view(),
    {
        self.clauses.as_slice()
    }

    /// Union: `b`'s solids are appended after `a`'s and `b`'s literals renumbered.
    pub(crate) fn dnf_union(a: Self, b: Self) -> (r: Self)
        requires
            a.solids_view().len() + b.solids_view().len() <= i64::MAX,
            lits_in_range(b.clauses_view(), b.solids_view().len()),
        ensures
            r.solids_view() == a.solids_view() + b.solids_view(),
            r.clauses_view() == union_clauses(a.clauses_view(), a.solids_view().len(), b.clauses_view()),
    {
        let mut a = a;
        let mut b = b;
        let ghost na = a.solids_view().len();
        let ghost nb = b.solids_view().len();
        let ghost ca = a.clauses_view();
        let ghost cb = b.clauses_view();
        let ghost sa = a.solids@;
        let ghost sb = b.solids@;
        let shift = a.solids.len() as i64;
        a.solids.append(&mut b.solids);
        assert(a.solids@ == sa + sb);
        let n = b.clauses.len();
        for k in 0..n
            invariant
                n == cb.len(),
                b.clauses_view() == cb,
                shift == na,
                lits_in_range(cb, nb),
                na + nb <= i64::MAX,
                a.clauses_view() == ca + shift_seq(cb.take(k as int), na as int),
                a.solids@ == sa + sb,
        {
            let lit = b.clauses[k];
            assert(-nb <= cb[k as int] <= nb);
            if lit == 0 {
                a.clauses.push(0);
            } else if lit > 0 {
                a.clauses.push(lit + shift);
            } else {
                a.clauses.push(lit - shift);
            }
            assert(cb.take(k + 1) =~= cb.take(k as int).push(lit));
            assert(shift_seq(cb.take(k + 1), na as int) =~= shift_seq(cb.take(k as int), na as int).push(
                shift_lit(lit, na as int),
            ));
        }
        assert(cb.take(n as int) =~= cb);
        a
    }

    /// Intersection: every clause of `a` conjoined with every clause of `b`
    /// (renumbered after `a`'s solids), `a`-major.
    pub(crate) fn dnf_intersect(a: Self, b: Self) -> (r: Self)
        requires
            a.solids_view().len() + b.solids_view().len() <= i64::MAX,
            lits_in_range(b.clauses_view(), b.solids_view().len()),
        ensures
            r.solids_view() == a.solids_view() + b.solids_view(),
            r.clauses_view() == intersect_clauses(a.clauses_view(), a.solids_view().len(), b.clauses_view()),
    {
        let ghost na = a.solids_view().len();
        let ghost nb = b.solids_view().len();
        let ghost ca = a.clauses_view();
        let ghost cb = b.clauses_view();
        let Boolean { solids: mut sa, clauses: a_flat } = a;
        let Boolean { solids: mut sb, clauses: b_flat } = b;
        let ghost sa0 = sa@;
        let ghost sb0 = sb@;
        let a_clauses = split_clauses(&a_flat);
        let shift = sa.len() as i64;
        let b_raw = split_clauses(&b_flat);
        proof {
            lemma_clause_list_props(cb, nb);
        }
        let ghost cl_b = clause_list(cb);
        let mut b_clauses: Vec<Vec<i64>> = Vec::new();
        let nbc = b_raw.len();
        for j in 0..nbc
            invariant
                nbc == b_raw@.len(),
                vecs_view(b_raw@) == cl_b,
                cl_b == clause_list(cb),
                shift == na,
                na + nb <= i64::MAX,
                forall|i: int|
                    0 <= i < cl_b.len() ==> #[trigger] cl_b[i].len() > 0 && clause_lits_ok(cl_b[i], nb),
                vecs_view(b_clauses@) == shift_clauses(cl_b.take(j as int), na as int),
        {
            assert(b_raw@[j as int]@ == cl_b[j as int]);
            assert(clause_lits_ok(cl_b[j as int], nb));
            let shifted = shift_clause(&b_raw[j], shift, Ghost(nb));
            let ghost old_b = b_clauses@;
            b_clauses.push(shifted);
            assert(vecs_view(b_clauses@) =~= vecs_view(old_b).push(shifted@));
            assert(shift_clauses(cl_b.take(j + 1), na as int) =~= shift_clauses(cl_b.take(j as int), na as int).push(
                shift_seq(cl_b[j as int], na as int),
            ));
        }
        assert(cl_b.take(nbc as int) =~= cl_b);
        sa.append(&mut sb);
        let ghost CA = vecs_view(a_clauses@);
        let ghost CB = vecs_view(b_clauses@);
        let mut clauses: Vec<i64> = Vec::new();
        let nac = a_clauses.len();
        let nbs = b_clauses.len();
        for i in 0..nac
            invariant
                nac == a_clauses@.len(),
                nbs == b_clauses@.len(),
                CA == vecs_view(a_clauses@),
                CB == vecs_view(b_clauses@),
                clauses@ == flatten(product(CA.take(i as int), CB)),
        {
            for j in 0..nbs
                invariant
                    0 <= i < nac,
                    nac == a_clauses@.len(),
                    nbs == b_clauses@.len(),
                    CA == vecs_view(a_clauses@),
                    CB == vecs_view(b_clauses@),
                    clauses@ == flatten(product(CA.take(i as int), CB)) + flatten(
                        rows(CA[i as int], CB.take(j as int)),
                    ),
            {
                let ghost before = clauses@;
                append_lits(&mut clauses, &a_clauses[i]);
                append_lits(&mut clauses, &b_clauses[j]);
                clauses.push(0);
                proof {
                    assert(a_clauses@[i as int]@ == CA[i as int]);
                    assert(b_clauses@[j as int]@ == CB[j as int]);
                    lemma_rows_step(CA[i as int], CB, j as int);
                    lemma_flatten_push(rows(CA[i as int], CB.take(j as int)), CA[i as int] + CB[j as int]);
                    assert(clauses@ =~= flatten(product(CA.take(i as int), CB)) + flatten(
                        rows(CA[i as int], CB.take(j + 1)),
                    ));
                }
            }
            proof {
                assert(CB.take(nbs as int) =~= CB);
                lemma_flatten_concat(product(CA.take(i as int), CB), rows(CA[i as int], CB));
                lemma_product_step(CA, CB, i as int);
            }
        }
        assert(CA.take(nac as int) =~= CA);
        assert(CB == shift_clauses(clause_list(cb), na as int));
        Boolean { solids: sa, clauses }
    }

    /// Difference `a - b` = `a ∩ ¬b`, where `¬b` is distributed into a DNF by
    /// choosing one negated literal from every clause of `b`. When `b` has no
    /// clause (the empty region), the result is `a` unchanged.
    pub(crate) fn dnf_subtract(a: Self, b: Self) -> (r: Self)
        requires
            a.solids_view().len() + b.solids_view().len() <= i64::MAX,
            lits_in_range(b.clauses_view(), b.solids_view().len()),
        ensures
            r.solids_view() == (if clause_list(b.clauses_view()).len() == 0 {
                a.solids_view()
            } else {
                a.solids_view() + b.solids_view()
            }),
            r.clauses_view() == subtract_clauses(a.clauses_view(), a.solids_view().len(), b.clauses_view()),
    {
        let ghost nb = b.solids_view().len();
        let ghost cb = b.clauses_view();
        let Boolean { solids: sb, clauses: b_flat } = b;
        let b_clauses = split_clauses(&b_flat);
        if b_clauses.len() == 0 {
            return a;
        }
        proof {
            lemma_clause_list_props(cb, nb);
        }
        let ghost CLB = clause_list(cb);
        let mut accum: Vec<Vec<i64>> = Vec::new();
        accum.push(Vec::new());
        proof {
            assert(vecs_view(accum@) =~= seq![Seq::<i64>::empty()]);
            assert(CLB.take(0) =~= Seq::<Seq<i64>>::empty());
        }
        let nbc = b_clauses.len();
        for c in 0..nbc
            invariant
                nbc == b_clauses@.len(),
                vecs_view(b_clauses@) == CLB,
                forall|i: int|
                    0 <= i < CLB.len() ==> #[trigger] CLB[i].len() > 0 && clause_lits_ok(CLB[i], nb),
                vecs_view(accum@) == negation(CLB.take(c as int)),
                nb <= i64::MAX,
        {
            let clause = &b_clauses[c];
            proof {
                assert(clause@ == CLB[c as int]);
                assert(clause_lits_ok(CLB[c as int], nb));
            }
            let ghost acc = vecs_view(accum@);
            let mut next: Vec<Vec<i64>> = Vec::new();
            let np = accum.len();
            for p in 0..np
                invariant
                    np == accum@.len(),
                    acc == vecs_view(accum@),
                    clause_lits_ok(clause@, nb),
                    vecs_view(next@) == extend_negated(acc.take(p as int), clause@),
                    nb <= i64::MAX,
            {
                let nl = clause.len();
                for l in 0..nl
                    invariant
                        0 <= p < np,
                        np == accum@.len(),
                        acc == vecs_view(accum@),
                        nl == clause@.len(),
                        clause_lits_ok(clause@, nb),
                        nb <= i64::MAX,
                        vecs_view(next@) == extend_negated(acc.take(p as int), clause@) + clause@.take(
                            l as int,
                        ).map_values(|x: i64| acc[p as int].push((-x) as i64)),
                {
                    let lit = clause[l];
                    assert(lit != 0 && -nb <= lit <= nb);
                    let mut combined: Vec<i64> = Vec::new();
                    append_lits(&mut combined, &accum[p]);
                    combined.push(-lit);
                    let ghost old_next = next@;
                    next.push(combined);
                    proof {
                        assert(accum@[p as int]@ == acc[p as int]);
                        assert(vecs_view(next@) =~= vecs_view(old_next).push(combined@));
                        assert(clause@.take(l + 1).map_values(|x: i64| acc[p as int].push((-x) as i64))
                            =~= clause@.take(l as int).map_values(|x: i64| acc[p as int].push((-x) as i64)).push(
                            acc[p as int].push((-lit) as i64),
                        ));
                        assert(vecs_view(next@) =~= extend_negated(acc.take(p as int), clause@) + clause@.take(
                            l + 1,
                        ).map_values(|x: i64| acc[p as int].push((-x) as i64)));
                    }
                }
                proof {
                    assert(clause@.take(nl as int) =~= clause@);
                    assert(acc.take(p + 1).drop_last() =~= acc.take(p as int));
                    assert(acc.take(p + 1).last() == acc[p as int]);
                }
            }
            proof {
                assert(acc.take(np as int) =~= acc);
                assert(CLB.take(c + 1).drop_last() =~= CLB.take(c as int));
                assert(CLB.take(c + 1).last() == CLB[c as int]);
            }
            accum = next;
        }
        proof {
            assert(CLB.take(nbc as int) =~= CLB);
            assert forall|i: int| 0 <= i < CLB.len() implies #[trigger] clause_lits_ok(CLB[i], nb) by {}
            lemma_negation_props(CLB, nb);
        }
        let ghost NEG = vecs_view(accum@);
        let mut neg_b_clauses: Vec<i64> = Vec::new();
        let nn = accum.len();
        for k in 0..nn
            invariant
                nn == accum@.len(),
                NEG == vecs_view(accum@),
                neg_b_clauses@ == flatten(NEG.take(k as int)),
        {
            append_lits(&mut neg_b_clauses, &accum[k]);
            neg_b_clauses.push(0);
            proof {
                assert(accum@[k as int]@ == NEG[k as int]);
                assert(NEG.take(k + 1) =~= NEG.take(k as int).push(NEG[k as int]));
                lemma_flatten_push(NEG.take(k as int), NEG[k as int]);
            }
        }
        proof {
            assert(NEG.take(nn as int) =~= NEG);
            assert forall|i: int| 0 <= i < NEG.len() implies #[trigger] clause_lits_ok(NEG[i], nb) by {}
            lemma_flatten_well_formed(NEG, nb);
        }
        let neg_b = Boolean { solids: sb, clauses: neg_b_clauses };
        Self::dnf_intersect(a, neg_b)
    }

    /// Union of two well-formed expressions (the `+` of the expression tree).
    pub fn union(self, other: Self) -> (r: Self)
        requires
            self.well_formed(),
            other.well_formed(),
            self.solids_view().len() + other.solids_view().len() <= i64::MAX,
        ensures
            r.well_formed(),
            r.solids_view() == self.solids_view() + other.solids_view(),
            r.clauses_view() == union_clauses(self.clauses_view(), self.solids_view().len(), other.clauses_view()),
    {
        proof {
            let asg_a = Seq::new(self.solids_view().len(), |i: int| false);
            let asg_b = Seq::new(other.solids_view().len(), |i: int| false);
            lemma_union_semantics(self.clauses_view(), other.clauses_view(), asg_a, asg_b);
        }
        Self::dnf_union(self, other)
    }

    /// Intersection of two well-formed expressions (the `*` of the expression tree).
    pub fn intersect(self, other: Self) -> (r: Self)
        requires
            self.well_formed(),
            other.well_formed(),
            self.solids_view().len() + other.solids_view().len() <= i64::MAX,
        ensures
            r.well_formed(),
            r.solids_view() == self.solids_view() + other.solids_view(),
            r.clauses_view() == intersect_clauses(self.clauses_view(), self.solids_view().len(), other.clauses_view()),
    {
        proof {
            let asg_a = Seq::new(self.solids_view().len(), |i: int| false);
            let asg_b = Seq::new(other.solids_view().len(), |i: int| false);
            lemma_intersect_semantics(self.clauses_view(), other.clauses_view(), asg_a, asg_b);
        }
        Self::dnf_intersect(self, other)
    }

    /// Difference of two well-formed expressions (the `-` of the expression tree).
    pub fn subtract(self, other: Self) -> (r: Self)
        requires
            self.well_formed(),
            other.well_formed(),
            self.solids_view().len() + other.solids_view().len() <= i64::MAX,
        ensures
            r.well_formed(),
            r.solids_view() == (if clause_list(other.clauses_view()).len() == 0 {
                self.solids_view()
            } else {
                self.solids_view() + other.solids_view()
            }),
            r.clauses_view() == subtract_clauses(self.clauses_view(), self.solids_view().len(), other.clauses_view()),
    {
        proof {
            let asg_a = Seq::new(self.solids_view().len(), |i: int| false);
            let asg_b = Seq::new(other.solids_view().len(), |i: int| false);
            lemma_subtract_semantics(self.clauses_view(), other.clauses_view(), asg_a, asg_b);
        }
        Self::dnf_subtract(self, other)
    }

    /// Keep the single piece of an evaluation, or report how many pieces there were.
    pub fn select_one(pieces: Vec<S>) -> (r: Result<S, Error>)
        ensures
            pieces@.len() == 1 ==> r == Ok::<S, Error>(pieces@[0]),
            pieces@.len() != 1 ==> r == Err::<S, Error>(Error::OneFailed(pieces@.len() as usize)),
    {
        let mut pieces = pieces;
        if pieces.len() == 1 {
            match pieces.pop() {
                Some(s) => Ok(s),
                None => Err(Error::OneFailed(0)),
            }
        } else {
            Err(Error::OneFailed(pieces.len()))
        }
    }
}

/// The kernel that evaluates an expression into its solid pieces.
pub trait BooleanKernel: Sized {
    /// `r` is a result that evaluating `expression` may give: the pieces of
    /// the region it denotes, or the kernel's error. Each kernel says what
    /// its evaluation yields.
    spec fn evaluates_to(expression: Boolean<Self>, r: Result<Vec<Self>, Error>) -> bool;

    /// Evaluate all cells selected by the expression in one pass.
    fn boolean_build(expression: &Boolean<Self>) -> (r: Result<Vec<Self>, Error>)
        ensures
            Self::evaluates_to(*expression, r),
    ;
}

/// What `build` makes of an evaluation: the single piece, `OneFailed(n)` for
/// any other number `n` of pieces, or the evaluation's error unchanged.
pub open spec fn select_spec<S>(v: Result<Vec<S>, Error>) -> Result<S, Error> {
    match v {
        Ok(p) => if p@.len() == 1 {
            Ok(p@[0])
        } else {
            Err(Error::OneFailed(p@.len() as usize))
        },
        Err(e) => Err(e),
    }
}

impl<S: BooleanKernel> Boolean<S> {
    /// The expression has no solid or no clause, so there is nothing to build.
    pub open spec fn is_empty_expression(&self) -> bool {
        self.solids_view().len() == 0 || self.clauses_view().len() == 0
    }

    /// Evaluate the expression into all of its pieces. An expression without
    /// solids or without clauses is refused with `OneFailed(0)` before the
    /// kernel is consulted; any other expression is handed to the kernel as
    /// it is, and the kernel's result is returned unchanged.
    pub fn build_vec(self) -> (r: Result<Vec<S>, Error>)
        ensures
            self.is_empty_expression() ==> r == Err::<Vec<S>, Error>(Error::OneFailed(0)),
            !self.is_empty_expression() ==> S::evaluates_to(self, r),
    {
        if self.solids.len() == 0 || self.clauses.len() == 0 {
            return Err(Error::OneFailed(0));
        }
        S::boolean_build(&self)
    }

    /// Evaluate the expression into exactly one solid; any other piece count
    /// `n` is reported as `OneFailed(n)`, and an evaluation error is passed on.
    pub fn build(self) -> (r: Result<S, Error>)
        ensures
            self.is_empty_expression() ==> r == Err::<S, Error>(Error::OneFailed(0)),
            !self.is_empty_expression() ==> exists|v: Result<Vec<S>, Error>|
                #[trigger] S::evaluates_to(self, v) && r == select_spec(v),
    {
        let ghost e = self;
        let v = self.build_vec();
        let ghost gv = v;
        let r = match v {
            Ok(p) => Self::select_one(p),
            Err(err) => Err(err),
        };
        proof {
            if !e.is_empty_expression() {
                assert(S::evaluates_to(e, gv) && r == select_spec(gv));
            }
        }
        r
    }
}

impl<S> Default for Boolean<S> {
    /// The empty expression: the identity of union.
    fn default() -> (r: Self)
        ensures
            r.solids_view().len() == 0,
            r.clauses_view().len() == 0,
    {
        Boolean { solids: Vec::new(), clauses: Vec::new() }
    }
}

} // verus!

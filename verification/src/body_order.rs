//! Body-order marker of STEP exchanges.
//!
//! A STEP payload does not say whether each body was a solid or an
//! independent shell, nor their interleaving. The writer inserts a comment
//! `/*CADRUM_BODY_ORDER:<D|H>...*/` just before the last `END-ISO-10303-21;`
//! footer; the reader finds the last such comment and restores the order.
use vstd::prelude::*;

use crate::bytes::{
    find_first_from, find_last, first_occurrence_from, is_first_occurrence_from, is_last_occurrence,
    last_occurrence_of, lemma_first_occurrence_unique, lemma_last_occurrence_unique, occurs_at,
};
use crate::error::Error;

verus! {

/// Kind of one exchanged body.
#[derive(Debug, Clone, Copy, PartialEq, Eq, Structural)]
pub enum BodyKind {
    Solid,
    Shell,
}

/// One exact body: a solid, or an independent shell that is never promoted.
pub enum BrepBody<D, H> {
    Solid(D),
    Shell(H),
}

impl<D, H> BrepBody<D, H> {
    /// The kind of this body.
    pub open spec fn spec_kind(&self) -> BodyKind {
        match self {
            BrepBody::Solid(_) => BodyKind::Solid,
            BrepBody::Shell(_) => BodyKind::Shell,
        }
    }

    /// The kind of this body.
    pub fn kind(&self) -> (k: BodyKind)
        ensures
            k == self.spec_kind(),
    {
        match self {
            BrepBody::Solid(_) => BodyKind::Solid,
            BrepBody::Shell(_) => BodyKind::Shell,
        }
    }
}

/// `/*CADRUM_BODY_ORDER:`
pub open spec fn body_order_prefix() -> Seq<u8> {
    seq![47u8, 42, 67, 65, 68, 82, 85, 77, 95, 66, 79, 68, 89, 95, 79, 82, 68, 69, 82, 58]
}

/// `*/`
pub open spec fn body_order_suffix() -> Seq<u8> {
    seq![42u8, 47]
}

/// `END-ISO-10303-21;`
pub open spec fn step_footer() -> Seq<u8> {
    seq![69u8, 78, 68, 45, 73, 83, 79, 45, 49, 48, 51, 48, 51, 45, 50, 49, 59]
}

fn body_order_prefix_bytes() -> (r: Vec<u8>)
    ensures
        r@ == body_order_prefix(),
{
    let r = vec![47u8, 42, 67, 65, 68, 82, 85, 77, 95, 66, 79, 68, 89, 95, 79, 82, 68, 69, 82, 58];
    assert(r@ =~= body_order_prefix());
    r
}

fn body_order_suffix_bytes() -> (r: Vec<u8>)
    ensures
        r@ == body_order_suffix(),
{
    let r = vec![42u8, 47];
    assert(r@ =~= body_order_suffix());
    r
}

fn step_footer_bytes() -> (r: Vec<u8>)
    ensures
        r@ == step_footer(),
{
    let r = vec![69u8, 78, 68, 45, 73, 83, 79, 45, 49, 48, 51, 48, 51, 45, 50, 49, 59];
    assert(r@ =~= step_footer());
    r
}

/// `D` for a solid, `H` for a shell.
pub open spec fn kind_code(k: BodyKind) -> u8 {
    match k {
        BodyKind::Solid => 68u8,
        BodyKind::Shell => 72u8,
    }
}

pub open spec fn decode_kind(b: u8) -> Option<BodyKind> {
    if b == 68 {
        Some(BodyKind::Solid)
    } else if b == 72 {
        Some(BodyKind::Shell)
    } else {
        None
    }
}

/// The kinds spelled by `b`, if every byte is `D` or `H`.
pub open spec fn decode_kinds(b: Seq<u8>) -> Option<Seq<BodyKind>> {
    if forall|k: int| 0 <= k < b.len() ==> #[trigger] decode_kind(b[k]) is Some {
        Some(b.map_values(|x: u8| decode_kind(x).unwrap()))
    } else {
        None
    }
}

/// The body order recorded in a payload: the `D`/`H` run between the last
/// marker prefix and the first `*/` after it.
pub open spec fn body_order_of(s: Seq<u8>) -> Option<Seq<BodyKind>> {
    match last_occurrence_of(s, body_order_prefix()) {
        None => None,
        Some(p) => {
            let start = p + body_order_prefix().len();
            match first_occurrence_from(s, body_order_suffix(), start) {
                None => None,
                Some(q) => decode_kinds(s.subrange(start, q)),
            }
        },
    }
}

/// The marker comment for an order, followed by CR LF.
pub open spec fn body_order_marker(order: Seq<BodyKind>) -> Seq<u8> {
    body_order_prefix() + order.map_values(|k: BodyKind| kind_code(k)) + body_order_suffix()
        + seq![13u8, 10u8]
}

/// The payload with the marker inserted before its last footer, if it has one.
pub open spec fn with_body_order(s: Seq<u8>, order: Seq<BodyKind>) -> Option<Seq<u8>> {
    match last_occurrence_of(s, step_footer()) {
        None => None,
        Some(f) => Some(s.subrange(0, f) + body_order_marker(order) + s.subrange(f, s.len() as int)),
    }
}

/// Read the body order recorded in a STEP payload.
pub fn read_body_order(payload: &[u8]) -> (r: Option<Vec<BodyKind>>)
    ensures
        match r {
            Some(v) => body_order_of(payload@) == Some(v@),
            None => body_order_of(payload@) is None,
        },
{
    let prefix = body_order_prefix_bytes();
    let suffix = body_order_suffix_bytes();
    let p = match find_last(payload, prefix.as_slice()) {
        Some(p) => p,
        None => return None,
    };
    assert(occurs_at(payload@, prefix@, p as int));
    assert(p + prefix@.len() <= payload@.len());
    assert(payload@.len() == payload.len());
    assert(prefix@.len() == prefix.len());
    let start = p + prefix.len();
    let end = match find_first_from(payload, suffix.as_slice(), start) {
        Some(q) => q,
        None => return None,
    };
    let ghost body = payload@.subrange(start as int, end as int);
    assert(body_order_of(payload@) == decode_kinds(body));
    let mut out: Vec<BodyKind> = Vec::new();
    for k in start..end
        invariant
            start <= end <= payload@.len(),
            body == payload@.subrange(start as int, end as int),
            body_order_of(payload@) == decode_kinds(body),
            out@ == body.take(k - start).map_values(|x: u8| decode_kind(x).unwrap()),
            forall|m: int| 0 <= m < k - start ==> #[trigger] decode_kind(body[m]) is Some,
    {
        let b = payload[k];
        assert(body[k - start] == b);
        if b == 68u8 {
            out.push(BodyKind::Solid);
        } else if b == 72u8 {
            out.push(BodyKind::Shell);
        } else {
            assert(decode_kind(body[k - start]) is None);
            assert(decode_kinds(body) is None);
            assert(body_order_of(payload@) == decode_kinds(body));
            return None;
        }
        assert(body.take(k + 1 - start) =~= body.take(k - start).push(b));
        assert(out@ =~= body.take(k + 1 - start).map_values(|x: u8| decode_kind(x).unwrap()));
    }
    assert(body.take(end - start) =~= body);
    Some(out)
}

/// Insert the marker for `order` before the last STEP footer of `payload`;
/// a payload without a footer is refused and left unchanged.
pub fn insert_body_order(payload: &mut Vec<u8>, order: &[BodyKind]) -> (r: Result<(), Error>)
    ensures
        match with_body_order(old(payload)@, order@) {
            None => r == Err::<(), Error>(Error::StepWriteFailed) && final(payload)@ == old(payload)@,
            Some(n) => r is Ok && final(payload)@ == n,
        },
{
    let footer_bytes = step_footer_bytes();
    let footer = match find_last(payload.as_slice(), footer_bytes.as_slice()) {
        Some(f) => f,
        None => return Err(Error::StepWriteFailed),
    };
    let ghost s = payload@;
    let mut out: Vec<u8> = Vec::new();
    for k in 0..footer
        invariant
            footer <= s.len(),
            payload@ == s,
            out@ == s.take(k as int),
    {
        out.push(payload[k]);
        assert(s.take(k + 1) =~= s.take(k as int).push(s[k as int]));
    }
    let prefix = body_order_prefix_bytes();
    for k in 0..prefix.len()
        invariant
            out@ == s.take(footer as int) + prefix@.take(k as int),
    {
        out.push(prefix[k]);
        assert(prefix@.take(k + 1) =~= prefix@.take(k as int).push(prefix@[k as int]));
        assert(s.take(footer as int) + prefix@.take(k + 1) =~= (s.take(footer as int) + prefix@.take(k as int)).push(prefix@[k as int]));
    }
    assert(prefix@.take(prefix@.len() as int) =~= prefix@);
    let ghost codes = order@.map_values(|k: BodyKind| kind_code(k));
    for k in 0..order.len()
        invariant
            codes == order@.map_values(|k: BodyKind| kind_code(k)),
            out@ == s.take(footer as int) + body_order_prefix() + codes.take(k as int),
    {
        let c: u8 = match order[k] {
            BodyKind::Solid => 68u8,
            BodyKind::Shell => 72u8,
        };
        out.push(c);
        assert(codes.take(k + 1) =~= codes.take(k as int).push(c));
        assert(s.take(footer as int) + body_order_prefix() + codes.take(k + 1) =~= (s.take(footer as int) + body_order_prefix() + codes.take(k as int)).push(c));
    }
    assert(codes.take(order@.len() as int) =~= codes);
    out.push(42u8);
    out.push(47u8);
    out.push(13u8);
    out.push(10u8);
    assert(out@ =~= s.take(footer as int) + body_order_marker(order@));
    for k in footer..payload.len()
        invariant
            footer <= k <= s.len(),
            payload@ == s,
            out@ == s.take(footer as int) + body_order_marker(order@) + s.subrange(footer as int, k as int),
    {
        out.push(payload[k]);
        assert(s.subrange(footer as int, k + 1) =~= s.subrange(footer as int, k as int).push(s[k as int]));
        assert(s.take(footer as int) + body_order_marker(order@) + s.subrange(footer as int, k + 1) =~= (s.take(footer as int) + body_order_marker(order@) + s.subrange(footer as int, k as int)).push(s[k as int]));
    }
    assert(s.take(footer as int) =~= s.subrange(0, footer as int));
    *payload = out;
    Ok(())
}

proof fn lemma_prefix_bytes()
    ensures
        body_order_prefix().len() == 20,
        body_order_prefix()[0] == 47,
        body_order_prefix()[1] == 42,
        forall|j: int| 1 <= j < 20 ==> #[trigger] body_order_prefix()[j] != 47,
{
    assert forall|j: int| 1 <= j < 20 implies #[trigger] body_order_prefix()[j] != 47 by {
        if j == 1 {
            assert(body_order_prefix()[1] == 42);
        } else if j == 2 {
            assert(body_order_prefix()[2] == 67);
        } else if j == 3 {
            assert(body_order_prefix()[3] == 65);
        } else if j == 4 {
            assert(body_order_prefix()[4] == 68);
        } else if j == 5 {
            assert(body_order_prefix()[5] == 82);
        } else if j == 6 {
            assert(body_order_prefix()[6] == 85);
        } else if j == 7 {
            assert(body_order_prefix()[7] == 77);
        } else if j == 8 {
            assert(body_order_prefix()[8] == 95);
        } else if j == 9 {
            assert(body_order_prefix()[9] == 66);
        } else if j == 10 {
            assert(body_order_prefix()[10] == 79);
        } else if j == 11 {
            assert(body_order_prefix()[11] == 68);
        } else if j == 12 {
            assert(body_order_prefix()[12] == 89);
        } else if j == 13 {
            assert(body_order_prefix()[13] == 95);
        } else if j == 14 {
            assert(body_order_prefix()[14] == 79);
        } else if j == 15 {
            assert(body_order_prefix()[15] == 82);
        } else if j == 16 {
            assert(body_order_prefix()[16] == 68);
        } else if j == 17 {
            assert(body_order_prefix()[17] == 69);
        } else if j == 18 {
            assert(body_order_prefix()[18] == 82);
        } else if j == 19 {
            assert(body_order_prefix()[19] == 58);
        }
    }
}

/// What the writer records, the reader finds: after inserting the marker for
/// `order` into a payload that has a STEP footer and no marker prefix from
/// that footer on, the recorded body order is `order`.
pub proof fn lemma_body_order_round_trip(s: Seq<u8>, order: Seq<BodyKind>)
    requires
        with_body_order(s, order) is Some,
        forall|q: int|
            last_occurrence_of(s, step_footer()).unwrap() <= q ==> !#[trigger] occurs_at(
                s,
                body_order_prefix(),
                q,
            ),
    ensures
        body_order_of(with_body_order(s, order).unwrap()) == Some(order),
{
    lemma_prefix_bytes();
    let f = last_occurrence_of(s, step_footer()).unwrap();
    let c = choose|p: int| is_last_occurrence(s, step_footer(), p);
    assert(f == c);
    assert(0 <= f <= s.len());
    let P = body_order_prefix();
    let K = order.map_values(|k: BodyKind| kind_code(k));
    let M = body_order_marker(order);
    let head = s.subrange(0, f);
    let tail = s.subrange(f, s.len() as int);
    let t = head + M + tail;
    assert(t == with_body_order(s, order).unwrap());
    let pl = P.len() as int;
    let kl = K.len() as int;
    let ml = M.len() as int;
    assert(ml == pl + kl + 4);
    assert forall|j: int| 0 <= j < ml implies #[trigger] t[f + j] == M[j] by {}
    assert forall|j: int| 0 <= j < pl implies #[trigger] M[j] == P[j] by {}
    assert forall|j: int| 0 <= j < kl implies #[trigger] M[pl + j] == K[j] by {}
    assert(M[pl + kl] == 42u8);
    assert(M[pl + kl + 1] == 47u8);
    assert(M[pl + kl + 2] == 13u8);
    assert(M[pl + kl + 3] == 10u8);
    // the marker prefix sits at f
    assert(occurs_at(t, P, f)) by {
        assert forall|i: int| 0 <= i < pl implies #[trigger] t[f + i] == P[i] by {
            assert(t[f + i] == M[i]);
        }
    }
    // and nowhere after it
    assert forall|q: int| f < q implies !#[trigger] occurs_at(t, P, q) by {
        if occurs_at(t, P, q) {
            assert(t[q + 0] == P[0]);
            assert(t[q + 1] == P[1]);
            if q < f + ml {
                let j = q - f;
                assert(t[f + j] == M[j]);
                if j < pl {
                    assert(M[j] == P[j]);
                } else if j < pl + kl {
                    assert(M[pl + (j - pl)] == K[j - pl]);
                    assert(K[j - pl] == kind_code(order[j - pl]));
                } else if j == pl + kl + 1 {
                    assert(t[f + (j + 1)] == M[j + 1]);
                } else {
                }
            } else {
                let q0 = q - ml;
                assert(f <= q0);
                assert(occurs_at(s, P, q0)) by {
                    assert forall|i: int| 0 <= i < pl implies #[trigger] s[q0 + i] == P[i] by {
                        assert(t[q + i] == P[i]);
                        assert(t[q + i] == tail[q + i - f - ml]);
                    }
                }
            }
        }
    }
    assert(is_last_occurrence(t, P, f));
    lemma_last_occurrence_unique(t, P, f);
    let start = f + pl;
    let q0 = start + kl;
    assert(occurs_at(t, body_order_suffix(), q0)) by {
        assert(t[f + (pl + kl)] == M[pl + kl]);
        assert(t[f + (pl + kl + 1)] == M[pl + kl + 1]);
        assert forall|i: int| 0 <= i < 2 implies #[trigger] t[q0 + i] == body_order_suffix()[i] by {
            if i == 0 {
                assert(t[q0 + i] == t[f + (pl + kl)]);
            } else {
                assert(t[q0 + i] == t[f + (pl + kl + 1)]);
            }
        }
    }
    assert forall|r: int| start <= r < q0 implies !#[trigger] occurs_at(t, body_order_suffix(), r) by {
        let j = r - start;
        assert(t[f + (pl + j)] == M[pl + j]);
        assert(K[j] == kind_code(order[j]));
        assert(t[r + 0] == t[f + (pl + j)]);
    }
    assert(is_first_occurrence_from(t, body_order_suffix(), start, q0));
    lemma_first_occurrence_unique(t, body_order_suffix(), start, q0);
    let body = t.subrange(start, q0);
    assert forall|j: int| 0 <= j < kl implies #[trigger] body[j] == K[j] by {
        assert(t[f + (pl + j)] == M[pl + j]);
    }
    assert(body =~= K);
    assert forall|k: int| 0 <= k < body.len() implies #[trigger] decode_kind(body[k]) is Some by {
        assert(body[k] == kind_code(order[k]));
    }
    let decoded = body.map_values(|x: u8| decode_kind(x).unwrap());
    assert forall|k: int| 0 <= k < order.len() implies #[trigger] decoded[k] == order[k] by {
        assert(body[k] == kind_code(order[k]));
    }
    assert(decoded =~= order);
}

// ==================== Restoring the order ====================

/// The bodies of kind `k`, in their input order.
pub open spec fn bodies_of_kind<D, H>(b: Seq<BrepBody<D, H>>, k: BodyKind) -> Seq<BrepBody<D, H>>
    decreases b.len(),
{
    if b.len() == 0 {
        Seq::empty()
    } else {
        bodies_of_kind(b.drop_last(), k) + (if b.last().spec_kind() == k {
            seq![b.last()]
        } else {
            Seq::empty()
        })
    }
}

/// How many entries of `order` are `k`.
pub open spec fn count_kind(order: Seq<BodyKind>, k: BodyKind) -> nat
    decreases order.len(),
{
    if order.len() == 0 {
        0
    } else {
        count_kind(order.drop_last(), k) + (if order.last() == k {
            1nat
        } else {
            0nat
        })
    }
}

/// The recorded order fits the decoded bodies: same length and the same
/// number of solids and of shells.
pub open spec fn body_order_applicable<D, H>(b: Seq<BrepBody<D, H>>, order: Seq<BodyKind>) -> bool {
    &&& b.len() == order.len()
    &&& count_kind(order, BodyKind::Solid) == bodies_of_kind(b, BodyKind::Solid).len()
    &&& count_kind(order, BodyKind::Shell) == bodies_of_kind(b, BodyKind::Shell).len()
}

/// The body placed at position `m` when `order` is applied: the next unused
/// body of the kind that `order` asks for.
pub open spec fn ordered_body<D, H>(b: Seq<BrepBody<D, H>>, order: Seq<BodyKind>, m: int) -> BrepBody<
    D,
    H,
> {
    bodies_of_kind(b, order[m])[count_kind(order.take(m), order[m]) as int]
}

proof fn lemma_of_kind_prepend<D, H>(x: BrepBody<D, H>, s: Seq<BrepBody<D, H>>, k: BodyKind)
    ensures
        bodies_of_kind(seq![x] + s, k) == (if x.spec_kind() == k {
            seq![x]
        } else {
            Seq::<BrepBody<D, H>>::empty()
        }) + bodies_of_kind(s, k),
    decreases s.len(),
{
    let xs = seq![x] + s;
    let h = if x.spec_kind() == k {
        seq![x]
    } else {
        Seq::<BrepBody<D, H>>::empty()
    };
    if s.len() == 0 {
        assert(xs =~= seq![x]);
        assert(xs.drop_last() =~= Seq::<BrepBody<D, H>>::empty());
        assert(xs.last() == x);
        assert(bodies_of_kind(xs.drop_last(), k) =~= Seq::<BrepBody<D, H>>::empty());
        assert(bodies_of_kind(xs, k) == bodies_of_kind(xs.drop_last(), k) + h);
        assert(bodies_of_kind(s, k) =~= Seq::<BrepBody<D, H>>::empty());
        assert(bodies_of_kind(xs, k) =~= h + bodies_of_kind(s, k));
    } else {
        lemma_of_kind_prepend(x, s.drop_last(), k);
        assert(xs.drop_last() =~= seq![x] + s.drop_last());
        assert(xs.last() == s.last());
        let t = if s.last().spec_kind() == k {
            seq![s.last()]
        } else {
            Seq::<BrepBody<D, H>>::empty()
        };
        assert(bodies_of_kind(xs, k) == bodies_of_kind(xs.drop_last(), k) + t);
        assert(bodies_of_kind(s, k) == bodies_of_kind(s.drop_last(), k) + t);
        assert(h + bodies_of_kind(s.drop_last(), k) + t =~= h + (bodies_of_kind(s.drop_last(), k) + t));
    }
}

proof fn lemma_of_kind_all<D, H>(b: Seq<BrepBody<D, H>>, k: BodyKind)
    ensures
        forall|i: int|
            0 <= i < bodies_of_kind(b, k).len() ==> (#[trigger] bodies_of_kind(b, k)[i]).spec_kind() == k,
    decreases b.len(),
{
    if b.len() > 0 {
        lemma_of_kind_all(b.drop_last(), k);
        let l = bodies_of_kind(b.drop_last(), k);
        let o = bodies_of_kind(b, k);
        assert forall|i: int| 0 <= i < o.len() implies (#[trigger] o[i]).spec_kind() == k by {
            if i < l.len() {
                assert(o[i] == l[i]);
            }
        }
    }
}

proof fn lemma_count_prefix(order: Seq<BodyKind>, j: int, k: BodyKind)
    requires
        0 <= j <= order.len(),
    ensures
        count_kind(order.take(j), k) <= count_kind(order, k),
    decreases order.len() - j,
{
    if j < order.len() {
        lemma_count_prefix(order, j + 1, k);
        assert(order.take(j + 1).drop_last() =~= order.take(j));
    } else {
        assert(order.take(j) =~= order);
    }
}

proof fn lemma_count_step(order: Seq<BodyKind>, m: int, k: BodyKind)
    requires
        0 <= m < order.len(),
    ensures
        count_kind(order.take(m + 1), k) == count_kind(order.take(m), k) + (if order[m] == k {
            1nat
        } else {
            0nat
        }),
{
    assert(order.take(m + 1).drop_last() =~= order.take(m));
    assert(order.take(m + 1).last() == order[m]);
}

/// Whether the recorded order fits the decoded bodies.
pub fn can_apply_body_order<D, H>(bodies: &[BrepBody<D, H>], order: &[BodyKind]) -> (r: bool)
    ensures
        r == body_order_applicable(bodies@, order@),
{
    if bodies.len() != order.len() {
        return false;
    }
    let mut body_solids: usize = 0;
    let mut body_shells: usize = 0;
    let mut order_solids: usize = 0;
    let mut order_shells: usize = 0;
    let n = bodies.len();
    for i in 0..n
        invariant
            n == bodies@.len(),
            n == order@.len(),
            body_solids == bodies_of_kind(bodies@.take(i as int), BodyKind::Solid).len(),
            body_shells == bodies_of_kind(bodies@.take(i as int), BodyKind::Shell).len(),
            order_solids == count_kind(order@.take(i as int), BodyKind::Solid),
            order_shells == count_kind(order@.take(i as int), BodyKind::Shell),
            body_solids + body_shells == i,
            order_solids + order_shells == i,
    {
        proof {
            assert(bodies@.take(i + 1).drop_last() =~= bodies@.take(i as int));
            assert(bodies@.take(i + 1).last() == bodies@[i as int]);
            lemma_count_step(order@, i as int, BodyKind::Solid);
            lemma_count_step(order@, i as int, BodyKind::Shell);
        }
        match bodies[i] {
            BrepBody::Solid(_) => body_solids = body_solids + 1,
            BrepBody::Shell(_) => body_shells = body_shells + 1,
        }
        match order[i] {
            BodyKind::Solid => order_solids = order_solids + 1,
            BodyKind::Shell => order_shells = order_shells + 1,
        }
    }
    assert(bodies@.take(n as int) =~= bodies@);
    assert(order@.take(n as int) =~= order@);
    body_solids == order_solids && body_shells == order_shells
}

/// Rearrange decoded bodies into the recorded order: position `m` receives
/// the next unused body of kind `order[m]`. `None` when some kind runs out.
pub fn apply_body_order<D, H>(bodies: Vec<BrepBody<D, H>>, order: &[BodyKind]) -> (r: Option<
    Vec<BrepBody<D, H>>,
>)
    ensures
        r is Some <==> (count_kind(order@, BodyKind::Solid) <= bodies_of_kind(
            bodies@,
            BodyKind::Solid,
        ).len() && count_kind(order@, BodyKind::Shell) <= bodies_of_kind(
            bodies@,
            BodyKind::Shell,
        ).len()),
        r matches Some(v) ==> v@.len() == order@.len() && forall|m: int|
            0 <= m < order@.len() ==> v@[m] == #[trigger] ordered_body(bodies@, order@, m),
{
    let ghost b = bodies@;
    let mut rest = bodies;
    let mut solids: std::collections::VecDeque<BrepBody<D, H>> = std::collections::VecDeque::new();
    let mut shells: std::collections::VecDeque<BrepBody<D, H>> = std::collections::VecDeque::new();
    assert(b.subrange(b.len() as int, b.len() as int) =~= Seq::<BrepBody<D, H>>::empty());
    while rest.len() > 0
        invariant
            rest@ == b.take(rest@.len() as int),
            rest@.len() <= b.len(),
            solids@ == bodies_of_kind(b.subrange(rest@.len() as int, b.len() as int), BodyKind::Solid),
            shells@ == bodies_of_kind(b.subrange(rest@.len() as int, b.len() as int), BodyKind::Shell),
        decreases rest@.len(),
    {
        let ghost i = rest@.len() - 1;
        let x = rest.pop().unwrap();
        proof {
            assert(x == b[i]);
            assert(b.subrange(i, b.len() as int) =~= seq![x] + b.subrange(i + 1, b.len() as int));
            lemma_of_kind_prepend(x, b.subrange(i + 1, b.len() as int), BodyKind::Solid);
            lemma_of_kind_prepend(x, b.subrange(i + 1, b.len() as int), BodyKind::Shell);
            assert(b.take(i) =~= b.take(i + 1).subrange(0, i));
        }
        match x {
            BrepBody::Solid(_) => solids.push_front(x),
            BrepBody::Shell(_) => shells.push_front(x),
        }
    }
    assert(b.subrange(0, b.len() as int) =~= b);
    let ghost all_solids = solids@;
    let ghost all_shells = shells@;
    let mut out: Vec<BrepBody<D, H>> = Vec::new();
    let n = order.len();
    assert(order@.take(0) =~= Seq::<BodyKind>::empty());
    for k in 0..n
        invariant
            n == order@.len(),
            b == bodies@,
            all_solids == bodies_of_kind(b, BodyKind::Solid),
            all_shells == bodies_of_kind(b, BodyKind::Shell),
            count_kind(order@.take(k as int), BodyKind::Solid) <= all_solids.len(),
            count_kind(order@.take(k as int), BodyKind::Shell) <= all_shells.len(),
            solids@ == all_solids.skip(count_kind(order@.take(k as int), BodyKind::Solid) as int),
            shells@ == all_shells.skip(count_kind(order@.take(k as int), BodyKind::Shell) as int),
            out@.len() == k,
            forall|m: int| 0 <= m < k ==> out@[m] == #[trigger] ordered_body(b, order@, m),
    {
        proof {
            lemma_count_step(order@, k as int, BodyKind::Solid);
            lemma_count_step(order@, k as int, BodyKind::Shell);
            lemma_count_prefix(order@, k + 1, BodyKind::Solid);
            lemma_count_prefix(order@, k + 1, BodyKind::Shell);
        }
        let ghost cs = count_kind(order@.take(k as int), BodyKind::Solid) as int;
        let ghost ch = count_kind(order@.take(k as int), BodyKind::Shell) as int;
        match order[k] {
            BodyKind::Solid => {
                match solids.pop_front() {
                    Some(x) => {
                        assert(x == all_solids[cs]);
                        out.push(x);
                        assert(all_solids.skip(cs).subrange(1, all_solids.skip(cs).len() as int) =~= all_solids.skip(cs + 1));
                    },
                    None => {
                        assert(all_solids.skip(cs).len() == all_solids.len() - cs);
                        return None;
                    },
                }
            },
            BodyKind::Shell => {
                match shells.pop_front() {
                    Some(x) => {
                        assert(x == all_shells[ch]);
                        out.push(x);
                        assert(all_shells.skip(ch).subrange(1, all_shells.skip(ch).len() as int) =~= all_shells.skip(ch + 1));
                    },
                    None => {
                        assert(all_shells.skip(ch).len() == all_shells.len() - ch);
                        return None;
                    },
                }
            },
        }
    }
    assert(order@.take(n as int) =~= order@);
    Some(out)
}

/// Applying a recorded order that fits puts a body of the recorded kind at
/// every position, and keeps the relative order of the solids and of the shells.
pub proof fn lemma_applied_order_kinds<D, H>(b: Seq<BrepBody<D, H>>, order: Seq<BodyKind>, m: int)
    requires
        body_order_applicable(b, order),
        0 <= m < order.len(),
    ensures
        ordered_body(b, order, m).spec_kind() == order[m],
        count_kind(order.take(m), order[m]) < bodies_of_kind(b, order[m]).len(),
{
    lemma_count_step(order, m, order[m]);
    lemma_count_prefix(order, m + 1, order[m]);
    lemma_of_kind_all(b, order[m]);
}

/// The bodies after a STEP read, in the recorded order when the payload's
/// marker fits them, else in decoding order.
pub fn reorder_step_bodies<D, H>(bodies: Vec<BrepBody<D, H>>, payload: &[u8]) -> (r: Result<
    Vec<BrepBody<D, H>>,
    Error,
>)
    ensures
        match body_order_of(payload@) {
            Some(order) => if body_order_applicable(bodies@, order) {
                r matches Ok(v) && v@.len() == order.len() && forall|m: int|
                    0 <= m < order.len() ==> v@[m] == #[trigger] ordered_body(bodies@, order, m)
            } else {
                r == Ok::<Vec<BrepBody<D, H>>, Error>(bodies)
            },
            None => r == Ok::<Vec<BrepBody<D, H>>, Error>(bodies),
        },
{
    match read_body_order(payload) {
        Some(order) => {
            if can_apply_body_order(bodies.as_slice(), order.as_slice()) {
                match apply_body_order(bodies, order.as_slice()) {
                    Some(v) => Ok(v),
                    None => Err(Error::StepReadFailed),
                }
            } else {
                Ok(bodies)
            }
        },
        None => Ok(bodies),
    }
}

/// Keep only the independent shells; a payload with none is refused.
pub fn shells_only<D, H>(bodies: Vec<BrepBody<D, H>>) -> (r: Result<Vec<BrepBody<D, H>>, Error>)
    ensures
        match r {
            Ok(v) => v@ == bodies_of_kind(bodies@, BodyKind::Shell) && v@.len() > 0,
            Err(e) => bodies_of_kind(bodies@, BodyKind::Shell).len() == 0 && e == Error::StepReadFailed,
        },
{
    let ghost b = bodies@;
    let mut rest = bodies;
    let mut shells: std::collections::VecDeque<BrepBody<D, H>> = std::collections::VecDeque::new();
    assert(b.subrange(b.len() as int, b.len() as int) =~= Seq::<BrepBody<D, H>>::empty());
    while rest.len() > 0
        invariant
            rest@ == b.take(rest@.len() as int),
            rest@.len() <= b.len(),
            shells@ == bodies_of_kind(b.subrange(rest@.len() as int, b.len() as int), BodyKind::Shell),
        decreases rest@.len(),
    {
        let ghost i = rest@.len() - 1;
        let x = rest.pop().unwrap();
        proof {
            assert(x == b[i]);
            assert(b.subrange(i, b.len() as int) =~= seq![x] + b.subrange(i + 1, b.len() as int));
            lemma_of_kind_prepend(x, b.subrange(i + 1, b.len() as int), BodyKind::Shell);
            assert(b.take(i) =~= b.take(i + 1).subrange(0, i));
        }
        match x {
            BrepBody::Solid(_) => {},
            BrepBody::Shell(_) => shells.push_front(x),
        }
    }
    assert(b.subrange(0, b.len() as int) =~= b);
    let mut out: Vec<BrepBody<D, H>> = Vec::new();
    let ghost all = shells@;
    while shells.len() > 0
        invariant
            out@ + shells@ == all,
        decreases shells@.len(),
    {
        let x = shells.pop_front().unwrap();
        out.push(x);
    }
    assert(out@ =~= all);
    if out.len() == 0 {
        return Err(Error::StepReadFailed);
    }
    Ok(out)
}

} // verus!

//! The Burmester-Desmedt group key agreement: each of `n` parties publishes
//! `z_i = g^{r_i}`, then `x_i = (z_{i+1} / z_{i-1})^{r_i}`, and every party
//! reconstructs the same key
//! `K_i = z_{i-1}^{n r_i} * prod_j x_{(i+j) mod n}^{n-1-j}`.
//!
//! The proof that all keys agree is carried out on the ghost exponents: each
//! key's exponent is, mod the group order, the sum of all adjacent products
//! `r_k * r_{k+1}` of the round-one exponents, independent of the party.

use crate::group::{
    basepoint, group_order, point_add, point_mul, point_sub, scalar_from_u64, scalar_random,
    GroupElement, GroupScalar,
};
use crate::utility::{find_prev_idx, get_adjacent_elements, next_idx_spec, prev_idx_spec};
use vstd::arithmetic::div_mod::{
    lemma_add_mod_noop, lemma_mod_add_multiples_vanish, lemma_mod_bound, lemma_mod_self_0,
    lemma_mul_mod_noop_left, lemma_mul_mod_noop_right, lemma_small_mod,
};
use vstd::prelude::*;

verus! {

// ---------------------------------------------------------------------------
// Spec toolkit for key exponents
// ---------------------------------------------------------------------------

/// The basepoint exponents of a list of group elements.
pub open spec fn exps_a(l: Seq<GroupElement>) -> Seq<int> {
    Seq::new(l.len(), |j: int| l[j].a())
}

/// All elements are well formed pure powers of the basepoint.
pub open spec fn all_base_powers(l: Seq<GroupElement>) -> bool {
    forall|k: int| 0 <= k < l.len() ==> (#[trigger] l[k]).wf() && l[k].b() == 0
}

/// The weighted sum the key computation accumulates: after `k` rounds of the
/// loop of party `i`, `sum_{j<k} (n-1-j) * x_{(i+j) mod n}`.
pub open spec fn bd_sum(x: Seq<int>, i: int, k: nat) -> int
    decreases k,
{
    if k == 0 {
        0
    } else {
        bd_sum(x, i, (k - 1) as nat) + (x.len() - k) * x[(i + k - 1) % (x.len() as int)]
    }
}

/// The product of two adjacent round-one exponents, indices mod the party
/// count.
pub open spec fn pair_prod(a: Seq<int>, t: int) -> int {
    a[t % (a.len() as int)] * a[(t + 1) % (a.len() as int)]
}

/// The sum of `count` adjacent products starting at position `start`.
pub open spec fn rot_sum(a: Seq<int>, start: int, count: nat) -> int
    decreases count,
{
    if count == 0 {
        0
    } else {
        rot_sum(a, start, (count - 1) as nat) + pair_prod(a, start + count - 1)
    }
}

/// The common key exponent of a session whose round-one exponents are `a`:
/// the sum of all adjacent products `a_k * a_{k+1}`, indices mod the party
/// count.
pub open spec fn session_key_exp(a: Seq<int>) -> int {
    rot_sum(a, 0, a.len())
}

/// The round-two exponents that the session derives from round-one
/// exponents `a`: `x_t = ((a_{t+1} - a_{t-1}) mod q) * a_t mod q`.
pub open spec fn round_two_exps(a: Seq<int>, xa: Seq<int>) -> bool {
    &&& xa.len() == a.len()
    &&& forall|t: int|
        0 <= t < a.len() ==> #[trigger] xa[t] == ((a[next_idx_spec(t, a.len() as int)]
            - a[prev_idx_spec(t, a.len() as int)]) % group_order() * a[t]) % group_order()
}

// ---------------------------------------------------------------------------
// Shared executable pieces of the key agreement
// ---------------------------------------------------------------------------

/// Computes the round-two broadcast `x_i = (z_{i+1} / z_{i-1})^{r_i}`.
pub fn bd_round2_payload(z_list: &Vec<GroupElement>, idx: usize, r: &GroupScalar) -> (x:
    GroupElement)
    requires
        z_list@.len() >= 2,
        idx < z_list@.len(),
        r.wf(),
        all_base_powers(z_list@),
    ensures
        x.wf(),
        x.b() == 0,
        x.a() == ((z_list@[next_idx_spec(idx as int, z_list@.len() as int)].a()
            - z_list@[prev_idx_spec(idx as int, z_list@.len() as int)].a()) % group_order()
            * r.val()) % group_order(),
{
    let (z_1, z_2) = get_adjacent_elements(z_list, idx);
    let d = point_sub(&z_2, &z_1);
    let x = point_mul(&d, r);
    proof {
        lemma_small_mod(0, group_order() as nat);
        assert(d.b() == 0);
        assert(d.b() * r.val() == 0) by (nonlinear_arith)
            requires
                d.b() == 0,
        ;
        assert(x.b() == 0);
    }
    x
}

/// Computes the Burmester-Desmedt key of party `idx` from the two rounds of
/// broadcasts and the party's round-one exponent `r`.
pub fn bd_compute_key(
    z_list: &Vec<GroupElement>,
    x_list: &Vec<GroupElement>,
    idx: usize,
    r: &GroupScalar,
) -> (key: GroupElement)
    requires
        z_list@.len() == x_list@.len(),
        x_list@.len() >= 1,
        idx < x_list@.len(),
        r.wf(),
        all_base_powers(z_list@),
        all_base_powers(x_list@),
    ensures
        key.wf(),
        key.b() == 0,
        key.a() == (z_list@[prev_idx_spec(idx as int, x_list@.len() as int)].a() * r.val()
            * x_list@.len() + bd_sum(
            exps_a(x_list@),
            idx as int,
            (x_list@.len() - 1) as nat,
        )) % group_order(),
{
    let num_parties = x_list.len();
    let ghost q = group_order();
    let ghost base = z_list@[prev_idx_spec(idx as int, num_parties as int)].a() * r.val()
        * num_parties;
    let ghost xa = exps_a(x_list@);

    let prev = find_prev_idx(idx, num_parties);
    let zr = point_mul(&z_list[prev], r);
    let n_scalar = scalar_from_u64(num_parties as u64);
    let mut key = point_mul(&zr, &n_scalar);

    proof {
        let za = z_list@[prev as int].a();
        lemma_mul_mod_noop_left(za * r.val(), num_parties as int, q);
        assert(key.a() == base % q);
        assert(zr.b() == 0 && key.b() == 0) by {
            lemma_small_mod(0, q as nat);
        }
    }

    let mut idx2: usize = 0;
    let mut i2: usize = idx;
    proof {
        lemma_small_mod(idx as nat, num_parties as nat);
    }
    while idx2 < num_parties - 1
        invariant
            z_list@.len() == x_list@.len(),
            num_parties == x_list@.len(),
            1 <= num_parties,
            idx < num_parties,
            idx2 <= num_parties - 1,
            i2 < num_parties,
            i2 == (idx + idx2) % (num_parties as int),
            r.wf(),
            all_base_powers(x_list@),
            q == group_order(),
            xa == exps_a(x_list@),
            base == z_list@[prev_idx_spec(idx as int, num_parties as int)].a() * r.val()
                * num_parties,
            key.wf(),
            key.b() == 0,
            key.a() == (base + bd_sum(xa, idx as int, idx2 as nat)) % q,
        decreases num_parties - 1 - idx2,
    {
        let coeff = scalar_from_u64((num_parties - idx2 - 1) as u64);
        let term = point_mul(&x_list[i2], &coeff);
        let new_key = point_add(&key, &term);
        proof {
            let c = (num_parties - idx2 - 1) as int;
            let xv = xa[i2 as int];
            assert(x_list@[i2 as int].a() == xv);
            assert(term.a() == (xv * c) % q);
            assert(term.b() == 0) by {
                lemma_small_mod(0, q as nat);
            }
            assert(new_key.b() == 0) by {
                lemma_small_mod(0, q as nat);
            }
            let s_old = bd_sum(xa, idx as int, idx2 as nat);
            // the new key exponent is (base + bd_sum after one more round) mod q
            assert(new_key.a() == ((base + s_old) % q + (xv * c) % q) % q);
            lemma_add_mod_noop(base + s_old, xv * c, q);
            assert(new_key.a() == (base + s_old + xv * c) % q);
            assert(bd_sum(xa, idx as int, (idx2 + 1) as nat) == s_old + (num_parties - (idx2 + 1))
                * xa[(idx + idx2) % (num_parties as int)]);
            assert(xv * c == c * xv) by (nonlinear_arith);
        }
        key = new_key;
        idx2 = idx2 + 1;
        let old_i2 = i2;
        if i2 == num_parties - 1 {
            i2 = 0;
        } else {
            i2 = i2 + 1;
        }
        proof {
            lemma_step_index(idx as int, (idx2 - 1) as int, old_i2 as int, num_parties as int);
            assert(i2 == (idx + idx2) % (num_parties as int));
        }
    }
    proof {
        assert(idx2 == num_parties - 1);
    }
    key
}

/// If `p == (i + j) mod n`, then stepping `p` once with wrap-around yields
/// `(i + j + 1) mod n`.
proof fn lemma_step_index(i: int, j: int, p: int, n: int)
    requires
        n >= 1,
        0 <= p < n,
        i >= 0,
        j >= 0,
        p == (i + j) % n,
    ensures
        (if p == n - 1 {
            0int
        } else {
            p + 1
        }) == (i + j + 1) % n,
{
    lemma_add_mod_noop(i + j, 1, n);
    if n == 1 {
        lemma_mod_self_0(n);
        lemma_small_mod(0, n as nat);
    } else {
        lemma_small_mod(1, n as nat);
        if p == n - 1 {
            lemma_mod_self_0(n);
            assert((p + 1) % n == 0);
        } else {
            lemma_small_mod((p + 1) as nat, n as nat);
        }
    }
}

// ---------------------------------------------------------------------------
// The telescoping argument: every party's key exponent is the session sum
// ---------------------------------------------------------------------------

proof fn lemma_rot_head(a: Seq<int>, start: int, count: nat)
    requires
        a.len() >= 1,
        count >= 1,
    ensures
        rot_sum(a, start, count) == pair_prod(a, start) + rot_sum(a, start + 1, (count - 1) as nat),
    decreases count,
{
    if count == 1 {
        assert(rot_sum(a, start, 1) == rot_sum(a, start, 0) + pair_prod(a, start));
        assert(rot_sum(a, start, 0) == 0);
        assert(rot_sum(a, start + 1, 0) == 0);
    } else {
        lemma_rot_head(a, start, (count - 1) as nat);
        assert(rot_sum(a, start, count) == rot_sum(a, start, (count - 1) as nat) + pair_prod(
            a,
            start + count - 1,
        ));
        assert(rot_sum(a, start + 1, (count - 1) as nat) == rot_sum(a, start + 1, (count - 2) as nat)
            + pair_prod(a, start + count - 1));
    }
}

proof fn lemma_pair_prod_period(a: Seq<int>, t: int)
    requires
        a.len() >= 1,
    ensures
        pair_prod(a, t + a.len()) == pair_prod(a, t),
{
    let n = a.len() as int;
    lemma_mod_add_multiples_vanish(t, n);
    lemma_mod_add_multiples_vanish(t + 1, n);
    assert((t + n + 1) % n == (t + 1) % n);
}

proof fn lemma_rot_shift(a: Seq<int>, start: int)
    requires
        a.len() >= 1,
    ensures
        rot_sum(a, start, a.len()) == rot_sum(a, start + 1, a.len()),
{
    let n = a.len();
    lemma_rot_head(a, start, n);
    lemma_pair_prod_period(a, start);
    assert(rot_sum(a, start + 1, n) == rot_sum(a, start + 1, (n - 1) as nat) + pair_prod(
        a,
        start + n,
    ));
}

proof fn lemma_rot_start(a: Seq<int>, start: int)
    requires
        a.len() >= 1,
        start >= -1,
    ensures
        rot_sum(a, start, a.len()) == rot_sum(a, 0, a.len()),
    decreases start + 1,
{
    if start == -1 {
        lemma_rot_shift(a, -1);
    } else if start == 0 {
    } else {
        lemma_rot_start(a, start - 1);
        lemma_rot_shift(a, start - 1);
    }
}

/// The ideal (unreduced) round-two exponent at position `t`.
spec fn ideal_x(a: Seq<int>, t: int) -> int {
    pair_prod(a, t) - pair_prod(a, t - 1)
}

/// The ideal counterpart of `bd_sum`, built from ideal round-two exponents.
spec fn ideal_sum(a: Seq<int>, i: int, k: nat) -> int
    decreases k,
{
    if k == 0 {
        0
    } else {
        ideal_sum(a, i, (k - 1) as nat) + (a.len() - k) * ideal_x(a, i + k - 1)
    }
}

proof fn lemma_next_idx_mod(t: int, n: int)
    requires
        n >= 2,
        0 <= t < n,
    ensures
        next_idx_spec(t, n) == (t + 1) % n,
{
    if t == n - 1 {
        lemma_mod_self_0(n);
    } else {
        lemma_small_mod((t + 1) as nat, n as nat);
    }
}

proof fn lemma_prev_idx_mod(t: int, n: int)
    requires
        n >= 2,
        0 <= t < n,
    ensures
        prev_idx_spec(t, n) == (t - 1 + n) % n,
{
    if t == 0 {
        lemma_small_mod((n - 1) as nat, n as nat);
    } else {
        lemma_small_mod((t - 1) as nat, n as nat);
        lemma_mod_add_multiples_vanish(t - 1, n);
    }
}

/// The stored round-two exponent at the wrapped position `(i + k) mod n`
/// equals the ideal one at unwrapped position `i + k`, mod the group order.
proof fn lemma_stored_x_is_ideal(a: Seq<int>, xa: Seq<int>, u: int)
    requires
        a.len() >= 2,
        round_two_exps(a, xa),
        u >= 0,
    ensures
        xa[u % (a.len() as int)] == ideal_x(a, u) % group_order(),
{
    let n = a.len() as int;
    let q = group_order();
    let t = u % n;
    lemma_mod_bound(u, n);
    lemma_next_idx_mod(t, n);
    lemma_prev_idx_mod(t, n);
    // indices: (t + 1) % n == (u + 1) % n and (t - 1 + n) % n == (u - 1) % n
    lemma_add_mod_noop(u, 1, n);
    lemma_small_mod(1, n as nat);
    assert((t + 1) % n == (u + 1) % n);
    lemma_add_mod_noop(u, n - 1, n);
    lemma_small_mod((n - 1) as nat, n as nat);
    assert((t + n - 1) % n == (u + n - 1) % n);
    lemma_mod_add_multiples_vanish(u - 1, n);
    assert(t - 1 + n == t + n - 1);
    assert((t - 1 + n) % n == (u - 1) % n);
    // pair products at u and u - 1
    assert(pair_prod(a, u) == a[t] * a[(u + 1) % n]) by {
        assert(a[u % n] == a[t]);
    }
    assert(pair_prod(a, u - 1) == a[(u - 1) % n] * a[t]) by {
        lemma_mod_add_multiples_vanish(u - 1 + 1, n);
        assert((u - 1 + 1) % n == u % n);
    }
    let d = a[(u + 1) % n] - a[(u - 1) % n];
    assert(xa[t] == (d % q * a[t]) % q);
    lemma_mul_mod_noop_left(d, a[t], q);
    assert(xa[t] == (d * a[t]) % q);
    assert(d * a[t] == a[t] * a[(u + 1) % n] - a[(u - 1) % n] * a[t]) by (nonlinear_arith)
        requires
            d == a[(u + 1) % n] - a[(u - 1) % n],
    ;
}

/// `bd_sum` over the stored (reduced) exponents agrees with the ideal sum,
/// mod the group order.
proof fn lemma_bd_sum_mod(a: Seq<int>, xa: Seq<int>, i: int, k: nat)
    requires
        a.len() >= 2,
        round_two_exps(a, xa),
        0 <= i,
        k <= a.len(),
    ensures
        bd_sum(xa, i, k) % group_order() == ideal_sum(a, i, k) % group_order(),
    decreases k,
{
    let n = a.len() as int;
    let q = group_order();
    if k == 0 {
    } else {
        lemma_bd_sum_mod(a, xa, i, (k - 1) as nat);
        let c = n - k;
        let u = i + k - 1;
        lemma_stored_x_is_ideal(a, xa, u);
        let xv = xa[u % n];
        let xi = ideal_x(a, u);
        assert(xv == xi % q);
        // term congruence
        lemma_mul_mod_noop_right(c, xi, q);
        assert((c * xv) % q == (c * xi) % q) by {
            assert(c * xv == c * (xi % q)) by (nonlinear_arith)
                requires
                    xv == xi % q,
            ;
        }
        // sum congruence
        lemma_add_mod_noop(bd_sum(xa, i, (k - 1) as nat), c * xv, q);
        lemma_add_mod_noop(ideal_sum(a, i, (k - 1) as nat), c * xi, q);
        assert(bd_sum(xa, i, k) == bd_sum(xa, i, (k - 1) as nat) + c * xv);
        assert(ideal_sum(a, i, k) == ideal_sum(a, i, (k - 1) as nat) + c * xi);
    }
}

/// The telescoping identity: the base term plus `k` ideal summands equals a
/// boundary term plus `k` adjacent products.
proof fn lemma_bd_ideal_closed(a: Seq<int>, i: int, k: nat)
    requires
        a.len() >= 2,
        0 <= i < a.len(),
        k <= a.len() - 1,
    ensures
        a.len() * pair_prod(a, i - 1) + ideal_sum(a, i, k) == (a.len() - k) * pair_prod(
            a,
            i + k - 1,
        ) + rot_sum(a, i - 1, k),
    decreases k,
{
    let n = a.len() as int;
    if k == 0 {
    } else {
        lemma_bd_ideal_closed(a, i, (k - 1) as nat);
        let km1 = (k - 1) as nat;
        let p_old = pair_prod(a, i + k - 2);
        let p_new = pair_prod(a, i + k - 1);
        assert(ideal_sum(a, i, k) == ideal_sum(a, i, km1) + (n - k) * ideal_x(a, i + k - 1));
        assert(ideal_x(a, i + k - 1) == p_new - p_old);
        assert(rot_sum(a, i - 1, k) == rot_sum(a, i - 1, km1) + pair_prod(a, i + k - 2));
        assert((n - k) * (p_new - p_old) == (n - k) * p_new - (n - k) * p_old)
            by (nonlinear_arith);
        assert((n - km1) * p_old == p_old + (n - k) * p_old) by (nonlinear_arith)
            requires
                km1 == k - 1,
        ;
        assert((n - k) * p_new == (n - k) * p_new);
    }
}

/// Every party's key exponent reduces to the same session sum.
pub proof fn lemma_bd_key_common(a: Seq<int>, xa: Seq<int>, i: int)
    requires
        a.len() >= 2,
        round_two_exps(a, xa),
        0 <= i < a.len(),
    ensures
        (a[prev_idx_spec(i, a.len() as int)] * a[i] * a.len() + bd_sum(
            xa,
            i,
            (a.len() - 1) as nat,
        )) % group_order() == session_key_exp(a) % group_order(),
{
    let n = a.len() as int;
    let q = group_order();
    let k = (a.len() - 1) as nat;
    let base = a[prev_idx_spec(i, n)] * a[i] * n;

    // the base term is n times the adjacent product at i - 1
    lemma_prev_idx_mod(i, n);
    lemma_mod_add_multiples_vanish(i - 1, n);
    lemma_small_mod(i as nat, n as nat);
    assert(pair_prod(a, i - 1) == a[prev_idx_spec(i, n)] * a[i]) by {
        assert((i - 1 + n) % n == (i - 1) % n);
        assert(a[(i - 1) % n] == a[prev_idx_spec(i, n)]);
        assert((i - 1 + 1) % n == i % n);
        assert(a[(i - 1 + 1) % n] == a[i]);
    }
    assert(base == n * pair_prod(a, i - 1)) by (nonlinear_arith)
        requires
            base == a[prev_idx_spec(i, n)] * a[i] * n,
            pair_prod(a, i - 1) == a[prev_idx_spec(i, n)] * a[i],
    ;

    // telescoping: base + ideal_sum == rot_sum(a, i - 1, n)
    lemma_bd_ideal_closed(a, i, k);
    assert(rot_sum(a, i - 1, a.len()) == rot_sum(a, i - 1, k) + pair_prod(a, i - 1 + n - 1));
    assert((n - k) * pair_prod(a, i + k - 1) == pair_prod(a, i + k - 1)) by (nonlinear_arith)
        requires
            k == n - 1,
    ;
    assert(base + ideal_sum(a, i, k) == rot_sum(a, i - 1, a.len()));

    // rotation start does not matter over a full cycle
    lemma_rot_start(a, i - 1);
    assert(rot_sum(a, i - 1, a.len()) == session_key_exp(a));

    // modular glue
    lemma_bd_sum_mod(a, xa, i, k);
    lemma_add_mod_noop(base, bd_sum(xa, i, k), q);
    lemma_add_mod_noop(base, ideal_sum(a, i, k), q);
}

// ---------------------------------------------------------------------------
// Parties and the driver
// ---------------------------------------------------------------------------

/// A single party of the plain key agreement.
pub struct Party {
    idx: usize,
    alpha: GroupElement,
    r: Option<GroupScalar>,
    z: Option<GroupElement>,
}

impl Party {
    spec fn inv_fresh(&self, i: int) -> bool {
        &&& self.idx == i
        &&& self.alpha.wf()
        &&& self.alpha.exp@ == (1int, 0int)
    }

    spec fn inv_round1(&self, i: int) -> bool {
        &&& self.idx == i
        &&& self.r is Some
        &&& self.r->Some_0.wf()
    }

    fn round1(&mut self) -> (z: GroupElement)
        requires
            old(self).alpha.wf(),
            old(self).alpha.exp@ == (1int, 0int),
        ensures
            final(self).idx == old(self).idx,
            final(self).r is Some,
            final(self).r->Some_0.wf(),
            z.wf(),
            z.b() == 0,
            z.a() == final(self).r->Some_0.val(),
    {
        let r = scalar_random();
        let z = point_mul(&self.alpha, &r);
        proof {
            lemma_small_mod(r.val() as nat, group_order() as nat);
            lemma_small_mod(0, group_order() as nat);
            assert(1 * r.val() == r.val()) by (nonlinear_arith);
            assert(0 * r.val() == 0) by (nonlinear_arith);
        }
        let z_kept = z.clone();
        self.z = Some(z_kept);
        self.r = Some(r);
        z
    }

    fn round2(&self, z_list: &Vec<GroupElement>) -> (x: GroupElement)
        requires
            self.r is Some,
            self.r->Some_0.wf(),
            z_list@.len() >= 2,
            self.idx < z_list@.len(),
            all_base_powers(z_list@),
        ensures
            x.wf(),
            x.b() == 0,
            x.a() == ((z_list@[next_idx_spec(self.idx as int, z_list@.len() as int)].a()
                - z_list@[prev_idx_spec(self.idx as int, z_list@.len() as int)].a())
                % group_order() * self.r->Some_0.val()) % group_order(),
    {
        let r = match &self.r {
            Some(r) => r,
            None => {
                proof {
                    assert(false);
                }
                unreached()
            },
        };
        bd_round2_payload(z_list, self.idx, r)
    }

    fn compute_key(&self, z_list: &Vec<GroupElement>, x_list: &Vec<GroupElement>) -> (key:
        GroupElement)
        requires
            self.r is Some,
            self.r->Some_0.wf(),
            z_list@.len() == x_list@.len(),
            x_list@.len() >= 1,
            self.idx < x_list@.len(),
            all_base_powers(z_list@),
            all_base_powers(x_list@),
        ensures
            key.wf(),
            key.b() == 0,
            key.a() == (z_list@[prev_idx_spec(self.idx as int, x_list@.len() as int)].a()
                * self.r->Some_0.val() * x_list@.len() + bd_sum(
                exps_a(x_list@),
                self.idx as int,
                (x_list@.len() - 1) as nat,
            )) % group_order(),
    {
        let r = match &self.r {
            Some(r) => r,
            None => {
                proof {
                    assert(false);
                }
                unreached()
            },
        };
        bd_compute_key(z_list, x_list, self.idx, r)
    }
}

/// Executes the Burmester-Desmedt key exchange with the specified number of
/// parties: every party derives the same key.
pub fn key_exchange(party_amount: usize) -> (keys: Vec<GroupElement>)
    requires
        party_amount >= 2,
    ensures
        keys@.len() == party_amount,
        forall|i: int| 0 <= i < party_amount ==> (#[trigger] keys@[i]).wf(),
        forall|i: int, j: int|
            0 <= i < party_amount && 0 <= j < party_amount ==> keys@[i].bytes@ == keys@[j].bytes@,
{
    let ghost q = group_order();

    let mut parties: Vec<Party> = Vec::new();
    let mut i: usize = 0;
    while i < party_amount
        invariant
            i <= party_amount,
            parties@.len() == i,
            forall|j: int| 0 <= j < i ==> (#[trigger] parties@[j]).inv_fresh(j),
        decreases party_amount - i,
    {
        let alpha = basepoint();
        parties.push(Party { idx: i, alpha, r: None, z: None });
        i = i + 1;
    }

    let mut round_1_results: Vec<GroupElement> = Vec::new();
    let mut i: usize = 0;
    while i < party_amount
        invariant
            i <= party_amount,
            parties@.len() == party_amount,
            round_1_results@.len() == i,
            forall|j: int| i <= j < party_amount ==> (#[trigger] parties@[j]).inv_fresh(j),
            forall|j: int| 0 <= j < i ==> (#[trigger] parties@[j]).inv_round1(j),
            all_base_powers(round_1_results@),
            forall|j: int|
                0 <= j < i ==> (#[trigger] round_1_results@[j]).a() == parties@[j].r->Some_0.val(),
        decreases party_amount - i,
    {
        let z = parties[i].round1();
        round_1_results.push(z);
        i = i + 1;
    }

    let ghost a = Seq::new(party_amount as nat, |j: int| parties@[j].r->Some_0.val());
    proof {
        assert forall|j: int| 0 <= j < party_amount implies (#[trigger] round_1_results@[j]).a()
            == a[j] by {}
    }

    let mut round_2_results: Vec<GroupElement> = Vec::new();
    let mut i: usize = 0;
    while i < party_amount
        invariant
            i <= party_amount,
            parties@.len() == party_amount,
            party_amount >= 2,
            round_1_results@.len() == party_amount,
            round_2_results@.len() == i,
            forall|j: int| 0 <= j < party_amount ==> (#[trigger] parties@[j]).inv_round1(j),
            all_base_powers(round_1_results@),
            all_base_powers(round_2_results@),
            a == Seq::new(party_amount as nat, |j: int| parties@[j].r->Some_0.val()),
            forall|j: int| 0 <= j < party_amount ==> (#[trigger] round_1_results@[j]).a() == a[j],
            forall|j: int|
                0 <= j < i ==> (#[trigger] round_2_results@[j]).a() == ((a[next_idx_spec(
                    j,
                    party_amount as int,
                )] - a[prev_idx_spec(j, party_amount as int)]) % group_order() * a[j])
                    % group_order(),
        decreases party_amount - i,
    {
        let x = parties[i].round2(&round_1_results);
        round_2_results.push(x);
        i = i + 1;
    }

    proof {
        assert(round_two_exps(a, exps_a(round_2_results@)));
    }

    let mut keys: Vec<GroupElement> = Vec::new();
    let mut i: usize = 0;
    while i < party_amount
        invariant
            i <= party_amount,
            parties@.len() == party_amount,
            party_amount >= 2,
            round_1_results@.len() == party_amount,
            round_2_results@.len() == party_amount,
            keys@.len() == i,
            forall|j: int| 0 <= j < party_amount ==> (#[trigger] parties@[j]).inv_round1(j),
            all_base_powers(round_1_results@),
            all_base_powers(round_2_results@),
            a == Seq::new(party_amount as nat, |j: int| parties@[j].r->Some_0.val()),
            forall|j: int| 0 <= j < party_amount ==> (#[trigger] round_1_results@[j]).a() == a[j],
            round_two_exps(a, exps_a(round_2_results@)),
            forall|j: int|
                0 <= j < i ==> (#[trigger] keys@[j]).wf() && keys@[j].b() == 0 && keys@[j].a()
                    == session_key_exp(a) % group_order(),
        decreases party_amount - i,
    {
        let key = parties[i].compute_key(&round_1_results, &round_2_results);
        proof {
            lemma_bd_key_common(a, exps_a(round_2_results@), i as int);
            assert(key.a() == session_key_exp(a) % group_order());
        }
        keys.push(key);
        i = i + 1;
    }

    proof {
        assert forall|i: int, j: int|
            0 <= i < party_amount && 0 <= j < party_amount implies keys@[i].bytes@
            == keys@[j].bytes@ by {
            assert(keys@[i].wf() && keys@[j].wf());
            assert(keys@[i].a() == keys@[j].a());
            assert(keys@[i].b() == keys@[j].b());
        }
    }
    keys
}

} // verus!

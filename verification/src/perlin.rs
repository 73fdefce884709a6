//! Perlin noise: shuffled permutation tables and random gradient vectors,
//! generated once and immutable afterwards, and the smoothed lattice
//! noise and multi-octave turbulence computed from them — all exact
//! fixed-point arithmetic, so every value is pinned by its contract.

use vstd::prelude::*;
use vstd::pervasive::VecAdditionalExecFns;
use crate::num::{div_i128, fdiv_i128, tdiv};
use crate::rtweekend::{random_double, random_int};
use crate::vec3::{bounded, fxmul, Point3, Vec3};
use crate::UNIT;

verus! {

pub struct Perlin {
    pub point_count: i32,
    pub ranvec: Vec<Vec3>,
    pub perm_x: Vec<i32>,
    pub perm_y: Vec<i32>,
    pub perm_z: Vec<i32>,
}

/// A lookup table: 256 entries, each a lattice index below 256.
pub open spec fn perm_ok(p: Seq<i32>) -> bool {
    p.len() == 256 && forall|i: int| 0 <= i < p.len() ==> 0 <= #[trigger] p[i] < 256
}

/// The identity table `0, 1, ..., 255`.
pub open spec fn ident_perm() -> Seq<i32> {
    Seq::new(256, |k: int| k as i32)
}

/// A table holding exactly the lattice indices `0..255`, in some order.
pub open spec fn is_perm(p: Seq<i32>) -> bool {
    p.to_multiset() == ident_perm().to_multiset()
}

/// Swapping two entries leaves a sequence's multiset unchanged.
proof fn lemma_swap_multiset(s: Seq<i32>, i: int, j: int)
    requires
        0 <= i < j < s.len(),
    ensures
        s.update(i, s[j]).update(j, s[i]).to_multiset() == s.to_multiset(),
{
    broadcast use vstd::multiset::group_multiset_axioms;

    let sp = s.update(i, s[j]).update(j, s[i]);
    let pa = s.subrange(0, i);
    let pb = s.subrange(i + 1, j);
    let pc = s.subrange(j + 1, s.len() as int);
    let si = seq![s[i]];
    let sj = seq![s[j]];
    assert(s =~= pa + si + pb + sj + pc);
    assert(sp =~= pa + sj + pb + si + pc);
    lemma_multiset_five(pa, si, pb, sj, pc);
    lemma_multiset_five(pa, sj, pb, si, pc);
    assert(pa.to_multiset().add(si.to_multiset()).add(pb.to_multiset()).add(sj.to_multiset()).add(
        pc.to_multiset(),
    ) =~= pa.to_multiset().add(sj.to_multiset()).add(pb.to_multiset()).add(si.to_multiset()).add(
        pc.to_multiset(),
    ));
}

/// The multiset of a five-way concatenation is the sum of the parts'.
proof fn lemma_multiset_five(a: Seq<i32>, b: Seq<i32>, c: Seq<i32>, d: Seq<i32>, e: Seq<i32>)
    ensures
        (a + b + c + d + e).to_multiset() == a.to_multiset().add(b.to_multiset()).add(
            c.to_multiset(),
        ).add(d.to_multiset()).add(e.to_multiset()),
{
    broadcast use vstd::multiset::group_multiset_axioms;

    vstd::seq_lib::lemma_multiset_commutative(a + b + c + d, e);
    vstd::seq_lib::lemma_multiset_commutative(a + b + c, d);
    vstd::seq_lib::lemma_multiset_commutative(a + b, c);
    vstd::seq_lib::lemma_multiset_commutative(a, b);
}

/// 256 gradient vectors with fixed-point components in `[-1, 1]`.
pub open spec fn ranvec_ok(v: Seq<Vec3>) -> bool {
    v.len() == 256 && forall|i: int| 0 <= i < v.len() ==> bounded(#[trigger] v[i], UNIT as int)
}


/// The lattice cell a fixed-point coordinate falls in (one cell per
/// `UNIT`), rounding toward negative infinity.
pub open spec fn cell_of(c: int) -> int {
    c / (UNIT as int)
}

/// The fixed-point offset of the coordinate inside its cell, in `[0, UNIT)`.
pub open spec fn frac_of(c: int) -> int {
    c - (UNIT as int) * (c / (UNIT as int))
}

/// A cell index folded onto the 256-entry tables.
pub open spec fn lat(i: int, d: int) -> int {
    (i + d) % 256
}

/// The gradient vector hashed for the lattice corner `(di, dj, dk)` of the
/// cell holding `p`.
pub open spec fn corner_grad(
    ranvec: Seq<Vec3>,
    px: Seq<i32>,
    py: Seq<i32>,
    pz: Seq<i32>,
    p: Vec3,
    di: int,
    dj: int,
    dk: int,
) -> Vec3 {
    let ix = lat(cell_of(p.x as int), di);
    let iy = lat(cell_of(p.y as int), dj);
    let iz = lat(cell_of(p.z as int), dk);
    ranvec[(px[ix] ^ py[iy] ^ pz[iz]) as int]
}

/// Hermite smoothing `u^2 (3 - 2u)`, in fixed point.
pub open spec fn hermite(u: int) -> int {
    fxmul(fxmul(u, u), 3 * (UNIT as int) - 2 * u)
}

/// The blending factor one axis contributes to a corner's weight.
pub open spec fn wfac(b: int, s: int) -> int {
    if b == 1 {
        s
    } else {
        (UNIT as int) - s
    }
}

/// One gradient's contribution: the smoothed weight product times the
/// gradient's fixed-point dot with the offset vector.
pub open spec fn term_of(g: Vec3, u: int, v: int, w: int, di: int, dj: int, dk: int) -> int {
    let d = tdiv(
        g.x * (u - di * (UNIT as int)) + g.y * (v - dj * (UNIT as int)) + g.z * (w - dk * (
        UNIT as int)),
        UNIT as int,
    );
    fxmul(fxmul(fxmul(wfac(di, hermite(u)), wfac(dj, hermite(v))), wfac(dk, hermite(w))), d)
}

/// One corner's contribution to the trilinear blend.
pub open spec fn tri_term(c: Seq<Vec3>, u: int, v: int, w: int, di: int, dj: int, dk: int) -> int {
    term_of(c[4 * di + 2 * dj + dk], u, v, w, di, dj, dk)
}

/// The full trilinear blend of the eight gathered gradients.
pub open spec fn tri_val(c: Seq<Vec3>, u: int, v: int, w: int) -> int {
    tri_term(c, u, v, w, 0, 0, 0) + tri_term(c, u, v, w, 0, 0, 1) + tri_term(c, u, v, w, 0, 1, 0)
        + tri_term(c, u, v, w, 0, 1, 1) + tri_term(c, u, v, w, 1, 0, 0) + tri_term(
        c,
        u,
        v,
        w,
        1,
        0,
        1,
    ) + tri_term(c, u, v, w, 1, 1, 0) + tri_term(c, u, v, w, 1, 1, 1)
}

/// The eight gradients gathered for `p`, in corner order.
pub open spec fn gather(
    ranvec: Seq<Vec3>,
    px: Seq<i32>,
    py: Seq<i32>,
    pz: Seq<i32>,
    p: Vec3,
) -> Seq<Vec3> {
    Seq::new(8, |n: int| corner_grad(ranvec, px, py, pz, p, n / 4, (n / 2) % 2, n % 2))
}

/// Smoothed lattice noise at `p`: gather the cell's corner gradients and
/// blend them trilinearly with Hermite-smoothed weights.
pub open spec fn noise_val(
    ranvec: Seq<Vec3>,
    px: Seq<i32>,
    py: Seq<i32>,
    pz: Seq<i32>,
    p: Vec3,
) -> int {
    tri_val(
        gather(ranvec, px, py, pz, p),
        frac_of(p.x as int),
        frac_of(p.y as int),
        frac_of(p.z as int),
    )
}


/// A fixed-point product of values within `ca` and `cb` stays within `cc`
/// whenever `ca * cb == cc * UNIT`.
proof fn lemma_fx_cap(a: int, b: int, ca: int, cb: int, cc: int)
    requires
        -ca <= a <= ca,
        -cb <= b <= cb,
        0 <= ca,
        0 <= cb,
        ca * cb == cc * 0x1_0000,
        0 <= cc,
    ensures
        -cc <= fxmul(a, b) <= cc,
{
    crate::vec3::lemma_fxmul_bound(a, b, ca, cb);
    vstd::arithmetic::div_mod::lemma_div_multiples_vanish(cc, 0x1_0000);
    assert(tdiv(ca * cb, UNIT as int) == cc);
}

/// The cell and in-cell offset of one fixed-point coordinate.
fn cell_frac(c: i64) -> (r: (i64, i64))
    requires
        -0x4_0000_0000 <= c <= 0x4_0000_0000,
    ensures
        r.0 == cell_of(c as int),
        r.1 == frac_of(c as int),
        -0x4_0000 <= r.0 <= 0x4_0000,
        0 <= r.1 < UNIT,
{
    let q = fdiv_i128(c as i128, UNIT as i128);
    proof {
        vstd::arithmetic::div_mod::lemma_fundamental_div_mod(c as int, UNIT as int);
        vstd::arithmetic::div_mod::lemma_mod_division_less_than_divisor(c as int, UNIT as int);
        crate::vec3::lemma_mul_fits(q as int, UNIT as int, 0x4_0000, 0x1_0000);
    }
    let qi = q as i64;
    let f = c - UNIT * qi;
    (qi, f)
}

/// A cell index folded onto the tables.
fn lat_exec(i: i64, d: i64) -> (ix: usize)
    requires
        -0x10_0000 <= i <= 0x10_0000,
        0 <= d <= 1,
    ensures
        ix == lat(i as int, d as int),
        ix < 256,
{
    let q = fdiv_i128((i + d) as i128, 256);
    proof {
        vstd::arithmetic::div_mod::lemma_fundamental_div_mod((i + d) as int, 256);
        vstd::arithmetic::div_mod::lemma_mod_division_less_than_divisor((i + d) as int, 256);
    }
    let m = (i + d) - 256 * (q as i64);
    m as usize
}


/// One gradient's contribution, in fixed point.
fn corner_term_exec(g: Vec3, u: i64, v: i64, w: i64, di: i64, dj: i64, dk: i64) -> (r: i64)
    requires
        bounded(g, UNIT as int),
        0 <= u < UNIT,
        0 <= v < UNIT,
        0 <= w < UNIT,
        0 <= di <= 1,
        0 <= dj <= 1,
        0 <= dk <= 1,
    ensures
        r == term_of(g, u as int, v as int, w as int, di as int, dj as int, dk as int),
        -0x80_0000 <= r <= 0x80_0000,
{
    let uu = hermite_exec(u);
    let vv = hermite_exec(v);
    let ww = hermite_exec(w);
    let wx = if di == 1 {
        uu
    } else {
        UNIT - uu
    };
    let wy = if dj == 1 {
        vv
    } else {
        UNIT - vv
    };
    let wz = if dk == 1 {
        ww
    } else {
        UNIT - ww
    };
    proof {
        assert(0x3_0000 * 0x3_0000 == 0x9_0000 * 0x1_0000) by (nonlinear_arith);
        lemma_fx_cap(wx as int, wy as int, 0x3_0000, 0x3_0000, 0x9_0000);
    }
    let wp1 = crate::vec3::fxmul_exec(wx, wy);
    proof {
        assert(0x9_0000 * 0x3_0000 == 0x1B_0000 * 0x1_0000) by (nonlinear_arith);
        lemma_fx_cap(wp1 as int, wz as int, 0x9_0000, 0x3_0000, 0x1B_0000);
    }
    let wp = crate::vec3::fxmul_exec(wp1, wz);
    let ox = u - di * UNIT;
    let oy = v - dj * UNIT;
    let oz = w - dk * UNIT;
    proof {
        crate::vec3::lemma_mul_fits(g.x as int, ox as int, 0x1_0000, 0x1_0000);
        crate::vec3::lemma_mul_fits(g.y as int, oy as int, 0x1_0000, 0x1_0000);
        crate::vec3::lemma_mul_fits(g.z as int, oz as int, 0x1_0000, 0x1_0000);
    }
    let dn: i128 = (g.x as i128) * (ox as i128) + (g.y as i128) * (oy as i128) + (g.z as i128) * (
    oz as i128);
    let dq = div_i128(dn, UNIT as i128);
    proof {
        crate::num::lemma_tdiv_ordered(dn as int, 0x3_0000_0000, UNIT as int);
        crate::num::lemma_tdiv_ordered(-0x3_0000_0000, dn as int, UNIT as int);
        assert(tdiv(0x3_0000_0000, UNIT as int) == 0x3_0000) by {
            vstd::arithmetic::div_mod::lemma_div_multiples_vanish(0x3_0000, 0x1_0000);
            assert(0x3_0000 * 0x1_0000 == 0x3_0000_0000) by (nonlinear_arith);
        }
    }
    let d = dq as i64;
    proof {
        assert(0x1B_0000 * 0x3_0000 == 0x51_0000 * 0x1_0000) by (nonlinear_arith);
        lemma_fx_cap(wp as int, d as int, 0x1B_0000, 0x3_0000, 0x51_0000);
    }
    crate::vec3::fxmul_exec(wp, d)
}

/// Hermite smoothing in fixed point; the result stays within three units.
fn hermite_exec(u: i64) -> (r: i64)
    requires
        0 <= u < UNIT,
    ensures
        r == hermite(u as int),
        -0x2_0000 <= r <= 0x3_0000,
{
    proof {
        assert(0x1_0000 * 0x1_0000 == 0x1_0000 * 0x1_0000) by (nonlinear_arith);
        lemma_fx_cap(u as int, u as int, 0x1_0000, 0x1_0000, 0x1_0000);
    }
    let s1 = crate::vec3::fxmul_exec(u, u);
    let s2 = 3 * UNIT - 2 * u;
    proof {
        assert(0x1_0000 * 0x3_0000 == 0x3_0000 * 0x1_0000) by (nonlinear_arith);
        lemma_fx_cap(s1 as int, s2 as int, 0x1_0000, 0x3_0000, 0x3_0000);
    }
    crate::vec3::fxmul_exec(s1, s2)
}


/// The running turbulence sum: each octave adds the weighted noise of the
/// doubled point, with the weight halving.
pub open spec fn turb_acc(
    ranvec: Seq<Vec3>,
    px: Seq<i32>,
    py: Seq<i32>,
    pz: Seq<i32>,
    p: Vec3,
    weight: int,
    depth: int,
) -> int
    decreases depth,
{
    if depth <= 0 {
        0
    } else {
        fxmul(weight, noise_val(ranvec, px, py, pz, p)) + turb_acc(
            ranvec,
            px,
            py,
            pz,
            Vec3 { x: (2 * p.x) as i64, y: (2 * p.y) as i64, z: (2 * p.z) as i64 },
            tdiv(weight, 2),
            depth - 1,
        )
    }
}

/// Multi-octave turbulence: the absolute value of the octave sum.
pub open spec fn turb_val(
    ranvec: Seq<Vec3>,
    px: Seq<i32>,
    py: Seq<i32>,
    pz: Seq<i32>,
    p: Vec3,
    depth: int,
) -> int {
    let a = turb_acc(ranvec, px, py, pz, p, UNIT as int, depth);
    if a >= 0 {
        a
    } else {
        -a
    }
}

/// The coordinate budget after `k` doublings of a scene point.
pub open spec fn turb_cap(k: int) -> int {
    if k <= 0 {
        0x100_0000
    } else if k == 1 {
        0x200_0000
    } else if k == 2 {
        0x400_0000
    } else if k == 3 {
        0x800_0000
    } else if k == 4 {
        0x1000_0000
    } else if k == 5 {
        0x2000_0000
    } else if k == 6 {
        0x4000_0000
    } else if k == 7 {
        0x8000_0000
    } else {
        0x1_0000_0000
    }
}

impl Perlin {
    /// Fill the chosen axis table with `0 .. point_count` and shuffle it.
    pub fn perlin_generate_perm(&mut self, axis: i32)
        requires
            old(self).point_count == 256,
            axis == 0 ==> old(self).perm_x@.len() == 0,
            axis == 1 ==> old(self).perm_y@.len() == 0,
            axis != 0 && axis != 1 ==> old(self).perm_z@.len() == 0,
        ensures
            final(self).point_count == old(self).point_count,
            final(self).ranvec == old(self).ranvec,
            axis == 0 ==> perm_ok(final(self).perm_x@) && is_perm(final(self).perm_x@)
                && final(self).perm_y == old(self).perm_y
                && final(self).perm_z == old(self).perm_z,
            axis == 1 ==> perm_ok(final(self).perm_y@) && is_perm(final(self).perm_y@)
                && final(self).perm_x == old(self).perm_x
                && final(self).perm_z == old(self).perm_z,
            axis != 0 && axis != 1 ==> perm_ok(final(self).perm_z@)
                && is_perm(final(self).perm_z@)
                && final(self).perm_x == old(self).perm_x
                && final(self).perm_y == old(self).perm_y,
    {
        let n = self.point_count;
        let tmp = if axis == 0 {
            &mut self.perm_x
        } else if axis == 1 {
            &mut self.perm_y
        } else {
            &mut self.perm_z
        };
        let mut i: i32 = 0;
        while i < n
            invariant
                n == 256,
                0 <= i <= n,
                tmp@.len() == i,
                tmp@ =~= Seq::new(i as nat, |k: int| k as i32),
            decreases n - i,
        {
            tmp.push(i);
            proof {
                assert(tmp@ =~= Seq::new(i as nat + 1, |k: int| k as i32));
            }
            i = i + 1;
        }
        proof {
            assert(tmp@ =~= ident_perm());
            assert(forall|k: int| 0 <= k < tmp@.len() ==> 0 <= #[trigger] tmp@[k] < 256);
        }
        Perlin::permut(tmp, n);
    }

    /// Fisher-Yates-style shuffle: each position is swapped with a random
    /// earlier target, so the table keeps exactly its old entries — the
    /// multiset is preserved, only the order may change.
    pub fn permut(p: &mut Vec<i32>, n: i32)
        requires
            0 < n <= 256,
            old(p)@.len() == n,
            forall|k: int| 0 <= k < old(p)@.len() ==> 0 <= #[trigger] old(p)@[k] < 256,
        ensures
            final(p)@.len() == old(p)@.len(),
            forall|k: int| 0 <= k < final(p)@.len() ==> 0 <= #[trigger] final(p)@[k] < 256,
            final(p)@.to_multiset() == old(p)@.to_multiset(),
    {
        let mut i: i32 = 1;
        while i < n
            invariant
                0 < n <= 256,
                1 <= i <= n,
                p@.len() == n,
                forall|k: int| 0 <= k < p@.len() ==> 0 <= #[trigger] p@[k] < 256,
                p@.to_multiset() == old(p)@.to_multiset(),
            decreases n - i,
        {
            let ghost before = p@;
            let target = random_int(0, n - i) as usize;
            let j = i as usize;
            let a = p[j];
            let b = p[target];
            p.set(j, b);
            p.set(target, a);
            proof {
                if target == j {
                    assert(p@ =~= before);
                } else if target < j {
                    assert(p@ =~= before.update(target as int, before[j as int]).update(
                        j as int,
                        before[target as int],
                    ));
                    lemma_swap_multiset(before, target as int, j as int);
                } else {
                    lemma_swap_multiset(before, j as int, target as int);
                }
            }
            i = i + 1;
        }
    }


    /// Blend the eight gathered gradients with Hermite-smoothed weights.
    pub fn trilinear_interp(c: [Vec3; 8], u: i64, v: i64, w: i64) -> (r: i64)
        requires
            forall|n: int| 0 <= n < 8 ==> bounded(#[trigger] c@[n], UNIT as int),
            0 <= u < UNIT,
            0 <= v < UNIT,
            0 <= w < UNIT,
        ensures
            r == tri_val(c@, u as int, v as int, w as int),
            -0x400_0000 <= r <= 0x400_0000,
    {
        let t000 = corner_term_exec(c[0], u, v, w, 0, 0, 0);
        let t001 = corner_term_exec(c[1], u, v, w, 0, 0, 1);
        let t010 = corner_term_exec(c[2], u, v, w, 0, 1, 0);
        let t011 = corner_term_exec(c[3], u, v, w, 0, 1, 1);
        let t100 = corner_term_exec(c[4], u, v, w, 1, 0, 0);
        let t101 = corner_term_exec(c[5], u, v, w, 1, 0, 1);
        let t110 = corner_term_exec(c[6], u, v, w, 1, 1, 0);
        let t111 = corner_term_exec(c[7], u, v, w, 1, 1, 1);
        proof {
            assert(t000 == tri_term(c@, u as int, v as int, w as int, 0, 0, 0));
            assert(t001 == tri_term(c@, u as int, v as int, w as int, 0, 0, 1));
            assert(t010 == tri_term(c@, u as int, v as int, w as int, 0, 1, 0));
            assert(t011 == tri_term(c@, u as int, v as int, w as int, 0, 1, 1));
            assert(t100 == tri_term(c@, u as int, v as int, w as int, 1, 0, 0));
            assert(t101 == tri_term(c@, u as int, v as int, w as int, 1, 0, 1));
            assert(t110 == tri_term(c@, u as int, v as int, w as int, 1, 1, 0));
            assert(t111 == tri_term(c@, u as int, v as int, w as int, 1, 1, 1));
        }
        t000 + t001 + t010 + t011 + t100 + t101 + t110 + t111
    }

    /// Smoothed lattice noise at `p`: the cell's eight hashed gradients,
    /// blended trilinearly.
    pub fn noise(&self, p: Point3) -> (r: i64)
        requires
            ranvec_ok(self.ranvec@),
            perm_ok(self.perm_x@),
            perm_ok(self.perm_y@),
            perm_ok(self.perm_z@),
            bounded(p, 0x4_0000_0000),
        ensures
            r == noise_val(self.ranvec@, self.perm_x@, self.perm_y@, self.perm_z@, p),
            -0x400_0000 <= r <= 0x400_0000,
    {
        let (ci, u) = cell_frac(p.x);
        let (cj, v) = cell_frac(p.y);
        let (ck, w) = cell_frac(p.z);
        let g000 = self.grad_at(ci, cj, ck, 0, 0, 0);
        let g001 = self.grad_at(ci, cj, ck, 0, 0, 1);
        let g010 = self.grad_at(ci, cj, ck, 0, 1, 0);
        let g011 = self.grad_at(ci, cj, ck, 0, 1, 1);
        let g100 = self.grad_at(ci, cj, ck, 1, 0, 0);
        let g101 = self.grad_at(ci, cj, ck, 1, 0, 1);
        let g110 = self.grad_at(ci, cj, ck, 1, 1, 0);
        let g111 = self.grad_at(ci, cj, ck, 1, 1, 1);
        let cs: [Vec3; 8] = [g000, g001, g010, g011, g100, g101, g110, g111];
        proof {
            let gs = gather(self.ranvec@, self.perm_x@, self.perm_y@, self.perm_z@, p);
            assert(cs@[0] == gs[0]);
            assert(cs@[1] == gs[1]);
            assert(cs@[2] == gs[2]);
            assert(cs@[3] == gs[3]);
            assert(cs@[4] == gs[4]);
            assert(cs@[5] == gs[5]);
            assert(cs@[6] == gs[6]);
            assert(cs@[7] == gs[7]);
            assert(cs@ =~= gs);
        }
        Perlin::trilinear_interp(cs, u, v, w)
    }

    /// The hashed gradient of one lattice corner of the cell `(ci, cj, ck)`.
    fn grad_at(&self, ci: i64, cj: i64, ck: i64, di: i64, dj: i64, dk: i64) -> (g: Vec3)
        requires
            ranvec_ok(self.ranvec@),
            perm_ok(self.perm_x@),
            perm_ok(self.perm_y@),
            perm_ok(self.perm_z@),
            -0x4_0000 <= ci <= 0x4_0000,
            -0x4_0000 <= cj <= 0x4_0000,
            -0x4_0000 <= ck <= 0x4_0000,
            0 <= di <= 1,
            0 <= dj <= 1,
            0 <= dk <= 1,
        ensures
            g == self.ranvec@[(self.perm_x@[lat(ci as int, di as int)] ^ self.perm_y@[lat(
                cj as int,
                dj as int,
            )] ^ self.perm_z@[lat(ck as int, dk as int)]) as int],
            bounded(g, UNIT as int),
    {
        let ix = lat_exec(ci, di);
        let iy = lat_exec(cj, dj);
        let iz = lat_exec(ck, dk);
        let hx = self.perm_x[ix];
        let hy = self.perm_y[iy];
        let hz = self.perm_z[iz];
        proof {
            assert(0 <= (hx ^ hy ^ hz) < 256) by (bit_vector)
                requires
                    0 <= hx < 256,
                    0 <= hy < 256,
                    0 <= hz < 256,
            ;
        }
        let h = (hx ^ hy ^ hz) as usize;
        self.ranvec[h]
    }


    /// Multi-octave turbulence: sum the noise of repeatedly doubled
    /// points under halving weights, then take the magnitude.
    pub fn turb(&self, p: Point3, depth: i32) -> (r: i64)
        requires
            ranvec_ok(self.ranvec@),
            perm_ok(self.perm_x@),
            perm_ok(self.perm_y@),
            perm_ok(self.perm_z@),
            bounded(p, 0x100_0000),
            0 <= depth <= 8,
        ensures
            r == turb_val(self.ranvec@, self.perm_x@, self.perm_y@, self.perm_z@, p, depth as int),
            0 <= r <= 0x2000_0000,
    {
        let mut accum: i64 = 0;
        let mut temp_p = p;
        let mut weight: i64 = UNIT;
        let mut k: i32 = 0;
        while k < depth
            invariant
                ranvec_ok(self.ranvec@),
                perm_ok(self.perm_x@),
                perm_ok(self.perm_y@),
                perm_ok(self.perm_z@),
                0 <= k <= depth <= 8,
                bounded(temp_p, turb_cap(k as int)),
                0 <= weight <= UNIT,
                -0x400_0000 * k <= accum <= 0x400_0000 * k,
                turb_acc(
                    self.ranvec@,
                    self.perm_x@,
                    self.perm_y@,
                    self.perm_z@,
                    p,
                    UNIT as int,
                    depth as int,
                ) == accum + turb_acc(
                    self.ranvec@,
                    self.perm_x@,
                    self.perm_y@,
                    self.perm_z@,
                    temp_p,
                    weight as int,
                    depth as int - k as int,
                ),
            decreases depth - k,
        {
            let n = self.noise(temp_p);
            proof {
                assert(0x1_0000 * 0x400_0000 == 0x400_0000 * 0x1_0000) by (nonlinear_arith);
                lemma_fx_cap(weight as int, n as int, 0x1_0000, 0x400_0000, 0x400_0000);
            }
            let term = crate::vec3::fxmul_exec(weight, n);
            accum = accum + term;
            weight = crate::num::div_i64(weight, 2);
            proof {
                crate::num::lemma_tdiv_bound(weight as int, 2);
            }
            temp_p = Vec3 { x: 2 * temp_p.x, y: 2 * temp_p.y, z: 2 * temp_p.z };
            k = k + 1;
        }
        if accum < 0 {
            -accum
        } else {
            accum
        }
    }

    pub fn new() -> (r: Perlin)
        ensures
            r.point_count == 256,
            r.ranvec@.len() == 0,
            r.perm_x@.len() == 0,
            r.perm_y@.len() == 0,
            r.perm_z@.len() == 0,
    {
        Perlin {
            point_count: 256,
            ranvec: Vec::new(),
            perm_x: Vec::new(),
            perm_y: Vec::new(),
            perm_z: Vec::new(),
        }
    }

    /// Generate the gradient vectors and the three shuffled tables.
    pub fn init(&mut self)
        requires
            old(self).point_count == 256,
            old(self).ranvec@.len() == 0,
            old(self).perm_x@.len() == 0,
            old(self).perm_y@.len() == 0,
            old(self).perm_z@.len() == 0,
        ensures
            final(self).point_count == 256,
            ranvec_ok(final(self).ranvec@),
            perm_ok(final(self).perm_x@),
            perm_ok(final(self).perm_y@),
            perm_ok(final(self).perm_z@),
            is_perm(final(self).perm_x@),
            is_perm(final(self).perm_y@),
            is_perm(final(self).perm_z@),
    {
        let mut i: i32 = 0;
        while i < 256
            invariant
                0 <= i <= 256,
                self.point_count == 256,
                self.ranvec@.len() == i,
                forall|k: int|
                    0 <= k < self.ranvec@.len() ==> bounded(#[trigger] self.ranvec@[k], UNIT as int),
                self.perm_x@.len() == 0,
                self.perm_y@.len() == 0,
                self.perm_z@.len() == 0,
            decreases 256 - i,
        {
            let x = random_double(-UNIT, UNIT);
            let y = random_double(-UNIT, UNIT);
            let z = random_double(-UNIT, UNIT);
            self.ranvec.push(Vec3 { x, y, z });
            i = i + 1;
        }
        self.perlin_generate_perm(0);
        self.perlin_generate_perm(1);
        self.perlin_generate_perm(2);
    }
}

} // verus!

//! Verifiable secret sharing over the Ed25519 curve.
//!
//! A dealer with secret `u` picks a random polynomial `f` of degree `th - 1`
//! with constant term `u`, publishes the commitment `C_j = c_j * B` to every
//! coefficient, and hands each member `i` the share `f(i)`.  Anyone can then
//! check a share against the commitment: `share * B` must equal the
//! commitment polynomial evaluated at `i`.

use vstd::arithmetic::div_mod::{lemma_mod_bound, lemma_small_mod};
use vstd::prelude::*;

use crate::addr::MpcAddr;
use crate::errors::MpcError;
use crate::point::{pt_add, pt_base, pt_mul, Pt};
use crate::scalar::{add_mod, group_order, mul_mod, Sc};

verus! {

/// The values of a sequence of scalars.
pub open spec fn sc_vals(s: Seq<Sc>) -> Seq<nat> {
    s.map_values(|c: Sc| c.val())
}

/// The encodings of a sequence of points.
pub open spec fn pts_view(s: Seq<Pt>) -> Seq<Seq<u8>> {
    s.map_values(|p: Pt| p@)
}

/// Polynomial evaluation modulo the group order (Horner form):
/// `cs[0] + x * (cs[1] + x * (...))`.
pub open spec fn poly_eval(cs: Seq<nat>, x: nat) -> nat
    decreases cs.len(),
{
    if cs.len() == 0 {
        0
    } else {
        add_mod(cs[0], mul_mod(x, poly_eval(cs.skip(1), x)))
    }
}

pub proof fn lemma_poly_eval_bound(cs: Seq<nat>, x: nat)
    ensures
        poly_eval(cs, x) < group_order(),
{
    if cs.len() == 0 {
    } else {
        lemma_mod_bound(
            (cs[0] + mul_mod(x, poly_eval(cs.skip(1), x))) as int,
            group_order() as int,
        );
    }
}

/// The commitment polynomial evaluated at `x`, in the group:
/// `coms[0] + x * (coms[1] + x * (...))`, over compressed encodings.
pub open spec fn polycom_eval(coms: Seq<Seq<u8>>, x: nat) -> Seq<u8>
    decreases coms.len(),
{
    if coms.len() == 0 {
        pt_base(0)
    } else {
        pt_add(pt_mul(x, polycom_eval(coms.skip(1), x)), coms[0])
    }
}

/// The commitment vector is the basepoint image of the coefficients.
pub open spec fn coms_commit(coms: Seq<Seq<u8>>, cs: Seq<nat>) -> bool {
    &&& coms.len() == cs.len()
    &&& forall|j: int|
        0 <= j < cs.len() ==> cs[j] < group_order() && coms[j] == pt_base(cs[j])
}

/// Evaluate a secret polynomial at `x` modulo the group order.
fn eval_poly(coeffs: &Vec<Sc>, x: &Sc) -> (r: Sc)
    ensures
        r.val() == poly_eval(sc_vals(coeffs@), x.val()),
{
    let ghost cs = sc_vals(coeffs@);
    let mut y = Sc::zero();
    let mut j = coeffs.len();
    proof {
        assert(cs.skip(j as int) =~= Seq::<nat>::empty());
    }
    while j > 0
        invariant
            j <= coeffs@.len(),
            cs == sc_vals(coeffs@),
            y.val() == poly_eval(cs.skip(j as int), x.val()),
        decreases j,
    {
        j -= 1;
        let t = Sc::sc_mul(x, &y);
        y = Sc::sc_add(&coeffs[j], &t);
        proof {
            assert(cs.skip(j as int)[0] == cs[j as int]);
            assert(cs.skip(j as int).skip(1) =~= cs.skip(j as int + 1));
        }
    }
    proof {
        assert(cs.skip(0) =~= cs);
    }
    y
}

/// Evaluate a commitment polynomial at `x` in the group.  On a commitment
/// vector that is the basepoint image of coefficients, the result is the
/// basepoint image of the polynomial's value.
pub fn eval_polycom(coms: &Vec<Pt>, x: &Sc) -> (r: Pt)
    ensures
        r@ == polycom_eval(pts_view(coms@), x.val()),
        forall|cs: Seq<nat>|
            #![trigger coms_commit(pts_view(coms@), cs)]
            coms_commit(pts_view(coms@), cs) ==> r@ == pt_base(poly_eval(cs, x.val())),
{
    let ghost v = pts_view(coms@);
    let mut acc = Pt::identity();
    let mut j = coms.len();
    proof {
        use_type_invariant(x);
        Sc::lemma_inv(*x);
        assert(v.skip(j as int) =~= Seq::<Seq<u8>>::empty());
        assert forall|cs: Seq<nat>| #[trigger] coms_commit(v, cs) implies acc@ == pt_base(
            poly_eval(cs.skip(j as int), x.val()),
        ) by {
            assert(cs.skip(j as int) =~= Seq::<nat>::empty());
        }
    }
    while j > 0
        invariant
            j <= coms@.len(),
            v == pts_view(coms@),
            x.val() < group_order(),
            acc@ == polycom_eval(v.skip(j as int), x.val()),
            forall|cs: Seq<nat>|
                #![trigger coms_commit(v, cs)]
                coms_commit(v, cs) ==> acc@ == pt_base(poly_eval(cs.skip(j as int), x.val())),
        decreases j,
    {
        j -= 1;
        let ghost acc_old = acc;
        let t = Pt::pt_mul_sc(x, &acc);
        acc = Pt::pt_add_pt(&t, &coms[j]);
        proof {
            assert(v.skip(j as int)[0] == v[j as int]);
            assert(v.skip(j as int).skip(1) =~= v.skip(j as int + 1));
            assert(coms@[j as int]@ == v[j as int]);
            assert forall|cs: Seq<nat>| #[trigger] coms_commit(v, cs) implies acc@ == pt_base(
                poly_eval(cs.skip(j as int), x.val()),
            ) by {
                let inner = poly_eval(cs.skip(j as int + 1), x.val());
                lemma_poly_eval_bound(cs.skip(j as int + 1), x.val());
                assert(acc_old@ == pt_base(inner));
                assert(t@ == pt_base(mul_mod(x.val(), inner)));
                lemma_mod_bound((x.val() * inner) as int, group_order() as int);
                assert(cs.skip(j as int)[0] == cs[j as int]);
                assert(cs.skip(j as int).skip(1) =~= cs.skip(j as int + 1));
                assert(v[j as int] == pt_base(cs[j as int]));
                assert(acc@ == pt_base(add_mod(mul_mod(x.val(), inner), cs[j as int])));
                assert(add_mod(mul_mod(x.val(), inner), cs[j as int]) == add_mod(
                    cs[j as int],
                    mul_mod(x.val(), inner),
                ));
            }
        }
    }
    proof {
        assert(v.skip(0) =~= v);
        assert forall|cs: Seq<nat>| #[trigger] coms_commit(v, cs) implies acc@ == pt_base(
            poly_eval(cs, x.val()),
        ) by {
            assert(cs.skip(0) =~= cs);
        }
    }
    acc
}

/// Verify that a share is consistent with a commitment vector: holds iff
/// `share * B` equals the commitment polynomial at the member id.  On a
/// share and commitment honestly produced from the same polynomial the
/// check always passes.
pub fn verify_vss_share(id: MpcAddr, share: &Sc, com: &Vec<Pt>) -> (r: Result<(), MpcError>)
    ensures
        r is Ok <==> pt_base(share.val()) == polycom_eval(
            pts_view(com@),
            id.spec_member_id() as nat,
        ),
        r is Err ==> r == Err::<(), MpcError>(MpcError::InvalidShare(id.spec_raw())),
        forall|cs: Seq<nat>|
            #![trigger coms_commit(pts_view(com@), cs)]
            coms_commit(pts_view(com@), cs) && share.val() == poly_eval(
                cs,
                id.spec_member_id() as nat,
            ) ==> r is Ok,
{
    let lhs = Pt::base_mul(share);
    let x = Sc::from_u64(id.member_id() as u64);
    let rhs = eval_polycom(com, &x);
    if lhs.pt_eq(&rhs) {
        Ok(())
    } else {
        Err(MpcError::InvalidShare(id.as_primitive()))
    }
}

/// Generate a commitment vector and one share per member from the secret
/// `u_i` and the given blinding coefficients: the dealt polynomial is
/// `u_i + coeffs[0] * x + ... + coeffs[th-2] * x^(th-1)`.  The blinding
/// coefficients are overwritten with zeros before return.
///
/// Fails with `ConfigError` exactly when the dealer is not a member, some
/// member is in another group or has member id 0, or the threshold is not
/// between 1 and the member count.
pub fn generate_vss_share_with(
    u_i: &Sc,
    my_id: MpcAddr,
    members: &Vec<MpcAddr>,
    th: usize,
    coeffs: &mut Vec<Sc>,
) -> (r: Result<(Vec<Pt>, Vec<Sc>), MpcError>)
    requires
        old(coeffs)@.len() == th - 1,
    ensures
        r is Ok <==> vss_config_ok(my_id, members@, th as int),
        r is Err ==> r == Err::<(Vec<Pt>, Vec<Sc>), MpcError>(MpcError::ConfigError),
        r is Ok ==> ({
            let (coms, shares) = r.unwrap();
            let cs = seq![u_i.val()] + sc_vals(old(coeffs)@);
            &&& coms@.len() == th
            &&& coms_commit(pts_view(coms@), cs)
            &&& shares@.len() == members@.len()
            &&& forall|i: int|
                0 <= i < members@.len() ==> #[trigger] shares@[i].val() == poly_eval(
                    cs,
                    members@[i].spec_member_id() as nat,
                )
        }),
        forall|i: int| 0 <= i < final(coeffs)@.len() ==> #[trigger] final(coeffs)@[i].val() == 0,
{
    if !vss_config_check(my_id, members, th) {
        zeroize_all(coeffs);
        return Err(MpcError::ConfigError);
    }

    // the polynomial: constant term is the secret, the rest are the
    // blinding coefficients
    let mut poly: Vec<Sc> = Vec::new();
    proof {
        use_type_invariant(u_i);
        Sc::lemma_inv(*u_i);
    }
    poly.push(*u_i);
    let mut k: usize = 0;
    while k < coeffs.len()
        invariant
            k <= coeffs@.len(),
            coeffs@ == old(coeffs)@,
            poly@.len() == k + 1,
            poly@[0] == *u_i,
            forall|i: int| 0 <= i < k ==> poly@[i + 1] == coeffs@[i],
            forall|i: int| 0 <= i < poly@.len() ==> (#[trigger] poly@[i].val()) < group_order(),
        decreases coeffs@.len() - k,
    {
        let cv = coeffs[k];
        proof {
            use_type_invariant(&cv);
            Sc::lemma_inv(cv);
        }
        poly.push(cv);
        k += 1;
    }
    let ghost cs = seq![u_i.val()] + sc_vals(old(coeffs)@);
    proof {
        assert(sc_vals(poly@) =~= cs);
        assert(forall|i: int| 0 <= i < cs.len() ==> (#[trigger] cs[i]) < group_order());
    }

    // commit to every coefficient
    let mut coms: Vec<Pt> = Vec::new();
    let mut j: usize = 0;
    while j < poly.len()
        invariant
            j <= poly@.len(),
            sc_vals(poly@) == cs,
            poly@.len() == th,
            coms@.len() == j,
            forall|i: int| 0 <= i < cs.len() ==> (#[trigger] cs[i]) < group_order(),
            forall|i: int| 0 <= i < j ==> #[trigger] coms@[i]@ == pt_base(cs[i]),
        decreases poly@.len() - j,
    {
        let c = poly[j];
        proof {
            use_type_invariant(&c);
            Sc::lemma_inv(c);
            assert(cs[j as int] == poly@[j as int].val());
        }
        let gc = Pt::base_mul(&c);
        coms.push(gc);
        proof {
            assert(coms@[j as int] == gc);
            assert(coms@[j as int]@ == pt_base(cs[j as int]));
            assert(forall|i: int| 0 <= i < j ==> #[trigger] coms@[i]@ == pt_base(cs[i]));
        }
        j += 1;
    }

    // one share per member: the polynomial at the member id
    let mut shares: Vec<Sc> = Vec::new();
    let mut i: usize = 0;
    while i < members.len()
        invariant
            i <= members@.len(),
            sc_vals(poly@) == cs,
            shares@.len() == i,
            forall|k2: int|
                0 <= k2 < i ==> #[trigger] shares@[k2].val() == poly_eval(
                    cs,
                    members@[k2].spec_member_id() as nat,
                ),
        decreases members@.len() - i,
    {
        let x = Sc::from_u64(members[i].member_id() as u64);
        let y = eval_poly(&poly, &x);
        shares.push(y);
        i += 1;
    }

    // blinding coefficients must not outlive the dealing
    zeroize_all(coeffs);
    zeroize_all(&mut poly);
    proof {
        assert(pts_view(coms@).len() == cs.len());
        assert forall|i2: int| 0 <= i2 < cs.len() implies cs[i2] < group_order() && pts_view(
            coms@,
        )[i2] == pt_base(cs[i2]) by {
            assert(pts_view(coms@)[i2] == coms@[i2]@);
        }
        assert(coms_commit(pts_view(coms@), cs));
    }
    Ok((coms, shares))
}

/// Deal shares of `u_i` with freshly sampled blinding coefficients: the
/// commitment vector has length `th` and every member's share lies on the
/// committed polynomial, whose constant term is `u_i`.
pub fn generate_vss_share(u_i: &Sc, my_id: MpcAddr, members: &Vec<MpcAddr>, th: usize) -> (r:
    Result<(Vec<Pt>, Vec<Sc>), MpcError>)
    requires
        th >= 1,
    ensures
        r is Ok <==> vss_config_ok(my_id, members@, th as int),
        r is Err ==> r == Err::<(Vec<Pt>, Vec<Sc>), MpcError>(MpcError::ConfigError),
        r is Ok ==> exists|cs: Seq<nat>|
            #![trigger coms_commit(pts_view(r.unwrap().0@), cs)]
            cs.len() == th && cs[0] == u_i.val() && coms_commit(pts_view(r.unwrap().0@), cs)
                && r.unwrap().0@.len() == th && r.unwrap().1@.len() == members@.len() && (forall|
            i: int,
        |
                0 <= i < members@.len() ==> (#[trigger] r.unwrap().1@[i]).val() == poly_eval(
                    cs,
                    members@[i].spec_member_id() as nat,
                )),
{
    let mut coeffs: Vec<Sc> = Vec::new();
    let mut k: usize = 0;
    while k < th - 1
        invariant
            k <= th - 1,
            coeffs@.len() == k,
        decreases th - 1 - k,
    {
        coeffs.push(Sc::random());
        k += 1;
    }
    let ghost cs0 = seq![u_i.val()] + sc_vals(coeffs@);
    let r = generate_vss_share_with(u_i, my_id, members, th, &mut coeffs);
    proof {
        if r is Ok {
            assert(cs0.len() == th);
            assert(cs0[0] == u_i.val());
            assert(coms_commit(pts_view(r.unwrap().0@), cs0));
        }
    }
    r
}

/// Verify every received share against its sender's commitment vector and
/// sum them into the signing key `x_i`.  The shares, commitments and
/// members are aligned; the offender reported is the first member whose
/// share fails.
pub fn merge_vss_share(
    party_shares: &Vec<Sc>,
    share_coms: &Vec<Vec<Pt>>,
    members: &Vec<MpcAddr>,
    my_id: MpcAddr,
) -> (r: Result<Sc, MpcError>)
    requires
        party_shares@.len() == members@.len(),
        share_coms@.len() == members@.len(),
    ensures
        r is Ok <==> (forall|j: int|
            0 <= j < members@.len() ==> pt_base((#[trigger] party_shares@[j]).val())
                == polycom_eval(
                pts_view(share_coms@[j]@),
                my_id.spec_member_id() as nat,
            )),
        r is Ok ==> r.unwrap().val() == crate::shard::sum_vals(
            sc_vals(party_shares@),
            party_shares@.len() as int,
        ),
        r is Err ==> exists|j: int|
            0 <= j < members@.len() && r == Err::<Sc, MpcError>(
                MpcError::InvalidShare(members@[j].spec_raw()),
            ) && pt_base(party_shares@[j].val()) != polycom_eval(
                pts_view(share_coms@[j]@),
                my_id.spec_member_id() as nat,
            ),
{
    let mut j: usize = 0;
    while j < members.len()
        invariant
            j <= members@.len(),
            party_shares@.len() == members@.len(),
            share_coms@.len() == members@.len(),
            forall|k: int|
                0 <= k < j ==> pt_base((#[trigger] party_shares@[k]).val()) == polycom_eval(
                    pts_view(share_coms@[k]@),
                    my_id.spec_member_id() as nat,
                ),
        decreases members@.len() - j,
    {
        match verify_vss_share(my_id, &party_shares[j], &share_coms[j]) {
            Ok(()) => {},
            Err(_) => {
                return Err(MpcError::InvalidShare(members[j].as_primitive()));
            },
        }
        j += 1;
    }
    let mut x_i = Sc::zero();
    let mut k: usize = 0;
    while k < party_shares.len()
        invariant
            k <= party_shares@.len(),
            x_i.val() == crate::shard::sum_vals(sc_vals(party_shares@), k as int),
        decreases party_shares@.len() - k,
    {
        x_i = Sc::sc_add(&x_i, &party_shares[k]);
        k += 1;
    }
    Ok(x_i)
}

/// The sum of all members' commitment polynomials at `x`, over compressed
/// encodings: the public key share `x_i * B` of member `x`, computed
/// without knowing `x_i`.
pub open spec fn xi_com_of(coms: Seq<Seq<Seq<u8>>>, x: nat, n: int) -> Seq<u8>
    decreases n,
{
    if n <= 0 {
        pt_base(0)
    } else {
        pt_add(xi_com_of(coms, x, n - 1), polycom_eval(coms[n - 1], x))
    }
}

/// The views of a list of commitment vectors.
pub open spec fn grids_view(coms: Seq<Vec<Pt>>) -> Seq<Seq<Seq<u8>>> {
    coms.map_values(|v: Vec<Pt>| pts_view(v@))
}

/// A list of commitment vectors is the basepoint image of a list of
/// coefficient vectors, dealer by dealer.
pub open spec fn grid_commits(grids: Seq<Seq<Seq<u8>>>, css: Seq<Seq<nat>>) -> bool {
    &&& grids.len() == css.len()
    &&& forall|k: int| 0 <= k < css.len() ==> coms_commit(#[trigger] grids[k], css[k])
}

/// A member's signing share as dealt: all dealers' polynomials summed at
/// the member id, modulo the group order.
pub open spec fn xi_val(css: Seq<Seq<nat>>, x: nat, n: int) -> nat
    decreases n,
{
    if n <= 0 {
        0
    } else {
        add_mod(xi_val(css, x, n - 1), poly_eval(css[n - 1], x))
    }
}

/// Partial share sums stay below the group order.
pub proof fn lemma_xi_val_bound(css: Seq<Seq<nat>>, x: nat, n: int)
    ensures
        xi_val(css, x, n) < group_order(),
{
    if n > 0 {
        lemma_mod_bound(
            (xi_val(css, x, n - 1) + poly_eval(css[n - 1], x)) as int,
            group_order() as int,
        );
    }
}

/// Evaluate `x_i * B` for member `index` from all members' commitment
/// vectors, without knowing `x_i`.  On a grid that commits to the dealers'
/// coefficients, the result is the basepoint image of the member's dealt
/// signing share.
pub fn eval_xi_com(index: MpcAddr, vss_coms: &Vec<Vec<Pt>>) -> (r: Pt)
    ensures
        r@ == xi_com_of(grids_view(vss_coms@), index.spec_member_id() as nat, vss_coms@.len() as int),
        forall|css: Seq<Seq<nat>>|
            #![trigger grid_commits(grids_view(vss_coms@), css)]
            grid_commits(grids_view(vss_coms@), css) ==> r@ == pt_base(
                xi_val(css, index.spec_member_id() as nat, vss_coms@.len() as int),
            ),
{
    let ghost mid = index.spec_member_id() as nat;
    let x = Sc::from_u64(index.member_id() as u64);
    let mut acc = Pt::identity();
    let mut j: usize = 0;
    while j < vss_coms.len()
        invariant
            j <= vss_coms@.len(),
            mid == index.spec_member_id() as nat,
            x.val() == mid,
            acc@ == xi_com_of(grids_view(vss_coms@), mid, j as int),
            forall|css: Seq<Seq<nat>>|
                #![trigger grid_commits(grids_view(vss_coms@), css)]
                grid_commits(grids_view(vss_coms@), css) ==> acc@ == pt_base(
                    xi_val(css, mid, j as int),
                ),
        decreases vss_coms@.len() - j,
    {
        let ghost acc_old = acc;
        let e = eval_polycom(&vss_coms[j], &x);
        acc = Pt::pt_add_pt(&acc, &e);
        proof {
            assert forall|css: Seq<Seq<nat>>| #[trigger]
                grid_commits(grids_view(vss_coms@), css) implies acc@ == pt_base(
                xi_val(css, mid, j + 1),
            ) by {
                assert(grids_view(vss_coms@)[j as int] == pts_view(vss_coms@[j as int]@));
                assert(coms_commit(pts_view(vss_coms@[j as int]@), css[j as int]));
                assert(e@ == pt_base(poly_eval(css[j as int], mid)));
                lemma_poly_eval_bound(css[j as int], mid);
                lemma_xi_val_bound(css, mid, j as int);
                assert(acc_old@ == pt_base(xi_val(css, mid, j as int)));
            }
        }
        j += 1;
    }
    acc
}

/// Split a scalar into `count` random summands: the parts sum to the whole
/// modulo the group order.
pub fn scalar_split(num: &Sc, count: usize) -> (r: Vec<Sc>)
    requires
        count >= 1,
    ensures
        r@.len() == count,
        crate::shard::sum_vals(sc_vals(r@), r@.len() as int) == num.val() % group_order(),
{
    let mut partition: Vec<Sc> = Vec::new();
    let mut partial = Sc::zero();
    let mut j: usize = 0;
    while j < count - 1
        invariant
            j <= count - 1,
            partition@.len() == j,
            partial.val() == crate::shard::sum_vals(sc_vals(partition@), j as int),
        decreases count - 1 - j,
    {
        let s = Sc::random();
        let ghost old_p = partition@;
        partition.push(s);
        proof {
            crate::shard::lemma_sum_vals_prefix(sc_vals(partition@), sc_vals(old_p), j as int);
        }
        partial = Sc::sc_add(&partial, &s);
        j += 1;
    }
    let last = Sc::sc_sub(num, &partial);
    let ghost old_p = partition@;
    partition.push(last);
    proof {
        crate::shard::lemma_sum_vals_prefix(sc_vals(partition@), sc_vals(old_p), (count - 1) as int);
        use_type_invariant(num);
        Sc::lemma_inv(*num);
        use_type_invariant(&partial);
        Sc::lemma_inv(partial);
        crate::scalar::lemma_sub_then_add(num.val(), partial.val());
        vstd::arithmetic::div_mod::lemma_small_mod(num.val(), group_order());
    }
    partition
}

/// What a valid dealing configuration is: the dealer among the members, all
/// members in the dealer's group with nonzero member ids, and a threshold
/// between 1 and the member count.
pub open spec fn vss_config_ok(my_id: MpcAddr, members: Seq<MpcAddr>, th: int) -> bool {
    &&& members.contains(my_id)
    &&& forall|i: int|
        0 <= i < members.len() ==> (#[trigger] members[i]).spec_group_id()
            == my_id.spec_group_id() && members[i].spec_member_id() != 0
    &&& 1 <= th <= members.len()
}

/// Decide `vss_config_ok` executably.
pub fn vss_config_check(my_id: MpcAddr, members: &Vec<MpcAddr>, th: usize) -> (r: bool)
    ensures
        r == vss_config_ok(my_id, members@, th as int),
{
    if th < 1 || th > members.len() {
        return false;
    }
    let mut found = false;
    let mut i: usize = 0;
    while i < members.len()
        invariant
            i <= members@.len(),
            found <==> exists|k: int| 0 <= k < i && members@[k] == my_id,
            forall|k: int|
                0 <= k < i ==> (#[trigger] members@[k]).spec_group_id() == my_id.spec_group_id()
                    && members@[k].spec_member_id() != 0,
        decreases members@.len() - i,
    {
        let m = members[i];
        if m.group_id() != my_id.group_id() || m.member_id() == 0 {
            return false;
        }
        if m.raw == my_id.raw {
            proof {
                assert(members@[i as int] == my_id);
            }
            found = true;
        }
        i += 1;
    }
    found
}

/// Overwrite every scalar in a vector with zeros.
pub fn zeroize_all(v: &mut Vec<Sc>)
    ensures
        final(v)@.len() == old(v)@.len(),
        forall|i: int| 0 <= i < final(v)@.len() ==> #[trigger] final(v)@[i].val() == 0,
{
    let mut i: usize = 0;
    while i < v.len()
        invariant
            i <= v@.len(),
            v@.len() == old(v)@.len(),
            forall|k: int| 0 <= k < i ==> #[trigger] v@[k].val() == 0,
        decreases v@.len() - i,
    {
        let z = Sc::zero();
        v.set(i, z);
        i += 1;
    }
}

} // verus!

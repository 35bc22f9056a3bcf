//! The keystore: per-group secrets and the grid of public commitments.
//!
//! A logical key may be split across several `(group, threshold)` subgroups.
//! The keystore holds, per owned group, the party's secret contribution and
//! signing share, and, per group of the architecture, every member's VSS
//! commitment vector.  The joint public key is the sum of all constant-term
//! commitments across the grid.

use vstd::prelude::*;

use crate::addr::MpcAddr;
use crate::errors::MpcError;
use crate::point::{pt_add, pt_base, Pt};
use crate::scalar::{add_mod, group_order, Sc};
use crate::vss::pts_view;

verus! {

/// The commitment vectors of one group, aligned with its sorted member list.
pub struct GroupCommits {
    pub gid: u16,
    pub members: Vec<MpcAddr>,
    pub coms: Vec<Vec<Pt>>,
}

/// The local secrets of one owned group.
pub struct OwnShare {
    pub my_id: MpcAddr,
    pub u_i: Sc,
    pub x_i: Sc,
}

/// A keystore spanning one or more groups.
pub struct MultiShard {
    pub own: Vec<OwnShare>,
    pub grid: Vec<GroupCommits>,
    pub aux: Option<Vec<u8>>,
}

/// A strictly ascending address list.
pub open spec fn addrs_sorted(s: Seq<MpcAddr>) -> bool {
    forall|i: int, j: int| 0 <= i < j < s.len() ==> s[i].spec_raw() < s[j].spec_raw()
}

impl GroupCommits {
    /// Well-formed: sorted members of this group with nonzero member ids,
    /// one commitment vector per member, all of the group's threshold
    /// length.
    pub open spec fn wf(&self) -> bool {
        &&& self.members@.len() >= 1
        &&& addrs_sorted(self.members@)
        &&& forall|i: int|
            0 <= i < self.members@.len() ==> (#[trigger] self.members@[i]).spec_group_id()
                == self.gid && self.members@[i].spec_member_id() != 0
        &&& self.coms@.len() == self.members@.len()
        &&& self.spec_th() >= 1
        &&& forall|i: int|
            0 <= i < self.coms@.len() ==> (#[trigger] self.coms@[i])@.len() == self.spec_th()
    }

    /// The threshold this group was dealt with: the commitment length.
    pub open spec fn spec_th(&self) -> int {
        self.coms@[0]@.len() as int
    }

    /// The constant-term commitments of this group, one per member.
    pub open spec fn c0s(&self) -> Seq<Seq<u8>> {
        Seq::new(self.coms@.len() as nat, |i: int| self.coms@[i]@[0]@)
    }
}

/// The concatenated constant-term commitments of a grid prefix.
pub open spec fn c0s_of(grid: Seq<GroupCommits>, n: int) -> Seq<Seq<u8>>
    decreases n,
{
    if n <= 0 {
        Seq::<Seq<u8>>::empty()
    } else {
        c0s_of(grid, n - 1) + grid[n - 1].c0s()
    }
}

/// The left-to-right sum of a list of points, over compressed encodings,
/// starting from the identity.
pub open spec fn sum_pts(ps: Seq<Seq<u8>>, n: int) -> Seq<u8>
    decreases n,
{
    if n <= 0 {
        pt_base(0)
    } else {
        pt_add(sum_pts(ps, n - 1), ps[n - 1])
    }
}

/// The sum modulo the group order of a list of values.
pub open spec fn sum_vals(us: Seq<nat>, n: int) -> nat
    decreases n,
{
    if n <= 0 {
        0
    } else {
        add_mod(sum_vals(us, n - 1), us[n - 1])
    }
}

/// A list of points is the basepoint image of a list of values.
pub open spec fn pts_commit(ps: Seq<Seq<u8>>, us: Seq<nat>) -> bool {
    &&& ps.len() == us.len()
    &&& forall|j: int| 0 <= j < us.len() ==> us[j] < group_order() && ps[j] == pt_base(us[j])
}

/// Sum a list of points.  On basepoint images the result is the basepoint
/// image of the sum of the discrete logarithms: every party that sums the
/// same constant-term commitments computes the same joint public key
/// `sum(C_0) = (sum u_j) * B`.
pub fn sum_points(ps: &Vec<Pt>) -> (r: Pt)
    ensures
        r@ == sum_pts(pts_view(ps@), ps@.len() as int),
        forall|us: Seq<nat>|
            #![trigger pts_commit(pts_view(ps@), us)]
            pts_commit(pts_view(ps@), us) ==> r@ == pt_base(sum_vals(us, us.len() as int)),
{
    let ghost v = pts_view(ps@);
    let mut acc = Pt::identity();
    let mut k: usize = 0;
    while k < ps.len()
        invariant
            k <= ps@.len(),
            v == pts_view(ps@),
            acc@ == sum_pts(v, k as int),
            forall|us: Seq<nat>|
                #![trigger pts_commit(v, us)]
                pts_commit(v, us) ==> acc@ == pt_base(sum_vals(us, k as int)),
        decreases ps@.len() - k,
    {
        let ghost acc_old = acc;
        acc = Pt::pt_add_pt(&acc, &ps[k]);
        proof {
            assert forall|us: Seq<nat>| #[trigger] pts_commit(v, us) implies acc@ == pt_base(
                sum_vals(us, k + 1),
            ) by {
                lemma_sum_vals_bound(us, k as int);
                assert(acc_old@ == pt_base(sum_vals(us, k as int)));
                assert(v[k as int] == pt_base(us[k as int]));
            }
        }
        k += 1;
    }
    acc
}

/// The partial sum reads only the prefix: equal prefixes, equal sums.
pub proof fn lemma_sum_vals_prefix(a: Seq<nat>, b: Seq<nat>, n: int)
    requires
        forall|i: int| 0 <= i < n ==> a[i] == b[i],
    ensures
        sum_vals(a, n) == sum_vals(b, n),
    decreases n,
{
    if n > 0 {
        lemma_sum_vals_prefix(a, b, n - 1);
    }
}

/// Partial sums stay below the group order.
proof fn lemma_sum_vals_bound(us: Seq<nat>, n: int)
    ensures
        sum_vals(us, n) < group_order(),
{
    if n <= 0 {
    } else {
        vstd::arithmetic::div_mod::lemma_mod_bound(
            (sum_vals(us, n - 1) + us[n - 1]) as int,
            group_order() as int,
        );
    }
}

/// Index of the group with the given id, if present.
pub open spec fn find_gid(grid: Seq<GroupCommits>, gid: u16) -> Option<int> {
    if exists|i: int| 0 <= i < grid.len() && grid[i].gid == gid {
        Some(choose|i: int| 0 <= i < grid.len() && grid[i].gid == gid)
    } else {
        None
    }
}

impl MultiShard {
    /// Well-formed: groups ascending by id and each well-formed; owned
    /// shares ascending, each belonging to a present group.
    pub open spec fn wf(&self) -> bool {
        &&& forall|i: int, j: int|
            0 <= i < j < self.grid@.len() ==> (#[trigger] self.grid@[i]).gid < (
            #[trigger] self.grid@[j]).gid
        &&& forall|i: int| 0 <= i < self.grid@.len() ==> (#[trigger] self.grid@[i]).wf()
        &&& forall|i: int, j: int|
            0 <= i < j < self.own@.len() ==> (#[trigger] self.own@[i]).my_id.spec_raw() < (
            #[trigger] self.own@[j]).my_id.spec_raw()
        &&& forall|i: int|
            0 <= i < self.own@.len() ==> find_gid(
                self.grid@,
                (#[trigger] self.own@[i]).my_id.spec_group_id(),
            ) is Some
    }

    /// An empty keystore.
    pub fn new() -> (r: MultiShard)
        ensures
            r.own@.len() == 0,
            r.grid@.len() == 0,
            r.aux is None,
            r.wf(),
    {
        MultiShard { own: Vec::new(), grid: Vec::new(), aux: None }
    }

    /// Find the position of a group in the grid.
    pub fn find_group(&self, gid: u16) -> (r: Option<usize>)
        ensures
            r is Some <==> find_gid(self.grid@, gid) is Some,
            r is Some ==> 0 <= r.unwrap() < self.grid@.len() && self.grid@[
                r.unwrap() as int
            ].gid == gid,
    {
        let mut i: usize = 0;
        while i < self.grid.len()
            invariant
                i <= self.grid@.len(),
                forall|k: int| 0 <= k < i ==> (#[trigger] self.grid@[k]).gid != gid,
            decreases self.grid@.len() - i,
        {
            if self.grid[i].gid == gid {
                return Some(i);
            }
            i += 1;
        }
        None
    }

    /// The threshold of one group: the length of its commitment vectors.
    /// Fails when the group is unknown.
    pub fn th(&self, gid: u16) -> (r: Result<usize, MpcError>)
        requires
            self.wf(),
        ensures
            r is Ok <==> find_gid(self.grid@, gid) is Some,
            r is Ok ==> exists|i: int|
                0 <= i < self.grid@.len() && (#[trigger] self.grid@[i]).gid == gid && r.unwrap()
                    == self.grid@[i].spec_th(),
            r is Err ==> r == Err::<usize, MpcError>(MpcError::ConfigError),
    {
        match self.find_group(gid) {
            Some(i) => Ok(self.grid[i].coms[0].len()),
            None => Err(MpcError::ConfigError),
        }
    }

    /// The flat list of constant-term commitments across the grid, in grid
    /// order.
    pub fn all_c0s(&self) -> (r: Vec<Pt>)
        requires
            self.wf(),
        ensures
            pts_view(r@) == c0s_of(self.grid@, self.grid@.len() as int),
    {
        let mut out: Vec<Pt> = Vec::new();
        let mut g: usize = 0;
        proof {
            assert(pts_view(out@) =~= c0s_of(self.grid@, 0));
        }
        while g < self.grid.len()
            invariant
                g <= self.grid@.len(),
                self.wf(),
                pts_view(out@) == c0s_of(self.grid@, g as int),
            decreases self.grid@.len() - g,
        {
            let group = &self.grid[g];
            let mut m: usize = 0;
            while m < group.coms.len()
                invariant
                    m <= group.coms@.len(),
                    self.wf(),
                    group == self.grid@[g as int],
                    0 <= g < self.grid@.len(),
                    pts_view(out@) == c0s_of(self.grid@, g as int) + group.c0s().take(m as int),
                decreases group.coms@.len() - m,
            {
                proof {
                    assert(self.grid@[g as int].wf());
                    assert(group.coms@[m as int]@.len() >= 1);
                }
                let c0 = group.coms[m][0];
                let ghost out_old = out@;
                out.push(c0);
                proof {
                    assert(c0@ == group.c0s()[m as int]);
                    assert(pts_view(out@) =~= pts_view(out_old).push(c0@));
                    assert(group.c0s().take(m + 1) =~= group.c0s().take(m as int).push(
                        group.c0s()[m as int],
                    ));
                    assert(pts_view(out_old).push(c0@) =~= c0s_of(self.grid@, g as int)
                        + group.c0s().take(m + 1));
                }
                m += 1;
            }
            proof {
                assert(group.c0s().take(group.coms@.len() as int) =~= group.c0s());
                assert(pts_view(out@) =~= c0s_of(self.grid@, g as int + 1));
            }
            g += 1;
        }
        out
    }

    /// The joint public key: the sum of every member's constant-term
    /// commitment across the grid.  Two keystores with the same grid
    /// compute the same public key.
    pub fn pk(&self) -> (r: Pt)
        requires
            self.wf(),
        ensures
            r@ == sum_pts(
                c0s_of(self.grid@, self.grid@.len() as int),
                c0s_of(self.grid@, self.grid@.len() as int).len() as int,
            ),
            forall|us: Seq<nat>|
                #![trigger pts_commit(c0s_of(self.grid@, self.grid@.len() as int), us)]
                pts_commit(c0s_of(self.grid@, self.grid@.len() as int), us) ==> r@ == pt_base(
                    sum_vals(us, us.len() as int),
                ),
    {
        let c0s = self.all_c0s();
        sum_points(&c0s)
    }
}

/// The keystore under its wire-level name.
pub type KeyStore = MultiShard;

/// The flat constant-term list depends only on the commitment contents.
proof fn lemma_c0s_of_eq(a: Seq<GroupCommits>, b: Seq<GroupCommits>, n: int)
    requires
        n <= a.len(),
        a.len() == b.len(),
        forall|g: int| 0 <= g < a.len() ==> (#[trigger] a[g]).coms@.len() == b[g].coms@.len(),
        forall|g: int, m: int|
            0 <= g < a.len() && 0 <= m < a[g].coms@.len() ==> (#[trigger] a[g].coms@[m])@ == b[
                g
            ].coms@[m]@,
    ensures
        c0s_of(a, n) == c0s_of(b, n),
    decreases n,
{
    if n > 0 {
        lemma_c0s_of_eq(a, b, n - 1);
        assert(a[n - 1].c0s() =~= b[n - 1].c0s());
    }
}

/// Keystores whose grids carry the same commitments, position by position,
/// compute the same joint public key: every honest party that validated
/// the same proposed commitments derives the same key.
pub proof fn lemma_pk_agreement(a: MultiShard, b: MultiShard)
    requires
        a.grid@.len() == b.grid@.len(),
        forall|g: int|
            0 <= g < a.grid@.len() ==> (#[trigger] a.grid@[g]).coms@.len() == b.grid@[
                g
            ].coms@.len(),
        forall|g: int, m: int|
            0 <= g < a.grid@.len() && 0 <= m < a.grid@[g].coms@.len() ==> (#[trigger] a.grid@[
                g
            ].coms@[m])@ == b.grid@[g].coms@[m]@,
    ensures
        sum_pts(
            c0s_of(a.grid@, a.grid@.len() as int),
            c0s_of(a.grid@, a.grid@.len() as int).len() as int,
        ) == sum_pts(
            c0s_of(b.grid@, b.grid@.len() as int),
            c0s_of(b.grid@, b.grid@.len() as int).len() as int,
        ),
{
    lemma_c0s_of_eq(a.grid@, b.grid@, a.grid@.len() as int);
}

} // verus!

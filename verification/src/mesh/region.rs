//! How ranks are laid out: labelled dimensions, and regions within them.

use crate::text::{same, texts};
use vstd::prelude::*;

verus! {

/// A labelled dimension.
#[derive(Debug)]
pub struct Axis {
    pub label: String,
    pub size: usize,
}

/// The mathematical value of an `Axis`.
pub struct AxisModel {
    pub label: Seq<char>,
    pub size: usize,
}

impl View for Axis {
    type V = AxisModel;

    open spec fn view(&self) -> AxisModel {
        AxisModel { label: self.label@, size: self.size }
    }
}

impl Clone for Axis {
    fn clone(&self) -> (c: Axis)
        ensures
            c == *self,
    {
        Axis { label: self.label.clone(), size: self.size }
    }
}

/// A labelled dimension of a region: how many steps it has, and how far apart
/// they are.
#[derive(Debug)]
pub struct Dim {
    pub label: String,
    pub size: usize,
    pub stride: usize,
}

/// The mathematical value of a `Dim`.
pub struct DimModel {
    pub label: Seq<char>,
    pub size: usize,
    pub stride: usize,
}

impl View for Dim {
    type V = DimModel;

    open spec fn view(&self) -> DimModel {
        DimModel { label: self.label@, size: self.size, stride: self.stride }
    }
}

impl Clone for Dim {
    fn clone(&self) -> (c: Dim)
        ensures
            c == *self,
    {
        Dim { label: self.label.clone(), size: self.size, stride: self.stride }
    }
}

/// A size, or one where it is zero.
pub open spec fn at_least_one(size: usize) -> nat {
    if size == 0 {
        1
    } else {
        size as nat
    }
}

/// How many ranks the dimensions have together.
pub open spec fn count(dims: Seq<DimModel>) -> nat
    decreases dims.len(),
{
    if dims.len() == 0 {
        1
    } else {
        count(dims.drop_last()) * dims.last().size as nat
    }
}

/// How many ranks they have, were none of them empty.
pub open spec fn room(dims: Seq<DimModel>) -> nat
    decreases dims.len(),
{
    if dims.len() == 0 {
        1
    } else {
        room(dims.drop_last()) * at_least_one(dims.last().size)
    }
}

/// The furthest rank.
pub open spec fn furthest(offset: nat, dims: Seq<DimModel>) -> nat
    decreases dims.len(),
{
    if dims.len() == 0 {
        offset
    } else {
        furthest(offset, dims.drop_last()) + (at_least_one(dims.last().size) - 1) as nat * dims.last().stride as nat
    }
}

/// Where the rank number `i` of a region lies. The last dimension runs fastest.
pub open spec fn place(i: nat, offset: nat, dims: Seq<DimModel>) -> nat
    decreases dims.len(),
{
    if dims.len() == 0 || dims.last().size == 0 {
        offset
    } else {
        place(i / dims.last().size as nat, offset, dims.drop_last()) + (i % dims.last().size as nat)
            * dims.last().stride as nat
    }
}

/// The mathematical value of a `Region`.
pub struct RegionModel {
    pub offset: usize,
    pub dims: Seq<DimModel>,
}

impl RegionModel {
    /// Whether all of its ranks can be numbered.
    pub open spec fn fits(self) -> bool {
        room(self.dims) <= usize::MAX && furthest(self.offset as nat, self.dims) <= usize::MAX
    }

    /// How many ranks it has.
    pub open spec fn num_ranks(self) -> nat {
        count(self.dims)
    }

    /// Where its rank number `i` lies.
    pub open spec fn rank(self, i: nat) -> nat {
        place(i, self.offset as nat, self.dims)
    }

    /// The labels of its dimensions.
    pub open spec fn labels(self) -> Seq<Seq<char>> {
        self.dims.map_values(|d: DimModel| d.label)
    }

    /// The number under which a rank lies in it, the first where there is more
    /// than one.
    pub open spec fn is_number_of(self, i: nat, rank: nat) -> bool {
        &&& i < self.num_ranks()
        &&& self.rank(i) == rank
        &&& forall|j: nat| j < i ==> #[trigger] self.rank(j) != rank
    }

    /// Whether a rank lies in it.
    pub open spec fn holds(self, rank: nat) -> bool {
        exists|i: nat| i < self.num_ranks() && #[trigger] self.rank(i) == rank
    }

    /// Whether all ranks of another region lie in it.
    pub open spec fn covers(self, other: RegionModel) -> bool {
        forall|j: nat| j < other.num_ranks() ==> self.holds(#[trigger] other.rank(j))
    }
}

/// A region: some of the ranks of a mesh.
#[derive(Debug)]
pub struct Region {
    pub offset: usize,
    pub dims: Vec<Dim>,
}

/// The dimensions of a region.
pub open spec fn dim_models(dims: Seq<Dim>) -> Seq<DimModel> {
    dims.map_values(|d: Dim| d@)
}

impl View for Region {
    type V = RegionModel;

    open spec fn view(&self) -> RegionModel {
        RegionModel { offset: self.offset, dims: dim_models(self.dims@) }
    }
}

proof fn lemma_count_bounded(dims: Seq<DimModel>)
    ensures
        count(dims) <= room(dims),
        room(dims) >= 1,
    decreases dims.len(),
{
    if dims.len() > 0 {
        lemma_count_bounded(dims.drop_last());
        let c = count(dims.drop_last());
        let r = room(dims.drop_last());
        let s = dims.last().size as nat;
        let t = at_least_one(dims.last().size);
        assert(c * s <= r * t) by (nonlinear_arith)
            requires
                c <= r,
                s <= t,
        ;
        assert(r * t >= 1) by (nonlinear_arith)
            requires
                r >= 1,
                t >= 1,
        ;
    }
}

proof fn lemma_room_prefix(dims: Seq<DimModel>, n: int)
    requires
        0 <= n <= dims.len(),
    ensures
        room(dims.take(n)) <= room(dims),
    decreases dims.len(),
{
    if n == dims.len() {
        assert(dims.take(n) =~= dims);
    } else {
        lemma_room_prefix(dims.drop_last(), n);
        assert(dims.drop_last().take(n) =~= dims.take(n));
        let r = room(dims.drop_last());
        let t = at_least_one(dims.last().size);
        assert(r <= r * t) by (nonlinear_arith)
            requires
                t >= 1,
        ;
    }
}

proof fn lemma_furthest_prefix(offset: nat, dims: Seq<DimModel>, n: int)
    requires
        0 <= n <= dims.len(),
    ensures
        furthest(offset, dims.take(n)) <= furthest(offset, dims),
    decreases dims.len(),
{
    if n == dims.len() {
        assert(dims.take(n) =~= dims);
    } else {
        lemma_furthest_prefix(offset, dims.drop_last(), n);
        assert(dims.drop_last().take(n) =~= dims.take(n));
    }
}

/// A rank of a region lies between its first and its furthest.
proof fn lemma_place_bounded(i: nat, offset: nat, dims: Seq<DimModel>)
    requires
        i < count(dims),
    ensures
        offset <= place(i, offset, dims) <= furthest(offset, dims),
    decreases dims.len(),
{
    if dims.len() > 0 {
        let s = dims.last().size as nat;
        let c = count(dims.drop_last());
        assert(s > 0) by {
            if s == 0 {
                assert(c * s == 0) by (nonlinear_arith)
                    requires
                        s == 0,
                ;
            }
        }
        lemma_quotient(i, c, s);
        lemma_place_bounded(i / s, offset, dims.drop_last());
        let stride = dims.last().stride as nat;
        let r = i % s;
        assert(r * stride <= (s - 1) as nat * stride) by (nonlinear_arith)
            requires
                r <= s - 1,
        ;
    }
}

proof fn lemma_quotient(i: nat, c: nat, s: nat)
    requires
        i < c * s,
        s > 0,
    ensures
        i / s < c,
        i % s < s,
        i == (i / s) * s + i % s,
{
    vstd::arithmetic::div_mod::lemma_fundamental_div_mod(i as int, s as int);
    vstd::arithmetic::div_mod::lemma_mod_bound(i as int, s as int);
    let q = i / s;
    let r = i % s;
    assert(s * q == q * s) by (nonlinear_arith);
    assert(q < c) by (nonlinear_arith)
        requires
            q * s + r < c * s,
            s > 0,
            r >= 0,
    ;
}

proof fn lemma_divides(q: nat, s: nat, r: nat)
    requires
        r < s,
    ensures
        (q * s + r) / s == q,
        (q * s + r) % s == r,
{
    vstd::arithmetic::div_mod::lemma_fundamental_div_mod_converse(
        (q * s + r) as int,
        s as int,
        q as int,
        r as int,
    );
}

/// A region further on lies as much further on.
proof fn lemma_place_offset(i: nat, offset: nat, by: nat, dims: Seq<DimModel>)
    requires
        i < count(dims),
    ensures
        place(i, offset + by, dims) == place(i, offset, dims) + by,
    decreases dims.len(),
{
    if dims.len() > 0 {
        let s = dims.last().size as nat;
        let c = count(dims.drop_last());
        assert(s > 0) by {
            if s == 0 {
                assert(c * s == 0) by (nonlinear_arith)
                    requires
                        s == 0,
                ;
            }
        }
        lemma_quotient(i, c, s);
        lemma_place_offset(i / s, offset, by, dims.drop_last());
    }
}

/// Why a dimension cannot be narrowed down.
#[derive(Debug, Clone, Copy, PartialEq, Eq, Structural)]
pub enum RangeError {
    /// There is no such dimension.
    NoSuchLabel,
    /// It has no such step.
    OutOfRange,
}

/// The first dimension of a label.
pub open spec fn first_of(dims: Seq<DimModel>, label: Seq<char>) -> Option<int>
    decreases dims.len(),
{
    if dims.len() == 0 {
        None
    } else if dims[0].label == label {
        Some(0)
    } else {
        match first_of(dims.drop_first(), label) {
            Some(p) => Some(p + 1),
            None => None,
        }
    }
}

/// A region, narrowed down to one step of one dimension.
pub open spec fn narrowed(m: RegionModel, p: int, step: usize) -> RegionModel {
    RegionModel {
        offset: (m.offset + step * m.dims[p].stride) as usize,
        dims: m.dims.update(p, DimModel { size: 1, ..m.dims[p] }),
    }
}

proof fn lemma_first_of(dims: Seq<DimModel>, label: Seq<char>, p: int)
    requires
        0 <= p <= dims.len(),
        forall|k: int| 0 <= k < p ==> (#[trigger] dims[k]).label != label,
    ensures
        p < dims.len() && dims[p].label == label ==> first_of(dims, label) == Some(p),
        p == dims.len() ==> first_of(dims, label) is None,
    decreases p,
{
    if p > 0 {
        let rest = dims.drop_first();
        assert forall|k: int| 0 <= k < p - 1 implies (#[trigger] rest[k]).label != label by {
            assert(dims[k + 1].label != label);
        }
        assert(dims[0].label != label);
        lemma_first_of(rest, label, p - 1);
    }
}

/// The furthest rank of a region is at least as far as any step of a dimension.
proof fn lemma_step_fits(offset: nat, dims: Seq<DimModel>, p: int, step: nat)
    requires
        0 <= p < dims.len(),
        step < dims[p].size,
    ensures
        offset + step * dims[p].stride as nat <= furthest(offset, dims),
        furthest(
            offset + step * dims[p].stride as nat,
            dims.update(p, DimModel { size: 1, ..dims[p] }),
        ) <= furthest(offset, dims),
        room(dims.update(p, DimModel { size: 1, ..dims[p] })) <= room(dims),
    decreases dims.len(),
{
    let stride = dims[p].stride as nat;
    let by = step * stride;
    let less = dims.update(p, DimModel { size: 1, ..dims[p] });
    lemma_furthest_offset(offset, by, less);
    lemma_furthest_prefix(offset, dims, 0);
    assert(dims.take(0) =~= Seq::<DimModel>::empty());
    if p == dims.len() - 1 {
        assert(less.drop_last() =~= dims.drop_last());
        let most = (at_least_one(dims[p].size) - 1) as nat;
        assert(by <= most * stride) by (nonlinear_arith)
            requires
                by == step * stride,
                step <= most,
        ;
        assert((at_least_one(less.last().size) - 1) as nat * stride == 0) by (nonlinear_arith)
            requires
                at_least_one(less.last().size) == 1,
        ;
        lemma_furthest_prefix(offset, dims.drop_last(), 0);
        assert(dims.drop_last().take(0) =~= Seq::<DimModel>::empty());
        let r = room(dims.drop_last());
        let t = at_least_one(dims[p].size);
        assert(r * 1 <= r * t) by (nonlinear_arith)
            requires
                t >= 1,
        ;
    } else {
        let rest = dims.drop_last();
        assert(rest[p] == dims[p]);
        lemma_step_fits(offset, rest, p, step);
        assert(less.drop_last() =~= rest.update(p, DimModel { size: 1, ..rest[p] }));
        assert(less.last() == dims.last());
        lemma_furthest_offset(offset, by, less.drop_last());
        let a = room(less.drop_last());
        let b = room(rest);
        let t = at_least_one(dims.last().size);
        assert(a * t <= b * t) by (nonlinear_arith)
            requires
                a <= b,
        ;
    }
}

proof fn lemma_furthest_offset(offset: nat, by: nat, dims: Seq<DimModel>)
    ensures
        furthest(offset + by, dims) == furthest(offset, dims) + by,
    decreases dims.len(),
{
    if dims.len() > 0 {
        lemma_furthest_offset(offset, by, dims.drop_last());
    }
}

/// The number, in the whole, of a rank of a region that was narrowed down.
proof fn lemma_narrowed_place(i: nat, offset: nat, dims: Seq<DimModel>, p: int, step: nat) -> (whole: nat)
    requires
        0 <= p < dims.len(),
        step < dims[p].size,
        i < count(dims.update(p, DimModel { size: 1, ..dims[p] })),
    ensures
        whole < count(dims),
        place(whole, offset, dims) == place(
            i,
            offset + step * dims[p].stride as nat,
            dims.update(p, DimModel { size: 1, ..dims[p] }),
        ),
    decreases dims.len(),
{
    let stride = dims[p].stride as nat;
    let by = step * stride;
    let less = dims.update(p, DimModel { size: 1, ..dims[p] });
    let s = dims.last().size as nat;
    if p == dims.len() - 1 {
        assert(less.drop_last() =~= dims.drop_last());
        let c = count(dims.drop_last());
        assert(count(less) == c * 1);
        assert(i / 1 == i && i % 1 == 0);
        let whole = i * s + step;
        lemma_divides(i, s, step);
        assert(whole < c * s) by (nonlinear_arith)
            requires
                whole == i * s + step,
                i < c,
                step < s,
        ;
        lemma_place_offset(i, offset, by, dims.drop_last());
        assert(place(i, offset + by, less) == place(i, offset + by, less.drop_last()) + 0 * stride);
        whole
    } else {
        let rest = dims.drop_last();
        let narrow = less.drop_last();
        assert(rest[p] == dims[p]);
        assert(narrow =~= rest.update(p, DimModel { size: 1, ..rest[p] }));
        assert(less.last() == dims.last());
        let c = count(narrow);
        assert(s > 0) by {
            if s == 0 {
                assert(c * s == 0) by (nonlinear_arith)
                    requires
                        s == 0,
                ;
            }
        }
        lemma_quotient(i, c, s);
        let q = lemma_narrowed_place(i / s, offset, rest, p, step);
        let r = i % s;
        let whole = q * s + r;
        lemma_divides(q, s, r);
        let n = count(rest);
        assert(whole < n * s) by (nonlinear_arith)
            requires
                whole == q * s + r,
                q < n,
                r < s,
        ;
        whole
    }
}

/// A region that is narrowed down lies in the whole.
pub proof fn narrowed_is_part(m: RegionModel, p: int, step: usize)
    requires
        m.fits(),
        0 <= p < m.dims.len(),
        step < m.dims[p].size,
    ensures
        narrowed(m, p, step).fits(),
        m.covers(narrowed(m, p, step)),
{
    let n = narrowed(m, p, step);
    lemma_step_fits(m.offset as nat, m.dims, p, step as nat);
    assert(n.offset as nat == m.offset as nat + step as nat * m.dims[p].stride as nat) by {
        assert(step as nat * m.dims[p].stride as nat == step * m.dims[p].stride);
    }
    assert forall|j: nat| j < n.num_ranks() implies m.holds(#[trigger] n.rank(j)) by {
        let whole = lemma_narrowed_place(j, m.offset as nat, m.dims, p, step as nat);
        assert(m.rank(whole) == n.rank(j));
    }
}

/// The step of a dimension at which a rank of the whole lies, and its number
/// there.
proof fn lemma_place_at_step(i: nat, offset: nat, dims: Seq<DimModel>, p: int) -> (at: (nat, nat))
    requires
        0 <= p < dims.len(),
        i < count(dims),
    ensures
        at.0 < dims[p].size,
        at.1 < count(dims.update(p, DimModel { size: 1, ..dims[p] })),
        place(i, offset, dims) == place(
            at.1,
            offset + at.0 * dims[p].stride as nat,
            dims.update(p, DimModel { size: 1, ..dims[p] }),
        ),
    decreases dims.len(),
{
    let stride = dims[p].stride as nat;
    let less = dims.update(p, DimModel { size: 1, ..dims[p] });
    let rest = dims.drop_last();
    let s = dims.last().size as nat;
    let c = count(rest);
    if s == 0 {
        assert(c * s == 0) by (nonlinear_arith)
            requires
                s == 0,
        ;
    }
    lemma_quotient(i, c, s);
    let q = i / s;
    let r = i % s;
    if p == dims.len() - 1 {
        assert(less.drop_last() =~= rest);
        assert(count(less) == c * 1);
        assert(q / 1 == q && q % 1 == 0);
        lemma_place_offset(q, offset, r * stride, rest);
        assert(place(q, offset + r * stride, less) == place(q, offset + r * stride, rest) + 0 * stride);
        (r, q)
    } else {
        let narrow = less.drop_last();
        assert(rest[p] == dims[p]);
        assert(narrow =~= rest.update(p, DimModel { size: 1, ..rest[p] }));
        assert(less.last() == dims.last());
        let (step, j) = lemma_place_at_step(q, offset, rest, p);
        let n = count(narrow);
        let number = j * s + r;
        lemma_divides(j, s, r);
        assert(number < n * s) by (nonlinear_arith)
            requires
                number == j * s + r,
                j < n,
                r < s,
        ;
        (step, number)
    }
}

/// The steps of a dimension make up the whole: each of its ranks lies at one of
/// them.
pub proof fn every_rank_lies_at_a_step(m: RegionModel, p: int, i: nat) -> (at: (usize, nat))
    requires
        m.fits(),
        0 <= p < m.dims.len(),
        i < m.num_ranks(),
    ensures
        at.0 < m.dims[p].size,
        at.1 < narrowed(m, p, at.0).num_ranks(),
        narrowed(m, p, at.0).rank(at.1) == m.rank(i),
{
    let (step, j) = lemma_place_at_step(i, m.offset as nat, m.dims, p);
    lemma_step_fits(m.offset as nat, m.dims, p, step);
    let at = step as usize;
    assert(at as nat * m.dims[p].stride as nat == at * m.dims[p].stride);
    assert(narrowed(m, p, at).offset as nat == m.offset as nat + step * m.dims[p].stride as nat);
    (at, j)
}

/// Two steps of a dimension lie as far apart as their strides make it, rank for
/// rank, and the first begins where the whole does.
pub proof fn steps_lie_a_stride_apart(m: RegionModel, p: int, step: usize, i: nat)
    requires
        m.fits(),
        0 <= p < m.dims.len(),
        step < m.dims[p].size,
        i < narrowed(m, p, step).num_ranks(),
    ensures
        narrowed(m, p, 0).offset == m.offset,
        narrowed(m, p, step).rank(i) == narrowed(m, p, 0).rank(i) + step * m.dims[p].stride,
{
    lemma_step_fits(m.offset as nat, m.dims, p, step as nat);
    let by = step as nat * m.dims[p].stride as nat;
    assert(by == step * m.dims[p].stride);
    assert(0 * m.dims[p].stride == 0);
    lemma_place_offset(i, m.offset as nat, by, narrowed(m, p, 0).dims);
}

/// To narrow a region down leaves its other dimensions and all of its labels as
/// they are, and one step of the one.
pub proof fn narrowing_keeps_the_other_dims(m: RegionModel, p: int, step: usize)
    requires
        0 <= p < m.dims.len(),
    ensures
        narrowed(m, p, step).dims.len() == m.dims.len(),
        narrowed(m, p, step).dims[p].size == 1,
        narrowed(m, p, step).dims[p].stride == m.dims[p].stride,
        narrowed(m, p, step).labels() == m.labels(),
        forall|k: int| 0 <= k < m.dims.len() && k != p ==> #[trigger] narrowed(m, p, step).dims[k] == m.dims[k],
        narrowed(m, p, step).num_ranks() * m.dims[p].size as nat == m.num_ranks(),
{
    assert(narrowed(m, p, step).labels() =~= m.labels());
    lemma_count_at_step(m.dims, p);
}

proof fn lemma_count_at_step(dims: Seq<DimModel>, p: int)
    requires
        0 <= p < dims.len(),
    ensures
        count(dims.update(p, DimModel { size: 1, ..dims[p] })) * dims[p].size as nat == count(dims),
    decreases dims.len(),
{
    let less = dims.update(p, DimModel { size: 1, ..dims[p] });
    let rest = dims.drop_last();
    let t = dims[p].size as nat;
    if p == dims.len() - 1 {
        assert(less.drop_last() =~= rest);
        assert(count(rest) * 1 * t == count(rest) * t) by (nonlinear_arith);
    } else {
        assert(rest[p] == dims[p]);
        lemma_count_at_step(rest, p);
        let narrow = less.drop_last();
        assert(narrow =~= rest.update(p, DimModel { size: 1, ..rest[p] }));
        let c = count(narrow);
        let s = dims.last().size as nat;
        assert((c * s) * t == (c * t) * s) by (nonlinear_arith);
    }
}

/// A dimension is found by its label, the first of those that have it, and
/// wherever there is one.
pub proof fn dims_are_found_by_label(dims: Seq<DimModel>, label: Seq<char>)
    ensures
        first_of(dims, label) matches Some(p) ==> 0 <= p < dims.len() && dims[p].label == label && forall|k: int|
            0 <= k < p ==> (#[trigger] dims[k]).label != label,
        first_of(dims, label) is None <==> forall|k: int| 0 <= k < dims.len() ==> (#[trigger] dims[k]).label != label,
    decreases dims.len(),
{
    if dims.len() > 0 && dims[0].label != label {
        let rest = dims.drop_first();
        dims_are_found_by_label(rest, label);
        if first_of(rest, label) is Some {
            let p = first_of(rest, label)->0;
            assert(dims[p + 1].label == label);
            assert forall|k: int| 0 <= k < p + 1 implies (#[trigger] dims[k]).label != label by {
                if k > 0 {
                    assert(rest[k - 1].label != label);
                }
            }
        } else {
            assert forall|k: int| 0 <= k < dims.len() implies (#[trigger] dims[k]).label != label by {
                if k > 0 {
                    assert(rest[k - 1].label != label);
                }
            }
        }
    }
}

impl Region {
    /// How many ranks there are.
    pub fn num_ranks(&self) -> (n: usize)
        requires
            self@.fits(),
        ensures
            n == self@.num_ranks(),
    {
        let ghost dims = dim_models(self.dims@);
        let mut n: usize = 1;
        let mut k: usize = 0;
        assert(dims.take(0) =~= Seq::<DimModel>::empty());
        while k < self.dims.len()
            invariant
                k <= self.dims@.len(),
                dims == dim_models(self.dims@),
                room(dims) <= usize::MAX,
                n == count(dims.take(k as int)),
            decreases self.dims@.len() - k,
        {
            assert(dims.take(k + 1).drop_last() =~= dims.take(k as int));
            assert(dims.take(k + 1).last() == self.dims@[k as int]@);
            proof {
                lemma_room_prefix(dims, k + 1);
                lemma_count_bounded(dims.take(k + 1));
            }
            n = n * self.dims[k].size;
            k = k + 1;
        }
        assert(dims.take(dims.len() as int) =~= dims);
        n
    }

    /// Where the rank number `i` lies.
    pub fn rank(&self, i: usize) -> (r: usize)
        requires
            self@.fits(),
            i < self@.num_ranks(),
        ensures
            r == self@.rank(i as nat),
    {
        let ghost dims = dim_models(self.dims@);
        let ghost offset = self.offset as nat;
        let mut left: usize = i;
        let mut sum: usize = 0;
        let mut k: usize = self.dims.len();
        assert(dims.take(k as int) =~= dims);
        proof {
            lemma_place_bounded(i as nat, offset, dims);
        }
        while k > 0
            invariant
                k <= self.dims@.len(),
                dims == dim_models(self.dims@),
                offset == self.offset,
                left < count(dims.take(k as int)),
                place(i as nat, offset, dims) == place(left as nat, offset, dims.take(k as int)) + sum,
                place(i as nat, offset, dims) <= usize::MAX,
            decreases k,
        {
            let dim: &Dim = &self.dims[k - 1];
            let ghost now = dims.take(k as int);
            assert(now.drop_last() =~= dims.take(k - 1));
            assert(now.last() == dim@);
            proof {
                let s = dim.size as nat;
                let c = count(now.drop_last());
                if s == 0 {
                    assert(c * s == 0) by (nonlinear_arith)
                        requires
                            s == 0,
                    ;
                }
                lemma_quotient(left as nat, c, s);
                lemma_place_bounded(left as nat / s, offset, now.drop_last());
            }
            let step: usize = left % dim.size;
            let next: usize = left / dim.size;
            assert(step as nat * dim.stride as nat == step * dim.stride);
            sum = sum + step * dim.stride;
            left = next;
            k = k - 1;
        }
        assert(dims.take(0) =~= Seq::<DimModel>::empty());
        self.offset + sum
    }

    /// The number under which a rank lies here, if it does.
    pub fn number_of(&self, rank: usize) -> (r: Option<usize>)
        requires
            self@.fits(),
        ensures
            match r {
                Some(i) => self@.is_number_of(i as nat, rank as nat),
                None => !self@.holds(rank as nat),
            },
    {
        let n: usize = self.num_ranks();
        let mut i: usize = 0;
        while i < n
            invariant
                i <= n,
                n == self@.num_ranks(),
                self@.fits(),
                forall|j: nat| j < i ==> #[trigger] self@.rank(j) != rank,
            decreases n - i,
        {
            if self.rank(i) == rank {
                return Some(i);
            }
            i = i + 1;
        }
        None
    }

    /// The numbers, here, of the ranks of another region; none where one of them
    /// does not lie here.
    pub fn remap(&self, other: &Region) -> (r: Option<Vec<usize>>)
        requires
            self@.fits(),
            other@.fits(),
        ensures
            match r {
                Some(v) => {
                    &&& v@.len() == other@.num_ranks()
                    &&& forall|j: int|
                        0 <= j < v@.len() ==> self@.is_number_of(#[trigger] v@[j] as nat, other@.rank(j as nat))
                },
                None => !self@.covers(other@),
            },
    {
        let n: usize = other.num_ranks();
        let mut v: Vec<usize> = Vec::new();
        while v.len() < n
            invariant
                v@.len() <= n,
                n == other@.num_ranks(),
                self@.fits(),
                other@.fits(),
                forall|j: int| 0 <= j < v@.len() ==> self@.is_number_of(#[trigger] v@[j] as nat, other@.rank(j as nat)),
            decreases n - v@.len(),
        {
            let ghost at = v@.len() as nat;
            match self.number_of(other.rank(v.len())) {
                Some(i) => v.push(i),
                None => {
                    assert(!self@.holds(other@.rank(at)));
                    return None;
                },
            }
        }
        Some(v)
    }

    /// The region narrowed down to one step of the first dimension of that label.
    pub fn range(&self, label: &str, step: usize) -> (r: Result<Region, RangeError>)
        requires
            self@.fits(),
        ensures
            match first_of(self@.dims, label@) {
                Some(p) => if step < self@.dims[p].size {
                    r matches Ok(n) && n@ == narrowed(self@, p, step) && n@.fits() && self@.covers(n@)
                } else {
                    r == Err::<Region, RangeError>(RangeError::OutOfRange)
                },
                None => r == Err::<Region, RangeError>(RangeError::NoSuchLabel),
            },
    {
        let mut p: usize = 0;
        while p < self.dims.len()
            invariant
                p <= self.dims@.len(),
                self@.fits(),
                forall|k: int| 0 <= k < p ==> (#[trigger] self@.dims[k]).label != label@,
            decreases self.dims@.len() - p,
        {
            assert(self@.dims[p as int] == self.dims@[p as int]@);
            if same(self.dims[p].label.as_str(), label) {
                proof {
                    lemma_first_of(self@.dims, label@, p as int);
                }
                if step >= self.dims[p].size {
                    return Err(RangeError::OutOfRange);
                }
                proof {
                    narrowed_is_part(self@, p as int, step);
                    lemma_step_fits(self@.offset as nat, self@.dims, p as int, step as nat);
                    let stride = self@.dims[p as int].stride;
                    assert(step as nat * stride as nat == step * stride);
                }
                let offset: usize = self.offset + step * self.dims[p].stride;
                let mut dims: Vec<Dim> = clone_dims(&self.dims);
                let dim = Dim { label: self.dims[p].label.clone(), size: 1, stride: self.dims[p].stride };
                dims.set(p, dim);
                let n = Region { offset, dims };
                assert(n@.dims =~= narrowed(self@, p as int, step).dims);
                return Ok(n);
            }
            p = p + 1;
        }
        proof {
            lemma_first_of(self@.dims, label@, p as int);
        }
        Err(RangeError::NoSuchLabel)
    }

    /// Whether its ranks can be numbered.
    pub fn is_numbered(&self) -> (r: bool)
        ensures
            r == self@.fits(),
    {
        let ghost dims = dim_models(self.dims@);
        let ghost offset = self.offset as nat;
        let mut n: usize = 1;
        let mut far: usize = self.offset;
        let mut k: usize = 0;
        assert(dims.take(0) =~= Seq::<DimModel>::empty());
        while k < self.dims.len()
            invariant
                k <= self.dims@.len(),
                dims == dim_models(self.dims@),
                offset == self.offset,
                n == room(dims.take(k as int)),
                far == furthest(offset, dims.take(k as int)),
            decreases self.dims@.len() - k,
        {
            let size: usize = if self.dims[k].size == 0 {
                1
            } else {
                self.dims[k].size
            };
            assert(dims.take(k + 1).drop_last() =~= dims.take(k as int));
            assert(dims.take(k + 1).last() == self.dims@[k as int]@);
            proof {
                lemma_room_prefix(dims, k + 1);
                lemma_furthest_prefix(offset, dims, k + 1);
            }
            match n.checked_mul(size) {
                Some(m) => {
                    n = m;
                },
                None => {
                    return false;
                },
            }
            match (size - 1).checked_mul(self.dims[k].stride) {
                Some(d) => match far.checked_add(d) {
                    Some(f) => {
                        far = f;
                    },
                    None => {
                        return false;
                    },
                },
                None => {
                    return false;
                },
            }
            k = k + 1;
        }
        assert(dims.take(dims.len() as int) =~= dims);
        true
    }
}

fn clone_dims(dims: &Vec<Dim>) -> (c: Vec<Dim>)
    ensures
        c@ == dims@,
{
    let mut c: Vec<Dim> = Vec::new();
    let mut i: usize = 0;
    while i < dims.len()
        invariant
            i <= dims@.len(),
            c@ == dims@.take(i as int),
        decreases dims@.len() - i,
    {
        c.push(dims[i].clone());
        i = i + 1;
    }
    c
}

impl Clone for Region {
    fn clone(&self) -> (c: Region)
        ensures
            c@ == self@,
    {
        Region { offset: self.offset, dims: clone_dims(&self.dims) }
    }
}

/// How many ranks the dimensions have together.
pub open spec fn axes_count(axes: Seq<AxisModel>) -> nat
    decreases axes.len(),
{
    if axes.len() == 0 {
        1
    } else {
        axes_count(axes.drop_last()) * axes.last().size as nat
    }
}

/// How many ranks they have, were none of them empty.
pub open spec fn axes_room(axes: Seq<AxisModel>) -> nat
    decreases axes.len(),
{
    if axes.len() == 0 {
        1
    } else {
        axes_room(axes.drop_last()) * at_least_one(axes.last().size)
    }
}

/// Dimensions with steps that are further apart.
pub open spec fn scaled(dims: Seq<DimModel>, by: usize) -> Seq<DimModel> {
    dims.map_values(|d: DimModel| DimModel { stride: (d.stride * by) as usize, ..d })
}

/// The dimensions of the region that holds every rank, in order: the last runs
/// fastest.
pub open spec fn row_major(axes: Seq<AxisModel>) -> Seq<DimModel>
    decreases axes.len(),
{
    if axes.len() == 0 {
        Seq::empty()
    } else {
        let last = axes.last();
        scaled(row_major(axes.drop_last()), last.size).push(
            DimModel { label: last.label, size: last.size, stride: 1 },
        )
    }
}

/// The dimensions of a mesh.
pub open spec fn axis_models(axes: Seq<Axis>) -> Seq<AxisModel> {
    axes.map_values(|a: Axis| a@)
}

proof fn lemma_axes_room_prefix(axes: Seq<AxisModel>, n: int)
    requires
        0 <= n <= axes.len(),
    ensures
        axes_room(axes.take(n)) <= axes_room(axes),
        axes_room(axes) >= 1,
        axes_count(axes) <= axes_room(axes),
    decreases axes.len(),
{
    if axes.len() > 0 {
        let r = axes_room(axes.drop_last());
        let t = at_least_one(axes.last().size);
        let c = axes_count(axes.drop_last());
        let s = axes.last().size as nat;
        if n == axes.len() {
            lemma_axes_room_prefix(axes.drop_last(), n - 1);
            assert(axes.take(n) =~= axes);
        } else {
            lemma_axes_room_prefix(axes.drop_last(), n);
            assert(axes.drop_last().take(n) =~= axes.take(n));
        }
        assert(r <= r * t) by (nonlinear_arith)
            requires
                t >= 1,
        ;
        assert(c * s <= r * t) by (nonlinear_arith)
            requires
                c <= r,
                s <= t,
        ;
    } else {
        assert(axes.take(n) =~= axes);
    }
}

/// What is known of the region that holds every rank: it is as large as the
/// dimensions say, and its ranks can be numbered.
proof fn lemma_row_major(axes: Seq<AxisModel>)
    requires
        axes_room(axes) <= usize::MAX,
    ensures
        row_major(axes).len() == axes.len(),
        forall|k: int| 0 <= k < axes.len() ==> (#[trigger] row_major(axes)[k]).stride <= axes_room(axes),
        forall|k: int|
            0 <= k < axes.len() ==> (#[trigger] row_major(axes)[k]).size == axes[k].size && row_major(axes)[k].label
                == axes[k].label,
        count(row_major(axes)) == axes_count(axes),
        room(row_major(axes)) == axes_room(axes),
        furthest(0, row_major(axes)) + 1 <= axes_room(axes),
    decreases axes.len(),
{
    if axes.len() > 0 {
        let rest = axes.drop_last();
        let inner = row_major(rest);
        let size = axes.last().size;
        let s = size as nat;
        let t = at_least_one(size);
        let r = axes_room(rest);
        lemma_axes_room_prefix(axes, axes.len() - 1);
        assert(axes.take(axes.len() - 1) =~= rest);
        lemma_row_major(rest);
        let all = row_major(axes);
        assert(all.drop_last() =~= scaled(inner, size));
        assert forall|k: int| 0 <= k < inner.len() implies inner[k].stride * size <= r * t by {
            let stride = inner[k].stride as nat;
            assert(stride * s <= r * t) by (nonlinear_arith)
                requires
                    stride <= r,
                    s <= t,
            ;
            assert(stride * s == inner[k].stride * size);
        }
        assert forall|k: int| 0 <= k < axes.len() implies (#[trigger] all[k]).stride <= axes_room(axes) by {
            if k < inner.len() {
                assert(inner[k].stride * size <= r * t);
            } else {
                lemma_axes_room_prefix(axes, 0);
            }
        }
        assert forall|k: int| 0 <= k < axes.len() implies (#[trigger] all[k]).size == axes[k].size && all[k].label
            == axes[k].label by {
            if k < inner.len() {
                assert(inner[k].size == rest[k].size);
            }
        }
        lemma_scaled(inner, size, r * t);
        let f = furthest(0, inner);
        assert((t - 1) as nat * 1 == t - 1);
        assert(s * f + (t - 1) + 1 <= r * t) by (nonlinear_arith)
            requires
                f + 1 <= r,
                s <= t,
                t >= 1,
                f >= 0,
        ;
    }
}

/// Dimensions that are further apart hold as many ranks, each as much further
/// away.
proof fn lemma_scaled(dims: Seq<DimModel>, by: usize, most: nat)
    requires
        most <= usize::MAX,
        forall|k: int| 0 <= k < dims.len() ==> (#[trigger] dims[k]).stride * by <= most,
    ensures
        count(scaled(dims, by)) == count(dims),
        room(scaled(dims, by)) == room(dims),
        furthest(0, scaled(dims, by)) == by as nat * furthest(0, dims),
        forall|i: nat| i < count(dims) ==> #[trigger] place(i, 0, scaled(dims, by)) == by as nat * place(i, 0, dims),
    decreases dims.len(),
{
    let more = scaled(dims, by);
    let b = by as nat;
    if dims.len() == 0 {
        assert(more =~= dims);
        assert(b * 0 == 0);
        assert forall|i: nat| i < count(dims) implies #[trigger] place(i, 0, more) == b * place(i, 0, dims) by {}
    } else {
        let rest = dims.drop_last();
        assert forall|k: int| 0 <= k < rest.len() implies (#[trigger] rest[k]).stride * by <= most by {
            assert(dims[k].stride * by <= most);
        }
        lemma_scaled(rest, by, most);
        assert(more.drop_last() =~= scaled(rest, by));
        assert(dims[dims.len() - 1].stride * by <= most);
        let stride = dims.last().stride as nat;
        assert(more.last().stride as nat == stride * b);
        assert(more.last().size == dims.last().size);
        let step = (at_least_one(dims.last().size) - 1) as nat;
        let f = furthest(0, rest);
        assert(b * f + step * (stride * b) == b * (f + step * stride)) by (nonlinear_arith);
        assert forall|i: nat| i < count(dims) implies #[trigger] place(i, 0, more) == b * place(i, 0, dims) by {
            let s = dims.last().size as nat;
            let c = count(rest);
            if s == 0 {
                assert(c * s == 0) by (nonlinear_arith)
                    requires
                        s == 0,
                ;
            }
            lemma_quotient(i, c, s);
            let q = place(i / s, 0, rest);
            let r = i % s;
            assert(place(i / s, 0, scaled(rest, by)) == b * q);
            assert(b * q + r * (stride * b) == b * (q + r * stride)) by (nonlinear_arith);
        }
    }
}

/// The region that holds every rank has them in order: rank number `i` is `i`.
pub proof fn every_rank_is_its_number(axes: Seq<AxisModel>, i: nat)
    requires
        axes_room(axes) <= usize::MAX,
        i < axes_count(axes),
    ensures
        place(i, 0, row_major(axes)) == i,
    decreases axes.len(),
{
    if axes.len() > 0 {
        let rest = axes.drop_last();
        let inner = row_major(rest);
        let size = axes.last().size;
        let s = size as nat;
        let c = axes_count(rest);
        if s == 0 {
            assert(c * s == 0) by (nonlinear_arith)
                requires
                    s == 0,
            ;
        }
        lemma_quotient(i, c, s);
        lemma_axes_room_prefix(axes, axes.len() - 1);
        assert(axes.take(axes.len() - 1) =~= rest);
        lemma_row_major(rest);
        every_rank_is_its_number(rest, i / s);
        let r = axes_room(rest);
        assert forall|k: int| 0 <= k < inner.len() implies (#[trigger] inner[k]).stride * size <= r * s by {
            let stride = inner[k].stride as nat;
            assert(stride * s <= r * s) by (nonlinear_arith)
                requires
                    stride <= r,
            ;
            assert(stride * s == inner[k].stride * size);
        }
        lemma_scaled(inner, size, r * s);
        assert(row_major(axes).drop_last() =~= scaled(inner, size));
        assert(s * (i / s) == (i / s) * s) by (nonlinear_arith);
        let r = i % s;
        let stride = row_major(axes).last().stride as nat;
        assert(r * stride == r) by (nonlinear_arith)
            requires
                stride == 1,
        ;
        assert(place(i / s, 0, scaled(inner, size)) == s * place(i / s, 0, inner));
    }
}

proof fn lemma_axes_concat(a: Seq<AxisModel>, b: Seq<AxisModel>)
    ensures
        axes_count(a + b) == axes_count(a) * axes_count(b),
        axes_room(a + b) == axes_room(a) * axes_room(b),
    decreases b.len(),
{
    if b.len() == 0 {
        assert(a + b =~= a);
        assert(axes_count(b) == 1 && axes_room(b) == 1);
        assert(axes_count(a) * 1 == axes_count(a));
        assert(axes_room(a) * 1 == axes_room(a));
    } else {
        lemma_axes_concat(a, b.drop_last());
        assert((a + b).drop_last() =~= a + b.drop_last());
        let x = axes_count(a);
        let y = axes_count(b.drop_last());
        let s = b.last().size as nat;
        assert((x * y) * s == x * (y * s)) by (nonlinear_arith);
        let p = axes_room(a);
        let q = axes_room(b.drop_last());
        let t = at_least_one(b.last().size);
        assert((p * q) * t == p * (q * t)) by (nonlinear_arith);
    }
}

/// The dimensions of a mesh: how many ranks there are, and how they are laid out.
#[derive(Debug)]
pub struct Extent {
    pub axes: Vec<Axis>,
}

impl View for Extent {
    type V = Seq<AxisModel>;

    open spec fn view(&self) -> Seq<AxisModel> {
        axis_models(self.axes@)
    }
}

impl Extent {
    /// Whether its ranks can be numbered.
    pub open spec fn fits(self) -> bool {
        axes_room(self@) <= usize::MAX
    }

    /// The dimensions of a single rank: there are none.
    pub fn unity() -> (e: Extent)
        ensures
            e@ == Seq::<AxisModel>::empty(),
            e.fits(),
            axes_count(e@) == 1,
    {
        let e = Extent { axes: Vec::new() };
        assert(e@ =~= Seq::<AxisModel>::empty());
        e
    }

    /// One dimension.
    pub fn line(label: String, size: usize) -> (e: Extent)
        ensures
            e@ == seq![AxisModel { label: label@, size }],
            e.fits(),
            axes_count(e@) == size,
    {
        let mut axes: Vec<Axis> = Vec::new();
        axes.push(Axis { label, size });
        let e = Extent { axes };
        assert(e@ =~= seq![AxisModel { label: label@, size }]);
        assert(e@.drop_last() =~= Seq::<AxisModel>::empty());
        assert(axes_count(e@.drop_last()) == 1);
        assert(axes_room(e@.drop_last()) == 1);
        assert(1nat * size as nat == size);
        assert(1nat * at_least_one(size) == at_least_one(size));
        e
    }

    /// Whether its ranks can be numbered.
    pub fn is_numbered(&self) -> (r: bool)
        ensures
            r == self.fits(),
    {
        let mut n: usize = 1;
        let mut k: usize = 0;
        assert(self@.take(0) =~= Seq::<AxisModel>::empty());
        while k < self.axes.len()
            invariant
                k <= self.axes@.len(),
                n == axes_room(self@.take(k as int)),
            decreases self.axes@.len() - k,
        {
            let size: usize = if self.axes[k].size == 0 {
                1
            } else {
                self.axes[k].size
            };
            assert(self@.take(k + 1).drop_last() =~= self@.take(k as int));
            assert(self@.take(k + 1).last() == self.axes@[k as int]@);
            proof {
                lemma_axes_room_prefix(self@, k + 1);
            }
            match n.checked_mul(size) {
                Some(m) => {
                    n = m;
                },
                None => {
                    return false;
                },
            }
            k = k + 1;
        }
        assert(self@.take(self@.len() as int) =~= self@);
        true
    }

    /// How many ranks there are.
    pub fn num_ranks(&self) -> (n: usize)
        requires
            self.fits(),
        ensures
            n == axes_count(self@),
    {
        let mut n: usize = 1;
        let mut k: usize = 0;
        assert(self@.take(0) =~= Seq::<AxisModel>::empty());
        while k < self.axes.len()
            invariant
                k <= self.axes@.len(),
                self.fits(),
                n == axes_count(self@.take(k as int)),
            decreases self.axes@.len() - k,
        {
            assert(self@.take(k + 1).drop_last() =~= self@.take(k as int));
            assert(self@.take(k + 1).last() == self.axes@[k as int]@);
            proof {
                lemma_axes_room_prefix(self@, k + 1);
                lemma_axes_room_prefix(self@.take(k + 1), 0);
            }
            n = n * self.axes[k].size;
            k = k + 1;
        }
        assert(self@.take(self@.len() as int) =~= self@);
        n
    }

    /// The dimensions of this, then those of another.
    pub fn concat(&self, other: &Extent) -> (e: Extent)
        ensures
            e@ == self@ + other@,
            axes_count(e@) == axes_count(self@) * axes_count(other@),
            axes_room(e@) == axes_room(self@) * axes_room(other@),
    {
        let mut axes: Vec<Axis> = clone_axes(&self.axes);
        let mut k: usize = 0;
        while k < other.axes.len()
            invariant
                k <= other.axes@.len(),
                axes@ == self.axes@ + other.axes@.take(k as int),
            decreases other.axes@.len() - k,
        {
            axes.push(other.axes[k].clone());
            assert(axes@ =~= self.axes@ + other.axes@.take(k + 1));
            k = k + 1;
        }
        let e = Extent { axes };
        assert(e@ =~= self@ + other@);
        proof {
            lemma_axes_concat(self@, other@);
        }
        e
    }

    /// The region that holds every rank.
    pub fn region(&self) -> (r: Region)
        requires
            self.fits(),
        ensures
            r@ == (RegionModel { offset: 0, dims: row_major(self@) }),
            r@.fits(),
            r@.num_ranks() == axes_count(self@),
    {
        let mut dims: Vec<Dim> = Vec::new();
        let mut k: usize = 0;
        assert(self@.take(0) =~= Seq::<AxisModel>::empty());
        assert(dim_models(dims@) =~= Seq::<DimModel>::empty());
        while k < self.axes.len()
            invariant
                k <= self.axes@.len(),
                self.fits(),
                dim_models(dims@) == row_major(self@.take(k as int)),
            decreases self.axes@.len() - k,
        {
            let size: usize = self.axes[k].size;
            let ghost now = self@.take(k + 1);
            let ghost inner = row_major(self@.take(k as int));
            assert(now.drop_last() =~= self@.take(k as int));
            assert(now.last() == self.axes@[k as int]@);
            proof {
                lemma_axes_room_prefix(self@, k + 1);
                lemma_axes_room_prefix(now, k as int);
                assert(now.take(k as int) =~= self@.take(k as int));
                lemma_row_major(self@.take(k as int));
            }
            scale(&mut dims, size, Ghost(axes_room(self@.take(k as int))), Ghost(axes_room(now)));
            let ghost held = dims@;
            dims.push(Dim { label: self.axes[k].label.clone(), size, stride: 1 });
            assert(dim_models(dims@) =~= dim_models(held).push(dims@.last()@));
            assert(dim_models(dims@) =~= row_major(now));
            k = k + 1;
        }
        assert(self@.take(self@.len() as int) =~= self@);
        proof {
            lemma_row_major(self@);
        }
        Region { offset: 0, dims }
    }

    /// The labels of the dimensions, in order.
    pub fn labels(&self) -> (v: Vec<String>)
        ensures
            texts(v@) == self@.map_values(|a: AxisModel| a.label),
    {
        let mut v: Vec<String> = Vec::new();
        let mut k: usize = 0;
        while k < self.axes.len()
            invariant
                k <= self.axes@.len(),
                v@.len() == k,
                forall|j: int| 0 <= j < k ==> #[trigger] v@[j] == self.axes@[j].label,
            decreases self.axes@.len() - k,
        {
            v.push(self.axes[k].label.clone());
            k = k + 1;
        }
        assert(texts(v@) =~= self@.map_values(|a: AxisModel| a.label));
        v
    }
}

/// Sets the steps of the dimensions further apart.
fn scale(dims: &mut Vec<Dim>, by: usize, Ghost(most): Ghost<nat>, Ghost(room): Ghost<nat>)
    requires
        room <= usize::MAX,
        most * at_least_one(by) <= room,
        forall|k: int| 0 <= k < old(dims)@.len() ==> (#[trigger] dim_models(old(dims)@)[k]).stride <= most,
    ensures
        dim_models(final(dims)@) == scaled(dim_models(old(dims)@), by),
{
    let ghost before = dims@;
    let mut k: usize = 0;
    while k < dims.len()
        invariant
            k <= dims@.len(),
            dims@.len() == before.len(),
            room <= usize::MAX,
            most * at_least_one(by) <= room,
            forall|j: int| 0 <= j < before.len() ==> (#[trigger] dim_models(before)[j]).stride <= most,
            forall|j: int| 0 <= j < k ==> (#[trigger] dims@[j])@ == scaled(dim_models(before), by)[j],
            forall|j: int| k <= j < dims@.len() ==> #[trigger] dims@[j] == before[j],
        decreases dims@.len() - k,
    {
        let stride: usize = dims[k].stride;
        proof {
            assert(dim_models(before)[k as int].stride == stride);
            let s = stride as nat;
            let b = by as nat;
            let t = at_least_one(by);
            assert(s * b <= most * t) by (nonlinear_arith)
                requires
                    s <= most,
                    b <= t,
            ;
            assert(s * b == stride * by);
        }
        let dim = Dim { label: dims[k].label.clone(), size: dims[k].size, stride: stride * by };
        dims.set(k, dim);
        k = k + 1;
    }
    assert(dim_models(dims@) =~= scaled(dim_models(before), by));
}

fn clone_axes(axes: &Vec<Axis>) -> (c: Vec<Axis>)
    ensures
        c@ == axes@,
{
    let mut c: Vec<Axis> = Vec::new();
    let mut i: usize = 0;
    while i < axes.len()
        invariant
            i <= axes@.len(),
            c@ == axes@.take(i as int),
        decreases axes@.len() - i,
    {
        c.push(axes[i].clone());
        i = i + 1;
    }
    c
}

impl Clone for Extent {
    fn clone(&self) -> (c: Extent)
        ensures
            c@ == self@,
    {
        Extent { axes: clone_axes(&self.axes) }
    }
}

/// The dimensions of a region, without where its ranks lie.
pub open spec fn extent_of(dims: Seq<DimModel>) -> Seq<AxisModel> {
    dims.map_values(|d: DimModel| AxisModel { label: d.label, size: d.size })
}

proof fn lemma_extent_of(dims: Seq<DimModel>)
    ensures
        axes_count(extent_of(dims)) == count(dims),
        axes_room(extent_of(dims)) == room(dims),
    decreases dims.len(),
{
    if dims.len() > 0 {
        lemma_extent_of(dims.drop_last());
        assert(extent_of(dims).drop_last() =~= extent_of(dims.drop_last()));
    }
}

impl Region {
    /// The dimensions of the region, without where its ranks lie.
    pub fn extent(&self) -> (e: Extent)
        ensures
            e@ == extent_of(self@.dims),
            axes_count(e@) == self@.num_ranks(),
            self@.fits() ==> e.fits(),
            axes_room(e@) == room(self@.dims),
    {
        let mut axes: Vec<Axis> = Vec::new();
        let mut k: usize = 0;
        while k < self.dims.len()
            invariant
                k <= self.dims@.len(),
                axes@.len() == k,
                forall|j: int|
                    0 <= j < k ==> (#[trigger] axes@[j]).label == self.dims@[j].label && axes@[j].size
                        == self.dims@[j].size,
            decreases self.dims@.len() - k,
        {
            axes.push(Axis { label: self.dims[k].label.clone(), size: self.dims[k].size });
            k = k + 1;
        }
        let e = Extent { axes };
        assert(e@ =~= extent_of(self@.dims));
        proof {
            lemma_extent_of(self@.dims);
        }
        e
    }

    /// The labels of the dimensions, in order.
    pub fn labels(&self) -> (v: Vec<String>)
        ensures
            texts(v@) == self@.labels(),
    {
        let mut v: Vec<String> = Vec::new();
        let mut k: usize = 0;
        while k < self.dims.len()
            invariant
                k <= self.dims@.len(),
                v@.len() == k,
                forall|j: int| 0 <= j < k ==> #[trigger] v@[j] == self.dims@[j].label,
            decreases self.dims@.len() - k,
        {
            v.push(self.dims[k].label.clone());
            k = k + 1;
        }
        assert(texts(v@) =~= self@.labels());
        v
    }
}

/// The region that holds every rank has the dimensions that it was made of, in
/// their order, and as many ranks.
pub proof fn the_whole_has_its_dimensions(axes: Seq<AxisModel>)
    requires
        axes_room(axes) <= usize::MAX,
    ensures
        extent_of(row_major(axes)) == axes,
        count(row_major(axes)) == axes_count(axes),
        axes.len() > 0 ==> row_major(axes).last().stride == 1,
{
    lemma_row_major(axes);
    assert(extent_of(row_major(axes)) =~= axes);
}

/// There are no ranks exactly where a dimension is empty.
pub proof fn only_empty_dimensions_leave_no_ranks(axes: Seq<AxisModel>)
    ensures
        axes_count(axes) == 0 <==> exists|k: int| 0 <= k < axes.len() && (#[trigger] axes[k]).size == 0,
        axes.len() == 1 ==> axes_count(axes) == axes[0].size,
    decreases axes.len(),
{
    if axes.len() > 0 {
        let rest = axes.drop_last();
        only_empty_dimensions_leave_no_ranks(rest);
        let c = axes_count(rest);
        let s = axes.last().size as nat;
        assert(c * s == 0 <==> c == 0 || s == 0) by (nonlinear_arith);
        if c == 0 {
            let k = choose|k: int| 0 <= k < rest.len() && (#[trigger] rest[k]).size == 0;
            assert(axes[k].size == 0);
        }
        if s == 0 {
            assert(axes[axes.len() - 1].size == 0);
        }
        if exists|k: int| 0 <= k < axes.len() && (#[trigger] axes[k]).size == 0 {
            let k = choose|k: int| 0 <= k < axes.len() && (#[trigger] axes[k]).size == 0;
            if k < rest.len() {
                assert(rest[k].size == 0);
            }
        }
        assert(1 * s == s);
    }
}

}

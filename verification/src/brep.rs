//! Discrete bookkeeping of the B-Rep kernel: the kinds of its operations
//! and results, the accelerator cache's counters, the grouping of bends
//! into setups, and the degree-of-freedom count of an assembly.
use vstd::prelude::*;
use std::collections::HashMap;

verus! {

/// Boolean operation type.
#[derive(Clone, Copy, Debug, PartialEq, Eq, Structural)]
pub enum BooleanOp {
    /// Material from either solid.
    Union,
    /// Material from the first solid not in the second.
    Subtract,
    /// Material in both solids.
    Intersect,
}

/// Point classification result.
#[derive(Debug, Clone, Copy, PartialEq, Eq, Structural)]
pub enum Classification {
    Inside,
    Outside,
    OnBoundary,
}

/// Classification of the dihedral angle at a B-Rep edge.
#[derive(Clone, Copy, Debug, PartialEq, Eq, Structural)]
pub enum EdgeConvexity {
    /// The two faces open outward.
    Convex,
    /// The two faces open inward.
    Concave,
    /// The two faces are coplanar.
    Flat,
}

/// Fillet errors.
#[derive(Clone, Debug, PartialEq, Eq, Structural)]
pub enum FilletError {
    /// The edge does not exist in the solid.
    EdgeNotFound,
    /// The edge does not have exactly two adjacent faces.
    NonManifoldEdge,
    /// The radius is zero or negative.
    InvalidRadius,
    /// The edge is flat: filleting has no geometric effect.
    FlatEdge,
}

/// Type of relief cut at a bend intersection.
#[derive(Clone, Copy, Debug, PartialEq, Eq, Structural)]
pub enum ReliefType {
    /// Rectangular slot.
    Rectangular,
    /// Round hole (bone relief).
    Round,
    /// Obround (rounded rectangle).
    Obround,
}

/// Thread standard family.
#[derive(Clone, Copy, Debug, PartialEq, Eq, Structural)]
pub enum ThreadStandard {
    /// ISO 262 metric coarse.
    MetricCoarse,
    /// ISO 262 metric fine.
    MetricFine,
    /// ASME B1.1 Unified National Coarse.
    UNC,
    /// ASME B1.1 Unified National Fine.
    UNF,
    /// Pipe thread (NPT).
    NPT,
    /// British Standard Pipe.
    BSP,
}

/// Thread type: internal (tapped hole) or external (bolt or stud).
#[derive(Clone, Copy, Debug, PartialEq, Eq, Structural)]
pub enum ThreadType {
    Internal,
    External,
}

/// Thread fit class.
#[derive(Clone, Copy, Debug, PartialEq, Eq, Structural)]
pub enum ThreadClass {
    /// 6H/6g, the common medium fit.
    Medium,
    /// 5H/4h, close fit.
    Close,
    /// 7H/8g, loose fit.
    Loose,
}

// ---------------------------------------------------------------------------
// Accelerator cache
// ---------------------------------------------------------------------------

/// Snapshot of an accelerator cache's state.
#[derive(Debug, Clone, Copy, PartialEq, Eq, Structural)]
pub struct AccelCacheStats {
    pub entries: usize,
    pub hits: u64,
    pub misses: u64,
}

/// Content-addressed cache of precomputed structures keyed by the hash of
/// the solid they were built from, with hit and miss counters.
pub struct AccelCache<T> {
    map: HashMap<u64, T>,
    hits: u64,
    misses: u64,
}

impl<T> AccelCache<T> {
    /// The cached structures, by key.
    pub closed spec fn entries(&self) -> Map<u64, T> {
        self.map@
    }

    /// Lookups that found their key.
    pub closed spec fn hit_count(&self) -> nat {
        self.hits as nat
    }

    /// Lookups that had to build.
    pub closed spec fn miss_count(&self) -> nat {
        self.misses as nat
    }

    /// The cache holds one entry per miss: every miss inserts a key that
    /// was absent, and a hit inserts nothing.
    pub closed spec fn wf(&self) -> bool {
        self.map@.dom().finite() && self.map@.dom().len() == self.misses
    }

    /// An empty cache.
    pub fn new() -> (r: Self)
        ensures
            r.wf(),
            r.entries() == Map::<u64, T>::empty(),
            r.hit_count() == 0,
            r.miss_count() == 0,
    {
        let r = AccelCache { map: HashMap::new(), hits: 0, misses: 0 };
        assert(r.map@.dom() =~= Set::<u64>::empty());
        r
    }

    /// Returns the entry for `key`, building it with `build` on a miss; a
    /// hit adds one to the hit counter, a miss one to the miss counter.
    pub fn get_or_build<F: FnOnce() -> T>(&mut self, key: u64, build: F) -> (r: &T)
        requires
            old(self).wf(),
            old(self).hit_count() < u64::MAX,
            old(self).miss_count() < u64::MAX,
            call_requires(build, ()),
        ensures
            final(self).wf(),
            old(self).entries().contains_key(key) ==> {
                &&& final(self).entries() == old(self).entries()
                &&& final(self).hit_count() == old(self).hit_count() + 1
                &&& final(self).miss_count() == old(self).miss_count()
            },
            !old(self).entries().contains_key(key) ==> {
                &&& final(self).entries().dom() == old(self).entries().dom().insert(key)
                &&& forall|k: u64| k != key && #[trigger] old(self).entries().contains_key(k)
                    ==> final(self).entries()[k] == old(self).entries()[k]
                &&& call_ensures(build, (), final(self).entries()[key])
                &&& final(self).hit_count() == old(self).hit_count()
                &&& final(self).miss_count() == old(self).miss_count() + 1
            },
            *r == final(self).entries()[key],
    {
        broadcast use vstd::std_specs::hash::group_hash_axioms;
        if self.map.contains_key(&key) {
            self.hits = self.hits + 1;
        } else {
            self.misses = self.misses + 1;
            let v = build();
            self.map.insert(key, v);
        }
        self.map.get(&key).unwrap()
    }

    /// The cache's counters and size.
    pub fn stats(&self) -> (r: AccelCacheStats)
        requires
            self.wf(),
        ensures
            r.entries == self.entries().dom().len(),
            r.hits == self.hit_count(),
            r.misses == self.miss_count(),
    {
        broadcast use vstd::std_specs::hash::group_hash_axioms;
        AccelCacheStats { entries: self.map.len(), hits: self.hits, misses: self.misses }
    }

    /// Drops every entry and zeroes the counters.
    pub fn clear(&mut self)
        ensures
            final(self).wf(),
            final(self).entries() == Map::<u64, T>::empty(),
            final(self).hit_count() == 0,
            final(self).miss_count() == 0,
    {
        broadcast use vstd::std_specs::hash::group_hash_axioms;
        self.map.clear();
        self.hits = 0;
        self.misses = 0;
        assert(self.map@.dom() =~= Set::<u64>::empty());
    }
}

/// Snapshot of an accelerator cache.
pub fn accel_cache_stats<T>(cache: &AccelCache<T>) -> (r: AccelCacheStats)
    requires
        cache.wf(),
    ensures
        r.entries == cache.entries().dom().len(),
        r.hits == cache.hit_count(),
        r.misses == cache.miss_count(),
{
    cache.stats()
}

/// Drops all entries from an accelerator cache.
pub fn accel_cache_clear<T>(cache: &mut AccelCache<T>)
    ensures
        final(cache).wf(),
        final(cache).entries() == Map::<u64, T>::empty(),
        final(cache).hit_count() == 0,
        final(cache).miss_count() == 0,
{
    cache.clear()
}

/// A cache that was built up by lookups alone holds exactly as many entries
/// as it counted misses.
pub proof fn lemma_cache_entries_are_misses<T>(c: AccelCache<T>)
    requires
        c.wf(),
    ensures
        c.entries().dom().len() == c.miss_count(),
{
}

// ---------------------------------------------------------------------------
// Bend sequence
// ---------------------------------------------------------------------------

/// A bend operation in the manufacturing sequence.
#[derive(Clone, Debug, PartialEq, Eq, Structural)]
pub struct BendOp {
    /// Index into the part's bends.
    pub bend_index: usize,
    /// Setup number (bends in the same setup don't require repositioning).
    pub setup: usize,
}

/// The setup of the `i`-th bend of the sequence: the number of direction
/// changes between consecutive bends up to it.
pub open spec fn setup_of(dirs: Seq<i8>, i: int) -> nat
    decreases i,
{
    if i <= 0 {
        0
    } else if dirs[i] != dirs[i - 1] {
        setup_of(dirs, i - 1) + 1
    } else {
        setup_of(dirs, i - 1)
    }
}

/// Groups a bend order into setups: a bend opens a new setup when its
/// direction differs from that of the bend before it. `order` lists bend
/// indices in the order they are made; `directions` gives each bend's
/// direction.
pub fn group_bend_setups(order: &Vec<usize>, directions: &Vec<i8>) -> (r: Vec<BendOp>)
    requires
        forall|i: int| 0 <= i < order@.len() ==> #[trigger] order@[i] < directions@.len(),
    ensures
        r@.len() == order@.len(),
        forall|i: int| 0 <= i < r@.len() ==> (#[trigger] r@[i]).bend_index == order@[i]
            && r@[i].setup == setup_of(order@.map_values(|b: usize| directions@[b as int]), i),
{
    let ghost dirs = order@.map_values(|b: usize| directions@[b as int]);
    let mut ops: Vec<BendOp> = Vec::new();
    let mut current_setup: usize = 0;
    let mut prev_dir: i8 = 0;
    let mut i: usize = 0;
    while i < order.len()
        invariant
            i <= order@.len(),
            dirs == order@.map_values(|b: usize| directions@[b as int]),
            forall|k: int| 0 <= k < order@.len() ==> #[trigger] order@[k] < directions@.len(),
            ops@.len() == i,
            current_setup <= i,
            i > 0 ==> current_setup == setup_of(dirs, i - 1) && prev_dir == dirs[i - 1],
            forall|k: int| 0 <= k < i ==> (#[trigger] ops@[k]).bend_index == order@[k]
                && ops@[k].setup == setup_of(dirs, k),
        decreases order.len() - i,
    {
        let b = order[i];
        let dir = directions[b];
        assert(dirs[i as int] == dir);
        if i > 0 && dir != prev_dir {
            current_setup = current_setup + 1;
        }
        ops.push(BendOp { bend_index: b, setup: current_setup });
        prev_dir = dir;
        i = i + 1;
    }
    ops
}

/// Setups start at 0 and grow by at most one from one bend to the next.
pub proof fn lemma_setups_step(dirs: Seq<i8>, i: int)
    requires
        0 < i < dirs.len(),
    ensures
        setup_of(dirs, 0) == 0,
        setup_of(dirs, i - 1) <= setup_of(dirs, i) <= setup_of(dirs, i - 1) + 1,
        setup_of(dirs, i) == setup_of(dirs, i - 1) <==> dirs[i] == dirs[i - 1],
{
}

// ---------------------------------------------------------------------------
// Assembly degrees of freedom
// ---------------------------------------------------------------------------

/// Result of constraint solving.
#[derive(Clone, Debug, PartialEq, Eq, Structural)]
pub enum AssemblySolveResult {
    /// All constraints satisfied.
    FullyConstrained,
    /// Some degrees of freedom remain.
    UnderConstrained { remaining_dof: usize },
    /// Over-constrained (conflicting mates).
    OverConstrained,
    /// Solver failed to converge.
    Failed,
}

/// The kind of an assembly mate, without its numeric parameters.
#[derive(Clone, Copy, Debug, PartialEq, Eq, Structural)]
pub enum MateKind {
    Coincident,
    Concentric,
    Coplanar,
    Parallel,
    Perpendicular,
    Tangent,
    Distance,
    Angle,
}

/// Number of residual equations of a mate kind.
pub open spec fn mate_equations(k: MateKind) -> nat {
    match k {
        MateKind::Coincident => 3,
        MateKind::Concentric => 4,
        MateKind::Coplanar => 2,
        MateKind::Parallel => 3,
        MateKind::Perpendicular => 1,
        MateKind::Tangent => 1,
        MateKind::Distance => 1,
        MateKind::Angle => 1,
    }
}

/// Number of residual equations for a mate kind.
pub fn mate_equation_count(k: MateKind) -> (r: usize)
    ensures
        r == mate_equations(k),
{
    match k {
        MateKind::Coincident => 3,
        MateKind::Concentric => 4,
        MateKind::Coplanar => 2,
        MateKind::Parallel => 3,
        MateKind::Perpendicular => 1,
        MateKind::Tangent => 1,
        MateKind::Distance => 1,
        MateKind::Angle => 1,
    }
}

/// The number of parts that are not grounded.
pub open spec fn free_parts(grounded: Seq<bool>) -> nat
    decreases grounded.len(),
{
    if grounded.len() == 0 {
        0
    } else {
        free_parts(grounded.drop_last()) + if grounded.last() { 0nat } else { 1nat }
    }
}

/// The equations of all mates.
pub open spec fn equations_of(mates: Seq<MateKind>) -> nat
    decreases mates.len(),
{
    if mates.len() == 0 {
        0
    } else {
        equations_of(mates.drop_last()) + mate_equations(mates.last())
    }
}

proof fn lemma_free_parts_bound(g: Seq<bool>)
    ensures
        free_parts(g) <= g.len(),
    decreases g.len(),
{
    if g.len() > 0 {
        lemma_free_parts_bound(g.drop_last());
    }
}

proof fn lemma_equations_bound(m: Seq<MateKind>)
    ensures
        equations_of(m) <= 4 * m.len(),
    decreases m.len(),
{
    if m.len() > 0 {
        lemma_equations_bound(m.drop_last());
    }
}

/// Total free parameters: six per part that is not grounded.
pub fn total_params(grounded: &Vec<bool>) -> (r: usize)
    requires
        grounded@.len() <= usize::MAX / 6,
    ensures
        r == 6 * free_parts(grounded@),
{
    let mut n: usize = 0;
    let mut i: usize = 0;
    while i < grounded.len()
        invariant
            i <= grounded@.len() <= usize::MAX / 6,
            n == free_parts(grounded@.take(i as int)),
            n <= i,
        decreases grounded.len() - i,
    {
        assert(grounded@.take(i + 1).drop_last() =~= grounded@.take(i as int));
        if !grounded[i] {
            n = n + 1;
        }
        i = i + 1;
    }
    assert(grounded@.take(grounded@.len() as int) =~= grounded@);
    n * 6
}

/// Total constraint equations of the mates.
pub fn total_equations(mates: &Vec<MateKind>) -> (r: usize)
    requires
        mates@.len() <= usize::MAX / 4,
    ensures
        r == equations_of(mates@),
{
    let mut n: usize = 0;
    let mut i: usize = 0;
    while i < mates.len()
        invariant
            i <= mates@.len() <= usize::MAX / 4,
            n == equations_of(mates@.take(i as int)),
            n <= 4 * i,
        decreases mates.len() - i,
    {
        assert(mates@.take(i + 1).drop_last() =~= mates@.take(i as int));
        n = n + mate_equation_count(mates[i]);
        i = i + 1;
    }
    assert(mates@.take(mates@.len() as int) =~= mates@);
    n
}

/// The degrees of freedom the mates leave: free parameters minus
/// equations, or zero when the equations are as many or more.
pub fn remaining_dof(grounded: &Vec<bool>, mates: &Vec<MateKind>) -> (r: usize)
    requires
        grounded@.len() <= usize::MAX / 6,
        mates@.len() <= usize::MAX / 4,
    ensures
        r == if equations_of(mates@) <= 6 * free_parts(grounded@) {
            (6 * free_parts(grounded@) - equations_of(mates@)) as nat
        } else {
            0
        },
{
    let free = total_params(grounded);
    let consumed = total_equations(mates);
    if consumed <= free { free - consumed } else { 0 }
}

/// What the solver decides before iterating, from the counts of parameters
/// and equations: no equations leave every parameter free; more equations
/// than parameters over-constrain; otherwise the solver must iterate
/// (`None`).
pub fn solve_precheck(n_params: usize, n_equations: usize) -> (r: Option<AssemblySolveResult>)
    ensures
        n_equations == 0 ==> r == Some((AssemblySolveResult::UnderConstrained { remaining_dof: n_params })),
        n_equations != 0 && n_equations > n_params ==> r == Some(AssemblySolveResult::OverConstrained),
        n_equations != 0 && n_equations <= n_params ==> r is None,
{
    if n_equations == 0 {
        Some(AssemblySolveResult::UnderConstrained { remaining_dof: n_params })
    } else if n_equations > n_params {
        Some(AssemblySolveResult::OverConstrained)
    } else {
        None
    }
}

/// What a converged solve reports: fully constrained when the equations
/// use up every parameter, else the degrees of freedom left.
pub fn converged_result(n_params: usize, n_equations: usize) -> (r: AssemblySolveResult)
    requires
        n_equations <= n_params,
    ensures
        n_equations == n_params ==> r == AssemblySolveResult::FullyConstrained,
        n_equations < n_params ==> r == (AssemblySolveResult::UnderConstrained {
            remaining_dof: (n_params - n_equations) as usize,
        }),
{
    let dof = n_params - n_equations;
    if dof == 0 {
        AssemblySolveResult::FullyConstrained
    } else {
        AssemblySolveResult::UnderConstrained { remaining_dof: dof }
    }
}

/// One scalar residual the mate solver evaluates, that is one equation a
/// mate imposes.
#[derive(Clone, Copy, Debug, PartialEq, Eq, Structural)]
pub enum MateResidual {
    /// A coordinate (x, y or z) of the gap between two points.
    PointGap,
    /// A component of the cross product of two directions.
    CrossComponent,
    /// A component of one axis origin's offset off the other axis.
    AxisOffset,
    /// The dot product of two plane normals plus one (normals facing).
    NormalsFacing,
    /// The distance between two planes along the normal, less the offset.
    PlaneOffset,
    /// The dot product of two directions.
    DirectionsDot,
    /// The squared distance between two points, less the squared value.
    DistanceGap,
    /// The cosine of the angle between two directions, less the target's.
    AngleGap,
    /// The distance of a point from a plane.
    PointPlaneGap,
}

/// The residuals the solver evaluates for a mate: a coincidence the three
/// coordinates of the points' gap; a concentricity two cross-product
/// components and two components of the axes' offset; a coplanarity the
/// facing of the normals and the offset along them; a parallelism the three
/// cross-product components; a perpendicularity the dot product of the two
/// directions; a tangency the point's distance from the plane; a distance
/// mate the squared-distance gap; an angle mate the cosine gap.
pub open spec fn mate_residuals(k: MateKind) -> Seq<MateResidual> {
    match k {
        MateKind::Coincident => seq![MateResidual::PointGap, MateResidual::PointGap, MateResidual::PointGap],
        MateKind::Concentric => seq![
            MateResidual::CrossComponent,
            MateResidual::CrossComponent,
            MateResidual::AxisOffset,
            MateResidual::AxisOffset,
        ],
        MateKind::Coplanar => seq![MateResidual::NormalsFacing, MateResidual::PlaneOffset],
        MateKind::Parallel => seq![
            MateResidual::CrossComponent,
            MateResidual::CrossComponent,
            MateResidual::CrossComponent,
        ],
        MateKind::Perpendicular => seq![MateResidual::DirectionsDot],
        MateKind::Tangent => seq![MateResidual::PointPlaneGap],
        MateKind::Distance => seq![MateResidual::DistanceGap],
        MateKind::Angle => seq![MateResidual::AngleGap],
    }
}

/// The residual vector of a list of mates: each mate's residuals, in order.
pub open spec fn residuals_of(mates: Seq<MateKind>) -> Seq<MateResidual>
    decreases mates.len(),
{
    if mates.len() == 0 {
        Seq::empty()
    } else {
        residuals_of(mates.drop_last()) + mate_residuals(mates.last())
    }
}

/// A mate counts as many equations as the solver evaluates residuals for
/// it; a perpendicular mate, whose one residual is the dot product of its
/// two directions, counts one.
pub proof fn lemma_mate_equations_are_residuals(k: MateKind)
    ensures
        mate_equations(k) == mate_residuals(k).len(),
        k == MateKind::Perpendicular ==> mate_residuals(k) == seq![MateResidual::DirectionsDot],
{
}

/// The equations of a list of mates are the entries of the solver's
/// residual vector, so the degrees of freedom left are six per free part
/// less the length of that vector (none when it is as long or longer).
pub proof fn lemma_equations_are_residual_vector(grounded: Seq<bool>, mates: Seq<MateKind>)
    ensures
        equations_of(mates) == residuals_of(mates).len(),
        (if equations_of(mates) <= 6 * free_parts(grounded) {
            (6 * free_parts(grounded) - equations_of(mates)) as nat
        } else {
            0
        }) == (if residuals_of(mates).len() <= 6 * free_parts(grounded) {
            (6 * free_parts(grounded) - residuals_of(mates).len()) as nat
        } else {
            0
        }),
    decreases mates.len(),
{
    if mates.len() > 0 {
        lemma_equations_are_residual_vector(grounded, mates.drop_last());
        lemma_mate_equations_are_residuals(mates.last());
    }
}

} // verus!

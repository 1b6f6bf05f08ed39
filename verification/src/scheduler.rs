//! The per-tick schedule: an explicit list of steps with typed dependency
//! edges, validated at construction (cycle detection included) and brought
//! into a topologically valid order in which the one render step runs last.
//!
//! The host runs the steps in the computed order, each exactly once per
//! tick; a failing step aborts the remainder of its tick.

use vstd::prelude::*;
use vstd::relations::injective;
use vstd::set_lib::{lemma_int_range, lemma_len_subset, set_int_range};

verus! {

/// One step of the schedule: the indices of the steps that must run before
/// it, and whether it is the render step.
#[derive(Clone, Debug)]
pub struct Step {
    pub deps: Vec<usize>,
    pub render: bool,
}

/// Why a step list was rejected at construction.
#[derive(Clone, Debug, PartialEq, Eq)]
pub enum ScheduleError {
    /// Some dependency index names no step.
    DepOutOfRange,
    /// There is no render step, or more than one.
    RenderCount,
    /// Some step depends on the render step, which must run last.
    DependsOnRender,
    /// The logic steps contain a dependency cycle. The payload is a
    /// nonempty set of steps each of which depends on another of them, so
    /// none of them can ever run first.
    Cycle(Vec<usize>),
}

/// Every dependency index names a step.
pub open spec fn deps_in_range(steps: Seq<Step>) -> bool {
    forall|i: int, j: int|
        0 <= i < steps.len() && 0 <= j < steps[i].deps@.len() ==> (#[trigger] steps[i].deps@[j])
            < steps.len()
}

/// Exactly one step is marked as the render step.
pub open spec fn one_render(steps: Seq<Step>) -> bool {
    exists|r: int|
        0 <= r < steps.len() && (#[trigger] steps[r].render) && forall|k: int|
            0 <= k < steps.len() && k != r ==> !(#[trigger] steps[k].render)
}

/// Some step depends on a render step.
pub open spec fn depends_on_render(steps: Seq<Step>) -> bool {
    exists|i: int, j: int|
        0 <= i < steps.len() && 0 <= j < steps[i].deps@.len() && steps[(
        #[trigger] steps[i].deps@[j]) as int].render
}

/// `order` is a permutation of the step indices `0 .. n`.
pub open spec fn is_perm(order: Seq<usize>, n: int) -> bool {
    &&& order.len() == n
    &&& order.no_duplicates()
    &&& forall|k: int| 0 <= k < order.len() ==> (#[trigger] order[k]) < n
}

/// No step runs before one of its dependencies, or depends on itself.
pub open spec fn respects_deps(steps: Seq<Step>, order: Seq<usize>) -> bool {
    forall|a: int, b: int|
        #![trigger order[a], order[b]]
        0 <= a <= b < order.len() ==> !steps[order[a] as int].deps@.contains(order[b])
}

/// The render step stands at the end of the order and nowhere else.
pub open spec fn render_last(steps: Seq<Step>, order: Seq<usize>) -> bool {
    &&& order.len() > 0
    &&& steps[order.last() as int].render
    &&& forall|k: int| 0 <= k < order.len() - 1 ==> !steps[(#[trigger] order[k]) as int].render
}

/// Whether the step at `stuck[k]` depends on some member of `stuck`.
pub open spec fn has_dep_in(steps: Seq<Step>, stuck: Seq<usize>, k: int) -> bool {
    exists|m: int| 0 <= m < stuck.len() && steps[stuck[k] as int].deps@.contains(stuck[m])
}

/// A witness of a dependency cycle: a nonempty set of non-render steps,
/// each depending on some member of the set.
pub open spec fn stuck_set(steps: Seq<Step>, stuck: Seq<usize>) -> bool {
    &&& stuck.len() > 0
    &&& forall|k: int|
        0 <= k < stuck.len() ==> (#[trigger] stuck[k]) < steps.len() && !steps[stuck[k] as int].render
    &&& forall|k: int| 0 <= k < stuck.len() ==> #[trigger] has_dep_in(steps, stuck, k)
}

/// A sequence of distinct indices below `n` has at most `n` entries.
proof fn lemma_distinct_bounded(s: Seq<usize>, n: int)
    requires
        s.no_duplicates(),
        0 <= n,
        forall|k: int| 0 <= k < s.len() ==> (#[trigger] s[k]) < n,
    ensures
        s.len() <= n,
{
    let f = |x: usize| x as int;
    assert(injective(f)) by {
        assert(forall|x1: usize, x2: usize| #[trigger] f(x1) == #[trigger] f(x2) ==> x1 == x2);
    }
    s.lemma_no_duplicates_injective(f);
    let si = s.map_values(f);
    si.unique_seq_to_set();
    lemma_int_range(0, n);
    assert(si.to_set().subset_of(set_int_range(0, n))) by {
        assert forall|x: int| si.to_set().contains(x) implies set_int_range(0, n).contains(x) by {
            let k = choose|k: int| 0 <= k < si.len() && si[k] == x;
            assert(s[k] < n);
        }
    }
    lemma_len_subset(si.to_set(), set_int_range(0, n));
}

/// Two positions of an order whose earlier step depends on the later one.
pub open spec fn order_violation(steps: Seq<Step>, order: Seq<usize>) -> bool {
    exists|a: int, b: int|
        #![trigger order[a], order[b]]
        0 <= a <= b < order.len() && steps[order[a] as int].deps@.contains(order[b])
}

/// A cycle witness really excludes every topological order: no order that
/// contains the members of a stuck set can respect the dependency edges.
pub proof fn lemma_stuck_blocks(steps: Seq<Step>, stuck: Seq<usize>, order: Seq<usize>)
    requires
        stuck_set(steps, stuck),
        forall|k: int| 0 <= k < stuck.len() ==> order.contains(#[trigger] stuck[k]),
    ensures
        !respects_deps(steps, order),
{
    assert(order.contains(stuck[0]));
    let p = choose|p: int| 0 <= p < order.len() && order[p] == stuck[0];
    lemma_stuck_descend(steps, stuck, order, p);
    let (a, b): (int, int) = choose|a: int, b: int|
        #![trigger order[a], order[b]]
        0 <= a <= b < order.len() && steps[order[a] as int].deps@.contains(order[b]);
    if respects_deps(steps, order) {
        assert(!steps[order[a] as int].deps@.contains(order[b]));
    }
}

proof fn lemma_stuck_descend(steps: Seq<Step>, stuck: Seq<usize>, order: Seq<usize>, p: int)
    requires
        stuck_set(steps, stuck),
        forall|k: int| 0 <= k < stuck.len() ==> order.contains(#[trigger] stuck[k]),
        0 <= p < order.len(),
        stuck.contains(order[p]),
    ensures
        order_violation(steps, order),
    decreases p,
{
    let k = choose|k: int| 0 <= k < stuck.len() && stuck[k] == order[p];
    assert(has_dep_in(steps, stuck, k));
    let m = choose|m: int| 0 <= m < stuck.len() && steps[stuck[k] as int].deps@.contains(stuck[m]);
    let d = stuck[m];
    assert(order.contains(d));
    let q = choose|q: int| 0 <= q < order.len() && order[q] == d;
    assert(steps[order[p] as int].deps@.contains(order[q]));
    if p <= q {
        // The pair (p, q) itself is a violation.
        assert(0 <= p <= q < order.len() && steps[order[p] as int].deps@.contains(order[q]));
    } else {
        assert(stuck.contains(order[q]));
        lemma_stuck_descend(steps, stuck, order, q);
    }
}

/// Checks that every dependency index names a step.
fn check_deps_in_range(steps: &Vec<Step>) -> (r: bool)
    ensures
        r == deps_in_range(steps@),
{
    let n = steps.len();
    let mut i: usize = 0;
    while i < n
        invariant
            0 <= i <= n,
            n == steps@.len(),
            forall|a: int, j: int|
                0 <= a < i && 0 <= j < steps@[a].deps@.len() ==> (#[trigger] steps@[a].deps@[j])
                    < n,
        decreases n - i,
    {
        let deps_len = steps[i].deps.len();
        let mut j: usize = 0;
        while j < deps_len
            invariant
                0 <= j <= deps_len,
                i < n,
                n == steps@.len(),
                deps_len == steps@[i as int].deps@.len(),
                forall|q: int| 0 <= q < j ==> (#[trigger] steps@[i as int].deps@[q]) < n,
            decreases deps_len - j,
        {
            if steps[i].deps[j] >= n {
                return false;
            }
            j = j + 1;
        }
        i = i + 1;
    }
    true
}

/// Finds the single render step, or reports that there is not exactly one.
fn find_render(steps: &Vec<Step>) -> (r: Option<usize>)
    ensures
        match r {
            Some(ri) => ri < steps@.len() && steps@[ri as int].render && forall|k: int|
                0 <= k < steps@.len() && k != ri ==> !(#[trigger] steps@[k].render),
            None => !one_render(steps@),
        },
{
    let n = steps.len();
    let mut found: Option<usize> = None;
    let mut i: usize = 0;
    while i < n
        invariant
            0 <= i <= n,
            n == steps@.len(),
            match found {
                Some(ri) => ri < i && steps@[ri as int].render && forall|k: int|
                    0 <= k < i && k != ri ==> !(#[trigger] steps@[k].render),
                None => forall|k: int| 0 <= k < i ==> !(#[trigger] steps@[k].render),
            },
        decreases n - i,
    {
        if steps[i].render {
            match found {
                Some(ri) => {
                    proof {
                        assert forall|r2: int|
                            !(0 <= r2 < steps@.len() && (#[trigger] steps@[r2].render) && forall|
                                k: int,
                            |
                                0 <= k < steps@.len() && k != r2 ==> !(
                                #[trigger] steps@[k].render)) by {
                            if 0 <= r2 < steps@.len() && steps@[r2].render {
                                if r2 != ri as int {
                                    assert(steps@[ri as int].render);
                                } else {
                                    assert(steps@[i as int].render);
                                }
                            }
                        }
                        assert(!one_render(steps@));
                    }
                    return None;
                },
                None => {
                    found = Some(i);
                },
            }
        }
        i = i + 1;
    }
    found
}

/// Checks that no step names the render step as a dependency.
fn check_no_render_dep(steps: &Vec<Step>, ri: usize) -> (r: bool)
    requires
        deps_in_range(steps@),
        ri < steps@.len(),
        steps@[ri as int].render,
        forall|k: int| 0 <= k < steps@.len() && k != ri ==> !(#[trigger] steps@[k].render),
    ensures
        r == !depends_on_render(steps@),
{
    let n = steps.len();
    let mut i: usize = 0;
    while i < n
        invariant
            0 <= i <= n,
            n == steps@.len(),
            ri < n,
            deps_in_range(steps@),
            steps@[ri as int].render,
            forall|k: int| 0 <= k < n && k != ri ==> !(#[trigger] steps@[k].render),
            forall|a: int, j: int|
                0 <= a < i && 0 <= j < steps@[a].deps@.len() ==> !steps@[(
                #[trigger] steps@[a].deps@[j]) as int].render,
        decreases n - i,
    {
        let deps_len = steps[i].deps.len();
        let mut j: usize = 0;
        while j < deps_len
            invariant
                0 <= j <= deps_len,
                i < n,
                n == steps@.len(),
                ri < n,
                steps@[ri as int].render,
                forall|k: int| 0 <= k < n && k != ri ==> !(#[trigger] steps@[k].render),
                deps_len == steps@[i as int].deps@.len(),
                deps_in_range(steps@),
                forall|q: int|
                    0 <= q < j ==> !steps@[(#[trigger] steps@[i as int].deps@[q]) as int].render,
            decreases deps_len - j,
        {
            if steps[i].deps[j] == ri {
                return false;
            }
            j = j + 1;
        }
        i = i + 1;
    }
    true
}

/// One scan of the scheduling loop: every unscheduled logic step whose
/// dependencies are all scheduled is appended to the order. Returns whether
/// anything was scheduled; if not, every remaining logic step has an
/// unscheduled dependency.
#[verifier::rlimit(100)]
fn schedule_scan(
    steps: &Vec<Step>,
    ri: usize,
    scheduled: &mut Vec<bool>,
    order: &mut Vec<usize>,
) -> (progress: bool)
    requires
        scan_inv(steps@, ri, old(scheduled)@, old(order)@),
    ensures
        scan_inv(steps@, ri, final(scheduled)@, final(order)@),
        !progress ==> final(order)@ == old(order)@ && final(scheduled)@ == old(scheduled)@,
        progress ==> final(order)@.len() > old(order)@.len(),
        !progress ==> forall|k: int|
            0 <= k < steps@.len() && !(#[trigger] final(scheduled)@[k]) && k != ri ==> exists|
                j: int,
            |
                0 <= j < steps@[k].deps@.len() && !final(scheduled)@[steps@[k].deps@[j] as int],
{
    let n = steps.len();
    let mut progress = false;
    let mut i: usize = 0;
    while i < n
        invariant
            0 <= i <= n,
            n == steps@.len(),
            ri < n,
            scan_inv(steps@, ri, scheduled@, order@),
            !progress ==> order@ == old(order)@ && scheduled@ == old(scheduled)@,
            progress ==> order@.len() > old(order)@.len(),
            old(order)@.len() <= order@.len(),
            !progress ==> forall|k: int|
                0 <= k < i && !(#[trigger] scheduled@[k]) && k != ri ==> exists|j: int|
                    0 <= j < steps@[k].deps@.len() && !scheduled@[steps@[k].deps@[j] as int],
        decreases n - i,
    {
        if !scheduled[i] && i != ri {
            let deps_len = steps[i].deps.len();
            let mut all_ready = true;
            let mut j: usize = 0;
            while j < deps_len
                invariant
                    0 <= j <= deps_len,
                    i < n,
                    n == steps@.len(),
                    scheduled@.len() == n,
                    deps_in_range(steps@),
                    deps_len == steps@[i as int].deps@.len(),
                    all_ready ==> forall|q: int|
                        0 <= q < j ==> scheduled@[(#[trigger] steps@[i as int].deps@[q]) as int],
                    !all_ready ==> exists|q: int|
                        0 <= q < deps_len && !scheduled@[steps@[i as int].deps@[q] as int],
                decreases deps_len - j,
            {
                if !scheduled[steps[i].deps[j]] {
                    all_ready = false;
                }
                j = j + 1;
            }
            if all_ready {
                let ghost ob = order@;
                let ghost sb = scheduled@;
                proof {
                    assert(!scheduled@[i as int]);
                    assert(!order@.contains(i as usize));
                    assert forall|a: int, b: int|
                        #![trigger ob.push(i as usize)[a], ob.push(i as usize)[b]]
                        0 <= a <= b < ob.push(i as usize).len() implies !steps@[ob.push(
                        i as usize,
                    )[a] as int].deps@.contains(ob.push(i as usize)[b]) by {
                        let no = ob.push(i as usize);
                        if b < ob.len() {
                            assert(no[a] == ob[a] && no[b] == ob[b]);
                        } else {
                            assert(no[b] == i as usize);
                            if a < ob.len() {
                                assert(no[a] == ob[a]);
                                if steps@[ob[a] as int].deps@.contains(i as usize) {
                                    let j2 = choose|j2: int|
                                        0 <= j2 < steps@[ob[a] as int].deps@.len()
                                            && steps@[ob[a] as int].deps@[j2] == i as usize;
                                    assert(scheduled@[i as int]);
                                }
                            } else {
                                if steps@[i as int].deps@.contains(i as usize) {
                                    let j2 = choose|j2: int|
                                        0 <= j2 < steps@[i as int].deps@.len() && steps@[i as int].deps@[j2]
                                            == i as usize;
                                    assert(scheduled@[i as int]);
                                }
                            }
                        }
                    }
                    assert forall|a: int, b: int|
                        #![trigger ob.push(i as usize)[a], ob.push(i as usize)[b]]
                        0 <= a < b < ob.push(i as usize).len() implies ob.push(i as usize)[a]
                            != ob.push(i as usize)[b] by {
                        let no = ob.push(i as usize);
                        if b == no.len() - 1 {
                            assert(no[a] == ob[a]);
                            if ob[a] == i as usize {
                                assert(ob.contains(i as usize));
                            }
                        }
                    }
                }
                order.push(i);
                scheduled.set(i, true);
                progress = true;
                proof {
                    assert(order@ == ob.push(i as usize));
                    assert(order@.no_duplicates());
                    assert forall|k: int|
                        0 <= k < n implies ((#[trigger] scheduled@[k]) <==> order@.contains(
                        k as usize,
                    )) by {
                        if k == i as int {
                            assert(order@.last() == i as usize);
                            assert(order@.contains(i as usize));
                        } else {
                            assert(scheduled@[k] == sb[k]);
                            if order@.contains(k as usize) {
                                let p = choose|p: int|
                                    0 <= p < order@.len() && order@[p] == k as usize;
                                assert(p < order@.len() - 1);
                                assert(ob[p] == k as usize);
                                assert(ob.contains(k as usize));
                            }
                            if ob.contains(k as usize) {
                                let p = choose|p: int| 0 <= p < ob.len() && ob[p] == k as usize;
                                assert(order@[p] == k as usize);
                                assert(order@.contains(k as usize));
                            }
                        }
                    }
                    assert forall|p: int, j3: int|
                        0 <= p < order@.len() && 0 <= j3 < steps@[order@[p] as int].deps@.len()
                            implies scheduled@[(
                        #[trigger] steps@[order@[p] as int].deps@[j3]) as int] by {
                        if p < order@.len() - 1 {
                            assert(order@[p] == ob[p]);
                            assert(sb[steps@[ob[p] as int].deps@[j3] as int]);
                        } else {
                            assert(order@[p] == i as usize);
                            assert(sb[steps@[i as int].deps@[j3] as int]);
                        }
                    }
                    lemma_distinct_bounded(order@, n as int);
                }
            }
        }
        i = i + 1;
    }
    progress
}

/// The state the scheduling scans maintain: the order holds distinct
/// non-render steps, mirrors the scheduled flags, and respects every
/// dependency edge.
pub open spec fn scan_inv(
    steps: Seq<Step>,
    ri: usize,
    scheduled: Seq<bool>,
    order: Seq<usize>,
) -> bool {
    &&& scheduled.len() == steps.len()
    &&& (ri as int) < steps.len()
    &&& deps_in_range(steps)
    &&& steps[ri as int].render
    &&& (forall|k: int| 0 <= k < steps.len() && k != ri ==> !(#[trigger] steps[k].render))
    &&& order.no_duplicates()
    &&& (forall|p: int|
        0 <= p < order.len() ==> (#[trigger] order[p]) < steps.len() && order[p] != ri)
    &&& (forall|k: int|
        0 <= k < steps.len() ==> ((#[trigger] scheduled[k]) <==> order.contains(k as usize)))
    &&& (forall|p: int, j: int|
        0 <= p < order.len() && 0 <= j < steps[order[p] as int].deps@.len() ==> scheduled[(
        #[trigger] steps[order[p] as int].deps@[j]) as int])
    &&& respects_deps(steps, order)
    &&& order.len() <= steps.len()
}

/// A validated, topologically ordered schedule.
#[derive(Debug)]
pub struct Schedule {
    steps: Vec<Step>,
    order: Vec<usize>,
}

impl Schedule {
    /// The steps the schedule was built from.
    pub closed spec fn spec_steps(&self) -> Seq<Step> {
        self.steps@
    }

    /// The computed execution order.
    pub closed spec fn spec_order(&self) -> Seq<usize> {
        self.order@
    }

    /// The execution order: a permutation of all steps in which every
    /// dependency comes before its dependent and the render step is last.
    pub fn order(&self) -> (r: &Vec<usize>)
        ensures
            r@ == self.spec_order(),
    {
        &self.order
    }

    /// Number of steps.
    pub fn len(&self) -> (r: usize)
        ensures
            r == self.spec_steps().len(),
    {
        self.steps.len()
    }

    /// Whether a step is the render step.
    pub fn is_render(&self, i: usize) -> (r: bool)
        requires
            i < self.spec_steps().len(),
        ensures
            r == self.spec_steps()[i as int].render,
    {
        self.steps[i].render
    }

    /// Validates a step list and computes a topologically valid order.
    ///
    /// Succeeds exactly on well-formed acyclic step lists: every dependency
    /// index in range, exactly one render step, nothing depending on the
    /// render step, and no dependency cycle among the logic steps. The
    /// errors come in that order of precedence; a cycle is reported with a
    /// witness set (see [`stuck_set`], [`lemma_stuck_blocks`]).
    #[verifier::rlimit(100)]
    pub fn new(steps: Vec<Step>) -> (r: Result<Schedule, ScheduleError>)
        ensures
            !deps_in_range(steps@) <==> r == Result::<Schedule, ScheduleError>::Err(
                ScheduleError::DepOutOfRange,
            ),
            deps_in_range(steps@) && !one_render(steps@) <==> r == Result::<
                Schedule,
                ScheduleError,
            >::Err(ScheduleError::RenderCount),
            deps_in_range(steps@) && one_render(steps@) && depends_on_render(steps@) <==> r
                == Result::<Schedule, ScheduleError>::Err(ScheduleError::DependsOnRender),
            r matches Ok(s) ==> {
                &&& s.spec_steps() == steps@
                &&& is_perm(s.spec_order(), steps@.len() as int)
                &&& respects_deps(steps@, s.spec_order())
                &&& render_last(steps@, s.spec_order())
            },
            r matches Err(ScheduleError::Cycle(stuck)) ==> stuck_set(steps@, stuck@),
    {
        let n = steps.len();
        if !check_deps_in_range(&steps) {
            return Err(ScheduleError::DepOutOfRange);
        }
        let ri: usize = match find_render(&steps) {
            Some(ri) => ri,
            None => {
                return Err(ScheduleError::RenderCount);
            },
        };
        proof {
            assert(one_render(steps@));
        }
        if !check_no_render_dep(&steps, ri) {
            return Err(ScheduleError::DependsOnRender);
        }

        // Schedule the logic steps: repeatedly take any unscheduled step
        // whose dependencies are all scheduled, until a scan stalls.
        let mut scheduled: Vec<bool> = Vec::new();
        let mut i: usize = 0;
        while i < n
            invariant
                0 <= i <= n,
                scheduled@.len() == i,
                forall|k: int| 0 <= k < i ==> !(#[trigger] scheduled@[k]),
            decreases n - i,
        {
            scheduled.push(false);
            i = i + 1;
        }
        let mut order: Vec<usize> = Vec::new();
        proof {
            assert(scan_inv(steps@, ri, scheduled@, order@));
        }

        loop
            invariant
                n == steps@.len(),
                scan_inv(steps@, ri, scheduled@, order@),
            ensures
                n == steps@.len(),
                scan_inv(steps@, ri, scheduled@, order@),
                forall|k: int|
                    0 <= k < n && !(#[trigger] scheduled@[k]) && k != ri ==> exists|j: int|
                        0 <= j < steps@[k].deps@.len() && !scheduled@[steps@[k].deps@[j] as int],
            decreases n - order@.len(),
        {
            let progress = schedule_scan(&steps, ri, &mut scheduled, &mut order);
            if !progress {
                break ;
            }
        }

        // A stalled scan means the unscheduled logic steps form a cycle.
        let mut stuck: Vec<usize> = Vec::new();
        let mut i: usize = 0;
        while i < n
            invariant
                0 <= i <= n,
                n == steps@.len(),
                scheduled@.len() == n,
                ri < n,
                forall|k: int|
                    0 <= k < stuck@.len() ==> (#[trigger] stuck@[k]) < n && stuck@[k] != ri
                        && !scheduled@[stuck@[k] as int],
                forall|k: int|
                    0 <= k < i && !(#[trigger] scheduled@[k]) && k != ri ==> stuck@.contains(
                    k as usize,
                ),
            decreases n - i,
        {
            if !scheduled[i] && i != ri {
                let ghost sb2 = stuck@;
                stuck.push(i);
                proof {
                    assert(stuck@ == sb2.push(i as usize));
                    assert(stuck@.last() == i as usize);
                    assert forall|k: int|
                        0 <= k < i + 1 && !(#[trigger] scheduled@[k]) && k != ri implies stuck@.contains(
                        k as usize,
                    ) by {
                        if k < i as int {
                            assert(sb2.contains(k as usize));
                            let p = choose|p: int| 0 <= p < sb2.len() && sb2[p] == k as usize;
                            assert(stuck@[p] == k as usize);
                        } else {
                            assert(stuck@.contains(i as usize));
                        }
                    }
                }
            }
            i = i + 1;
        }

        if stuck.len() > 0 {
            proof {
                assert forall|k: int| 0 <= k < stuck@.len() implies #[trigger] has_dep_in(
                    steps@,
                    stuck@,
                    k,
                ) by {
                    let s = stuck@[k];
                    assert(!scheduled@[s as int] && s != ri && s < n);
                    let j = choose|j: int|
                        0 <= j < steps@[s as int].deps@.len() && !scheduled@[steps@[s as int].deps@[j] as int];
                    let d = steps@[s as int].deps@[j];
                    assert(d < n);
                    assert(!steps@[d as int].render);
                    assert(d != ri) by {
                        if d == ri {
                            assert(steps@[ri as int].render);
                        }
                    }
                    assert(stuck@.contains(d));
                    let m = choose|m: int| 0 <= m < stuck@.len() && stuck@[m] == d;
                    assert(steps@[s as int].deps@.contains(stuck@[m]));
                }
                assert forall|k: int|
                    0 <= k < stuck@.len() implies (#[trigger] stuck@[k]) < steps@.len()
                        && !steps@[stuck@[k] as int].render by {
                    assert(stuck@[k] != ri);
                }
                assert(stuck_set(steps@, stuck@));
            }
            return Err(ScheduleError::Cycle(stuck));
        }

        // Everything but the render step is scheduled; it goes last.
        proof {
            assert(!order@.contains(ri)) by {
                if order@.contains(ri) {
                    let p = choose|p: int| 0 <= p < order@.len() && order@[p] == ri;
                }
            }
            assert forall|a: int, b: int|
                #![trigger order@.push(ri)[a], order@.push(ri)[b]]
                0 <= a <= b < order@.push(ri).len() implies !steps@[order@.push(
                ri,
            )[a] as int].deps@.contains(order@.push(ri)[b]) by {
                let no = order@.push(ri);
                if b < order@.len() {
                    assert(no[a] == order@[a] && no[b] == order@[b]);
                } else {
                    assert(no[b] == ri);
                    if a < order@.len() {
                        assert(no[a] == order@[a]);
                        if steps@[order@[a] as int].deps@.contains(ri) {
                            let j2 = choose|j2: int|
                                0 <= j2 < steps@[order@[a] as int].deps@.len()
                                    && steps@[order@[a] as int].deps@[j2] == ri;
                            assert(!steps@[ri as int].render);
                        }
                    } else {
                        if steps@[ri as int].deps@.contains(ri) {
                            let j2 = choose|j2: int|
                                0 <= j2 < steps@[ri as int].deps@.len() && steps@[ri as int].deps@[j2]
                                    == ri;
                            assert(!steps@[ri as int].render);
                        }
                    }
                }
            }
            assert forall|k: int|
                0 <= k < n && k != ri implies order@.contains(#[trigger] (k as usize)) by {
                assert(!scheduled@[k] ==> stuck@.contains(k as usize));
                assert(stuck@.len() == 0);
            }
        }
        let ghost pre = order@;
        proof {
            assert forall|a: int, b: int|
                #![trigger pre.push(ri)[a], pre.push(ri)[b]]
                0 <= a < b < pre.push(ri).len() implies pre.push(ri)[a] != pre.push(ri)[b] by {
                let no = pre.push(ri);
                if b == no.len() - 1 {
                    assert(no[a] == pre[a]);
                    assert(pre[a] != ri);
                }
            }
        }
        order.push(ri);
        proof {
            assert(order@ == pre.push(ri));
            assert(order@.no_duplicates());
            // All of 0 .. n occurs and there are no duplicates, so the
            // length is exactly n.
            assert forall|k: int| 0 <= k < n implies order@.contains(#[trigger] (k as usize)) by {
                if k == ri as int {
                    assert(order@.last() == ri);
                    assert(order@.contains(ri));
                } else {
                    assert(pre.contains(k as usize));
                    let p = choose|p: int| 0 <= p < pre.len() && pre[p] == k as usize;
                    assert(order@[p] == k as usize);
                }
            }
            lemma_distinct_bounded(order@, n as int);
            lemma_order_covers(order@, n as int);
            assert(render_last(steps@, order@)) by {
                assert(order@.last() == ri);
                assert(forall|k: int| 0 <= k < order@.len() - 1 ==> order@[k] == pre[k]);
            }
            assert(respects_deps(steps@, order@));
        }
        Ok(Schedule { steps, order })
    }
}

/// A duplicate-free sequence containing all of `0 .. n` has at least `n`
/// entries.
proof fn lemma_order_covers(s: Seq<usize>, n: int)
    requires
        0 <= n <= usize::MAX,
        s.no_duplicates(),
        forall|k: int| 0 <= k < n ==> s.contains(#[trigger] (k as usize)),
    ensures
        s.len() >= n,
    decreases n,
{
    if n > 0 {
        assert(s.contains(((n - 1) as usize)));
        let p = choose|p: int| 0 <= p < s.len() && s[p] == (n - 1) as usize;
        let t = s.remove(p);
        assert(t.no_duplicates());
        assert forall|k: int| 0 <= k < n - 1 implies t.contains(#[trigger] (k as usize)) by {
            assert(s.contains((k as usize)));
            let q = choose|q: int| 0 <= q < s.len() && s[q] == k as usize;
            assert((k as usize) as int == k);
            assert(((n - 1) as usize) as int == n - 1);
            assert(q != p);
            if q < p {
                assert(t[q] == k as usize);
            } else {
                assert(t[q - 1] == k as usize);
            }
        }
        lemma_order_covers(t, n - 1);
    }
}

} // verus!

//! The order in which the stages of a processing pipeline run: each stage
//! after the stages it depends on, found in passes over the stages still
//! waiting.

use vstd::prelude::*;

verus! {

/// A stage's name and the names of the stages it depends on.
#[derive(Debug, Clone)]
pub struct StageDependencies {
    pub id: String,
    pub dependencies: Vec<String>,
}

/// Model of a stage: its name and its dependencies' names.
pub struct StageView {
    pub id: Seq<char>,
    pub dependencies: Seq<Seq<char>>,
}

impl View for StageDependencies {
    type V = StageView;

    open spec fn view(&self) -> StageView {
        StageView { id: self.id@, dependencies: self.dependencies@.map_values(|d: String| d@) }
    }
}

/// Why the stages cannot be ordered.
#[derive(Debug, Clone)]
pub enum DependencyError {
    /// A pass resolved no stage: these stages wait on each other, or on
    /// stages that do not exist.
    CircularDependency(Vec<String>),
    /// The passes allowed (a hundred) ran out.
    MaxIterationsExceeded,
}

/// Model of a dependency error.
pub enum DependencyErrorView {
    CircularDependency(Seq<Seq<char>>),
    MaxIterationsExceeded,
}

impl View for DependencyError {
    type V = DependencyErrorView;

    open spec fn view(&self) -> DependencyErrorView {
        match self {
            DependencyError::CircularDependency(ids) => DependencyErrorView::CircularDependency(
                ids@.map_values(|s: String| s@),
            ),
            DependencyError::MaxIterationsExceeded => DependencyErrorView::MaxIterationsExceeded,
        }
    }
}

/// How many passes the ordering may take.
pub const MAX_PASSES: usize = 100;

/// Whether every dependency of `s` is among `resolved`.
pub open spec fn dependencies_met(s: StageView, resolved: Seq<Seq<char>>) -> bool {
    forall|k: int| 0 <= k < s.dependencies.len() ==> resolved.contains(#[trigger] s.dependencies[k])
}

/// One pass over the waiting stages, in order: a stage whose dependencies
/// are all resolved (counting those resolved earlier in the pass) is
/// resolved; the others keep waiting, in order.
pub open spec fn pass(resolved: Seq<Seq<char>>, pending: Seq<StageView>) -> (Seq<Seq<char>>, Seq<StageView>)
    decreases pending.len(),
{
    if pending.len() == 0 {
        (resolved, pending)
    } else if dependencies_met(pending[0], resolved) {
        pass(resolved.push(pending[0].id), pending.drop_first())
    } else {
        let (r, rest) = pass(resolved, pending.drop_first());
        (r, seq![pending[0]] + rest)
    }
}

/// The names of the stages.
pub open spec fn ids_of(stages: Seq<StageView>) -> Seq<Seq<char>> {
    stages.map_values(|s: StageView| s.id)
}

/// Passes from pass `count` on, while stages wait and passes are left: a
/// pass that resolves nothing is an error naming the stages still waiting;
/// running out of passes is an error, even when the last pass resolved the
/// last stage.
pub open spec fn passes(resolved: Seq<Seq<char>>, pending: Seq<StageView>, count: nat) -> Result<
    Seq<Seq<char>>,
    DependencyErrorView,
>
    decreases 100 - count,
{
    if pending.len() > 0 && count < 100 {
        let (r, rest) = pass(resolved, pending);
        if rest.len() == pending.len() {
            Err(DependencyErrorView::CircularDependency(ids_of(rest)))
        } else {
            passes(r, rest, count + 1)
        }
    } else if count >= 100 {
        Err(DependencyErrorView::MaxIterationsExceeded)
    } else {
        Ok(resolved)
    }
}

/// Whether `s` is one of `stages`.
pub open spec fn in_stages(s: StageView, stages: Seq<StageView>) -> bool {
    exists|j: int| 0 <= j < stages.len() && stages[j] == s
}

/// Whether the name at position `i` of `order` is that of one of `stages`
/// whose dependencies all come earlier in `order`.
pub open spec fn placed_after_dependencies(order: Seq<Seq<char>>, stages: Seq<StageView>, i: int) -> bool {
    exists|j: int| 0 <= j < stages.len() && stages[j].id == order[i] && #[trigger] dependencies_met(stages[j], order.take(i))
}

/// Whether each name in `order` is that of one of `stages` whose
/// dependencies all come earlier in `order`.
pub open spec fn follows_dependencies(order: Seq<Seq<char>>, stages: Seq<StageView>) -> bool {
    forall|i: int| 0 <= i < order.len() ==> #[trigger] placed_after_dependencies(order, stages, i)
}

/// Appending a stage whose dependencies are all placed keeps the order.
proof fn lemma_follows_push(order: Seq<Seq<char>>, stages: Seq<StageView>, s: StageView)
    requires
        follows_dependencies(order, stages),
        in_stages(s, stages),
        dependencies_met(s, order),
    ensures
        follows_dependencies(order.push(s.id), stages),
{
    let o2 = order.push(s.id);
    assert forall|i: int| 0 <= i < o2.len() implies #[trigger] placed_after_dependencies(o2, stages, i) by {
        if i < order.len() {
            assert(o2.take(i) =~= order.take(i));
            assert(placed_after_dependencies(order, stages, i));
            let j = choose|j: int|
                0 <= j < stages.len() && stages[j].id == order[i] && #[trigger] dependencies_met(
                    stages[j],
                    order.take(i),
                );
            assert(dependencies_met(stages[j], o2.take(i)));
        } else {
            assert(o2.take(i) =~= order);
            let j = choose|j: int| 0 <= j < stages.len() && stages[j] == s;
            assert(dependencies_met(stages[j], o2.take(i)));
        }
    }
}

/// A pass keeps the order and leaves only given stages waiting.
proof fn lemma_pass_follows(resolved: Seq<Seq<char>>, pending: Seq<StageView>, stages: Seq<StageView>)
    requires
        follows_dependencies(resolved, stages),
        forall|k: int| 0 <= k < pending.len() ==> in_stages(#[trigger] pending[k], stages),
    ensures
        follows_dependencies(pass(resolved, pending).0, stages),
        forall|k: int| 0 <= k < pass(resolved, pending).1.len() ==> in_stages(#[trigger] pass(resolved, pending).1[k], stages),
    decreases pending.len(),
{
    if pending.len() > 0 {
        let rest = pending.drop_first();
        assert forall|k: int| 0 <= k < rest.len() implies in_stages(#[trigger] rest[k], stages) by {
            assert(rest[k] == pending[k + 1]);
        }
        assert(in_stages(pending[0], stages));
        if dependencies_met(pending[0], resolved) {
            lemma_follows_push(resolved, stages, pending[0]);
            lemma_pass_follows(resolved.push(pending[0].id), rest, stages);
        } else {
            lemma_pass_follows(resolved, rest, stages);
            let (r, rest2) = pass(resolved, rest);
            let out = seq![pending[0]] + rest2;
            assert forall|k: int| 0 <= k < out.len() implies in_stages(#[trigger] out[k], stages) by {
                if k > 0 {
                    assert(out[k] == rest2[k - 1]);
                }
            }
        }
    }
}

/// Passes keep the order.
proof fn lemma_passes_follow(resolved: Seq<Seq<char>>, pending: Seq<StageView>, count: nat, stages: Seq<StageView>)
    requires
        follows_dependencies(resolved, stages),
        forall|k: int| 0 <= k < pending.len() ==> in_stages(#[trigger] pending[k], stages),
    ensures
        passes(resolved, pending, count) matches Ok(order) ==> follows_dependencies(order, stages),
    decreases 100 - count,
{
    if pending.len() > 0 && count < 100 {
        lemma_pass_follows(resolved, pending, stages);
        let (r, rest) = pass(resolved, pending);
        if rest.len() != pending.len() {
            lemma_passes_follow(r, rest, count + 1, stages);
        }
    }
}

/// In an order found, every stage comes after all the stages it depends
/// on: each name is that of a given stage whose dependencies all appear
/// earlier.
pub proof fn law_order_follows_dependencies(stages: Seq<StageView>)
    ensures
        passes(Seq::empty(), stages, 0) matches Ok(order) ==> follows_dependencies(order, stages),
{
    assert forall|k: int| 0 <= k < stages.len() implies in_stages(#[trigger] stages[k], stages) by {
        assert(stages[k] == stages[k]);
    }
    lemma_passes_follow(Seq::empty(), stages, 0, stages);
}

/// Whether position `i` occurs in `order`.
pub open spec fn listed(order: Seq<int>, i: int) -> bool {
    exists|t: int| 0 <= t < order.len() && #[trigger] order[t] == i
}

/// Whether `order` lists the positions of `stages` (each at least once) so
/// that every dependency of a stage names a stage listed before it.
pub open spec fn topological(stages: Seq<StageView>, order: Seq<int>) -> bool {
    &&& forall|t: int| 0 <= t < order.len() ==> 0 <= #[trigger] order[t] < stages.len()
    &&& forall|i: int| 0 <= i < stages.len() ==> #[trigger] listed(order, i)
    &&& forall|t: int, k: int|
        0 <= t < order.len() && 0 <= k < stages[order[t]].dependencies.len() ==> exists|u: int|
            0 <= u < t && #[trigger] stages[order[u]].id == #[trigger] stages[order[t]].dependencies[k]
}

/// Whether every given stage is still waiting or has its name resolved.
pub open spec fn accounted(stages: Seq<StageView>, resolved: Seq<Seq<char>>, pending: Seq<StageView>) -> bool {
    forall|i: int| 0 <= i < stages.len() ==> pending.contains(#[trigger] stages[i]) || resolved.contains(stages[i].id)
}

/// A pass only adds names, keeps a waiting stage either waiting or
/// resolved, and leaves only stages that were waiting.
proof fn lemma_pass_accounts(resolved: Seq<Seq<char>>, pending: Seq<StageView>, s: StageView, x: Seq<char>)
    ensures
        resolved.contains(x) ==> pass(resolved, pending).0.contains(x),
        pending.contains(s) ==> pass(resolved, pending).1.contains(s) || pass(resolved, pending).0.contains(s.id),
        pass(resolved, pending).1.contains(s) ==> pending.contains(s),
        pass(resolved, pending).1.len() <= pending.len(),
    decreases pending.len(),
{
    if pending.len() > 0 {
        let d = pending.drop_first();
        if dependencies_met(pending[0], resolved) {
            let r2 = resolved.push(pending[0].id);
            lemma_pass_accounts(r2, d, s, x);
            lemma_pass_accounts(r2, d, s, pending[0].id);
            if resolved.contains(x) {
                let j = choose|j: int| 0 <= j < resolved.len() && resolved[j] == x;
                assert(r2[j] == x);
            }
            assert(r2[resolved.len() as int] == pending[0].id);
            if pending.contains(s) && s != pending[0] {
                let j = choose|j: int| 0 <= j < pending.len() && pending[j] == s;
                assert(d[j - 1] == s);
            }
            if pass(r2, d).1.contains(s) {
                let j = choose|j: int| 0 <= j < d.len() && d[j] == s;
                assert(pending[j + 1] == s);
            }
        } else {
            lemma_pass_accounts(resolved, d, s, x);
            let (r, rest) = pass(resolved, d);
            let out = seq![pending[0]] + rest;
            if pending.contains(s) {
                if s == pending[0] {
                    assert(out[0] == s);
                } else {
                    let j = choose|j: int| 0 <= j < pending.len() && pending[j] == s;
                    assert(d[j - 1] == s);
                    if rest.contains(s) {
                        let k = choose|k: int| 0 <= k < rest.len() && rest[k] == s;
                        assert(out[k + 1] == s);
                    }
                }
            }
            if out.contains(s) {
                let k = choose|k: int| 0 <= k < out.len() && out[k] == s;
                if k == 0 {
                    assert(pending[0] == s);
                } else {
                    assert(rest[k - 1] == s);
                    let j = choose|j: int| 0 <= j < d.len() && d[j] == s;
                    assert(pending[j + 1] == s);
                }
            }
        }
    }
}

/// A pass that meets a waiting stage whose dependencies are all resolved
/// resolves at least one stage.
proof fn lemma_pass_progress(resolved: Seq<Seq<char>>, pending: Seq<StageView>, s: StageView)
    requires
        pending.contains(s),
        dependencies_met(s, resolved),
    ensures
        pass(resolved, pending).1.len() < pending.len(),
    decreases pending.len(),
{
    let d = pending.drop_first();
    if dependencies_met(pending[0], resolved) {
        lemma_pass_accounts(resolved.push(pending[0].id), d, s, Seq::empty());
    } else {
        assert(s != pending[0]);
        let j = choose|j: int| 0 <= j < pending.len() && pending[j] == s;
        assert(d[j - 1] == s);
        lemma_pass_progress(resolved, d, s);
    }
}

/// With a topological order, some waiting stage has all its dependencies
/// resolved: the first waiting one in that order, searched from position
/// `t` on.
proof fn lemma_ready_stage(stages: Seq<StageView>, order: Seq<int>, resolved: Seq<Seq<char>>, pending: Seq<StageView>, t: int)
    requires
        topological(stages, order),
        accounted(stages, resolved, pending),
        0 <= t <= order.len(),
        forall|u: int| 0 <= u < t ==> !pending.contains(#[trigger] stages[order[u]]),
        exists|t2: int| t <= t2 < order.len() && pending.contains(#[trigger] stages[order[t2]]),
    ensures
        exists|s: StageView| pending.contains(s) && #[trigger] dependencies_met(s, resolved),
    decreases order.len() - t,
{
    if pending.contains(stages[order[t]]) {
        let s = stages[order[t]];
        assert forall|k: int| 0 <= k < s.dependencies.len() implies resolved.contains(#[trigger] s.dependencies[k]) by {
            let u = choose|u: int| 0 <= u < t && #[trigger] stages[order[u]].id == #[trigger] stages[order[t]].dependencies[k];
            assert(!pending.contains(stages[order[u]]));
            assert(0 <= order[u] < stages.len());
        }
        assert(dependencies_met(s, resolved));
    } else {
        let t2 = choose|t2: int| t <= t2 < order.len() && pending.contains(#[trigger] stages[order[t2]]);
        assert(t2 > t);
        lemma_ready_stage(stages, order, resolved, pending, t + 1);
    }
}

/// Passes over stages with a topological order end in an order, as long as
/// fewer than a hundred passes remain needed.
proof fn lemma_passes_ok(stages: Seq<StageView>, order: Seq<int>, resolved: Seq<Seq<char>>, pending: Seq<StageView>, count: nat)
    requires
        topological(stages, order),
        accounted(stages, resolved, pending),
        forall|k: int| 0 <= k < pending.len() ==> exists|i: int| 0 <= i < stages.len() && stages[i] == #[trigger] pending[k],
        pending.len() + count <= 99,
    ensures
        passes(resolved, pending, count) is Ok,
    decreases pending.len(),
{
    if pending.len() > 0 {
        let i = choose|i: int| 0 <= i < stages.len() && stages[i] == pending[0];
        assert(listed(order, i));
        let t0 = choose|t: int| 0 <= t < order.len() && #[trigger] order[t] == i;
        assert(pending.contains(stages[order[t0]]));
        lemma_ready_stage(stages, order, resolved, pending, 0);
        let s = choose|s: StageView| pending.contains(s) && #[trigger] dependencies_met(s, resolved);
        lemma_pass_progress(resolved, pending, s);
        let (r, rest) = pass(resolved, pending);
        assert forall|j: int| 0 <= j < stages.len() implies rest.contains(#[trigger] stages[j]) || r.contains(stages[j].id) by {
            lemma_pass_accounts(resolved, pending, stages[j], stages[j].id);
        }
        assert forall|k: int| 0 <= k < rest.len() implies exists|i2: int| 0 <= i2 < stages.len() && stages[i2] == #[trigger] rest[k] by {
            lemma_pass_accounts(resolved, pending, rest[k], Seq::empty());
            let m = choose|m: int| 0 <= m < pending.len() && pending[m] == rest[k];
            assert(exists|i2: int| 0 <= i2 < stages.len() && stages[i2] == pending[m]);
        }
        lemma_passes_ok(stages, order, r, rest, count + 1);
    }
}

/// Stages that can be ordered so that each comes after the stages it
/// depends on are always ordered, when there are fewer than a hundred of
/// them: no circular dependency is reported and the passes do not run out.
pub proof fn law_acyclic_stages_resolve(stages: Seq<StageView>, order: Seq<int>)
    requires
        topological(stages, order),
        stages.len() < 100,
    ensures
        passes(Seq::empty(), stages, 0) is Ok,
{
    assert forall|i: int| 0 <= i < stages.len() implies stages.contains(#[trigger] stages[i]) || Seq::<Seq<char>>::empty().contains(stages[i].id) by {
        assert(stages[i] == stages[i]);
    }
    lemma_passes_ok(stages, order, Seq::empty(), stages, 0);
}

/// Passes that start with every given stage accounted for name every given
/// stage in the order they end in.
proof fn lemma_passes_list_all(stages: Seq<StageView>, resolved: Seq<Seq<char>>, pending: Seq<StageView>, count: nat)
    requires
        accounted(stages, resolved, pending),
    ensures
        passes(resolved, pending, count) matches Ok(order) ==> forall|i: int|
            0 <= i < stages.len() ==> order.contains(#[trigger] stages[i].id),
    decreases 100 - count,
{
    if pending.len() > 0 && count < 100 {
        let (r, rest) = pass(resolved, pending);
        if rest.len() != pending.len() {
            assert forall|j: int| 0 <= j < stages.len() implies rest.contains(#[trigger] stages[j]) || r.contains(stages[j].id) by {
                lemma_pass_accounts(resolved, pending, stages[j], stages[j].id);
            }
            lemma_passes_list_all(stages, r, rest, count + 1);
        }
    } else if count < 100 {
        assert forall|i: int| 0 <= i < stages.len() implies resolved.contains(#[trigger] stages[i].id) by {
            assert(!pending.contains(stages[i]));
        }
    }
}

/// When stages with distinct names are ordered, the order names every
/// stage, and every dependency of every stage names one of the stages and
/// comes before it: the dependencies are all known and none is circular.
pub proof fn law_resolved_stages_are_known(stages: Seq<StageView>)
    requires
        forall|a: int, b: int| 0 <= a < b < stages.len() ==> #[trigger] stages[a].id != #[trigger] stages[b].id,
    ensures
        passes(Seq::empty(), stages, 0) matches Ok(order) ==> {
            &&& forall|i: int| 0 <= i < stages.len() ==> order.contains(#[trigger] stages[i].id)
            &&& forall|i: int, k: int| 0 <= i < stages.len() && 0 <= k < stages[i].dependencies.len()
                ==> exists|j: int| 0 <= j < stages.len() && #[trigger] stages[j].id == #[trigger] stages[i].dependencies[k]
        },
{
    assert forall|i: int| 0 <= i < stages.len() implies stages.contains(#[trigger] stages[i]) || Seq::<Seq<char>>::empty().contains(stages[i].id) by {
        assert(stages[i] == stages[i]);
    }
    lemma_passes_list_all(stages, Seq::empty(), stages, 0);
    law_order_follows_dependencies(stages);
    if passes(Seq::empty(), stages, 0) is Ok {
        let order = passes(Seq::empty(), stages, 0)->Ok_0;
        assert forall|i: int, k: int| 0 <= i < stages.len() && 0 <= k < stages[i].dependencies.len()
            implies exists|j: int| 0 <= j < stages.len() && #[trigger] stages[j].id == #[trigger] stages[i].dependencies[k] by {
            assert(order.contains(stages[i].id));
            let t = choose|t: int| 0 <= t < order.len() && order[t] == stages[i].id;
            assert(placed_after_dependencies(order, stages, t));
            let j0 = choose|j: int| 0 <= j < stages.len() && stages[j].id == order[t] && #[trigger] dependencies_met(stages[j], order.take(t));
            if j0 != i {
                if j0 < i {
                    assert(stages[j0].id != stages[i].id);
                } else {
                    assert(stages[i].id != stages[j0].id);
                }
            }
            let d = stages[i].dependencies[k];
            assert(order.take(t).contains(d));
            let u = choose|u: int| 0 <= u < order.take(t).len() && order.take(t)[u] == d;
            assert(order[u] == d);
            assert(placed_after_dependencies(order, stages, u));
            let j1 = choose|j: int| 0 <= j < stages.len() && stages[j].id == order[u] && #[trigger] dependencies_met(stages[j], order.take(u));
            assert(stages[j1].id == stages[i].dependencies[k]);
        }
    }
}

/// Models of a list of stages.
pub open spec fn stages_view(v: Seq<StageDependencies>) -> Seq<StageView> {
    v.map_values(|s: StageDependencies| s@)
}

/// The stages that the indices pick.
pub open spec fn picked(stages: Seq<StageDependencies>, idx: Seq<usize>) -> Seq<StageView> {
    idx.map_values(|i: usize| stages[i as int]@)
}

/// Models of a list of names.
pub open spec fn names_view(v: Seq<String>) -> Seq<Seq<char>> {
    v.map_values(|s: String| s@)
}

/// Whether `name` is among `names`.
fn contains_name(names: &Vec<String>, name: &String) -> (b: bool)
    ensures
        b == names_view(names@).contains(name@),
{
    let mut i: usize = 0;
    while i < names.len()
        invariant
            i <= names@.len(),
            forall|j: int| 0 <= j < i ==> names@[j]@ != name@,
        decreases names@.len() - i,
    {
        if names[i] == *name {
            assert(names_view(names@)[i as int] == name@);
            return true;
        }
        i = i + 1;
    }
    proof {
        if names_view(names@).contains(name@) {
            let j = choose|j: int| 0 <= j < names_view(names@).len() && names_view(names@)[j] == name@;
            assert(names@[j]@ == name@);
        }
    }
    false
}

/// Whether every dependency of `s` is among `resolved`.
fn dependencies_met_exec(s: &StageDependencies, resolved: &Vec<String>) -> (b: bool)
    ensures
        b == dependencies_met(s@, names_view(resolved@)),
{
    let mut k: usize = 0;
    while k < s.dependencies.len()
        invariant
            k <= s.dependencies@.len(),
            forall|j: int| 0 <= j < k ==> names_view(resolved@).contains(#[trigger] s@.dependencies[j]),
        decreases s.dependencies@.len() - k,
    {
        if !contains_name(resolved, &s.dependencies[k]) {
            assert(!names_view(resolved@).contains(s@.dependencies[k as int]));
            return false;
        }
        k = k + 1;
    }
    true
}

/// One pass over the waiting stages, as `pass` describes it.
fn run_pass(stages: &Vec<StageDependencies>, resolved: &mut Vec<String>, pending: &mut Vec<usize>)
    requires
        forall|j: int| 0 <= j < old(pending)@.len() ==> (#[trigger] old(pending)@[j]) < stages@.len(),
    ensures
        forall|j: int| 0 <= j < final(pending)@.len() ==> (#[trigger] final(pending)@[j]) < stages@.len(),
        (names_view(final(resolved)@), picked(stages@, final(pending)@)) == pass(
            names_view(old(resolved)@),
            picked(stages@, old(pending)@),
        ),
{
    let ghost all = picked(stages@, pending@);
    let ghost r0 = names_view(resolved@);
    let mut i: usize = 0;
    proof {
        assert(picked(stages@, pending@).skip(0) =~= all);
        let (r, rest) = pass(r0, all);
        assert(picked(stages@, pending@).take(0) + rest =~= rest);
    }
    while i < pending.len()
        invariant
            i <= pending@.len(),
            forall|j: int| 0 <= j < pending@.len() ==> (#[trigger] pending@[j]) < stages@.len(),
            pass(r0, all) == ({
                let (r, rest) = pass(names_view(resolved@), picked(stages@, pending@).skip(i as int));
                (r, picked(stages@, pending@).take(i as int) + rest)
            }),
        decreases pending@.len() - i,
    {
        let ghost before_pending = pending@;
        let ghost before_resolved = resolved@;
        let s = &stages[pending[i]];
        let ghost tail = picked(stages@, before_pending).skip(i as int);
        assert(tail[0] == s@);
        assert(tail.drop_first() =~= picked(stages@, before_pending).skip(i + 1));
        if dependencies_met_exec(s, resolved) {
            resolved.push(s.id.clone());
            pending.remove(i);
            proof {
                assert(names_view(resolved@) =~= names_view(before_resolved).push(s@.id));
                assert(picked(stages@, pending@).skip(i as int) =~= picked(stages@, before_pending).skip(i + 1));
                assert(picked(stages@, pending@).take(i as int) =~= picked(stages@, before_pending).take(i as int));
            }
        } else {
            proof {
                let (r, rest) = pass(names_view(resolved@), tail.drop_first());
                assert(picked(stages@, pending@).take(i as int) + (seq![s@] + rest) =~= picked(
                    stages@,
                    pending@,
                ).take(i + 1) + rest);
            }
            i = i + 1;
        }
    }
    proof {
        assert(picked(stages@, pending@).skip(i as int) =~= Seq::<StageView>::empty());
        assert(picked(stages@, pending@).take(i as int) + Seq::<StageView>::empty() =~= picked(stages@, pending@));
    }
}

/// The names of the stages in an order in which each comes after the
/// stages it depends on, found in passes over the waiting stages (a stage
/// named twice is placed twice), or why there is none.
pub fn resolve_stage_dependencies(stages: &Vec<StageDependencies>) -> (r: Result<Vec<String>, DependencyError>)
    ensures
        match r {
            Ok(order) => passes(Seq::empty(), stages_view(stages@), 0) == Ok::<Seq<Seq<char>>, DependencyErrorView>(
                names_view(order@),
            ),
            Err(e) => passes(Seq::empty(), stages_view(stages@), 0) == Err::<Seq<Seq<char>>, DependencyErrorView>(
                e@,
            ),
        },
        r matches Ok(order) ==> follows_dependencies(names_view(order@), stages_view(stages@)),
        r matches Ok(order) ==> forall|i: int|
            0 <= i < stages@.len() ==> names_view(order@).contains(#[trigger] stages_view(stages@)[i].id),
{
    proof {
        let sv = stages_view(stages@);
        law_order_follows_dependencies(sv);
        assert forall|i: int| 0 <= i < sv.len() implies sv.contains(#[trigger] sv[i]) || Seq::<Seq<char>>::empty().contains(sv[i].id) by {
            assert(sv[i] == sv[i]);
        }
        lemma_passes_list_all(sv, Seq::empty(), sv, 0);
    }
    let mut resolved: Vec<String> = Vec::new();
    let mut pending: Vec<usize> = Vec::new();
    let mut k: usize = 0;
    while k < stages.len()
        invariant
            k <= stages@.len(),
            pending@ == Seq::new(k as nat, |j: int| j as usize),
        decreases stages@.len() - k,
    {
        pending.push(k);
        k = k + 1;
        assert(pending@ =~= Seq::new(k as nat, |j: int| j as usize));
    }
    assert(picked(stages@, pending@) =~= stages_view(stages@));
    assert(names_view(resolved@) =~= Seq::<Seq<char>>::empty());
    let mut count: usize = 0;
    while pending.len() > 0 && count < MAX_PASSES
        invariant
            count <= MAX_PASSES,
            forall|j: int| 0 <= j < pending@.len() ==> (#[trigger] pending@[j]) < stages@.len(),
            passes(Seq::empty(), stages_view(stages@), 0) == passes(
                names_view(resolved@),
                picked(stages@, pending@),
                count as nat,
            ),
        decreases MAX_PASSES - count,
    {
        let before = pending.len();
        run_pass(stages, &mut resolved, &mut pending);
        if pending.len() == before {
            let mut ids: Vec<String> = Vec::new();
            let mut j: usize = 0;
            while j < pending.len()
                invariant
                    j <= pending@.len(),
                    forall|m: int| 0 <= m < pending@.len() ==> (#[trigger] pending@[m]) < stages@.len(),
                    names_view(ids@) == ids_of(picked(stages@, pending@)).take(j as int),
                decreases pending@.len() - j,
            {
                let ghost before_ids = ids@;
                assert(ids_of(picked(stages@, pending@))[j as int] == stages@[pending@[j as int] as int]@.id);
                ids.push(stages[pending[j]].id.clone());
                assert(names_view(ids@) =~= names_view(before_ids).push(ids_of(picked(stages@, pending@))[j as int]));
                j = j + 1;
                assert(names_view(ids@) =~= ids_of(picked(stages@, pending@)).take(j as int));
            }
            assert(ids_of(picked(stages@, pending@)).take(j as int) =~= ids_of(picked(stages@, pending@)));
            return Err(DependencyError::CircularDependency(ids));
        }
        count = count + 1;
    }
    if count >= MAX_PASSES {
        return Err(DependencyError::MaxIterationsExceeded);
    }
    Ok(resolved)
}

} // verus!

//! A batch run: a set of requests worked off device by device. The run holds
//! the decisions; its caller carries out the commands and reports back.
//! Requests against one device are handled one at a time, in the order in
//! which they were submitted; different devices proceed independently.

use crate::actions::{
    available, command_of, is_target, outcome_for, outcome_of, settled_by, target_of,
    ActionRequest, ActionResult, InstalledState, Outcome, RequestView,
};
use crate::executor::{CommandOutcome, Failure};
use crate::registry::{DeviceRegistry, DeviceView};
use crate::text::texts;
use vstd::prelude::*;
use vstd::string::*;

verus! {

/// How far a request has come.
#[derive(Clone, Copy, Debug, PartialEq, Eq, Structural)]
pub enum Phase {
    /// Not started.
    Pending,
    /// The package's present state is being asked for.
    Querying,
    /// The action's command is running.
    Executing,
    /// The request has its result.
    Resolved,
}

/// Where a run stands as a whole.
#[derive(Clone, Copy, Debug, PartialEq, Eq, Structural)]
pub enum RunStatus {
    Running,
    /// Cancelled, with requests still in flight.
    Cancelling,
    /// Cancelled, with nothing in flight; requests that were never started
    /// have no result.
    Cancelled,
    /// Every request has its result.
    Completed,
}

/// What the caller is to do next.
#[derive(Debug, PartialEq, Eq)]
pub enum Directive {
    /// Ask the device for the present state of the request's package, and
    /// report it.
    Query { index: usize },
    /// Run this command against the request's device, and report how it ended.
    Execute { index: usize, command: Vec<String> },
    /// The request has its result; nothing is to be done for it.
    Resolved { index: usize },
    /// Nothing can start before a request in flight is reported.
    Wait,
    /// Nothing is left to do.
    Finished,
    /// The report fits no request in flight; it was dropped.
    Ignored,
}

pub enum DirectiveView {
    Query { index: int },
    Execute { index: int, command: Seq<Seq<char>> },
    Resolved { index: int },
    Wait,
    Finished,
    Ignored,
}

impl View for Directive {
    type V = DirectiveView;

    open spec fn view(&self) -> DirectiveView {
        match *self {
            Directive::Query { index } => DirectiveView::Query { index: index as int },
            Directive::Execute { index, command } => DirectiveView::Execute {
                index: index as int,
                command: texts(command@),
            },
            Directive::Resolved { index } => DirectiveView::Resolved { index: index as int },
            Directive::Wait => DirectiveView::Wait,
            Directive::Finished => DirectiveView::Finished,
            Directive::Ignored => DirectiveView::Ignored,
        }
    }
}

/// The result of the request that was submitted at position `index`.
pub struct Settled {
    pub index: int,
    pub outcome: Outcome,
}

/// A run: the requests in the order of their submission, how far each has
/// come, and the results in the order in which they came about.
pub struct RunView {
    pub requests: Seq<RequestView>,
    pub phases: Seq<Phase>,
    pub results: Seq<Settled>,
    pub force: bool,
    pub cancelled: bool,
}

pub open spec fn request_views(v: Seq<ActionRequest>) -> Seq<RequestView> {
    Seq::new(v.len(), |i: int| v[i]@)
}

pub open spec fn same_device(v: RunView, i: int, j: int) -> bool {
    v.requests[i].device == v.requests[j].device
}

pub open spec fn in_flight(p: Phase) -> bool {
    p == Phase::Querying || p == Phase::Executing
}

/// Request `j` was submitted before request `i` against the same device and
/// has no result yet.
pub open spec fn blocks(v: RunView, j: int, i: int) -> bool {
    0 <= j < i && same_device(v, j, i) && v.phases[j] != Phase::Resolved
}

pub open spec fn blocked(v: RunView, i: int) -> bool {
    exists|j: int| blocks(v, j, i)
}

/// Request `i` can start: it is pending, and every earlier request against
/// its device has its result.
pub open spec fn ready_at(v: RunView, i: int) -> bool {
    0 <= i < v.requests.len() && v.phases[i] == Phase::Pending && !blocked(v, i)
}

pub open spec fn first_ready(v: RunView, i: int) -> bool {
    ready_at(v, i) && forall|j: int| 0 <= j < i ==> !ready_at(v, j)
}

pub open spec fn busy_at(v: RunView, i: int) -> bool {
    0 <= i < v.phases.len() && in_flight(v.phases[i])
}

/// Some request is in flight.
pub open spec fn busy(v: RunView) -> bool {
    exists|i: int| busy_at(v, i)
}

pub open spec fn all_resolved(v: RunView) -> bool {
    forall|i: int| 0 <= i < v.phases.len() ==> v.phases[i] == Phase::Resolved
}

/// Result `k` is that of request `i`.
pub open spec fn settled_at(v: RunView, k: int, i: int) -> bool {
    0 <= k < v.results.len() && v.results[k].index == i
}

/// What holds of every run. Each result belongs to a request that is
/// resolved, no request has two results and each resolved request has one.
/// A request is under way or done only when every earlier request against
/// its device is done, and results of one device stand in the order in which
/// their requests were submitted.
pub open spec fn well_ordered(v: RunView) -> bool {
    &&& v.phases.len() == v.requests.len()
    &&& forall|k: int|
        0 <= k < v.results.len() ==> 0 <= (#[trigger] v.results[k]).index < v.requests.len()
            && v.phases[v.results[k].index] == Phase::Resolved
    &&& forall|k1: int, k2: int|
        0 <= k1 < k2 < v.results.len() ==> (#[trigger] v.results[k1]).index
            != (#[trigger] v.results[k2]).index
    &&& forall|i: int|
        0 <= i < v.requests.len() && #[trigger] v.phases[i] == Phase::Resolved ==> exists|k: int|
            settled_at(v, k, i)
    &&& forall|i: int, j: int|
        0 <= i < j < v.requests.len() && #[trigger] same_device(v, i, j) && v.phases[j]
            != Phase::Pending ==> v.phases[i] == Phase::Resolved
    &&& forall|k1: int, k2: int|
        0 <= k1 < k2 < v.results.len() && same_device(
            v,
            (#[trigger] v.results[k1]).index,
            (#[trigger] v.results[k2]).index,
        ) ==> v.results[k1].index < v.results[k2].index
}

/// The run with request `i` in phase `p`.
pub open spec fn moved(v: RunView, i: int, p: Phase) -> RunView {
    RunView {
        requests: v.requests,
        phases: v.phases.update(i, p),
        results: v.results,
        force: v.force,
        cancelled: v.cancelled,
    }
}

/// The run with request `i` resolved to `outcome`, as its newest result.
pub open spec fn resolved(v: RunView, i: int, outcome: Outcome) -> RunView {
    RunView {
        requests: v.requests,
        phases: v.phases.update(i, Phase::Resolved),
        results: v.results.push(Settled { index: i, outcome: outcome }),
        force: v.force,
        cancelled: v.cancelled,
    }
}

/// A new run over these requests.
pub open spec fn fresh_run(requests: Seq<RequestView>, force: bool) -> RunView {
    RunView {
        requests: requests,
        phases: Seq::new(requests.len(), |i: int| Phase::Pending),
        results: Seq::<Settled>::empty(),
        force: force,
        cancelled: false,
    }
}

/// What the caller is told when nothing can start.
pub open spec fn idle(v: RunView) -> DirectiveView {
    if busy(v) {
        DirectiveView::Wait
    } else {
        DirectiveView::Finished
    }
}

/// The next step of a run. The first request that can start is taken. If its
/// device is unavailable it is resolved on the spot, without anything being
/// sent to the device; otherwise the package's state is asked for. A
/// cancelled run starts nothing.
pub open spec fn after_advance(v: RunView, devices: Seq<DeviceView>) -> (RunView, DirectiveView) {
    if v.cancelled || !exists|i: int| ready_at(v, i) {
        (v, idle(v))
    } else {
        let i = choose|i: int| first_ready(v, i);
        if available(devices, v.requests[i].device, v.force) {
            (moved(v, i, Phase::Querying), DirectiveView::Query { index: i })
        } else {
            (resolved(v, i, Outcome::DeviceUnavailable), DirectiveView::Resolved { index: i })
        }
    }
}

/// What a report of a package's state does to a run. It counts only for a
/// request that is waiting for it. A device that has become unavailable in
/// the meantime resolves the request to `DeviceUnavailable`; a state that
/// could not be read, or that is the wanted one already, resolves it too;
/// otherwise the action's command is handed out, once.
pub open spec fn after_state(
    v: RunView,
    index: int,
    reply: Result<InstalledState, Failure>,
    devices: Seq<DeviceView>,
) -> (RunView, DirectiveView) {
    if !(0 <= index < v.requests.len() && v.phases[index] == Phase::Querying) {
        (v, DirectiveView::Ignored)
    } else if !available(devices, v.requests[index].device, v.force) {
        (resolved(v, index, Outcome::DeviceUnavailable), DirectiveView::Resolved { index: index })
    } else {
        match settled_by(v.requests[index].action, reply) {
            Some(outcome) => (resolved(v, index, outcome), DirectiveView::Resolved { index: index }),
            None => (
                moved(v, index, Phase::Executing),
                DirectiveView::Execute {
                    index: index,
                    command: command_of(
                        v.requests[index].action,
                        reply->Ok_0,
                        v.requests[index].package,
                    ),
                },
            ),
        }
    }
}

/// What the end of a request's command does to a run. It counts only for a
/// request whose command is running, and resolves it: to `DeviceUnavailable`
/// if the device has become unavailable, else to success or to the command's
/// kind of failure. Nothing is tried again.
pub open spec fn after_command(
    v: RunView,
    index: int,
    failure: Option<Failure>,
    devices: Seq<DeviceView>,
) -> (RunView, DirectiveView) {
    if !(0 <= index < v.requests.len() && v.phases[index] == Phase::Executing) {
        (v, DirectiveView::Ignored)
    } else if !available(devices, v.requests[index].device, v.force) {
        (resolved(v, index, Outcome::DeviceUnavailable), DirectiveView::Resolved { index: index })
    } else {
        (resolved(v, index, outcome_of(failure)), DirectiveView::Resolved { index: index })
    }
}

pub open spec fn cancelled(v: RunView) -> RunView {
    RunView {
        requests: v.requests,
        phases: v.phases,
        results: v.results,
        force: v.force,
        cancelled: true,
    }
}

pub open spec fn status_of(v: RunView) -> RunStatus {
    if all_resolved(v) {
        RunStatus::Completed
    } else if v.cancelled {
        if busy(v) {
            RunStatus::Cancelling
        } else {
            RunStatus::Cancelled
        }
    } else {
        RunStatus::Running
    }
}

/// The first request that can start is the one that has none before it.
pub proof fn lemma_first_ready(v: RunView, i: int)
    requires
        first_ready(v, i),
    ensures
        exists|j: int| ready_at(v, j),
        (choose|c: int| first_ready(v, c)) == i,
{
    let c = choose|c: int| first_ready(v, c);
    assert(first_ready(v, c));
    if c < i {
        assert(!ready_at(v, c));
    }
    if i < c {
        assert(!ready_at(v, i));
    }
}

/// Starting a request that can start keeps the run in order.
pub proof fn lemma_start_keeps_order(v: RunView, i: int)
    requires
        well_ordered(v),
        ready_at(v, i),
    ensures
        well_ordered(moved(v, i, Phase::Querying)),
{
    let w = moved(v, i, Phase::Querying);
    assert forall|k: int| 0 <= k < w.results.len() implies 0 <= (#[trigger] w.results[k]).index
        < w.requests.len() && w.phases[w.results[k].index] == Phase::Resolved by {
        assert(v.results[k].index != i);
    }
    assert forall|x: int|
        0 <= x < w.requests.len() && #[trigger] w.phases[x] == Phase::Resolved implies exists|
        k: int,
    |
        settled_at(w, k, x) by {
        assert(v.phases[x] == Phase::Resolved);
        let k = choose|k: int| settled_at(v, k, x);
        assert(settled_at(w, k, x));
    }
    assert forall|a: int, b: int|
        0 <= a < b < w.requests.len() && #[trigger] same_device(w, a, b) && w.phases[b]
            != Phase::Pending implies w.phases[a] == Phase::Resolved by {
        assert(same_device(v, a, b));
        if b == i {
            if v.phases[a] != Phase::Resolved {
                assert(blocks(v, a, i));
            }
        } else {
            assert(v.phases[b] != Phase::Pending);
            assert(v.phases[a] == Phase::Resolved);
        }
    }
    assert forall|k1: int, k2: int|
        0 <= k1 < k2 < w.results.len() && same_device(
            w,
            (#[trigger] w.results[k1]).index,
            (#[trigger] w.results[k2]).index,
        ) implies w.results[k1].index < w.results[k2].index by {
        assert(same_device(v, v.results[k1].index, v.results[k2].index));
    }
}

/// Handing out the command of a request whose state is known keeps the run
/// in order.
pub proof fn lemma_proceed_keeps_order(v: RunView, i: int)
    requires
        well_ordered(v),
        0 <= i < v.requests.len(),
        v.phases[i] == Phase::Querying,
    ensures
        well_ordered(moved(v, i, Phase::Executing)),
{
    let w = moved(v, i, Phase::Executing);
    assert forall|k: int| 0 <= k < w.results.len() implies 0 <= (#[trigger] w.results[k]).index
        < w.requests.len() && w.phases[w.results[k].index] == Phase::Resolved by {
        assert(v.results[k].index != i);
    }
    assert forall|x: int|
        0 <= x < w.requests.len() && #[trigger] w.phases[x] == Phase::Resolved implies exists|
        k: int,
    |
        settled_at(w, k, x) by {
        assert(v.phases[x] == Phase::Resolved);
        let k = choose|k: int| settled_at(v, k, x);
        assert(settled_at(w, k, x));
    }
    assert forall|a: int, b: int|
        0 <= a < b < w.requests.len() && #[trigger] same_device(w, a, b) && w.phases[b]
            != Phase::Pending implies w.phases[a] == Phase::Resolved by {
        assert(same_device(v, a, b));
        assert(v.phases[b] != Phase::Pending);
        assert(v.phases[a] == Phase::Resolved);
    }
    assert forall|k1: int, k2: int|
        0 <= k1 < k2 < w.results.len() && same_device(
            w,
            (#[trigger] w.results[k1]).index,
            (#[trigger] w.results[k2]).index,
        ) implies w.results[k1].index < w.results[k2].index by {
        assert(same_device(v, v.results[k1].index, v.results[k2].index));
    }
}

/// Resolving a request that can start or is in flight keeps the run in
/// order: its result comes after those of every earlier request against the
/// same device.
pub proof fn lemma_resolve_keeps_order(v: RunView, i: int, outcome: Outcome)
    requires
        well_ordered(v),
        0 <= i < v.requests.len(),
        ready_at(v, i) || in_flight(v.phases[i]),
    ensures
        well_ordered(resolved(v, i, outcome)),
{
    let w = resolved(v, i, outcome);
    let last = v.results.len() as int;
    assert(w.results[last].index == i);
    assert forall|a: int| 0 <= a < i && same_device(v, a, i) implies v.phases[a]
        == Phase::Resolved by {
        if v.phases[a] != Phase::Resolved {
            if ready_at(v, i) {
                assert(blocks(v, a, i));
            }
        }
    }
    assert forall|k: int| 0 <= k < w.results.len() implies 0 <= (#[trigger] w.results[k]).index
        < w.requests.len() && w.phases[w.results[k].index] == Phase::Resolved by {
        if k < last {
            assert(w.results[k] == v.results[k]);
        }
    }
    assert forall|k1: int, k2: int| 0 <= k1 < k2 < w.results.len() implies (#[trigger] w.results[k1]).index
        != (#[trigger] w.results[k2]).index by {
        assert(w.results[k1] == v.results[k1]);
        if k2 < last {
            assert(w.results[k2] == v.results[k2]);
        } else {
            assert(v.phases[v.results[k1].index] == Phase::Resolved);
        }
    }
    assert forall|x: int|
        0 <= x < w.requests.len() && #[trigger] w.phases[x] == Phase::Resolved implies exists|
        k: int,
    |
        settled_at(w, k, x) by {
        if x == i {
            assert(settled_at(w, last, x));
        } else {
            assert(v.phases[x] == Phase::Resolved);
            let k = choose|k: int| settled_at(v, k, x);
            assert(w.results[k] == v.results[k]);
            assert(settled_at(w, k, x));
        }
    }
    assert forall|a: int, b: int|
        0 <= a < b < w.requests.len() && #[trigger] same_device(w, a, b) && w.phases[b]
            != Phase::Pending implies w.phases[a] == Phase::Resolved by {
        assert(same_device(v, a, b));
        if a == i {
        } else if b == i {
            assert(v.phases[a] == Phase::Resolved);
        } else {
            assert(v.phases[b] != Phase::Pending);
            assert(v.phases[a] == Phase::Resolved);
        }
    }
    assert forall|k1: int, k2: int|
        0 <= k1 < k2 < w.results.len() && same_device(
            w,
            (#[trigger] w.results[k1]).index,
            (#[trigger] w.results[k2]).index,
        ) implies w.results[k1].index < w.results[k2].index by {
        assert(w.results[k1] == v.results[k1]);
        let a = v.results[k1].index;
        if k2 < last {
            assert(w.results[k2] == v.results[k2]);
            assert(same_device(v, v.results[k1].index, v.results[k2].index));
        } else {
            assert(v.phases[a] == Phase::Resolved);
            if i < a {
                assert(same_device(v, i, a));
                assert(v.phases[a] != Phase::Pending);
                assert(v.phases[i] == Phase::Resolved);
            }
        }
    }
}

/// Results of requests against one device stand in the order in which the
/// requests were submitted, whatever other devices did in between.
pub proof fn lemma_results_keep_submission_order(v: RunView, k1: int, k2: int)
    requires
        well_ordered(v),
        0 <= k1 < k2 < v.results.len(),
        v.requests[v.results[k1].index].device == v.requests[v.results[k2].index].device,
    ensures
        v.results[k1].index < v.results[k2].index,
{
    assert(same_device(v, v.results[k1].index, v.results[k2].index));
}

/// A request that is resolved has exactly one result, and a request that is
/// not has none.
pub proof fn lemma_one_result_each(v: RunView, i: int)
    requires
        well_ordered(v),
        0 <= i < v.requests.len(),
    ensures
        v.phases[i] == Phase::Resolved <==> exists|k: int| settled_at(v, k, i),
        forall|k1: int, k2: int| settled_at(v, k1, i) && settled_at(v, k2, i) ==> k1 == k2,
{
    if exists|k: int| settled_at(v, k, i) {
        let k = choose|k: int| settled_at(v, k, i);
        assert(v.phases[v.results[k].index] == Phase::Resolved);
    }
    assert forall|k1: int, k2: int| settled_at(v, k1, i) && settled_at(v, k2, i) implies k1
        == k2 by {
        if k1 < k2 {
            assert(v.results[k1].index != v.results[k2].index);
        }
        if k2 < k1 {
            assert(v.results[k2].index != v.results[k1].index);
        }
    }
}

/// No request has more than one result: there are never more results than
/// requests, and a run in which every request is resolved has exactly as
/// many.
pub proof fn lemma_results_counted(v: RunView)
    requires
        well_ordered(v),
    ensures
        v.results.len() <= v.requests.len(),
        all_resolved(v) ==> v.results.len() == v.requests.len(),
{
    let indices = Seq::new(v.results.len(), |k: int| v.results[k].index);
    let all = vstd::set_lib::set_int_range(0, v.requests.len() as int);
    assert forall|a: int, b: int|
        0 <= a < indices.len() && 0 <= b < indices.len() && a != b implies indices[a]
        != indices[b] by {
        if a < b {
            assert(v.results[a].index != v.results[b].index);
        } else {
            assert(v.results[b].index != v.results[a].index);
        }
    }
    indices.unique_seq_to_set();
    vstd::set_lib::lemma_int_range(0, v.requests.len() as int);
    assert forall|i: int| indices.to_set().contains(i) implies all.contains(i) by {
        let k = choose|k: int| 0 <= k < indices.len() && indices[k] == i;
        assert(0 <= v.results[k].index < v.requests.len());
    }
    vstd::set_lib::lemma_len_subset(indices.to_set(), all);
    if all_resolved(v) {
        assert forall|i: int| all.contains(i) implies indices.to_set().contains(i) by {
            assert(v.phases[i] == Phase::Resolved);
            let k = choose|k: int| settled_at(v, k, i);
            assert(indices[k] == i);
        }
        assert(indices.to_set() =~= all);
    }
}

/// A request whose package is found in the state that its action aims at is
/// resolved to `AlreadyInState` with no command handed out. That is what
/// becomes of a request that is applied again after it has succeeded.
pub proof fn lemma_applied_again_is_already_in_state(
    v: RunView,
    i: int,
    devices: Seq<DeviceView>,
)
    requires
        well_ordered(v),
        0 <= i < v.requests.len(),
        v.phases[i] == Phase::Querying,
        available(devices, v.requests[i].device, v.force),
    ensures
        after_state(v, i, Ok(target_of(v.requests[i].action)), devices) == (
            resolved(v, i, Outcome::AlreadyInState),
            DirectiveView::Resolved { index: i },
        ),
        after_command(moved(v, i, Phase::Executing), i, None, devices) == (
            resolved(moved(v, i, Phase::Executing), i, Outcome::Success),
            DirectiveView::Resolved { index: i },
        ),
{
}

/// A request against a device that a refresh has marked as missing comes to
/// `DeviceUnavailable`, whether it is still waiting to start or already in
/// flight, and whether or not the run is forced.
pub proof fn lemma_missing_device_resolves(
    v: RunView,
    i: int,
    reply: Result<InstalledState, Failure>,
    failure: Option<Failure>,
    devices: Seq<DeviceView>,
)
    requires
        0 <= i < v.requests.len(),
        crate::registry::lookup(devices, v.requests[i].device) matches Some(d) && d.state
            == crate::registry::ConnectionState::Missing,
    ensures
        !v.cancelled && first_ready(v, i) ==> after_advance(v, devices).0 == resolved(
            v,
            i,
            Outcome::DeviceUnavailable,
        ),
        v.phases[i] == Phase::Querying ==> after_state(v, i, reply, devices).0 == resolved(
            v,
            i,
            Outcome::DeviceUnavailable,
        ),
        v.phases[i] == Phase::Executing ==> after_command(v, i, failure, devices).0 == resolved(
            v,
            i,
            Outcome::DeviceUnavailable,
        ),
{
    lemma_unavailable_resolves(v, i, reply, failure, devices);
}

/// While a request against a device is in flight, no other request against
/// that device is.
pub proof fn lemma_one_in_flight_per_device(v: RunView, i: int, j: int)
    requires
        well_ordered(v),
        0 <= i < j < v.requests.len(),
        v.requests[i].device == v.requests[j].device,
        in_flight(v.phases[i]),
    ensures
        v.phases[j] == Phase::Pending,
{
    assert(same_device(v, i, j));
}

/// A run that has stopped waiting has left nothing in the air: once it is
/// completed or cancelled, no request is in flight.
pub proof fn lemma_nothing_in_limbo(v: RunView)
    requires
        status_of(v) == RunStatus::Completed || status_of(v) == RunStatus::Cancelled,
    ensures
        !busy(v),
{
    if busy(v) {
        let i = choose|i: int| busy_at(v, i);
        assert(busy_at(v, i));
    }
}

proof fn lemma_resolved_up_to(v: RunView, n: int)
    requires
        well_ordered(v),
        !busy(v),
        forall|i: int| !ready_at(v, i),
        0 <= n <= v.requests.len(),
    ensures
        forall|i: int| 0 <= i < n ==> v.phases[i] == Phase::Resolved,
    decreases n,
{
    if n > 0 {
        lemma_resolved_up_to(v, n - 1);
        let i = n - 1;
        if v.phases[i] != Phase::Resolved {
            assert(!busy_at(v, i));
            assert(!ready_at(v, i));
            let j = choose|j: int| blocks(v, j, i);
            assert(blocks(v, j, i));
        }
    }
}

/// A run is told that it is finished only when nothing is left in the air.
/// Unless it was cancelled, every request then has its result; a cancelled
/// run has at least nothing in flight.
pub proof fn lemma_finished_means_done(v: RunView, devices: Seq<DeviceView>)
    requires
        well_ordered(v),
        after_advance(v, devices).1 == DirectiveView::Finished,
    ensures
        !busy(v),
        !v.cancelled ==> all_resolved(v) && status_of(v) == RunStatus::Completed,
        v.cancelled ==> status_of(v) == RunStatus::Cancelled || status_of(v)
            == RunStatus::Completed,
{
    if !v.cancelled {
        assert forall|i: int| !ready_at(v, i) by {
            if ready_at(v, i) {
                assert(exists|j: int| ready_at(v, j));
            }
        }
        lemma_resolved_up_to(v, v.requests.len() as int);
    }
}

/// A request against a device that is unavailable never has anything sent
/// to the device: from whichever phase it is taken up, it is resolved to
/// `DeviceUnavailable`.
pub proof fn lemma_unavailable_resolves(
    v: RunView,
    i: int,
    reply: Result<InstalledState, Failure>,
    failure: Option<Failure>,
    devices: Seq<DeviceView>,
)
    requires
        0 <= i < v.requests.len(),
        !available(devices, v.requests[i].device, v.force),
    ensures
        !v.cancelled && first_ready(v, i) ==> after_advance(v, devices) == (
            resolved(v, i, Outcome::DeviceUnavailable),
            DirectiveView::Resolved { index: i },
        ),
        v.phases[i] == Phase::Querying ==> after_state(v, i, reply, devices) == (
            resolved(v, i, Outcome::DeviceUnavailable),
            DirectiveView::Resolved { index: i },
        ),
        v.phases[i] == Phase::Executing ==> after_command(v, i, failure, devices) == (
            resolved(v, i, Outcome::DeviceUnavailable),
            DirectiveView::Resolved { index: i },
        ),
{
    if first_ready(v, i) {
        lemma_first_ready(v, i);
    }
}

/// The requests of a batch with their progress and the results so far.
#[derive(Debug)]
pub struct BatchRun {
    requests: Vec<ActionRequest>,
    phases: Vec<Phase>,
    results: Vec<ActionResult>,
    order: Vec<usize>,
    force: bool,
    cancelled: bool,
}

impl View for BatchRun {
    type V = RunView;

    closed spec fn view(&self) -> RunView {
        RunView {
            requests: request_views(self.requests@),
            phases: self.phases@,
            results: Seq::new(
                self.results@.len(),
                |k: int| Settled { index: self.order@[k] as int, outcome: self.results@[k].outcome },
            ),
            force: self.force,
            cancelled: self.cancelled,
        }
    }
}

impl BatchRun {
    /// Each result is kept with a copy of its request.
    pub closed spec fn inv(&self) -> bool {
        &&& self.phases@.len() == self.requests@.len()
        &&& self.order@.len() == self.results@.len()
        &&& forall|k: int|
            0 <= k < self.results@.len() ==> (#[trigger] self.order@[k]) < self.requests@.len()
                && self.results@[k].request == self.requests@[self.order@[k] as int]
    }

    pub open spec fn wf(&self) -> bool {
        self.inv() && well_ordered(self@)
    }

    /// A run over these requests, none of them started. With `force`, devices
    /// that are offline or unauthorized are acted on too.
    pub fn new(requests: Vec<ActionRequest>, force: bool) -> (run: BatchRun)
        ensures
            run.wf(),
            run@ == fresh_run(request_views(requests@), force),
    {
        let mut phases: Vec<Phase> = Vec::new();
        let mut i: usize = 0;
        while i < requests.len()
            invariant
                i <= requests.len(),
                phases@.len() == i,
                forall|j: int| 0 <= j < i ==> phases@[j] == Phase::Pending,
            decreases requests.len() - i,
        {
            phases.push(Phase::Pending);
            i = i + 1;
        }
        let run = BatchRun {
            requests,
            phases,
            results: Vec::new(),
            order: Vec::new(),
            force,
            cancelled: false,
        };
        proof {
            let f = fresh_run(request_views(requests@), force);
            assert(run@.phases =~= f.phases);
            assert(run@.results =~= f.results);
        }
        run
    }

    /// How many requests the run has.
    pub fn len(&self) -> (n: usize)
        ensures
            n == self@.requests.len(),
    {
        self.requests.len()
    }

    /// The request that was submitted at position `index`.
    pub fn request(&self, index: usize) -> (r: Option<&ActionRequest>)
        ensures
            match r {
                Some(q) => index < self@.requests.len() && q@ == self@.requests[index as int],
                None => index >= self@.requests.len(),
            },
    {
        if index < self.requests.len() {
            Some(&self.requests[index])
        } else {
            None
        }
    }

    /// How far the request at position `index` has come.
    pub fn phase(&self, index: usize) -> (r: Option<Phase>)
        requires
            self.wf(),
        ensures
            r == if index < self@.requests.len() {
                Some(self@.phases[index as int])
            } else {
                None
            },
    {
        if index < self.phases.len() {
            Some(self.phases[index])
        } else {
            None
        }
    }

    /// The results so far, in the order in which they came about. The list
    /// only ever grows at its end, so a caller that has read `n` results finds
    /// the new ones from position `n` on.
    pub fn results(&self) -> (r: &Vec<ActionResult>)
        requires
            self.wf(),
        ensures
            r@.len() == self@.results.len(),
            forall|k: int|
                0 <= k < r@.len() ==> (#[trigger] r@[k]).outcome == self@.results[k].outcome
                    && r@[k].request@ == self@.requests[self@.results[k].index],
    {
        &self.results
    }

    /// Where the run stands; see [`status_of`].
    pub fn status(&self) -> (r: RunStatus)
        requires
            self.wf(),
        ensures
            r == status_of(self@),
    {
        let mut all_done = true;
        let mut any_busy = false;
        let mut i: usize = 0;
        while i < self.phases.len()
            invariant
                i <= self.phases.len(),
                all_done == forall|j: int| 0 <= j < i ==> self@.phases[j] == Phase::Resolved,
                any_busy == exists|j: int| 0 <= j < i && busy_at(self@, j),
            decreases self.phases.len() - i,
        {
            let p = self.phases[i];
            let ghost here = i as int;
            if p != Phase::Resolved {
                all_done = false;
            }
            if p == Phase::Querying || p == Phase::Executing {
                assert(busy_at(self@, here));
                any_busy = true;
            }
            i = i + 1;
        }
        proof {
            if busy(self@) {
                let j = choose|j: int| busy_at(self@, j);
                assert(0 <= j < i && busy_at(self@, j));
            }
        }
        if all_done {
            RunStatus::Completed
        } else if self.cancelled {
            if any_busy {
                RunStatus::Cancelling
            } else {
                RunStatus::Cancelled
            }
        } else {
            RunStatus::Running
        }
    }

    /// Stops the run from starting further requests. Requests in flight still
    /// take their course and get their results.
    pub fn cancel(&mut self)
        requires
            old(self).wf(),
        ensures
            final(self).wf(),
            final(self)@ == cancelled(old(self)@),
    {
        self.cancelled = true;
        proof {
            let v = old(self)@;
            let w = self@;
            assert(w.results =~= v.results);
            assert(w == cancelled(v));
            assert forall|i: int, j: int|
                0 <= i < j < w.requests.len() && #[trigger] same_device(w, i, j) && w.phases[j]
                    != Phase::Pending implies w.phases[i] == Phase::Resolved by {
                assert(same_device(v, i, j));
            }
            assert forall|k1: int, k2: int|
                0 <= k1 < k2 < w.results.len() && same_device(
                    w,
                    (#[trigger] w.results[k1]).index,
                    (#[trigger] w.results[k2]).index,
                ) implies w.results[k1].index < w.results[k2].index by {
                assert(same_device(v, v.results[k1].index, v.results[k2].index));
            }
            assert forall|x: int|
                0 <= x < w.requests.len() && #[trigger] w.phases[x]
                    == Phase::Resolved implies exists|k: int| settled_at(w, k, x) by {
                let k = choose|k: int| settled_at(v, k, x);
                assert(settled_at(w, k, x));
            }
        }
    }

    fn is_available(&self, i: usize, registry: &DeviceRegistry) -> (r: bool)
        requires
            self.wf(),
            registry.wf(),
            i < self@.requests.len(),
        ensures
            r == available(registry@, self@.requests[i as int].device, self@.force),
    {
        match registry.get(self.requests[i].device.as_str()) {
            Some(d) => is_target(d.state, self.force),
            None => false,
        }
    }

    fn is_blocked(&self, i: usize) -> (r: bool)
        requires
            self.wf(),
            i < self@.requests.len(),
        ensures
            r == blocked(self@, i as int),
    {
        let mut j: usize = 0;
        while j < i
            invariant
                j <= i < self.requests.len(),
                self.phases@.len() == self.requests@.len(),
                forall|a: int| 0 <= a < j ==> !blocks(self@, a, i as int),
            decreases i - j,
        {
            if self.phases[j] != Phase::Resolved && self.requests[j].device
                == self.requests[i].device {
                assert(blocks(self@, j as int, i as int));
                return true;
            }
            j = j + 1;
        }
        false
    }

    fn is_busy(&self) -> (r: bool)
        requires
            self.wf(),
        ensures
            r == busy(self@),
    {
        let mut i: usize = 0;
        while i < self.phases.len()
            invariant
                i <= self.phases.len(),
                forall|j: int| 0 <= j < i ==> !busy_at(self@, j),
            decreases self.phases.len() - i,
        {
            if self.phases[i] == Phase::Querying || self.phases[i] == Phase::Executing {
                assert(busy_at(self@, i as int));
                return true;
            }
            i = i + 1;
        }
        false
    }

    fn idle_directive(&self) -> (d: Directive)
        requires
            self.wf(),
        ensures
            d@ == idle(self@),
    {
        if self.is_busy() {
            Directive::Wait
        } else {
            Directive::Finished
        }
    }

    fn settle(&mut self, i: usize, outcome: Outcome)
        requires
            old(self).wf(),
            i < old(self)@.requests.len(),
            ready_at(old(self)@, i as int) || in_flight(old(self)@.phases[i as int]),
        ensures
            final(self).wf(),
            final(self)@ == resolved(old(self)@, i as int, outcome),
    {
        let request = self.requests[i].clone();
        self.phases.set(i, Phase::Resolved);
        self.results.push(ActionResult { request, outcome });
        self.order.push(i);
        proof {
            let v = old(self)@;
            let w = resolved(v, i as int, outcome);
            assert(self@.requests =~= w.requests);
            assert(self@.phases =~= w.phases);
            assert(self@.results =~= w.results);
            assert(self@ == w);
            lemma_resolve_keeps_order(v, i as int, outcome);
        }
    }

    fn move_to(&mut self, i: usize, p: Phase)
        requires
            old(self).inv(),
            i < old(self)@.requests.len(),
        ensures
            final(self).inv(),
            final(self)@ == moved(old(self)@, i as int, p),
    {
        self.phases.set(i, p);
        proof {
            let w = moved(old(self)@, i as int, p);
            assert(self@.requests =~= w.requests);
            assert(self@.phases =~= w.phases);
            assert(self@.results =~= w.results);
        }
    }

    /// Takes the next step of the run; see [`after_advance`]. The registry is
    /// read as it is now.
    pub fn advance(&mut self, registry: &DeviceRegistry) -> (d: Directive)
        requires
            old(self).wf(),
            registry.wf(),
        ensures
            final(self).wf(),
            (final(self)@, d@) == after_advance(old(self)@, registry@),
    {
        if self.cancelled {
            return self.idle_directive();
        }
        let mut i: usize = 0;
        while i < self.requests.len()
            invariant
                i <= self.requests.len(),
                self.wf(),
                registry.wf(),
                *self == *old(self),
                !self@.cancelled,
                forall|j: int| 0 <= j < i ==> !ready_at(self@, j),
            decreases self.requests.len() - i,
        {
            if self.phases[i] == Phase::Pending && !self.is_blocked(i) {
                proof {
                    assert(first_ready(self@, i as int));
                    lemma_first_ready(self@, i as int);
                }
                if self.is_available(i, registry) {
                    proof {
                        lemma_start_keeps_order(self@, i as int);
                    }
                    self.move_to(i, Phase::Querying);
                    return Directive::Query { index: i };
                } else {
                    self.settle(i, Outcome::DeviceUnavailable);
                    return Directive::Resolved { index: i };
                }
            }
            i = i + 1;
        }
        self.idle_directive()
    }

    /// Takes in the present state of the package of request `index`, or the
    /// failure to read it; see [`after_state`].
    pub fn state_reported(
        &mut self,
        index: usize,
        reply: Result<InstalledState, Failure>,
        registry: &DeviceRegistry,
    ) -> (d: Directive)
        requires
            old(self).wf(),
            registry.wf(),
        ensures
            final(self).wf(),
            (final(self)@, d@) == after_state(old(self)@, index as int, reply, registry@),
    {
        if index >= self.requests.len() || self.phases[index] != Phase::Querying {
            return Directive::Ignored;
        }
        if !self.is_available(index, registry) {
            self.settle(index, Outcome::DeviceUnavailable);
            return Directive::Resolved { index };
        }
        let action = self.requests[index].action;
        match reply {
            Err(f) => {
                self.settle(index, Outcome::Failed(f));
                Directive::Resolved { index }
            },
            Ok(state) => {
                if state == action.target() {
                    self.settle(index, Outcome::AlreadyInState);
                    Directive::Resolved { index }
                } else {
                    let command = action.command(state, self.requests[index].package.as_str());
                    proof {
                        lemma_proceed_keeps_order(self@, index as int);
                    }
                    self.move_to(index, Phase::Executing);
                    Directive::Execute { index, command }
                }
            },
        }
    }

    /// Takes in how the command of request `index` ended; see
    /// [`after_command`].
    pub fn command_finished(
        &mut self,
        index: usize,
        outcome: &CommandOutcome,
        registry: &DeviceRegistry,
    ) -> (d: Directive)
        requires
            old(self).wf(),
            registry.wf(),
        ensures
            final(self).wf(),
            (final(self)@, d@) == after_command(
                old(self)@,
                index as int,
                outcome.failure(),
                registry@,
            ),
    {
        if index >= self.requests.len() || self.phases[index] != Phase::Executing {
            return Directive::Ignored;
        }
        if !self.is_available(index, registry) {
            self.settle(index, Outcome::DeviceUnavailable);
        } else {
            self.settle(index, outcome_for(outcome));
        }
        Directive::Resolved { index }
    }
}

} // verus!

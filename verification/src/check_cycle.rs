//! The check cycle as a state machine: where a cycle stands, what may happen
//! to it, and what it asks to be done.

use crate::dns_provider::{requests_view, ApiRequest, ApiRequestView};
use crate::error::{DnsError, DnsErrorView};
use crate::ip_handler::{answer_view, valid_ip, well_formed_answer};
use crate::webhook_notifier::{calls_view, WebhookCall, WebhookCallView};
use vstd::prelude::*;

verus! {

/// Where a check cycle stands.
#[derive(Clone, Copy, Debug, PartialEq, Eq, Structural)]
pub enum Phase {
    /// Nothing was asked for yet.
    Idle,
    /// The last known and the current address were asked for.
    Fetching,
    /// The address is the one last known, and no update was forced.
    Unchanged,
    /// The address changed, or an update was forced.
    Changed,
    /// A dry run reported what would be done.
    DryRunShortCircuit,
    /// The webhooks were asked to be notified.
    Notifying,
    /// The records were asked to be pointed at the new address.
    Applying,
    /// The new address was asked to be stored.
    Persisting,
    /// The cycle is over.
    Done,
}

/// A check cycle as a mathematical value.
pub struct CheckCycleView {
    pub phase: Phase,
    pub force: bool,
    pub old_ip: Seq<char>,
    pub new_ip: Seq<char>,
    pub pending: nat,
}

/// A check cycle: where it stands, whether an update is forced, the
/// addresses it found, once it has found them, and the number of updates it
/// asked to be sent, once it has asked.
#[derive(Debug, PartialEq, Eq)]
pub struct CheckCycle {
    pub phase: Phase,
    pub force: bool,
    pub old_ip: String,
    pub new_ip: String,
    pub pending: usize,
}

impl View for CheckCycle {
    type V = CheckCycleView;

    open spec fn view(&self) -> CheckCycleView {
        CheckCycleView {
            phase: self.phase,
            force: self.force,
            old_ip: self.old_ip@,
            new_ip: self.new_ip@,
            pending: self.pending as nat,
        }
    }
}

impl CheckCycle {
    /// Whether the cycle is over.
    pub fn is_done(&self) -> (done: bool)
        ensures
            done == (self@.phase == Phase::Done),
    {
        match self.phase {
            Phase::Done => true,
            _ => false,
        }
    }
}

/// The failures of a list, each by its view.
pub open spec fn errors_view(errors: Seq<DnsError>) -> Seq<DnsErrorView> {
    errors.map_values(|e: DnsError| e@)
}

/// What became of the updates of a list: nothing for an update that the
/// provider accepted, and the failure for any other.
pub open spec fn outcomes_view(outcomes: Seq<Result<(), DnsError>>) -> Seq<Option<DnsErrorView>> {
    outcomes.map_values(
        |o: Result<(), DnsError>|
            match o {
                Ok(_) => None,
                Err(e) => Some(e@),
            },
    )
}

/// The failures among `outcomes`, in order.
pub open spec fn failures_of(outcomes: Seq<Option<DnsErrorView>>) -> Seq<DnsErrorView>
    decreases outcomes.len(),
{
    if outcomes.len() == 0 {
        Seq::<DnsErrorView>::empty()
    } else {
        let before = failures_of(outcomes.drop_last());
        match outcomes.last() {
            Some(failure) => before.push(failure),
            None => before,
        }
    }
}

/// Each of `count` updates was accepted: `outcomes` holds an outcome for
/// each, and none is a failure.
pub open spec fn all_accepted(outcomes: Seq<Option<DnsErrorView>>, count: nat) -> bool {
    outcomes.len() == count && failures_of(outcomes).len() == 0
}

/// There is no failure among `outcomes` just where each of them is none.
pub proof fn lemma_failures_of(outcomes: Seq<Option<DnsErrorView>>)
    ensures
        failures_of(outcomes).len() == 0 <==> forall|k: int|
            0 <= k < outcomes.len() ==> (#[trigger] outcomes[k]) is None,
        failures_of(outcomes).len() <= outcomes.len(),
    decreases outcomes.len(),
{
    if outcomes.len() > 0 {
        let head = outcomes.drop_last();
        lemma_failures_of(head);
        if failures_of(outcomes).len() == 0 {
            assert forall|k: int| 0 <= k < outcomes.len() implies (
            #[trigger] outcomes[k]) is None by {
                if k < head.len() {
                    assert(head[k] == outcomes[k]);
                }
            }
        } else if outcomes.last() is None {
            let k = choose|k: int| 0 <= k < head.len() && !((#[trigger] head[k]) is None);
            assert(outcomes[k] == head[k]);
        }
    }
}

/// What happened outside, as a mathematical value.
pub enum CheckEventView {
    Proceed,
    Fetched { last_ip: Option<Seq<char>>, answer: Option<Seq<char>> },
    Applied { outcomes: Seq<Option<DnsErrorView>> },
}

/// What happened outside since the cycle last asked for something.
#[derive(Debug, PartialEq, Eq)]
pub enum CheckEvent {
    /// The cycle is to go on: it is begun, or what it asked for was done and
    /// gave nothing to report.
    Proceed,
    /// The addresses were read: the one last known, if there is one, and
    /// what the lookup service answered for the current one, if it answered.
    Fetched { last_ip: Option<String>, answer: Option<String> },
    /// The updates were sent: `outcomes` holds, for each update in order,
    /// what became of it.
    Applied { outcomes: Vec<Result<(), DnsError>> },
}

impl View for CheckEvent {
    type V = CheckEventView;

    open spec fn view(&self) -> CheckEventView {
        match self {
            CheckEvent::Proceed => CheckEventView::Proceed,
            CheckEvent::Fetched { last_ip, answer } => CheckEventView::Fetched {
                last_ip: answer_view(*last_ip),
                answer: answer_view(*answer),
            },
            CheckEvent::Applied { outcomes } => CheckEventView::Applied {
                outcomes: outcomes_view(outcomes@),
            },
        }
    }
}

/// The failures among `outcomes`, in order.
pub fn failures(outcomes: &Vec<Result<(), DnsError>>) -> (errors: Vec<DnsError>)
    ensures
        errors_view(errors@) == failures_of(outcomes_view(outcomes@)),
{
    let ghost all = outcomes_view(outcomes@);
    let mut errors: Vec<DnsError> = Vec::new();
    let mut k: usize = 0;
    assert(all.subrange(0, 0) =~= Seq::<Option<DnsErrorView>>::empty());
    assert(errors_view(errors@) =~= Seq::<DnsErrorView>::empty());
    while k < outcomes.len()
        invariant
            k <= outcomes.len(),
            all == outcomes_view(outcomes@),
            errors_view(errors@) == failures_of(all.subrange(0, k as int)),
        decreases outcomes.len() - k,
    {
        let ghost before = errors_view(errors@);
        proof {
            let upto = all.subrange(0, k + 1);
            assert(upto.drop_last() =~= all.subrange(0, k as int));
            assert(upto.last() == all[k as int]);
        }
        match &outcomes[k] {
            Ok(_) => {},
            Err(error) => {
                errors.push(error.clone());
                assert(errors_view(errors@) =~= before.push(error@));
            },
        }
        k = k + 1;
    }
    assert(all.subrange(0, k as int) =~= all);
    errors
}

/// What a cycle asks for, as a mathematical value.
pub enum CheckActionView {
    Nothing,
    Fetch,
    Describe { notifications: Seq<WebhookCallView>, updates: Seq<ApiRequestView>, ip: Seq<char> },
    Notify { calls: Seq<WebhookCallView> },
    Apply { requests: Seq<ApiRequestView> },
    Persist { ip: Seq<char> },
    Fail { errors: Seq<DnsErrorView> },
}

/// What a cycle asks to be done next.
#[derive(Debug, PartialEq, Eq)]
pub enum CheckAction {
    /// Nothing is to be done.
    Nothing,
    /// Read the last known address and look up the current one.
    Fetch,
    /// Report what a run that is not dry would do: the notifications it would
    /// post, the updates it would send, and the address it would store. Do
    /// none of it.
    Describe { notifications: Vec<WebhookCall>, updates: Vec<ApiRequest>, ip: String },
    /// Post each notification; a failure is reported and otherwise ignored.
    Notify { calls: Vec<WebhookCall> },
    /// Send each update, whatever becomes of the others, and say what
    /// became of each, in order.
    Apply { requests: Vec<ApiRequest> },
    /// Store `ip` as the last known address.
    Persist { ip: String },
    /// Report the failures; the last known address stays as it is.
    Fail { errors: Vec<DnsError> },
}

impl View for CheckAction {
    type V = CheckActionView;

    open spec fn view(&self) -> CheckActionView {
        match self {
            CheckAction::Nothing => CheckActionView::Nothing,
            CheckAction::Fetch => CheckActionView::Fetch,
            CheckAction::Describe { notifications, updates, ip } => CheckActionView::Describe {
                notifications: calls_view(notifications@),
                updates: requests_view(updates@),
                ip: ip@,
            },
            CheckAction::Notify { calls } => CheckActionView::Notify { calls: calls_view(calls@) },
            CheckAction::Apply { requests } => CheckActionView::Apply {
                requests: requests_view(requests@),
            },
            CheckAction::Persist { ip } => CheckActionView::Persist { ip: ip@ },
            CheckAction::Fail { errors } => CheckActionView::Fail { errors: errors_view(errors@) },
        }
    }
}

/// The cycle `cycle` moved to `phase`.
pub open spec fn at_phase(cycle: CheckCycleView, phase: Phase) -> CheckCycleView {
    CheckCycleView { phase, ..cycle }
}

/// A cycle that was not begun yet.
pub open spec fn idle(force: bool) -> CheckCycleView {
    CheckCycleView {
        phase: Phase::Idle,
        force,
        old_ip: Seq::<char>::empty(),
        new_ip: Seq::<char>::empty(),
        pending: 0,
    }
}

/// What a session is to a cycle: whether it is a dry run, the notifications
/// that a change from one address to another gives, and the updates that
/// point the records at an address.
pub struct Session {
    pub dry_run: bool,
    pub notifications: spec_fn(Seq<char>, Seq<char>) -> Seq<WebhookCallView>,
    pub updates: spec_fn(Seq<char>) -> Seq<ApiRequestView>,
}

/// The step of a cycle: where it stands after `event`, and what it asks for.
/// An event that the cycle does not wait for ends it, and so does any step
/// of a dry run that would have something posted, sent or stored. The
/// address is stored only where every update that was asked for has an
/// outcome and the provider accepted them all.
pub open spec fn next(session: Session, cycle: CheckCycleView, event: CheckEventView) -> (
    CheckCycleView,
    CheckActionView,
) {
    let stop = (at_phase(cycle, Phase::Done), CheckActionView::Nothing);
    match cycle.phase {
        Phase::Idle => match event {
            CheckEventView::Proceed => (at_phase(cycle, Phase::Fetching), CheckActionView::Fetch),
            _ => stop,
        },
        Phase::Fetching => match event {
            CheckEventView::Fetched { last_ip, answer } => if well_formed_answer(answer) {
                after_fetch(session, cycle.force, last_ip, answer->0)
            } else {
                (
                    at_phase(cycle, Phase::Done),
                    CheckActionView::Fail { errors: seq![DnsErrorView::Lookup] },
                )
            },
            _ => stop,
        },
        Phase::Unchanged => stop,
        Phase::Changed => if session.dry_run {
            stop
        } else {
            (
                at_phase(cycle, Phase::Notifying),
                CheckActionView::Notify {
                    calls: (session.notifications)(cycle.old_ip, cycle.new_ip),
                },
            )
        },
        Phase::DryRunShortCircuit => stop,
        Phase::Notifying => if session.dry_run {
            stop
        } else {
            (
                CheckCycleView {
                    phase: Phase::Applying,
                    pending: (session.updates)(cycle.new_ip).len(),
                    ..cycle
                },
                CheckActionView::Apply { requests: (session.updates)(cycle.new_ip) },
            )
        },
        Phase::Applying => match event {
            CheckEventView::Applied { outcomes } => if session.dry_run {
                stop
            } else if all_accepted(outcomes, cycle.pending) {
                (at_phase(cycle, Phase::Persisting), CheckActionView::Persist { ip: cycle.new_ip })
            } else {
                (
                    at_phase(cycle, Phase::Done),
                    CheckActionView::Fail { errors: failures_of(outcomes) },
                )
            },
            _ => stop,
        },
        Phase::Persisting => stop,
        Phase::Done => stop,
    }
}

/// The step of a cycle that has read the addresses, the current one of which
/// is well formed.
pub open spec fn after_fetch(
    session: Session,
    force: bool,
    last_ip: Option<Seq<char>>,
    current_ip: Seq<char>,
) -> (CheckCycleView, CheckActionView) {
    match last_ip {
        None => {
            let cycle = CheckCycleView {
                phase: if session.dry_run {
                    Phase::DryRunShortCircuit
                } else {
                    Phase::Persisting
                },
                force,
                old_ip: Seq::<char>::empty(),
                new_ip: current_ip,
                pending: 0,
            };
            if session.dry_run {
                (
                    cycle,
                    CheckActionView::Describe {
                        notifications: Seq::<WebhookCallView>::empty(),
                        updates: Seq::<ApiRequestView>::empty(),
                        ip: current_ip,
                    },
                )
            } else {
                (cycle, CheckActionView::Persist { ip: current_ip })
            }
        },
        Some(old_ip) => {
            let cycle = CheckCycleView {
                phase: Phase::Changed,
                force,
                old_ip,
                new_ip: current_ip,
                pending: 0,
            };
            if old_ip == current_ip && !force {
                (at_phase(cycle, Phase::Unchanged), CheckActionView::Nothing)
            } else if session.dry_run {
                (
                    at_phase(cycle, Phase::DryRunShortCircuit),
                    CheckActionView::Describe {
                        notifications: (session.notifications)(old_ip, current_ip),
                        updates: (session.updates)(current_ip),
                        ip: current_ip,
                    },
                )
            } else {
                (cycle, CheckActionView::Nothing)
            }
        },
    }
}

/// What the outside answers to `action` in a cycle in which the last known
/// address is `last_ip`, the lookup service answers `looked_up`, and
/// `outcomes` is what becomes of the updates.
pub open spec fn answer(
    action: CheckActionView,
    last_ip: Option<Seq<char>>,
    looked_up: Option<Seq<char>>,
    outcomes: Seq<Option<DnsErrorView>>,
) -> CheckEventView {
    match action {
        CheckActionView::Fetch => CheckEventView::Fetched { last_ip, answer: looked_up },
        CheckActionView::Apply { .. } => CheckEventView::Applied { outcomes },
        _ => CheckEventView::Proceed,
    }
}

/// What a cycle asks for, step by step, from `cycle` and `event` on, until it
/// is over or `steps` steps were taken; and where it stands then.
pub open spec fn run_from(
    session: Session,
    cycle: CheckCycleView,
    event: CheckEventView,
    last_ip: Option<Seq<char>>,
    looked_up: Option<Seq<char>>,
    outcomes: Seq<Option<DnsErrorView>>,
    steps: nat,
) -> (CheckCycleView, Seq<CheckActionView>)
    decreases steps,
{
    if steps == 0 || cycle.phase == Phase::Done {
        (cycle, Seq::<CheckActionView>::empty())
    } else {
        let (after, action) = next(session, cycle, event);
        let (end, rest) = run_from(
            session,
            after,
            answer(action, last_ip, looked_up, outcomes),
            last_ip,
            looked_up,
            outcomes,
            (steps - 1) as nat,
        );
        (end, seq![action] + rest)
    }
}

/// A whole cycle: everything that it asks for, in order, and where it ends.
pub open spec fn run(
    session: Session,
    force: bool,
    last_ip: Option<Seq<char>>,
    looked_up: Option<Seq<char>>,
    outcomes: Seq<Option<DnsErrorView>>,
) -> (CheckCycleView, Seq<CheckActionView>) {
    run_from(session, idle(force), CheckEventView::Proceed, last_ip, looked_up, outcomes, 6)
}

/// How often `actions` store the last known address.
pub open spec fn stores(actions: Seq<CheckActionView>) -> nat
    decreases actions.len(),
{
    if actions.len() == 0 {
        0
    } else {
        stores(actions.drop_last()) + (if actions.last() is Persist {
            1nat
        } else {
            0nat
        })
    }
}

/// How many notifications `actions` post to webhooks.
pub open spec fn posts(actions: Seq<CheckActionView>) -> nat
    decreases actions.len(),
{
    if actions.len() == 0 {
        0
    } else {
        posts(actions.drop_last()) + (match actions.last() {
            CheckActionView::Notify { calls } => calls.len(),
            _ => 0nat,
        })
    }
}

/// How many requests `actions` send to the provider.
pub open spec fn sends(actions: Seq<CheckActionView>) -> nat
    decreases actions.len(),
{
    if actions.len() == 0 {
        0
    } else {
        sends(actions.drop_last()) + (match actions.last() {
            CheckActionView::Apply { requests } => requests.len(),
            _ => 0nat,
        })
    }
}

/// Every cycle is over after six steps, whatever happens outside.
pub proof fn lemma_cycle_ends(
    session: Session,
    force: bool,
    last_ip: Option<Seq<char>>,
    looked_up: Option<Seq<char>>,
    outcomes: Seq<Option<DnsErrorView>>,
)
    ensures
        run(session, force, last_ip, looked_up, outcomes).0.phase == Phase::Done,
{
    reveal_with_fuel(run_from, 7);
}

/// A first run only seeds the last known address: where no address is known
/// yet and the run is not dry, the cycle stores the current address once,
/// posts no notification and sends the provider nothing, forced or not.
pub proof fn lemma_first_run_seeds(
    session: Session,
    force: bool,
    current_ip: Seq<char>,
    outcomes: Seq<Option<DnsErrorView>>,
)
    requires
        !session.dry_run,
        valid_ip(current_ip),
    ensures
        run(session, force, None, Some(current_ip), outcomes).1 == seq![
            CheckActionView::Fetch,
            CheckActionView::Persist { ip: current_ip },
            CheckActionView::Nothing,
        ],
        stores(run(session, force, None, Some(current_ip), outcomes).1) == 1,
        posts(run(session, force, None, Some(current_ip), outcomes).1) == 0,
        sends(run(session, force, None, Some(current_ip), outcomes).1) == 0,
{
    reveal_with_fuel(run_from, 7);
    let actions = run(session, force, None, Some(current_ip), outcomes).1;
    assert(actions =~= seq![
        CheckActionView::Fetch,
        CheckActionView::Persist { ip: current_ip },
        CheckActionView::Nothing,
    ]);
    lemma_counts_3(actions);
    lemma_counts_1(actions[0]);
    lemma_counts_1(actions[1]);
    lemma_counts_1(actions[2]);
}

/// Nothing happens where nothing changed: where the current address is the
/// one last known and no update is forced, the cycle stores nothing, posts no
/// notification and sends the provider nothing.
pub proof fn lemma_unchanged_is_noop(
    session: Session,
    ip: Seq<char>,
    outcomes: Seq<Option<DnsErrorView>>,
)
    requires
        valid_ip(ip),
    ensures
        run(session, false, Some(ip), Some(ip), outcomes).1 == seq![
            CheckActionView::Fetch,
            CheckActionView::Nothing,
            CheckActionView::Nothing,
        ],
        stores(run(session, false, Some(ip), Some(ip), outcomes).1) == 0,
        posts(run(session, false, Some(ip), Some(ip), outcomes).1) == 0,
        sends(run(session, false, Some(ip), Some(ip), outcomes).1) == 0,
{
    reveal_with_fuel(run_from, 7);
    let actions = run(session, false, Some(ip), Some(ip), outcomes).1;
    assert(actions =~= seq![
        CheckActionView::Fetch,
        CheckActionView::Nothing,
        CheckActionView::Nothing,
    ]);
    lemma_counts_3(actions);
    lemma_counts_1(actions[0]);
    lemma_counts_1(actions[1]);
    lemma_counts_1(actions[2]);
}

/// A dry run does nothing: whatever the addresses are, and forced or not, the
/// cycle of a dry run stores nothing, posts no notification and sends the
/// provider nothing. It reads the addresses and, where a run that is not dry
/// would act, describes what that run would do.
pub proof fn lemma_dry_run_is_pure(
    session: Session,
    force: bool,
    last_ip: Option<Seq<char>>,
    current_ip: Seq<char>,
    outcomes: Seq<Option<DnsErrorView>>,
)
    requires
        session.dry_run,
        valid_ip(current_ip),
    ensures
        run(session, force, last_ip, Some(current_ip), outcomes).1.len() == 3,
        run(session, force, last_ip, Some(current_ip), outcomes).1[0] == CheckActionView::Fetch,
        run(session, force, last_ip, Some(current_ip), outcomes).1[1] == if last_ip == Some(
            current_ip,
        ) && !force {
            CheckActionView::Nothing
        } else {
            CheckActionView::Describe {
                notifications: match last_ip {
                    Some(old_ip) => (session.notifications)(old_ip, current_ip),
                    None => Seq::<WebhookCallView>::empty(),
                },
                updates: match last_ip {
                    Some(old_ip) => (session.updates)(current_ip),
                    None => Seq::<ApiRequestView>::empty(),
                },
                ip: current_ip,
            }
        },
        run(session, force, last_ip, Some(current_ip), outcomes).1[2] == CheckActionView::Nothing,
        stores(run(session, force, last_ip, Some(current_ip), outcomes).1) == 0,
        posts(run(session, force, last_ip, Some(current_ip), outcomes).1) == 0,
        sends(run(session, force, last_ip, Some(current_ip), outcomes).1) == 0,
{
    reveal_with_fuel(run_from, 7);
    let actions = run(session, force, last_ip, Some(current_ip), outcomes).1;
    assert(actions.len() == 3);
    lemma_counts_3(actions);
    lemma_counts_1(actions[0]);
    lemma_counts_1(actions[1]);
    lemma_counts_1(actions[2]);
}

/// A change, or a forced update, runs the whole path once: where an address
/// is known, the run is not dry, the current address differs from it or an
/// update is forced, and the provider accepts every update, the cycle posts
/// each notification once, sends each update once and then stores the
/// current address once.
pub proof fn lemma_update_runs_once(
    session: Session,
    force: bool,
    old_ip: Seq<char>,
    current_ip: Seq<char>,
    outcomes: Seq<Option<DnsErrorView>>,
)
    requires
        !session.dry_run,
        valid_ip(current_ip),
        old_ip != current_ip || force,
        outcomes.len() == (session.updates)(current_ip).len(),
        forall|k: int| 0 <= k < outcomes.len() ==> (#[trigger] outcomes[k]) is None,
    ensures
        run(session, force, Some(old_ip), Some(current_ip), outcomes).1 == seq![
            CheckActionView::Fetch,
            CheckActionView::Nothing,
            CheckActionView::Notify { calls: (session.notifications)(old_ip, current_ip) },
            CheckActionView::Apply { requests: (session.updates)(current_ip) },
            CheckActionView::Persist { ip: current_ip },
            CheckActionView::Nothing,
        ],
        stores(run(session, force, Some(old_ip), Some(current_ip), outcomes).1) == 1,
        posts(run(session, force, Some(old_ip), Some(current_ip), outcomes).1)
            == (session.notifications)(old_ip, current_ip).len(),
        sends(run(session, force, Some(old_ip), Some(current_ip), outcomes).1)
            == (session.updates)(current_ip).len(),
{
    reveal_with_fuel(run_from, 7);
    lemma_failures_of(outcomes);
    let actions = run(session, force, Some(old_ip), Some(current_ip), outcomes).1;
    assert(actions =~= seq![
        CheckActionView::Fetch,
        CheckActionView::Nothing,
        CheckActionView::Notify { calls: (session.notifications)(old_ip, current_ip) },
        CheckActionView::Apply { requests: (session.updates)(current_ip) },
        CheckActionView::Persist { ip: current_ip },
        CheckActionView::Nothing,
    ]);
    lemma_counts_add(actions.subrange(0, 3), actions.subrange(3, 6));
    assert(actions.subrange(0, 3) + actions.subrange(3, 6) =~= actions);
    lemma_counts_3(actions.subrange(0, 3));
    lemma_counts_3(actions.subrange(3, 6));
    lemma_counts_1(actions[0]);
    lemma_counts_1(actions[1]);
    lemma_counts_1(actions[2]);
    lemma_counts_1(actions[3]);
    lemma_counts_1(actions[4]);
    lemma_counts_1(actions[5]);
}

/// A failed lookup ends the cycle before anything is done: where the lookup
/// service does not answer, or answers what is no well-formed address, the
/// cycle reports the failure and stores nothing, posts no notification and
/// sends the provider nothing.
pub proof fn lemma_failed_lookup_does_nothing(
    session: Session,
    force: bool,
    last_ip: Option<Seq<char>>,
    looked_up: Option<Seq<char>>,
    outcomes: Seq<Option<DnsErrorView>>,
)
    requires
        !well_formed_answer(looked_up),
    ensures
        run(session, force, last_ip, looked_up, outcomes).1 == seq![
            CheckActionView::Fetch,
            CheckActionView::Fail { errors: seq![DnsErrorView::Lookup] },
        ],
        stores(run(session, force, last_ip, looked_up, outcomes).1) == 0,
        posts(run(session, force, last_ip, looked_up, outcomes).1) == 0,
        sends(run(session, force, last_ip, looked_up, outcomes).1) == 0,
{
    reveal_with_fuel(run_from, 7);
    let actions = run(session, force, last_ip, looked_up, outcomes).1;
    assert(actions =~= seq![
        CheckActionView::Fetch,
        CheckActionView::Fail { errors: seq![DnsErrorView::Lookup] },
    ]);
    lemma_counts_add(seq![actions[0]], seq![actions[1]]);
    assert(seq![actions[0]] + seq![actions[1]] =~= actions);
    lemma_counts_1(actions[0]);
    lemma_counts_1(actions[1]);
}

/// The address that a cycle goes on with is well formed: after the step
/// that takes in the addresses, unless the cycle is over, the new address of
/// the cycle is what the lookup service answered, and it is well formed; so
/// is an address that this step asks to be stored.
pub proof fn lemma_cycle_address_is_well_formed(
    session: Session,
    cycle: CheckCycleView,
    last_ip: Option<Seq<char>>,
    looked_up: Option<Seq<char>>,
)
    requires
        cycle.phase == Phase::Fetching,
    ensures
        ({
            let step = next(session, cycle, CheckEventView::Fetched { last_ip, answer: looked_up });
            &&& step.1 matches CheckActionView::Persist { ip } ==> looked_up == Some(ip)
                && valid_ip(ip)
            &&& step.0.phase != Phase::Done ==> looked_up == Some(step.0.new_ip) && valid_ip(
                step.0.new_ip,
            )
        }),
{
}

/// No step of a dry run has anything done: wherever the cycle stands and
/// whatever happened, it only asks for the addresses to be read, describes,
/// reports a failure or asks for nothing.
pub proof fn lemma_dry_step_is_pure(session: Session, cycle: CheckCycleView, event: CheckEventView)
    requires
        session.dry_run,
    ensures
        !(next(session, cycle, event).1 is Notify),
        !(next(session, cycle, event).1 is Apply),
        !(next(session, cycle, event).1 is Persist),
{
}

/// A rejected update keeps the last known address: where an update has no
/// outcome or the provider rejects one, the cycle ends by reporting what was
/// rejected and does not store the current address, so that the next cycle
/// tries again.
pub proof fn lemma_rejected_update_stores_nothing(
    session: Session,
    force: bool,
    old_ip: Seq<char>,
    current_ip: Seq<char>,
    outcomes: Seq<Option<DnsErrorView>>,
)
    requires
        !session.dry_run,
        valid_ip(current_ip),
        old_ip != current_ip || force,
        !all_accepted(outcomes, (session.updates)(current_ip).len()),
    ensures
        run(session, force, Some(old_ip), Some(current_ip), outcomes).1 == seq![
            CheckActionView::Fetch,
            CheckActionView::Nothing,
            CheckActionView::Notify { calls: (session.notifications)(old_ip, current_ip) },
            CheckActionView::Apply { requests: (session.updates)(current_ip) },
            CheckActionView::Fail { errors: failures_of(outcomes) },
        ],
        stores(run(session, force, Some(old_ip), Some(current_ip), outcomes).1) == 0,
{
    reveal_with_fuel(run_from, 7);
    let actions = run(session, force, Some(old_ip), Some(current_ip), outcomes).1;
    assert(actions =~= seq![
        CheckActionView::Fetch,
        CheckActionView::Nothing,
        CheckActionView::Notify { calls: (session.notifications)(old_ip, current_ip) },
        CheckActionView::Apply { requests: (session.updates)(current_ip) },
        CheckActionView::Fail { errors: failures_of(outcomes) },
    ]);
    lemma_counts_add(actions.subrange(0, 3), actions.subrange(3, 5));
    assert(actions.subrange(0, 3) + actions.subrange(3, 5) =~= actions);
    lemma_counts_3(actions.subrange(0, 3));
    lemma_counts_add(seq![actions[3]], seq![actions[4]]);
    assert(seq![actions[3]] + seq![actions[4]] =~= actions.subrange(3, 5));
    lemma_counts_1(actions[0]);
    lemma_counts_1(actions[1]);
    lemma_counts_1(actions[2]);
    lemma_counts_1(actions[3]);
    lemma_counts_1(actions[4]);
}

/// What one action counts for.
pub proof fn lemma_counts_1(action: CheckActionView)
    ensures
        stores(seq![action]) == if action is Persist {
            1nat
        } else {
            0nat
        },
        posts(seq![action]) == match action {
            CheckActionView::Notify { calls } => calls.len(),
            _ => 0nat,
        },
        sends(seq![action]) == match action {
            CheckActionView::Apply { requests } => requests.len(),
            _ => 0nat,
        },
{
    let one = seq![action];
    assert(one.drop_last() =~= Seq::<CheckActionView>::empty());
    assert(one.last() == action);
    reveal_with_fuel(stores, 2);
    reveal_with_fuel(posts, 2);
    reveal_with_fuel(sends, 2);
}

/// The counts of three actions are the sums over the three.
proof fn lemma_counts_3(actions: Seq<CheckActionView>)
    requires
        actions.len() == 3,
    ensures
        stores(actions) == stores(seq![actions[0]]) + stores(seq![actions[1]]) + stores(
            seq![actions[2]],
        ),
        posts(actions) == posts(seq![actions[0]]) + posts(seq![actions[1]]) + posts(
            seq![actions[2]],
        ),
        sends(actions) == sends(seq![actions[0]]) + sends(seq![actions[1]]) + sends(
            seq![actions[2]],
        ),
{
    lemma_counts_add(actions.subrange(0, 1), actions.subrange(1, 2));
    lemma_counts_add(actions.subrange(0, 2), actions.subrange(2, 3));
    assert(actions.subrange(0, 1) + actions.subrange(1, 2) =~= actions.subrange(0, 2));
    assert(actions.subrange(0, 2) + actions.subrange(2, 3) =~= actions);
    assert(actions.subrange(0, 1) =~= seq![actions[0]]);
    assert(actions.subrange(1, 2) =~= seq![actions[1]]);
    assert(actions.subrange(2, 3) =~= seq![actions[2]]);
}

/// The counts of actions put one after the other are the sums of the counts.
pub proof fn lemma_counts_add(first: Seq<CheckActionView>, rest: Seq<CheckActionView>)
    ensures
        stores(first + rest) == stores(first) + stores(rest),
        posts(first + rest) == posts(first) + posts(rest),
        sends(first + rest) == sends(first) + sends(rest),
    decreases rest.len(),
{
    if rest.len() == 0 {
        assert(first + rest =~= first);
    } else {
        lemma_counts_add(first, rest.drop_last());
        assert((first + rest).drop_last() =~= first + rest.drop_last());
        assert((first + rest).last() == rest.last());
    }
}

} // verus!

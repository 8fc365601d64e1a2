use vstd::prelude::*;

use crate::child::{code_val, stop_step, tick_step, Child, ChildAction, Status, WaitStatus};
use crate::config::RestartLimit;
use crate::config::{added_programs, deletion_queue_after, has_counterpart, unique_names};
use crate::program::{decl_eq, missing_spec, stopped_children, Program};

verus! {

/// A child's respawn count never goes down: one tick leaves it unchanged or
/// raises it by one.
pub proof fn lemma_tick_restarts_monotone(c: Child, p: Program, w: WaitStatus, now: u64)
    ensures
        tick_step(c, p, w, now).0.restarts >= c.restarts,
{
}

/// Under the `Never` restart policy no tick ever respawns a child or touches
/// its respawn count: a child that started with none keeps none.
pub proof fn lemma_never_policy_no_respawn(c: Child, p: Program, w: WaitStatus, now: u64)
    requires
        p.restart_policy is Never,
    ensures
        tick_step(c, p, w, now).0.restarts == c.restarts,
        tick_step(c, p, w, now).1 != ChildAction::Respawn,
{
}

/// Under the `UnexpectedExit` restart policy, a child finished with an
/// expected exit code is never respawned, whatever the restart bound says:
/// the tick leaves it exactly as it is.
pub proof fn lemma_expected_exit_no_respawn(c: Child, p: Program, w: WaitStatus, now: u64)
    requires
        p.restart_policy is UnexpectedExit,
        c.status matches Status::Finished(_, code) && p.valid_exit_codes@.contains(code_val(code)),
    ensures
        tick_step(c, p, w, now).0 == c,
        tick_step(c, p, w, now).1 == ChildAction::Idle,
{
}

/// A terminating child whose process is still there past the graceful
/// timeout is force-killed by the next tick: its status becomes `Stopped`.
pub proof fn lemma_graceful_timeout_escalates(c: Child, p: Program, w: WaitStatus, now: u64)
    requires
        c.status matches Status::Terminating(t0) && now - t0 > p.graceful_timeout,
        !(w is Exited),
    ensures
        tick_step(c, p, w, now).0.status == Status::Stopped(now),
        tick_step(c, p, w, now).1 == ChildAction::ForceKill,
{
}

/// A starting child whose process is still alive past the minimum runtime is
/// promoted by the next tick: its status becomes `Running`.
pub proof fn lemma_min_runtime_promotes(c: Child, p: Program, w: WaitStatus, now: u64)
    requires
        c.status matches Status::Starting(t0) && now - t0 > p.min_runtime,
        !(w is Exited),
    ensures
        tick_step(c, p, w, now).0.status == Status::Running(now),
{
}

/// A child after a whole sequence of ticks, each given as the poll
/// observation and the instant of that tick.
pub open spec fn run_ticks(c: Child, p: Program, schedule: Seq<(WaitStatus, u64)>) -> Child
    decreases schedule.len(),
{
    if schedule.len() == 0 {
        c
    } else {
        run_ticks(tick_step(c, p, schedule[0].0, schedule[0].1).0, p, schedule.drop_first())
    }
}

/// Under a bounded restart limit the respawn count never exceeds the bound,
/// over any sequence of ticks whatsoever.
pub proof fn lemma_restart_bound_holds_forever(
    c: Child,
    p: Program,
    schedule: Seq<(WaitStatus, u64)>,
    m: u32,
)
    requires
        p.max_restarts == RestartLimit::Limited(m),
        c.restarts <= m,
    ensures
        run_ticks(c, p, schedule).restarts <= m,
    decreases schedule.len(),
{
    if schedule.len() > 0 {
        lemma_restart_bound_holds_forever(
            tick_step(c, p, schedule[0].0, schedule[0].1).0,
            p,
            schedule.drop_first(),
            m,
        );
    }
}

/// Under the `Never` restart policy the respawn count is constant over any
/// sequence of ticks: a child that started with none keeps none forever.
pub proof fn lemma_never_policy_keeps_restarts_forever(
    c: Child,
    p: Program,
    schedule: Seq<(WaitStatus, u64)>,
)
    requires
        p.restart_policy is Never,
    ensures
        run_ticks(c, p, schedule).restarts == c.restarts,
    decreases schedule.len(),
{
    if schedule.len() > 0 {
        lemma_never_policy_keeps_restarts_forever(
            tick_step(c, p, schedule[0].0, schedule[0].1).0,
            p,
            schedule.drop_first(),
        );
    }
}

/// Under the `UnexpectedExit` restart policy, a child finished with an
/// expected exit code never changes again: every later tick, whatever it
/// observes, leaves it exactly as it is.
pub proof fn lemma_expected_exit_is_final(c: Child, p: Program, schedule: Seq<(WaitStatus, u64)>)
    requires
        p.restart_policy is UnexpectedExit,
        c.status matches Status::Finished(_, code) && p.valid_exit_codes@.contains(code_val(code)),
    ensures
        run_ticks(c, p, schedule) == c,
    decreases schedule.len(),
{
    if schedule.len() > 0 {
        lemma_expected_exit_no_respawn(c, p, schedule[0].0, schedule[0].1);
        lemma_expected_exit_is_final(c, p, schedule.drop_first());
    }
}

/// A finished child whose respawn count has reached a bounded restart limit
/// never changes again: the bound blocks every further respawn, so every
/// later tick leaves it exactly as it is.
pub proof fn lemma_exhausted_restarts_is_final(
    c: Child,
    p: Program,
    schedule: Seq<(WaitStatus, u64)>,
    m: u32,
)
    requires
        p.max_restarts == RestartLimit::Limited(m),
        c.restarts >= m,
        c.status is Finished,
    ensures
        run_ticks(c, p, schedule) == c,
    decreases schedule.len(),
{
    if schedule.len() > 0 {
        assert(tick_step(c, p, schedule[0].0, schedule[0].1).0 == c);
        lemma_exhausted_restarts_is_final(c, p, schedule.drop_first(), m);
    }
}

/// Starting a fully populated program is a no-op: nothing is missing, and
/// recording zero spawns appends nothing.
pub proof fn lemma_start_full_is_noop(p: Program, now: u64)
    requires
        p.childs@.len() == p.processes as int,
    ensures
        missing_spec(p) == 0,
        p.childs@ + Seq::new(0nat, |i: int| Child { status: Status::Starting(now), restarts: 0u64 })
            =~= p.childs@,
{
}

/// Stopping twice is stopping once: after a stop whose signals were all
/// delivered, no child is active any more, so a second stop — whatever its
/// delivery outcomes — changes nothing.
pub proof fn lemma_stop_twice_is_stop_once(
    cs: Seq<Child>,
    sent1: Seq<bool>,
    t1: u64,
    sent2: Seq<bool>,
    t2: u64,
)
    requires
        sent1.len() == cs.len(),
        forall|i: int| 0 <= i < sent1.len() ==> sent1[i],
    ensures
        stopped_children(stopped_children(cs, sent1, t1), sent2, t2) == stopped_children(
            cs,
            sent1,
            t1,
        ),
{
    let once = stopped_children(cs, sent1, t1);
    assert forall|i: int| 0 <= i < once.len() implies stop_step(once[i], sent2[i], t2)
        == once[i] by {
        assert(once[i] == stop_step(cs[i], sent1[i], t1));
    }
    assert(stopped_children(once, sent2, t2) =~= once);
}

proof fn lemma_added_of_kept_is_empty(olds: Seq<Program>, news: Seq<Program>)
    requires
        forall|j: int| 0 <= j < news.len() ==> has_counterpart(olds, #[trigger] news[j]),
    ensures
        added_programs(olds, news) == Seq::<Program>::empty(),
    decreases news.len(),
{
    if news.len() > 0 {
        assert(forall|j: int| 0 <= j < news.len() - 1
            ==> news.drop_last()[j] == #[trigger] news[j]);
        lemma_added_of_kept_is_empty(olds, news.drop_last());
    }
}

proof fn lemma_queue_unmoved_when_all_matched(
    queue: Seq<Seq<char>>,
    olds: Seq<Program>,
    news: Seq<Program>,
)
    requires
        forall|j: int| 0 <= j < olds.len() ==> has_counterpart(news, #[trigger] olds[j]),
    ensures
        deletion_queue_after(queue, olds, news) == queue,
    decreases olds.len(),
{
    if olds.len() > 0 {
        assert(forall|j: int| 0 <= j < olds.len() - 1
            ==> olds.drop_first()[j] == #[trigger] olds[j + 1]);
        lemma_queue_unmoved_when_all_matched(queue, olds.drop_first(), news);
    }
}

/// Reconciling a configuration with itself is the identity: every program
/// finds its own identically-specified namesake, so nothing is appended,
/// the deletion queue is left as it stands, and nothing is to be stopped.
pub proof fn lemma_update_identity(queue: Seq<Seq<char>>, p: Seq<Program>)
    requires
        unique_names(p),
    ensures
        added_programs(p, p) == Seq::<Program>::empty(),
        deletion_queue_after(queue, p, p) == queue,
        forall|i: int| 0 <= i < p.len() ==> has_counterpart(p, #[trigger] p[i]),
{
    assert forall|i: int| 0 <= i < p.len() implies has_counterpart(p, #[trigger] p[i]) by {
        assert(p[i].name@ == p[i].name@ && decl_eq(p[i], p[i]));
    }
    lemma_added_of_kept_is_empty(p, p);
    lemma_queue_unmoved_when_all_matched(queue, p, p);
}

} // verus!

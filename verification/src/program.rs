use vstd::prelude::*;

use crate::child::{
    kill_step, stop_step, tick_step, Child, ChildAction, Status, WaitStatus,
};
use crate::config::{RestartLimit, RestartPolicy, Signal, StartPolicy};

verus! {

/// How long, in milliseconds, a `Stopped` child lingers in its program before
/// the slot is dropped, so that the transition can still be rendered once.
pub const STOPPED_LINGER_MS: u64 = 1000;

/// A program: its declarative specification plus the live children it owns.
#[derive(Debug)]
pub struct Program {
    /// Unique identifier within a configuration.
    pub name: String,
    /// Shell-free command line; the first whitespace-separated token is the
    /// executable.
    pub command: String,
    pub start_policy: StartPolicy,
    /// Target number of concurrent children.
    pub processes: u8,
    /// Milliseconds after a spawn before a child counts as `Running`.
    pub min_runtime: u64,
    /// Exit codes treated as expected by `RestartPolicy::UnexpectedExit`.
    pub valid_exit_codes: Vec<i32>,
    pub restart_policy: RestartPolicy,
    pub max_restarts: RestartLimit,
    /// Signal sent for a graceful stop.
    pub valid_signal: Signal,
    /// Milliseconds a graceful stop may take before it escalates to a kill.
    pub graceful_timeout: u64,
    /// File the children read standard input from, if any.
    pub stdin: Option<String>,
    /// File the children append standard output (and error) to, if any.
    pub stdout: Option<String>,
    /// `KEY=VALUE` overlays to the parent environment.
    pub env: Option<Vec<String>>,
    /// Working directory of the children.
    pub cwd: Option<String>,
    /// Octal file-mode creation mask applied in the children.
    pub umask: Option<String>,
    /// Live children, at most `processes` of them.
    pub childs: Vec<Child>,
}

/// What the caller must do to the OS processes after `Program::tick`:
/// one action per old child slot, and one flag saying whether the slot
/// was kept (both aligned with the children as they stood before the call).
pub struct TickReport {
    pub actions: Vec<ChildAction>,
    pub kept: Vec<bool>,
}

/// The declarative specifications of two programs read the same
/// (their live children play no part in this).
pub open spec fn decl_eq(a: Program, b: Program) -> bool {
    &&& a.name@ == b.name@
    &&& a.command@ == b.command@
    &&& a.start_policy == b.start_policy
    &&& a.processes == b.processes
    &&& a.min_runtime == b.min_runtime
    &&& a.valid_exit_codes@ == b.valid_exit_codes@
    &&& a.restart_policy == b.restart_policy
    &&& a.max_restarts == b.max_restarts
    &&& a.valid_signal == b.valid_signal
    &&& a.graceful_timeout == b.graceful_timeout
    &&& a.stdin.deep_view() == b.stdin.deep_view()
    &&& a.stdout.deep_view() == b.stdout.deep_view()
    &&& a.env.deep_view() == b.env.deep_view()
    &&& a.cwd.deep_view() == b.cwd.deep_view()
    &&& a.umask.deep_view() == b.umask.deep_view()
}

/// The declarative fields of `a` are the very same values as those of `b`.
pub open spec fn same_decl(a: Program, b: Program) -> bool {
    &&& a.name == b.name
    &&& a.command == b.command
    &&& a.start_policy == b.start_policy
    &&& a.processes == b.processes
    &&& a.min_runtime == b.min_runtime
    &&& a.valid_exit_codes == b.valid_exit_codes
    &&& a.restart_policy == b.restart_policy
    &&& a.max_restarts == b.max_restarts
    &&& a.valid_signal == b.valid_signal
    &&& a.graceful_timeout == b.graceful_timeout
    &&& a.stdin == b.stdin
    &&& a.stdout == b.stdout
    &&& a.env == b.env
    &&& a.cwd == b.cwd
    &&& a.umask == b.umask
}

/// All children after one graceful stop with the given delivery outcomes.
pub open spec fn stopped_children(cs: Seq<Child>, sent: Seq<bool>, now: u64) -> Seq<Child> {
    Seq::new(cs.len(), |i: int| stop_step(cs[i], sent[i], now))
}

/// All children after one forced kill.
pub open spec fn killed_children(cs: Seq<Child>, now: u64) -> Seq<Child> {
    Seq::new(cs.len(), |i: int| kill_step(cs[i], now))
}

/// All children after one reconciliation step each.
pub open spec fn ticked_children(cs: Seq<Child>, p: Program, ws: Seq<WaitStatus>, now: u64) -> Seq<Child> {
    Seq::new(cs.len(), |i: int| tick_step(cs[i], p, ws[i], now).0)
}

/// The per-slot actions of one reconciliation step.
pub open spec fn tick_actions(cs: Seq<Child>, p: Program, ws: Seq<WaitStatus>, now: u64) -> Seq<ChildAction> {
    Seq::new(cs.len(), |i: int| tick_step(cs[i], p, ws[i], now).1)
}

/// A slot is kept unless it has sat in `Stopped` for the whole linger time.
pub open spec fn keep_child(c: Child, now: u64) -> bool {
    !(c.status is Stopped && now - c.status.timestamp() >= STOPPED_LINGER_MS)
}

/// The keep-flag of every slot.
pub open spec fn kept_flags(cs: Seq<Child>, now: u64) -> Seq<bool> {
    Seq::new(cs.len(), |i: int| keep_child(cs[i], now))
}

/// The children selected by their keep-flags, in order.
pub open spec fn select(cs: Seq<Child>, keep: Seq<bool>) -> Seq<Child>
    recommends
        cs.len() == keep.len(),
    decreases cs.len(),
{
    if cs.len() == 0 {
        Seq::empty()
    } else {
        let rest = select(cs.drop_last(), keep.drop_last());
        if keep.last() {
            rest.push(cs.last())
        } else {
            rest
        }
    }
}

proof fn lemma_select_push(cs: Seq<Child>, keep: Seq<bool>, c: Child, b: bool)
    requires
        cs.len() == keep.len(),
    ensures
        select(cs.push(c), keep.push(b)) == if b {
            select(cs, keep).push(c)
        } else {
            select(cs, keep)
        },
{
    assert(cs.push(c).drop_last() =~= cs);
    assert(keep.push(b).drop_last() =~= keep);
}

proof fn lemma_select_len(cs: Seq<Child>, keep: Seq<bool>)
    ensures
        select(cs, keep).len() <= cs.len(),
    decreases cs.len(),
{
    if cs.len() > 0 {
        lemma_select_len(cs.drop_last(), keep.drop_last());
    }
}

/// Number of children a call of `start` is still missing to reach the target.
pub open spec fn missing_spec(p: Program) -> int {
    if p.childs@.len() < p.processes as int {
        p.processes as int - p.childs@.len()
    } else {
        0
    }
}

impl Program {
    /// The program owns no more children than its declared target.
    pub open spec fn wf(&self) -> bool {
        self.childs@.len() <= self.processes as int
    }

    /// Every child is quiescent (`Stopped` or `Finished`).
    pub open spec fn all_stopped_spec(&self) -> bool {
        forall|i: int| 0 <= i < self.childs@.len() ==> self.childs@[i].status.is_quiescent()
    }

    /// All timestamps the program carries lie at or before `now`.
    pub open spec fn timestamps_at_most(&self, now: u64) -> bool {
        forall|i: int| 0 <= i < self.childs@.len() ==> self.childs@[i].status.timestamp() <= now
    }

    /// True iff every child is `Stopped` or `Finished`.
    pub fn all_stopped(&self) -> (r: bool)
        ensures
            r == self.all_stopped_spec(),
    {
        let mut i: usize = 0;
        while i < self.childs.len()
            invariant
                i <= self.childs@.len(),
                forall|j: int| 0 <= j < i ==> self.childs@[j].status.is_quiescent(),
            decreases self.childs@.len() - i,
        {
            if !self.childs[i].is_quiescent() {
                return false;
            }
            i += 1;
        }
        true
    }

    /// How many children are missing to reach the `processes` target.
    pub fn missing_count(&self) -> (r: usize)
        ensures
            r as int == missing_spec(*self),
    {
        let len = self.childs.len();
        let target = self.processes as usize;
        if len < target {
            target - len
        } else {
            0
        }
    }

    /// Record `spawned` freshly spawned children, each in `Starting(now)` with
    /// zero restarts. The caller spawns first (stopping at the first failure)
    /// and reports how many processes actually started; it never reports more
    /// than `missing_count` said were wanted.
    pub fn start(&mut self, spawned: usize, now: u64)
        requires
            spawned as int <= missing_spec(*old(self)),
        ensures
            final(self).childs@ == old(self).childs@ + Seq::new(
                spawned as nat,
                |i: int| Child { status: Status::Starting(now), restarts: 0u64 },
            ),
            same_decl(*final(self), *old(self)),
            final(self).wf() || !old(self).wf(),
    {
        let mut k: usize = 0;
        while k < spawned
            invariant
                k <= spawned,
                same_decl(*self, *old(self)),
                self.childs@ == old(self).childs@ + Seq::new(
                    k as nat,
                    |i: int| Child { status: Status::Starting(now), restarts: 0u64 },
                ),
            decreases spawned - k,
        {
            self.childs.push(Child::new(now));
            proof {
                assert(old(self).childs@ + Seq::new(
                    (k + 1) as nat,
                    |i: int| Child { status: Status::Starting(now), restarts: 0u64 },
                ) =~= (old(self).childs@ + Seq::new(
                    k as nat,
                    |i: int| Child { status: Status::Starting(now), restarts: 0u64 },
                )).push(Child { status: Status::Starting(now), restarts: 0u64 }));
            }
            k += 1;
        }
    }

    /// Record a graceful stop of every child: `sent` says, slot by slot,
    /// whether the caller delivered `valid_signal` to that child's process.
    pub fn stop(&mut self, sent: &Vec<bool>, now: u64)
        requires
            sent@.len() == old(self).childs@.len(),
        ensures
            final(self).childs@ == stopped_children(old(self).childs@, sent@, now),
            same_decl(*final(self), *old(self)),
            final(self).wf() || !old(self).wf(),
    {
        let ghost cs0 = self.childs@;
        let mut i: usize = 0;
        while i < self.childs.len()
            invariant
                i <= self.childs@.len(),
                self.childs@.len() == cs0.len(),
                sent@.len() == cs0.len(),
                same_decl(*self, *old(self)),
                forall|j: int| 0 <= j < i ==> self.childs@[j] == stop_step(cs0[j], sent@[j], now),
                forall|j: int| i <= j < cs0.len() ==> self.childs@[j] == cs0[j],
            decreases self.childs@.len() - i,
        {
            let mut c = self.childs[i];
            c.stop(sent[i], now);
            self.childs[i] = c;
            i += 1;
        }
        proof {
            assert(self.childs@ =~= stopped_children(cs0, sent@, now));
        }
    }

    /// Restarting is stopping now: the tick loop reaps the finished children
    /// and the restart policy alone decides whether they are respawned.
    pub fn restart(&mut self, sent: &Vec<bool>, now: u64)
        requires
            sent@.len() == old(self).childs@.len(),
        ensures
            final(self).childs@ == stopped_children(old(self).childs@, sent@, now),
            same_decl(*final(self), *old(self)),
            final(self).wf() || !old(self).wf(),
    {
        self.stop(sent, now);
    }

    /// Force-terminate every non-quiescent child on the spot, the still
    /// terminating ones included, so that no OS process survives the sweep.
    /// Returns, slot by slot, whether the caller must now kill that slot's
    /// OS process.
    pub fn kill(&mut self, now: u64) -> (to_kill: Vec<bool>)
        ensures
            final(self).childs@ == killed_children(old(self).childs@, now),
            to_kill@ == Seq::new(
                old(self).childs@.len(),
                |i: int| !old(self).childs@[i].status.is_quiescent(),
            ),
            same_decl(*final(self), *old(self)),
            final(self).wf() || !old(self).wf(),
    {
        let ghost cs0 = self.childs@;
        let mut to_kill: Vec<bool> = Vec::new();
        let mut i: usize = 0;
        while i < self.childs.len()
            invariant
                i <= self.childs@.len(),
                self.childs@.len() == cs0.len(),
                to_kill@.len() == i,
                same_decl(*self, *old(self)),
                forall|j: int| 0 <= j < i ==> self.childs@[j] == kill_step(cs0[j], now),
                forall|j: int| 0 <= j < i ==> to_kill@[j] == !cs0[j].status.is_quiescent(),
                forall|j: int| i <= j < cs0.len() ==> self.childs@[j] == cs0[j],
            decreases self.childs@.len() - i,
        {
            let mut c = self.childs[i];
            let must_kill = c.kill(now);
            self.childs[i] = c;
            to_kill.push(must_kill);
            i += 1;
        }
        proof {
            assert(self.childs@ =~= killed_children(cs0, now));
            assert(to_kill@ =~= Seq::new(cs0.len(), |i: int| !cs0[i].status.is_quiescent()));
        }
        to_kill
    }

    /// One reconciliation step of the whole program: tick every child with
    /// what polling its process reported, then drop the slots that have sat
    /// in `Stopped` for the linger time. The report tells the caller what to
    /// do to each old slot's OS process and which slots were kept.
    pub fn tick(&mut self, waits: &Vec<WaitStatus>, now: u64) -> (r: TickReport)
        requires
            waits@.len() == old(self).childs@.len(),
            old(self).timestamps_at_most(now),
        ensures
            r.actions@ == tick_actions(old(self).childs@, *old(self), waits@, now),
            r.kept@ == kept_flags(ticked_children(old(self).childs@, *old(self), waits@, now), now),
            final(self).childs@ == select(
                ticked_children(old(self).childs@, *old(self), waits@, now),
                kept_flags(ticked_children(old(self).childs@, *old(self), waits@, now), now),
            ),
            final(self).childs@.len() <= old(self).childs@.len(),
            same_decl(*final(self), *old(self)),
            final(self).wf() || !old(self).wf(),
            final(self).timestamps_at_most(now),
    {
        let ghost p0 = *self;
        let ghost cs0 = self.childs@;
        let ghost t = ticked_children(cs0, p0, waits@, now);
        let ghost f = kept_flags(t, now);
        let n = self.childs.len();
        let mut actions: Vec<ChildAction> = Vec::new();
        let mut kept: Vec<bool> = Vec::new();
        let mut new_childs: Vec<Child> = Vec::new();
        let mut i: usize = 0;
        while i < n
            invariant
                i <= n,
                n == cs0.len(),
                *self == p0,
                cs0 == self.childs@,
                waits@.len() == cs0.len(),
                p0.timestamps_at_most(now),
                t == ticked_children(cs0, p0, waits@, now),
                f == kept_flags(t, now),
                actions@.len() == i,
                kept@.len() == i,
                forall|j: int| 0 <= j < i ==> actions@[j] == tick_step(cs0[j], p0, waits@[j], now).1,
                forall|j: int| 0 <= j < i ==> kept@[j] == f[j],
                new_childs@ == select(t.take(i as int), f.take(i as int)),
                forall|j: int| 0 <= j < new_childs@.len()
                    ==> #[trigger] new_childs@[j].status.timestamp() <= now,
            decreases n - i,
        {
            let mut c = self.childs[i];
            let a = c.tick(self, waits[i], now);
            let keep_it = !(matches!(c.status, Status::Stopped(_)) && now - c.last_update() >= STOPPED_LINGER_MS);
            actions.push(a);
            kept.push(keep_it);
            proof {
                assert(c == t[i as int]);
                assert(keep_it == f[i as int]);
                assert(t.take(i + 1) =~= t.take(i as int).push(t[i as int]));
                assert(f.take(i + 1) =~= f.take(i as int).push(f[i as int]));
                lemma_select_push(t.take(i as int), f.take(i as int), t[i as int], f[i as int]);
            }
            if keep_it {
                new_childs.push(c);
            }
            i += 1;
        }
        proof {
            assert(t.take(n as int) =~= t);
            assert(f.take(n as int) =~= f);
            lemma_select_len(t, f);
        }
        self.childs = new_childs;
        proof {
            assert(kept@ =~= f);
            assert(actions@ =~= tick_actions(cs0, p0, waits@, now));
        }
        TickReport { actions, kept }
    }

    /// The command line as an argument vector: its whitespace-separated
    /// tokens, the first of which names the executable. No shell is involved.
    pub fn argv(&self) -> (r: Vec<String>)
        ensures
            r.deep_view() == split_ws(self.command@),
    {
        let s = self.command.as_str();
        let n = s.unicode_len();
        let mut r: Vec<String> = Vec::new();
        let mut st: usize = 0;
        let mut i: usize = 0;
        proof {
            assert(s@.take(0) =~= Seq::<char>::empty());
        }
        while i < n
            invariant
                i <= n,
                st <= i,
                n == s@.len(),
                s@ == self.command@,
                st == i ==> r.deep_view() == split_ws(s@.take(i as int)),
                st == i && i > 0 ==> is_space(s@[i - 1]),
                st < i ==> {
                    &&& r.deep_view().push(s@.subrange(st as int, i as int)) == split_ws(
                        s@.take(i as int),
                    )
                    &&& (forall|j: int| st <= j < i ==> !is_space(s@[j]))
                    &&& (st == 0 || is_space(s@[st as int - 1]))
                },
            decreases n - i,
        {
            let c = s.get_char(i);
            let ghost r0 = r.deep_view();
            proof {
                assert(s@.take(i + 1).drop_last() =~= s@.take(i as int));
                assert(s@.take(i + 1).last() == s@[i as int]);
            }
            if c == ' ' || c == '\t' || c == '\n' || c == '\r' {
                if st < i {
                    let tok = s.substring_char(st, i).to_owned();
                    r.push(tok);
                    proof {
                        assert(r.deep_view() =~= r0.push(s@.subrange(st as int, i as int)));
                    }
                }
                st = i + 1;
            } else {
                proof {
                    if st < i {
                        let rest = split_ws(s@.take(i as int));
                        assert(rest == r0.push(s@.subrange(st as int, i as int)));
                        assert(s@.subrange(st as int, i as int).push(s@[i as int]) =~= s@.subrange(
                            st as int,
                            i + 1,
                        ));
                        assert(rest.update(rest.len() - 1, rest.last().push(s@[i as int]))
                            =~= r0.push(s@.subrange(st as int, i + 1)));
                    } else {
                        assert(seq![s@[i as int]] =~= s@.subrange(st as int, i + 1));
                        assert(split_ws(s@.take(i + 1)) == split_ws(s@.take(i as int)).push(
                            s@.subrange(st as int, i + 1),
                        ));
                    }
                }
            }
            i += 1;
        }
        proof {
            assert(s@.take(n as int) =~= s@);
        }
        if st < n {
            let ghost r0 = r.deep_view();
            let tok = s.substring_char(st, n).to_owned();
            r.push(tok);
            proof {
                assert(r.deep_view() =~= r0.push(s@.subrange(st as int, n as int)));
            }
        }
        r
    }
}

/// A whitespace character for the purpose of splitting a command line.
pub open spec fn is_space(c: char) -> bool {
    c == ' ' || c == '\t' || c == '\n' || c == '\r'
}

/// The whitespace-separated tokens of a character sequence, in order.
pub open spec fn split_ws(s: Seq<char>) -> Seq<Seq<char>>
    decreases s.len(),
{
    if s.len() == 0 {
        Seq::empty()
    } else {
        let rest = split_ws(s.drop_last());
        if is_space(s.last()) {
            rest
        } else if s.len() >= 2 && !is_space(s[s.len() - 2]) {
            rest.update(rest.len() - 1, rest.last().push(s.last()))
        } else {
            rest.push(seq![s.last()])
        }
    }
}

/// Numeric value of a sequence of octal digits.
pub open spec fn octal_value(s: Seq<char>) -> int
    decreases s.len(),
{
    if s.len() == 0 {
        0
    } else {
        octal_value(s.drop_last()) * 8 + (s.last() as int - '0' as int)
    }
}

pub open spec fn is_octal_digit(c: char) -> bool {
    '0' <= c && c <= '7'
}

/// Largest value that `i` octal digits can write (for up to four digits).
pub open spec fn octal_bound(i: int) -> int {
    if i <= 0 {
        0
    } else if i == 1 {
        7
    } else if i == 2 {
        63
    } else if i == 3 {
        511
    } else {
        4095
    }
}

proof fn lemma_octal_value_bound(s: Seq<char>)
    requires
        s.len() <= 4,
        forall|j: int| 0 <= j < s.len() ==> is_octal_digit(s[j]),
    ensures
        0 <= octal_value(s) <= octal_bound(s.len() as int),
    decreases s.len(),
{
    if s.len() > 0 {
        assert(forall|j: int| 0 <= j < s.len() - 1 ==> s.drop_last()[j] == #[trigger] s[j]);
        lemma_octal_value_bound(s.drop_last());
        assert(is_octal_digit(s.last()));
    }
}

/// Parse a file-mode creation mask written in octal: one to four octal
/// digits. Anything else is rejected.
pub fn parse_umask(s: &str) -> (r: Option<u32>)
    ensures
        match r {
            Some(v) => 1 <= s@.len() <= 4 && (forall|j: int|
                0 <= j < s@.len() ==> is_octal_digit(s@[j])) && v as int == octal_value(s@),
            None => s@.len() == 0 || s@.len() > 4 || exists|j: int|
                0 <= j < s@.len() && !is_octal_digit(s@[j]),
        },
{
    let n = s.unicode_len();
    if n == 0 || n > 4 {
        return Option::None;
    }
    let mut v: u32 = 0;
    let mut i: usize = 0;
    proof {
        assert(s@.take(0) =~= Seq::<char>::empty());
    }
    while i < n
        invariant
            i <= n,
            n == s@.len(),
            n <= 4,
            forall|j: int| 0 <= j < i ==> is_octal_digit(s@[j]),
            v as int == octal_value(s@.take(i as int)),
            v <= 4095,
        decreases n - i,
    {
        let c = s.get_char(i);
        if c < '0' || c > '7' {
            return Option::None;
        }
        proof {
            assert(s@.take(i + 1).drop_last() =~= s@.take(i as int));
            assert(s@.take(i + 1).last() == s@[i as int]);
            assert(forall|j: int| 0 <= j < i + 1 ==> is_octal_digit(#[trigger] s@.take(i + 1)[j]));
            lemma_octal_value_bound(s@.take(i + 1));
        }
        v = v * 8 + (c as u32 - '0' as u32);
        i += 1;
    }
    proof {
        assert(s@.take(n as int) =~= s@);
    }
    Option::Some(v)
}

} // verus!

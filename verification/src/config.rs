use vstd::prelude::*;

use crate::program::{decl_eq, Program};

verus! {

/// Policy deciding whether a finished child is spawned again.
#[derive(Clone, Copy, Debug, PartialEq, Eq, Structural)]
pub enum RestartPolicy {
    Never,
    Always,
    UnexpectedExit,
}

/// Policy deciding whether a program is launched as soon as it is loaded.
#[derive(Clone, Copy, Debug, PartialEq, Eq, Structural)]
pub enum StartPolicy {
    Auto,
    Manual,
}

/// Bound on the number of auto-respawns per child slot.
#[derive(Clone, Copy, Debug, PartialEq, Eq, Structural)]
pub enum RestartLimit {
    Limited(u32),
    Unlimited,
}

/// Signal used for the graceful stop of a program's children.
#[derive(Clone, Copy, Debug, PartialEq, Eq, Structural)]
pub enum Signal {
    Hup,
    Int,
    Quit,
    Usr1,
    Usr2,
    Term,
    Kill,
}

impl Signal {
    pub open spec fn number_spec(self) -> i32 {
        match self {
            Signal::Hup => 1,
            Signal::Int => 2,
            Signal::Quit => 3,
            Signal::Usr1 => 10,
            Signal::Usr2 => 12,
            Signal::Term => 15,
            Signal::Kill => 9,
        }
    }

    /// The OS signal number.
    pub fn number(&self) -> (n: i32)
        ensures
            n == self.number_spec(),
    {
        match self {
            Signal::Hup => 1,
            Signal::Int => 2,
            Signal::Quit => 3,
            Signal::Usr1 => 10,
            Signal::Usr2 => 12,
            Signal::Term => 15,
            Signal::Kill => 9,
        }
    }
}

/// Default number of concurrent children of a program.
pub fn default_processes() -> (n: u8)
    ensures
        n == 1,
{
    1
}

/// The live configuration: every program the supervisor owns, the operator's
/// advisory user string, the current log level, and the names of programs
/// that await quiescence before removal.
#[derive(Debug)]
pub struct Config {
    pub user: Option<String>,
    pub program: Vec<Program>,
    pub loglevel: String,
    pub program_deletions: Vec<String>,
}

/// What the caller must do after `Config::update`: stop the programs at the
/// former indices (they are gone from the new configuration, or replaced),
/// and start the freshly appended programs whose policy is automatic.
pub struct UpdateReport {
    pub to_stop: Vec<usize>,
    pub to_start: Vec<usize>,
}

/// Index of the first program named `n`, or `s.len()` if none is.
pub open spec fn name_index(s: Seq<Program>, n: Seq<char>) -> int
    decreases s.len(),
{
    if s.len() == 0 {
        0
    } else if s[0].name@ == n {
        0
    } else {
        1 + name_index(s.drop_first(), n)
    }
}

/// Some program of `s` carries the same name and the same declarative
/// specification as `p`.
pub open spec fn has_counterpart(s: Seq<Program>, p: Program) -> bool {
    exists|i: int| 0 <= i < s.len() && (#[trigger] s[i].name@) == p.name@ && decl_eq(s[i], p)
}

/// The loaded programs that a reconciliation appends: those without an
/// identically-specified program of the same name already live.
pub open spec fn added_programs(olds: Seq<Program>, news: Seq<Program>) -> Seq<Program>
    decreases news.len(),
{
    if news.len() == 0 {
        Seq::empty()
    } else {
        let rest = added_programs(olds, news.drop_last());
        if has_counterpart(olds, news.last()) {
            rest
        } else {
            rest.push(news.last())
        }
    }
}

/// The deletion queue after a reconciliation: the name of every live program
/// without an identically-specified namesake among the loaded ones is
/// appended — unless the queue already holds that name, so that a program
/// retired by an earlier reconciliation and still settling is not queued a
/// second time (a stale entry would later delete its live replacement).
pub open spec fn deletion_queue_after(
    queue: Seq<Seq<char>>,
    olds: Seq<Program>,
    news: Seq<Program>,
) -> Seq<Seq<char>>
    decreases olds.len(),
{
    if olds.len() == 0 {
        queue
    } else {
        let q1 = if !has_counterpart(news, olds[0]) && !queue.contains(olds[0].name@) {
            queue.push(olds[0].name@)
        } else {
            queue
        };
        deletion_queue_after(q1, olds.drop_first(), news)
    }
}

/// No two programs share a name.
pub open spec fn unique_names(s: Seq<Program>) -> bool {
    forall|i: int, j: int| 0 <= i < j < s.len() ==> (#[trigger] s[i].name@) != (#[trigger] s[j].name@)
}

/// One pass over the deletion queue: a queued name whose program has gone
/// quiescent has that program removed; one still settling is queued again;
/// one naming no live program is dropped. Returns the programs and the queue
/// after the pass.
pub open spec fn drained(programs: Seq<Program>, names: Seq<Seq<char>>) -> (Seq<Program>, Seq<Seq<char>>)
    decreases names.len(),
{
    if names.len() == 0 {
        (programs, Seq::empty())
    } else {
        let n = names[0];
        let rest = names.drop_first();
        let i = name_index(programs, n);
        if i < programs.len() {
            if programs[i].all_stopped_spec() {
                drained(programs.remove(i), rest)
            } else {
                let r = drained(programs, rest);
                (r.0, seq![n] + r.1)
            }
        } else {
            drained(programs, rest)
        }
    }
}

pub proof fn lemma_name_index_of_match(s: Seq<Program>, n: Seq<char>, i: int)
    requires
        0 <= i < s.len(),
        s[i].name@ == n,
        forall|j: int| 0 <= j < i ==> (#[trigger] s[j].name@) != n,
    ensures
        name_index(s, n) == i,
    decreases s.len(),
{
    if i > 0 {
        assert(s[0].name@ != n);
        lemma_name_index_of_match(s.drop_first(), n, i - 1);
    }
}

pub proof fn lemma_name_index_of_none(s: Seq<Program>, n: Seq<char>)
    requires
        forall|j: int| 0 <= j < s.len() ==> (#[trigger] s[j].name@) != n,
    ensures
        name_index(s, n) == s.len(),
    decreases s.len(),
{
    if s.len() > 0 {
        lemma_name_index_of_none(s.drop_first(), n);
    }
}

/// Index of the first of the leading `limit` programs that is named `name`.
pub fn find_by_name(programs: &Vec<Program>, name: &String, limit: usize) -> (r: Option<usize>)
    requires
        limit <= programs@.len(),
    ensures
        match r {
            Some(i) => {
                &&& i < limit
                &&& programs@[i as int].name@ == name@
                &&& forall|j: int| 0 <= j < i ==> (#[trigger] programs@[j].name@) != name@
            },
            None => forall|j: int| 0 <= j < limit ==> (#[trigger] programs@[j].name@) != name@,
        },
{
    let mut i: usize = 0;
    while i < limit
        invariant
            i <= limit <= programs@.len(),
            forall|j: int| 0 <= j < i ==> (#[trigger] programs@[j].name@) != name@,
        decreases limit - i,
    {
        if programs[i].name == *name {
            return Some(i);
        }
        i += 1;
    }
    None
}

/// Does the deletion queue already hold this name?
fn contains_name(queue: &Vec<String>, name: &String) -> (r: bool)
    ensures
        r == queue.deep_view().contains(name@),
{
    let mut i: usize = 0;
    while i < queue.len()
        invariant
            i <= queue@.len(),
            forall|j: int| 0 <= j < i ==> (#[trigger] queue@[j])@ != name@,
        decreases queue@.len() - i,
    {
        if queue[i] == *name {
            proof {
                assert(queue.deep_view()[i as int] == queue@[i as int]@);
            }
            return true;
        }
        i += 1;
    }
    proof {
        assert forall|j: int| 0 <= j < queue.deep_view().len()
            implies queue.deep_view()[j] != name@ by {
            assert(queue.deep_view()[j] == queue@[j]@);
        }
    }
    false
}

/// Does any of the leading `limit` programs carry `np`'s name together with
/// `np`'s declarative specification? The whole prefix is scanned, so a doomed
/// namesake awaiting deletion cannot hide an identically-specified live one.
fn counterpart_in_prefix(programs: &Vec<Program>, np: &Program, limit: usize) -> (r: bool)
    requires
        limit <= programs@.len(),
    ensures
        r == has_counterpart(programs@.take(limit as int), *np),
{
    let ghost prefix = programs@.take(limit as int);
    let mut i: usize = 0;
    while i < limit
        invariant
            i <= limit <= programs@.len(),
            prefix == programs@.take(limit as int),
            forall|j: int| 0 <= j < i
                ==> !((#[trigger] prefix[j].name@) == np.name@ && decl_eq(prefix[j], *np)),
        decreases limit - i,
    {
        proof {
            assert(prefix[i as int] == programs@[i as int]);
        }
        if programs[i].name == np.name && same_spec(&programs[i], np) {
            proof {
                assert(0 <= i < prefix.len() && prefix[i as int].name@ == np.name@
                    && decl_eq(prefix[i as int], *np));
            }
            return true;
        }
        i += 1;
    }
    false
}

/// Elementwise equality of two exit-code lists.
fn codes_eq(a: &Vec<i32>, b: &Vec<i32>) -> (r: bool)
    ensures
        r == (a@ == b@),
{
    if a.len() != b.len() {
        proof {
            assert(a@ != b@);
        }
        return false;
    }
    let mut i: usize = 0;
    while i < a.len()
        invariant
            i <= a@.len(),
            a@.len() == b@.len(),
            forall|j: int| 0 <= j < i ==> a@[j] == b@[j],
        decreases a@.len() - i,
    {
        if a[i] != b[i] {
            return false;
        }
        i += 1;
    }
    proof {
        assert(a@ =~= b@);
    }
    true
}

/// Equality of two optional strings, by their text.
fn opt_string_eq(a: &Option<String>, b: &Option<String>) -> (r: bool)
    ensures
        r == (a.deep_view() == b.deep_view()),
{
    match (a, b) {
        (Option::None, Option::None) => true,
        (Option::Some(x), Option::Some(y)) => *x == *y,
        _ => false,
    }
}

/// Elementwise equality of two string lists.
fn string_vec_eq(a: &Vec<String>, b: &Vec<String>) -> (r: bool)
    ensures
        r == (a.deep_view() == b.deep_view()),
{
    if a.len() != b.len() {
        proof {
            assert(a.deep_view().len() == a@.len());
            assert(b.deep_view().len() == b@.len());
        }
        return false;
    }
    let mut i: usize = 0;
    while i < a.len()
        invariant
            i <= a@.len(),
            a@.len() == b@.len(),
            forall|j: int| 0 <= j < i ==> (#[trigger] a@[j])@ == b@[j]@,
        decreases a@.len() - i,
    {
        if !(a[i] == b[i]) {
            proof {
                assert(a.deep_view()[i as int] == a@[i as int]@);
                assert(b.deep_view()[i as int] == b@[i as int]@);
            }
            return false;
        }
        i += 1;
    }
    proof {
        assert(a.deep_view() =~~= b.deep_view());
    }
    true
}

/// Equality of two optional string lists.
fn opt_string_vec_eq(a: &Option<Vec<String>>, b: &Option<Vec<String>>) -> (r: bool)
    ensures
        r == (a.deep_view() == b.deep_view()),
{
    match (a, b) {
        (Option::None, Option::None) => true,
        (Option::Some(x), Option::Some(y)) => string_vec_eq(x, y),
        _ => false,
    }
}

impl Config {
    /// Merge a freshly loaded configuration into the live one. Programs with
    /// an identically-specified live namesake keep their children untouched;
    /// the other loaded programs are appended; live programs without an
    /// identically-specified loaded namesake are queued for deletion. The
    /// report names the programs the caller must now stop (the queued ones)
    /// and start (the appended ones whose start policy is automatic).
    pub fn update(&mut self, new: Config) -> (r: UpdateReport)
        requires
            unique_names(new.program@),
        ensures
            final(self).program@ == old(self).program@ + added_programs(
                old(self).program@,
                new.program@,
            ),
            forall|i: int| 0 <= i < old(self).program@.len()
                ==> final(self).program@[i] == old(self).program@[i],
            final(self).program_deletions.deep_view() == deletion_queue_after(
                old(self).program_deletions.deep_view(),
                old(self).program@,
                new.program@,
            ),
            final(self).user == new.user,
            final(self).loglevel == new.loglevel,
            forall|a: int, b: int| 0 <= a < b < r.to_stop@.len()
                ==> r.to_stop@[a] < r.to_stop@[b],
            forall|a: int| 0 <= a < r.to_stop@.len()
                ==> (#[trigger] r.to_stop@[a]) < old(self).program@.len()
                    && !has_counterpart(new.program@, old(self).program@[r.to_stop@[a] as int]),
            forall|i: int| 0 <= i < old(self).program@.len()
                && !has_counterpart(new.program@, #[trigger] old(self).program@[i])
                ==> r.to_stop@.contains(i as usize),
            forall|a: int, b: int| 0 <= a < b < r.to_start@.len()
                ==> r.to_start@[a] < r.to_start@[b],
            forall|a: int| 0 <= a < r.to_start@.len()
                ==> old(self).program@.len() <= (#[trigger] r.to_start@[a])
                    && (r.to_start@[a] as int) < final(self).program@.len()
                    && final(self).program@[r.to_start@[a] as int].start_policy is Auto,
            forall|k: int| old(self).program@.len() <= k < final(self).program@.len()
                && (#[trigger] final(self).program@[k]).start_policy is Auto
                ==> r.to_start@.contains(k as usize),
    {
        let ghost olds = self.program@;
        let ghost news = new.program@;
        let ghost dels0 = self.program_deletions.deep_view();
        let Config { user: new_user, program: mut incoming, loglevel: new_loglevel, program_deletions: _ } = new;

        let old_len = self.program.len();
        let mut to_stop: Vec<usize> = Vec::new();
        proof {
            assert(olds.skip(0) =~= olds);
        }
        let mut i: usize = 0;
        while i < old_len
            invariant
                i <= old_len,
                old_len == olds.len(),
                self.program@ == olds,
                incoming@ == news,
                unique_names(news),
                deletion_queue_after(
                    self.program_deletions.deep_view(),
                    olds.skip(i as int),
                    news,
                ) == deletion_queue_after(dels0, olds, news),
                to_stop@.len() <= i,
                forall|a: int, b: int| 0 <= a < b < to_stop@.len() ==> to_stop@[a] < to_stop@[b],
                forall|a: int| 0 <= a < to_stop@.len() ==> (#[trigger] to_stop@[a]) < i
                    && !has_counterpart(news, olds[to_stop@[a] as int]),
                forall|j: int| 0 <= j < i && !has_counterpart(news, #[trigger] olds[j])
                    ==> to_stop@.contains(j as usize),
            decreases old_len - i,
        {
            let retained = match find_by_name(&incoming, &self.program[i].name, incoming.len()) {
                Option::Some(j) => {
                    let s = same_spec(&incoming[j], &self.program[i]);
                    proof {
                        if s {
                            assert(has_counterpart(news, olds[i as int]));
                        } else {
                            assert forall|k: int|
                                0 <= k < news.len() && (#[trigger] news[k].name@) == olds[
                                    i as int
                                ].name@ implies !decl_eq(news[k], olds[i as int]) by {
                                if k < j {
                                    assert(news[k].name@ != olds[i as int].name@);
                                } else if k > j {
                                    assert(news[j as int].name@ != news[k].name@);
                                }
                            }
                        }
                    }
                    s
                },
                Option::None => {
                    proof {
                        assert(!has_counterpart(news, olds[i as int]));
                    }
                    false
                },
            };
            let ghost dels_before = self.program_deletions.deep_view();
            let ghost ts0 = to_stop@;
            proof {
                assert(olds.skip(i as int)[0] == olds[i as int]);
                assert(olds.skip(i as int).drop_first() =~= olds.skip(i + 1));
            }
            if !retained {
                to_stop.push(i);
                if !contains_name(&self.program_deletions, &self.program[i].name) {
                    let nm = self.program[i].name.clone();
                    self.program_deletions.push(nm);
                    proof {
                        assert(self.program_deletions.deep_view() =~= dels_before.push(
                            olds[i as int].name@,
                        ));
                    }
                }
            }
            proof {
                assert forall|j: int|
                    0 <= j < i + 1 && !has_counterpart(news, #[trigger] olds[j])
                        implies to_stop@.contains(j as usize) by {
                    if j < i {
                        assert(ts0.contains(j as usize));
                        let a = choose|a: int| 0 <= a < ts0.len() && ts0[a] == j as usize;
                        assert(to_stop@[a] == j as usize);
                    } else {
                        assert(to_stop@[to_stop@.len() - 1] == i as usize);
                    }
                }
            }
            i += 1;
        }
        proof {
            assert(olds.skip(old_len as int) =~= Seq::<Program>::empty());
        }

        let mut to_start: Vec<usize> = Vec::new();
        let total = incoming.len();
        proof {
            assert(incoming@ =~= news.skip(0));
            assert(olds + added_programs(olds, news.take(0)) =~= olds);
        }
        let mut k: usize = 0;
        while k < total
            invariant
                k <= total,
                total == news.len(),
                old_len == olds.len(),
                incoming@ == news.skip(k as int),
                self.program@ == olds + added_programs(olds, news.take(k as int)),
                self.program_deletions.deep_view() == deletion_queue_after(dels0, olds, news),
                forall|a: int, b: int| 0 <= a < b < to_start@.len() ==> to_start@[a] < to_start@[b],
                forall|a: int| 0 <= a < to_start@.len() ==> old_len <= (#[trigger] to_start@[a])
                    && (to_start@[a] as int) < self.program@.len()
                    && self.program@[to_start@[a] as int].start_policy is Auto,
                forall|m: int| old_len <= m < self.program@.len()
                    && (#[trigger] self.program@[m]).start_policy is Auto
                    ==> to_start@.contains(m as usize),
            decreases total - k,
        {
            let np = incoming.remove(0);
            proof {
                assert(np == news[k as int]);
                assert(incoming@ =~= news.skip(k + 1));
                assert(self.program@.len() >= old_len);
                assert(forall|j: int| 0 <= j < old_len ==> self.program@[j] == olds[j]);
            }
            let retained = counterpart_in_prefix(&self.program, &np, old_len);
            proof {
                assert(self.program@.take(old_len as int) =~= olds);
                assert(retained == has_counterpart(olds, np));
                assert(news.take(k + 1).drop_last() =~= news.take(k as int));
                assert(news.take(k + 1).last() == news[k as int]);
            }
            let ghost st0 = to_start@;
            let ghost prog0 = self.program@;
            if !retained {
                let idx = self.program.len();
                if matches!(np.start_policy, StartPolicy::Auto) {
                    to_start.push(idx);
                }
                self.program.push(np);
            }
            proof {
                assert forall|m: int|
                    old_len <= m < self.program@.len()
                        && (#[trigger] self.program@[m]).start_policy is Auto
                        implies to_start@.contains(m as usize) by {
                    if m < prog0.len() {
                        assert(prog0[m] == self.program@[m]);
                        assert(st0.contains(m as usize));
                        let a = choose|a: int| 0 <= a < st0.len() && st0[a] == m as usize;
                        assert(to_start@[a] == m as usize);
                    } else {
                        assert(to_start@[to_start@.len() - 1] == m as usize);
                    }
                }
            }
            proof {
                if has_counterpart(olds, news[k as int]) {
                    assert(self.program@ == olds + added_programs(olds, news.take(k + 1)));
                } else {
                    assert(olds + added_programs(olds, news.take(k as int)).push(news[k as int])
                        =~= (olds + added_programs(olds, news.take(k as int))).push(
                        news[k as int],
                    ));
                }
            }
            k += 1;
        }
        proof {
            assert(news.take(total as int) =~= news);
        }
        self.user = new_user;
        self.loglevel = new_loglevel;
        UpdateReport { to_stop, to_start }
    }

    /// One pass over the deletion queue: remove each queued program that has
    /// gone quiescent, queue again each one still settling, and drop each
    /// name that matches no live program.
    pub fn drain_deletions(&mut self)
        ensures
            final(self).program@ == drained(
                old(self).program@,
                old(self).program_deletions.deep_view(),
            ).0,
            final(self).program_deletions.deep_view() == drained(
                old(self).program@,
                old(self).program_deletions.deep_view(),
            ).1,
            final(self).user == old(self).user,
            final(self).loglevel == old(self).loglevel,
    {
        let ghost progs0 = self.program@;
        let ghost names0 = self.program_deletions.deep_view();
        let mut requeue: Vec<String> = Vec::new();
        let total = self.program_deletions.len();
        proof {
            assert(names0.skip(0) =~= names0);
        }
        let mut k: usize = 0;
        while k < total
            invariant
                k <= total,
                self.program_deletions@.len() == total,
                names0.len() == total,
                self.program_deletions.deep_view() == names0,
                drained(self.program@, names0.skip(k as int)).0 == drained(progs0, names0).0,
                requeue.deep_view() + drained(self.program@, names0.skip(k as int)).1 == drained(
                    progs0,
                    names0,
                ).1,
                self.user == old(self).user,
                self.loglevel == old(self).loglevel,
            decreases total - k,
        {
            let nm = self.program_deletions[k].clone();
            proof {
                assert(nm@ == names0[k as int]);
                assert(names0.skip(k as int)[0] == names0[k as int]);
                assert(names0.skip(k as int).drop_first() =~= names0.skip(k + 1));
            }
            let ghost req0 = requeue.deep_view();
            let ghost cur = self.program@;
            match find_by_name(&self.program, &nm, self.program.len()) {
                Option::Some(i) => {
                    proof {
                        lemma_name_index_of_match(cur, nm@, i as int);
                    }
                    if self.program[i].all_stopped() {
                        self.program.remove(i);
                    } else {
                        requeue.push(nm);
                        proof {
                            assert(requeue.deep_view() =~= req0.push(names0[k as int]));
                            assert(req0.push(names0[k as int]) + drained(
                                self.program@,
                                names0.skip(k + 1),
                            ).1 =~= req0 + (seq![names0[k as int]] + drained(
                                self.program@,
                                names0.skip(k + 1),
                            ).1));
                        }
                    }
                },
                Option::None => {
                    proof {
                        lemma_name_index_of_none(cur, nm@);
                    }
                },
            }
            k += 1;
        }
        self.program_deletions = requeue;
        proof {
            assert(names0.skip(total as int) =~= Seq::<Seq<char>>::empty());
            assert(self.program_deletions.deep_view() + drained(
                self.program@,
                names0.skip(total as int),
            ).1 =~= self.program_deletions.deep_view());
        }
    }
}

/// Deep equality of the declarative specifications of two programs, the
/// trigger for replacing a live program on reconciliation.
pub fn same_spec(a: &Program, b: &Program) -> (r: bool)
    ensures
        r == decl_eq(*a, *b),
{
    a.name == b.name && a.command == b.command && a.start_policy == b.start_policy
        && a.processes == b.processes && a.min_runtime == b.min_runtime
        && codes_eq(&a.valid_exit_codes, &b.valid_exit_codes)
        && a.restart_policy == b.restart_policy && a.max_restarts == b.max_restarts
        && a.valid_signal == b.valid_signal && a.graceful_timeout == b.graceful_timeout
        && opt_string_eq(&a.stdin, &b.stdin) && opt_string_eq(&a.stdout, &b.stdout)
        && opt_string_vec_eq(&a.env, &b.env) && opt_string_eq(&a.cwd, &b.cwd)
        && opt_string_eq(&a.umask, &b.umask)
}

} // verus!

use vstd::prelude::*;

use crate::child::{Child, Status};
use crate::program::Program;

verus! {

/// The variant of a child status, without its payloads.
#[derive(Clone, Copy, Debug, PartialEq, Eq, Structural)]
pub enum StatusKind {
    Running,
    Starting,
    Terminating,
    Stopped,
    Finished,
}

pub open spec fn kind_of(s: Status) -> StatusKind {
    match s {
        Status::Running(_) => StatusKind::Running,
        Status::Starting(_) => StatusKind::Starting,
        Status::Terminating(_) => StatusKind::Terminating,
        Status::Stopped(_) => StatusKind::Stopped,
        Status::Finished(_, _) => StatusKind::Finished,
    }
}

/// Position of a kind in the display order of the status table.
pub open spec fn kind_rank(k: StatusKind) -> int {
    match k {
        StatusKind::Running => 0,
        StatusKind::Starting => 1,
        StatusKind::Terminating => 2,
        StatusKind::Stopped => 3,
        StatusKind::Finished => 4,
    }
}

pub open spec fn kind_label(k: StatusKind) -> Seq<char> {
    match k {
        StatusKind::Running => "Running"@,
        StatusKind::Starting => "Starting"@,
        StatusKind::Terminating => "Terminating"@,
        StatusKind::Stopped => "Stopped"@,
        StatusKind::Finished => "Finished"@,
    }
}

/// How many children sit in the given kind of status.
pub open spec fn count_kind(cs: Seq<Child>, k: StatusKind) -> int
    decreases cs.len(),
{
    if cs.len() == 0 {
        0
    } else {
        count_kind(cs.drop_last(), k) + if kind_of(cs.last().status) == k {
            1int
        } else {
            0int
        }
    }
}

/// The most recent transition instant among the children of the given kind
/// (zero when there is none).
pub open spec fn latest_kind(cs: Seq<Child>, k: StatusKind) -> u64
    decreases cs.len(),
{
    if cs.len() == 0 {
        0
    } else {
        let rest = latest_kind(cs.drop_last(), k);
        if kind_of(cs.last().status) == k && cs.last().status.timestamp() > rest {
            cs.last().status.timestamp()
        } else {
            rest
        }
    }
}

proof fn lemma_count_kind_nonneg(cs: Seq<Child>, k: StatusKind)
    ensures
        count_kind(cs, k) >= 0,
    decreases cs.len(),
{
    if cs.len() > 0 {
        lemma_count_kind_nonneg(cs.drop_last(), k);
    }
}

/// One row of a program's status table: `count` of `total` children sit in
/// the `kind` of status, the latest of them since `since_ms` milliseconds
/// before the render. A row without a kind reports a program that owns no
/// process at all.
pub struct StatusLine {
    pub name: String,
    pub state: String,
    pub kind: Option<StatusKind>,
    pub count: usize,
    pub total: usize,
    pub since_ms: u64,
}

/// The row faithfully summarises the program's children of its kind.
pub open spec fn line_ok(line: StatusLine, p: Program, now: u64) -> bool {
    line.kind matches Some(k) && {
        &&& count_kind(p.childs@, k) > 0
        &&& line.name@ == p.name@
        &&& line.state@ == kind_label(k)
        &&& line.count as int == count_kind(p.childs@, k)
        &&& line.total == p.childs@.len()
        &&& line.since_ms == now - latest_kind(p.childs@, k)
    }
}

pub open spec fn line_rank(line: StatusLine) -> int {
    match line.kind {
        Some(k) => kind_rank(k),
        None => 5,
    }
}

/// Number of kinds in which at least one child sits.
pub open spec fn present_count(cs: Seq<Child>) -> int {
    (if count_kind(cs, StatusKind::Running) > 0 { 1int } else { 0int })
    + (if count_kind(cs, StatusKind::Starting) > 0 { 1int } else { 0int })
    + (if count_kind(cs, StatusKind::Terminating) > 0 { 1int } else { 0int })
    + (if count_kind(cs, StatusKind::Stopped) > 0 { 1int } else { 0int })
    + (if count_kind(cs, StatusKind::Finished) > 0 { 1int } else { 0int })
}

/// Human-readable name of a status kind.
pub fn kind_text(k: StatusKind) -> (r: String)
    ensures
        r@ == kind_label(k),
{
    match k {
        StatusKind::Running => "Running".to_owned(),
        StatusKind::Starting => "Starting".to_owned(),
        StatusKind::Terminating => "Terminating".to_owned(),
        StatusKind::Stopped => "Stopped".to_owned(),
        StatusKind::Finished => "Finished".to_owned(),
    }
}

fn status_kind(s: &Status) -> (k: StatusKind)
    ensures
        k == kind_of(*s),
{
    match s {
        Status::Running(_) => StatusKind::Running,
        Status::Starting(_) => StatusKind::Starting,
        Status::Terminating(_) => StatusKind::Terminating,
        Status::Stopped(_) => StatusKind::Stopped,
        Status::Finished(_, _) => StatusKind::Finished,
    }
}

impl Program {
    /// Count the children of the given kind and find their latest transition.
    fn count_and_latest(&self, k: StatusKind, now: u64) -> (r: (usize, u64))
        requires
            self.timestamps_at_most(now),
        ensures
            r.0 as int == count_kind(self.childs@, k),
            r.1 == latest_kind(self.childs@, k),
            r.1 <= now,
    {
        let ghost cs = self.childs@;
        let mut cnt: usize = 0;
        let mut lat: u64 = 0;
        let mut i: usize = 0;
        proof {
            assert(cs.take(0) =~= Seq::<Child>::empty());
        }
        while i < self.childs.len()
            invariant
                i <= cs.len(),
                cs == self.childs@,
                self.timestamps_at_most(now),
                cnt <= i,
                cnt as int == count_kind(cs.take(i as int), k),
                lat == latest_kind(cs.take(i as int), k),
                lat <= now,
            decreases cs.len() - i,
        {
            let c = self.childs[i];
            proof {
                assert(cs.take(i + 1).drop_last() =~= cs.take(i as int));
                assert(cs.take(i + 1).last() == cs[i as int]);
            }
            if status_kind(&c.status) == k {
                cnt = cnt + 1;
                let t = c.last_update();
                if t > lat {
                    lat = t;
                }
            }
            i += 1;
        }
        proof {
            assert(cs.take(cs.len() as int) =~= cs);
        }
        (cnt, lat)
    }

    /// The status-table row of one kind: present exactly when at least one
    /// child sits in that kind of status.
    pub fn status_global(&self, k: StatusKind, now: u64) -> (r: Option<StatusLine>)
        requires
            self.timestamps_at_most(now),
        ensures
            match r {
                Some(line) => line.kind == Some(k) && line_ok(line, *self, now),
                None => count_kind(self.childs@, k) == 0,
            },
    {
        let (cnt, lat) = self.count_and_latest(k, now);
        if cnt == 0 {
            return Option::None;
        }
        Option::Some(
            StatusLine {
                name: self.name.clone(),
                state: kind_text(k),
                kind: Option::Some(k),
                count: cnt,
                total: self.childs.len(),
                since_ms: now - lat,
            },
        )
    }

    /// The whole status table of the program: one faithful row per kind of
    /// status that at least one child sits in, in display order — or a single
    /// row reporting that the program owns no process.
    pub fn status(&self, now: u64) -> (r: Vec<StatusLine>)
        requires
            self.timestamps_at_most(now),
        ensures
            r@.len() >= 1,
            self.childs@.len() == 0 ==> r@.len() == 1 && r@[0].kind is None
                && r@[0].name@ == self.name@ && r@[0].state@ == "Not launched"@
                && r@[0].count == 0 && r@[0].total == 0,
            self.childs@.len() > 0 ==> {
                &&& forall|j: int| 0 <= j < r@.len() ==> line_ok(#[trigger] r@[j], *self, now)
                &&& forall|a: int, b: int| 0 <= a < b < r@.len()
                    ==> line_rank(r@[a]) < line_rank(r@[b])
                &&& r@.len() == present_count(self.childs@)
            },
    {
        let running = self.status_global(StatusKind::Running, now);
        let starting = self.status_global(StatusKind::Starting, now);
        let terminating = self.status_global(StatusKind::Terminating, now);
        let stopped = self.status_global(StatusKind::Stopped, now);
        let finished = self.status_global(StatusKind::Finished, now);

        let mut res_lines: Vec<StatusLine> = Vec::new();
        if let Option::Some(line) = running {
            res_lines.push(line);
        }
        if let Option::Some(line) = starting {
            res_lines.push(line);
        }
        if let Option::Some(line) = terminating {
            res_lines.push(line);
        }
        if let Option::Some(line) = stopped {
            res_lines.push(line);
        }
        if let Option::Some(line) = finished {
            res_lines.push(line);
        }

        if res_lines.len() == 0 {
            proof {
                if self.childs@.len() > 0 {
                    lemma_count_kind_nonneg(self.childs@.drop_last(), kind_of(self.childs@.last().status));
                    assert(count_kind(self.childs@, kind_of(self.childs@.last().status)) >= 1);
                }
            }
            res_lines.push(
                StatusLine {
                    name: self.name.clone(),
                    state: "Not launched".to_owned(),
                    kind: Option::None,
                    count: 0,
                    total: self.childs.len(),
                    since_ms: 0,
                },
            );
        }
        res_lines
    }
}

} // verus!

//! Background jobs: the table of jobs, job numbers, reaping and the `jobs`
//! builtin's output. The processes themselves are the shell's: it keeps each
//! job's child by the job's number and reports what waiting on it gave.
use vstd::prelude::*;
use crate::text::{chars_of, decimal, decimal_chars, pad_left, pad_left_chars, signed_decimal, string_of};

verus! {

broadcast use vstd::string::group_string_axioms;

/// The state of a background job.
#[derive(Debug, PartialEq, Eq, Structural, Clone, Copy)]
pub enum JobStatus {
    Running,
    /// Exited with this code.
    Done(i32),
    /// Ended by a signal.
    Killed,
}

/// One background job.
#[derive(Debug)]
pub struct Job {
    pub id: usize,
    pub pid: u32,
    pub command: String,
    pub status: JobStatus,
}

/// A job as values.
pub struct JobModel {
    pub pid: u32,
    pub command: Seq<char>,
    pub status: JobStatus,
}

pub open spec fn job_model(j: Job) -> JobModel {
    JobModel { pid: j.pid, command: j.command@, status: j.status }
}

/// The jobs, by number.
pub struct JobTable {
    jobs: Vec<Job>,
}

pub open spec fn ids_sorted(s: Seq<Job>) -> bool {
    &&& forall|i: int| 0 <= i < s.len() ==> #[trigger] s[i].id >= 1
    &&& forall|i: int, j: int| 0 <= i < j < s.len() ==> #[trigger] s[i].id < #[trigger] s[j].id
}

pub open spec fn jobs_map(s: Seq<Job>) -> Map<usize, JobModel>
    decreases s.len(),
{
    if s.len() == 0 {
        Map::empty()
    } else {
        jobs_map(s.drop_last()).insert(s.last().id, job_model(s.last()))
    }
}

proof fn lemma_jobs_map(s: Seq<Job>)
    requires
        ids_sorted(s),
    ensures
        forall|k: usize| #[trigger] jobs_map(s).contains_key(k) <==> exists|i: int| 0 <= i < s.len() && s[i].id == k,
        forall|i: int| 0 <= i < s.len() ==> #[trigger] jobs_map(s)[s[i].id] == job_model(s[i]),
    decreases s.len(),
{
    if s.len() > 0 {
        let t = s.drop_last();
        assert(ids_sorted(t)) by {
            assert forall|i: int, j: int| 0 <= i < j < t.len() implies #[trigger] t[i].id < #[trigger] t[j].id by {
                assert(t[i] == s[i] && t[j] == s[j]);
            }
        }
        lemma_jobs_map(t);
        assert forall|k: usize| #[trigger] jobs_map(s).contains_key(k) <==> exists|i: int| 0 <= i < s.len() && s[i].id == k by {
            if jobs_map(s).contains_key(k) && k != s.last().id {
                let i = choose|i: int| 0 <= i < t.len() && t[i].id == k;
                assert(s[i].id == k);
            }
            if exists|i: int| 0 <= i < s.len() && s[i].id == k {
                let i = choose|i: int| 0 <= i < s.len() && s[i].id == k;
                if i < s.len() - 1 {
                    assert(t[i].id == k);
                }
            }
        }
        assert forall|i: int| 0 <= i < s.len() implies #[trigger] jobs_map(s)[s[i].id] == job_model(s[i]) by {
            if i < s.len() - 1 {
                assert(s[i].id < s.last().id);
                assert(t[i] == s[i]);
            }
        }
    }
}

impl JobTable {
    #[verifier::type_invariant]
    spec fn well_formed(self) -> bool {
        ids_sorted(self.jobs@)
    }

    /// The jobs by number.
    pub closed spec fn view(self) -> Map<usize, JobModel> {
        jobs_map(self.jobs@)
    }

    /// The job numbers in increasing order.
    pub closed spec fn ids(self) -> Seq<usize> {
        self.jobs@.map_values(|j: Job| j.id)
    }

    pub closed spec fn count(self) -> nat {
        self.jobs@.len()
    }

    /// An empty table.
    pub fn new() -> (t: JobTable)
        ensures
            t@ == Map::<usize, JobModel>::empty(),
            t.count() == 0,
    {
        JobTable { jobs: Vec::new() }
    }

    pub fn is_empty(&self) -> (r: bool)
        ensures
            r == (self@ == Map::<usize, JobModel>::empty()),
    {
        proof {
            use_type_invariant(self);
            lemma_jobs_map(self.jobs@);
            if self.jobs@.len() > 0 {
                assert(self@.contains_key(self.jobs@[0].id));
            }
        }
        assert(self.jobs@.len() == 0 ==> self@ =~= Map::<usize, JobModel>::empty());
        self.jobs.len() == 0
    }
}

/// `n` is the number a new job gets: the smallest positive number not in use.
pub open spec fn is_next_id(m: Map<usize, JobModel>, n: usize) -> bool {
    &&& n >= 1
    &&& !m.contains_key(n)
    &&& forall|k: usize| 1 <= k < n ==> #[trigger] m.contains_key(k)
}

impl JobTable {
    /// The number for a new job: the smallest positive number not in use, so
    /// that numbers of finished jobs come back.
    pub fn next_id(&self) -> (r: usize)
        requires
            self.count() < usize::MAX,
        ensures
            is_next_id(self@, r),
    {
        proof {
            use_type_invariant(self);
            lemma_jobs_map(self.jobs@);
        }
        let ghost s = self.jobs@;
        let mut cand: usize = 1;
        let mut i: usize = 0;
        while i < self.jobs.len()
            invariant
                s == self.jobs@,
                ids_sorted(s),
                i <= s.len(),
                cand == i + 1,
                forall|k: int| 0 <= k < i ==> #[trigger] s[k].id == k + 1,
                self.count() < usize::MAX,
                s.len() == self.count(),
            decreases s.len() - i,
        {
            if self.jobs[i].id != cand {
                proof {
                    // ids are increasing from 1 with no gap before `i`, so `cand` is missing
                    assert forall|k: int| 0 <= k < s.len() implies #[trigger] s[k].id != cand by {
                        if k < i {
                            assert(s[k].id == k + 1);
                        } else if k > i {
                            assert(s[i as int].id < s[k].id);
                            if i > 0 {
                                assert(s[i - 1].id < s[i as int].id);
                            }
                        }
                    }
                    lemma_jobs_map(s);
                    assert forall|k: usize| 1 <= k < cand implies #[trigger] self@.contains_key(k) by {
                        assert(s[k - 1].id == k);
                        assert(exists|j: int| 0 <= j < s.len() && s[j].id == k);
                    }
                    assert(!self@.contains_key(cand));
                }
                return cand;
            }
            cand = cand + 1;
            i += 1;
        }
        proof {
            lemma_jobs_map(s);
            assert forall|k: int| 0 <= k < s.len() implies #[trigger] s[k].id != cand by {
                assert(s[k].id == k + 1);
            }
            assert forall|k: usize| 1 <= k < cand implies #[trigger] self@.contains_key(k) by {
                assert(s[k - 1].id == k);
                assert(exists|j: int| 0 <= j < s.len() && s[j].id == k);
            }
            assert(!self@.contains_key(cand));
        }
        cand
    }
}

} // verus!

verus! {

proof fn lemma_insert_sorted(s: Seq<Job>, p: int, j: Job)
    requires
        ids_sorted(s),
        0 <= p <= s.len(),
        j.id >= 1,
        forall|k: int| 0 <= k < p ==> #[trigger] s[k].id < j.id,
        forall|k: int| p <= k < s.len() ==> #[trigger] s[k].id > j.id,
    ensures
        ids_sorted(s.insert(p, j)),
        jobs_map(s.insert(p, j)) == jobs_map(s).insert(j.id, job_model(j)),
{
    let t = s.insert(p, j);
    assert forall|a: int, b: int| 0 <= a < b < t.len() implies #[trigger] t[a].id < #[trigger] t[b].id by {
        if a < p && b < p {
        } else if a < p && b == p {
        } else if a < p && b > p {
            assert(t[b] == s[b - 1]);
        } else if a == p {
            assert(t[b] == s[b - 1]);
        } else {
            assert(t[a] == s[a - 1] && t[b] == s[b - 1]);
        }
    }
    assert forall|a: int| 0 <= a < t.len() implies #[trigger] t[a].id >= 1 by {
        if a > p {
            assert(t[a] == s[a - 1]);
        }
    }
    lemma_jobs_map(s);
    lemma_jobs_map(t);
    assert forall|k: usize| #[trigger] jobs_map(t).contains_key(k) <==> jobs_map(s).insert(j.id, job_model(j)).contains_key(k) by {
        if exists|i: int| 0 <= i < t.len() && t[i].id == k {
            let i = choose|i: int| 0 <= i < t.len() && t[i].id == k;
            if i < p {
                assert(s[i].id == k);
            } else if i > p {
                assert(s[i - 1].id == k);
            }
        }
        if exists|i: int| 0 <= i < s.len() && s[i].id == k {
            let i = choose|i: int| 0 <= i < s.len() && s[i].id == k;
            if i < p {
                assert(t[i].id == k);
            } else {
                assert(t[i + 1].id == k);
            }
        }
        if k == j.id {
            assert(t[p].id == k);
        }
    }
    assert forall|k: usize| #[trigger] jobs_map(t).contains_key(k) implies jobs_map(t)[k] == jobs_map(s).insert(j.id, job_model(j))[k] by {
        let i = choose|i: int| 0 <= i < t.len() && t[i].id == k;
        if i < p {
            assert(t[i] == s[i]);
        } else if i > p {
            assert(t[i] == s[i - 1]);
        }
    }
    assert(jobs_map(t) =~= jobs_map(s).insert(j.id, job_model(j)));
}

impl JobTable {
    /// Adds a running job and returns its number: the smallest positive
    /// number not in use.
    pub fn add(&mut self, pid: u32, command: &str) -> (id: usize)
        requires
            old(self).count() < usize::MAX,
        ensures
            is_next_id(old(self)@, id),
            final(self)@ == old(self)@.insert(id, JobModel { pid, command: command@, status: JobStatus::Running }),
            final(self).count() == old(self).count() + 1,
    {
        proof { use_type_invariant(&*self); }
        let id = self.next_id();
        let mut jobs: Vec<Job> = Vec::new();
        std::mem::swap(&mut jobs, &mut self.jobs);
        let ghost s = jobs@;
        proof { lemma_jobs_map(s); }
        let mut p: usize = 0;
        while p < jobs.len() && jobs[p].id < id
            invariant
                p <= jobs@.len(),
                jobs@ == s,
                forall|k: int| 0 <= k < p ==> #[trigger] s[k].id < id,
            decreases jobs@.len() - p,
        {
            p += 1;
        }
        proof {
            assert forall|k: int| p <= k < s.len() implies #[trigger] s[k].id > id by {
                if s[k].id == id {
                    assert(jobs_map(s).contains_key(id));
                }
                if k > p {
                    assert(s[p as int].id < s[k].id);
                }
            }
        }
        let job = Job { id, pid, command: crate::text::owned(command), status: JobStatus::Running };
        proof { lemma_insert_sorted(s, p as int, job); }
        jobs.insert(p, job);
        self.jobs = jobs;
        id
    }
}

/// What a job ended with, as waiting on it reported: its exit code, or
/// `None` when a signal ended it.
pub fn exit_status_to_job_status(code: Option<i32>) -> (r: JobStatus)
    ensures
        r == match code {
            Some(c) => JobStatus::Done(c),
            None => JobStatus::Killed,
        },
{
    match code {
        Some(c) => JobStatus::Done(c),
        None => JobStatus::Killed,
    }
}

/// The first outcome reported for job `id`.
pub open spec fn outcome_of(outcomes: Seq<(usize, JobStatus)>, id: usize) -> Option<JobStatus>
    decreases outcomes.len(),
{
    if outcomes.len() == 0 {
        None
    } else if outcomes[0].0 == id {
        Some(outcomes[0].1)
    } else {
        outcome_of(outcomes.drop_first(), id)
    }
}

/// A running job whose process was reported ended.
pub open spec fn finished(j: JobModel, outcome: Option<JobStatus>) -> bool {
    j.status == JobStatus::Running && match outcome {
        Some(st) => st != JobStatus::Running,
        None => false,
    }
}

pub open spec fn done_text(st: JobStatus) -> Seq<char> {
    match st {
        JobStatus::Done(c) => if c == 0 {
            seq!['D', 'o', 'n', 'e']
        } else {
            seq!['D', 'o', 'n', 'e', '('] + signed_decimal(c as int) + seq![')']
        },
        JobStatus::Killed => seq!['K', 'i', 'l', 'l', 'e', 'd'],
        JobStatus::Running => seq!['R', 'u', 'n', 'n', 'i', 'n', 'g'],
    }
}

/// The notice for a finished job: `[N]+ Done command`.
pub open spec fn done_notice(id: usize, st: JobStatus, command: Seq<char>) -> Seq<char> {
    seq!['\r', '\n', '['] + decimal(id as nat) + seq![']', '+', ' '] + done_text(st) + seq![' ', '\x1b', '[', '2', 'm']
        + command + seq!['\x1b', '[', '0', 'm']
}

/// The notices for the finished jobs of `s`, in order of their numbers.
pub open spec fn notices(s: Seq<Job>, outcomes: Seq<(usize, JobStatus)>) -> Seq<Seq<char>>
    decreases s.len(),
{
    if s.len() == 0 {
        Seq::empty()
    } else {
        let j = s.last();
        let rest = notices(s.drop_last(), outcomes);
        if finished(job_model(j), outcome_of(outcomes, j.id)) {
            rest.push(done_notice(j.id, outcome_of(outcomes, j.id)->0, j.command@))
        } else {
            rest
        }
    }
}

pub open spec fn kept(s: Seq<Job>, outcomes: Seq<(usize, JobStatus)>) -> Seq<Job>
    decreases s.len(),
{
    if s.len() == 0 {
        Seq::empty()
    } else {
        let j = s.last();
        let rest = kept(s.drop_last(), outcomes);
        if finished(job_model(j), outcome_of(outcomes, j.id)) {
            rest
        } else {
            rest.push(j)
        }
    }
}

fn find_outcome(outcomes: &Vec<(usize, JobStatus)>, id: usize) -> (r: Option<JobStatus>)
    ensures
        r == outcome_of(outcomes@, id),
{
    let mut i: usize = 0;
    assert(outcomes@.skip(0) =~= outcomes@);
    while i < outcomes.len()
        invariant
            i <= outcomes@.len(),
            outcome_of(outcomes@, id) == outcome_of(outcomes@.skip(i as int), id),
        decreases outcomes@.len() - i,
    {
        assert(outcomes@.skip(i as int)[0] == outcomes@[i as int]);
        if outcomes[i].0 == id {
            return Some(outcomes[i].1);
        }
        assert(outcomes@.skip(i as int).drop_first() == outcomes@.skip(i + 1));
        i += 1;
    }
    None
}

fn notice_of(id: usize, st: JobStatus, command: &String) -> (r: String)
    ensures
        r@ == done_notice(id, st, command@),
{
    let mut out: Vec<char> = vec!['\r', '\n', '['];
    out.extend_from_slice(&decimal_chars(id as u64));
    out.push(']');
    out.push('+');
    out.push(' ');
    match st {
        JobStatus::Done(c) => {
            let done: Vec<char> = vec!['D', 'o', 'n', 'e'];
            out.extend_from_slice(&done);
            if c != 0 {
                out.push('(');
                out.extend_from_slice(&crate::text::signed_decimal_chars(c as i64));
                out.push(')');
            }
        },
        JobStatus::Killed => {
            let k: Vec<char> = vec!['K', 'i', 'l', 'l', 'e', 'd'];
            out.extend_from_slice(&k);
        },
        JobStatus::Running => {
            let k: Vec<char> = vec!['R', 'u', 'n', 'n', 'i', 'n', 'g'];
            out.extend_from_slice(&k);
        },
    }
    let mid: Vec<char> = vec![' ', '\x1b', '[', '2', 'm'];
    out.extend_from_slice(&mid);
    out.extend_from_slice(&chars_of(command.as_str()));
    let end: Vec<char> = vec!['\x1b', '[', '0', 'm'];
    out.extend_from_slice(&end);
    assert(out@ =~= done_notice(id, st, command@));
    string_of(&out)
}

} // verus!

verus! {

proof fn lemma_kept(s: Seq<Job>, outcomes: Seq<(usize, JobStatus)>)
    requires
        ids_sorted(s),
    ensures
        ids_sorted(kept(s, outcomes)),
        forall|k: usize| #[trigger] jobs_map(kept(s, outcomes)).contains_key(k) <==> (jobs_map(s).contains_key(k) && !finished(
            jobs_map(s)[k],
            outcome_of(outcomes, k),
        )),
        forall|k: usize| #[trigger] jobs_map(kept(s, outcomes)).contains_key(k) ==> jobs_map(kept(s, outcomes))[k] == jobs_map(s)[k],
        forall|i: int| 0 <= i < kept(s, outcomes).len() ==> exists|j: int| 0 <= j < s.len() && #[trigger] kept(s, outcomes)[i] == s[j],
    decreases s.len(),
{
    if s.len() > 0 {
        let t = s.drop_last();
        let j = s.last();
        assert(ids_sorted(t)) by {
            assert forall|a: int, b: int| 0 <= a < b < t.len() implies #[trigger] t[a].id < #[trigger] t[b].id by {
                assert(t[a] == s[a] && t[b] == s[b]);
            }
        }
        lemma_kept(t, outcomes);
        lemma_jobs_map(s);
        lemma_jobs_map(t);
        let kt = kept(t, outcomes);
        // every kept job of `t` has a smaller number than `j`
        assert forall|i: int| 0 <= i < kt.len() implies #[trigger] kt[i].id < j.id by {
            let w = choose|w: int| 0 <= w < t.len() && kt[i] == t[w];
            assert(s[w] == t[w]);
        }
        if !finished(job_model(j), outcome_of(outcomes, j.id)) {
            let ks = kt.push(j);
            assert(ids_sorted(ks)) by {
                assert forall|a: int, b: int| 0 <= a < b < ks.len() implies #[trigger] ks[a].id < #[trigger] ks[b].id by {
                    if b == ks.len() - 1 {
                        assert(ks[a] == kt[a]);
                    } else {
                        assert(ks[a] == kt[a] && ks[b] == kt[b]);
                    }
                }
            }
            assert forall|i: int| 0 <= i < ks.len() implies exists|w: int| 0 <= w < s.len() && #[trigger] ks[i] == s[w] by {
                if i < kt.len() {
                    let w = choose|w: int| 0 <= w < t.len() && kt[i] == t[w];
                    assert(ks[i] == s[w]);
                } else {
                    assert(ks[i] == s[s.len() - 1]);
                }
            }
            assert(ks.drop_last() =~= kt);
            assert(kept(s, outcomes) == ks);
            assert(jobs_map(ks) == jobs_map(kt).insert(j.id, job_model(j)));
            assert(jobs_map(s) == jobs_map(t).insert(j.id, job_model(j)));
            assert forall|k: usize| #[trigger] jobs_map(kept(s, outcomes)).contains_key(k) <==> (jobs_map(s).contains_key(k)
                && !finished(jobs_map(s)[k], outcome_of(outcomes, k))) by {
                if k != j.id {
                    assert(jobs_map(ks).contains_key(k) == jobs_map(kt).contains_key(k));
                }
            }
            assert forall|k: usize| #[trigger] jobs_map(kept(s, outcomes)).contains_key(k) implies jobs_map(kept(s, outcomes))[k]
                == jobs_map(s)[k] by {
                if k != j.id {
                    assert(jobs_map(ks)[k] == jobs_map(kt)[k]);
                }
            }
        } else {
            assert forall|k: usize| #[trigger] jobs_map(kt).contains_key(k) implies k != j.id by {
                lemma_jobs_map(kt);
                let i = choose|i: int| 0 <= i < kt.len() && kt[i].id == k;
            }
            assert forall|i: int| 0 <= i < kt.len() implies exists|w: int| 0 <= w < s.len() && #[trigger] kt[i] == s[w] by {
                let w = choose|w: int| 0 <= w < t.len() && kt[i] == t[w];
                assert(kt[i] == s[w]);
            }
            assert(kept(s, outcomes) == kt);
            assert(jobs_map(s) == jobs_map(t).insert(j.id, job_model(j)));
            assert forall|k: usize| #[trigger] jobs_map(kept(s, outcomes)).contains_key(k) <==> (jobs_map(s).contains_key(k)
                && !finished(jobs_map(s)[k], outcome_of(outcomes, k))) by {
                if k == j.id {
                    assert(!jobs_map(kt).contains_key(k));
                }
            }
            assert forall|k: usize| #[trigger] jobs_map(kept(s, outcomes)).contains_key(k) implies jobs_map(kept(s, outcomes))[k]
                == jobs_map(s)[k] by {
                if k == j.id {
                    assert(!jobs_map(kt).contains_key(k));
                }
            }
        }
        assert forall|k: usize| #[trigger] jobs_map(t).contains_key(k) implies k != j.id by {
            let i = choose|i: int| 0 <= i < t.len() && t[i].id == k;
            assert(s[i].id < s[s.len() - 1].id);
        }
    }
}

impl JobTable {
    /// The jobs in order of their numbers.
    pub closed spec fn entries(self) -> Seq<Job> {
        self.jobs@
    }

    /// Takes the reports of ended processes (a job's number and how it
    /// ended) and removes the running jobs they finish; returns a notice for
    /// each, in order of the job numbers.
    pub fn reap_done(&mut self, outcomes: &Vec<(usize, JobStatus)>) -> (r: Vec<String>)
        ensures
            crate::builtins::ls::strings_view(r@) == notices(old(self).entries(), outcomes@),
            final(self).entries() == kept(old(self).entries(), outcomes@),
            forall|k: usize| #[trigger] final(self)@.contains_key(k) <==> (old(self)@.contains_key(k) && !finished(
                old(self)@[k],
                outcome_of(outcomes@, k),
            )),
            forall|k: usize| #[trigger] final(self)@.contains_key(k) ==> final(self)@[k] == old(self)@[k],
    {
        proof { use_type_invariant(&*self); }
        let mut jobs: Vec<Job> = Vec::new();
        std::mem::swap(&mut jobs, &mut self.jobs);
        let ghost s = jobs@;
        proof { lemma_kept(s, outcomes@); }
        let mut src = jobs;
        let mut keep: Vec<Job> = Vec::new();
        let mut msgs: Vec<String> = Vec::new();
        let ghost mut i: int = 0;
        assert(s.take(0) =~= Seq::<Job>::empty());
        assert(s.skip(0) =~= s);
        assert(crate::builtins::ls::strings_view(msgs@) =~= Seq::<Seq<char>>::empty());
        while src.len() > 0
            invariant
                0 <= i <= s.len(),
                src@ == s.skip(i),
                keep@ == kept(s.take(i), outcomes@),
                crate::builtins::ls::strings_view(msgs@) == notices(s.take(i), outcomes@),
            decreases src@.len(),
        {
            let j = src.remove(0);
            proof {
                let t = s.take(i + 1);
                assert(t.drop_last() == s.take(i));
                assert(t.last() == j);
                assert(s.skip(i).drop_first() == s.skip(i + 1));
            }
            let outcome = find_outcome(outcomes, j.id);
            let done = match outcome {
                Some(st) => j.status == JobStatus::Running && st != JobStatus::Running,
                None => false,
            };
            if done {
                let m = notice_of(j.id, outcome.unwrap(), &j.command);
                let ghost old_msgs = msgs@;
                msgs.push(m);
                assert(crate::builtins::ls::strings_view(msgs@) =~= crate::builtins::ls::strings_view(old_msgs).push(m@));
            } else {
                keep.push(j);
            }
            proof { i = i + 1; }
        }
        assert(s.take(s.len() as int) == s);
        self.jobs = keep;
        msgs
    }
}

} // verus!

verus! {

/// A job's state as `jobs` shows it.
pub open spec fn status_text(st: JobStatus) -> Seq<char> {
    match st {
        JobStatus::Running => seq!['\x1b', '[', '1', ';', '3', '2', 'm', 'R', 'u', 'n', 'n', 'i', 'n', 'g', '\x1b', '[', '0', 'm'],
        JobStatus::Done(c) => seq!['\x1b', '[', '2', 'm', 'D', 'o', 'n', 'e', '('] + signed_decimal(c as int) + seq![
            ')',
            '\x1b',
            '[',
            '0',
            'm',
        ],
        JobStatus::Killed => seq!['\x1b', '[', '1', ';', '3', '1', 'm', 'K', 'i', 'l', 'l', 'e', 'd', '\x1b', '[', '0', 'm'],
    }
}

/// `[N] PID  state  command`, the process id right-aligned in six columns.
pub open spec fn job_line(id: usize, j: JobModel) -> Seq<char> {
    seq!['['] + decimal(id as nat) + seq![']', ' '] + pad_left(decimal(j.pid as nat), 6, ' ') + seq![' ', ' '] + status_text(
        j.status,
    ) + seq![' ', ' '] + j.command
}

pub open spec fn no_jobs_text() -> Seq<char> {
    seq!['N', 'o', ' ', 'b', 'a', 'c', 'k', 'g', 'r', 'o', 'u', 'n', 'd', ' ', 'j', 'o', 'b', 's', '.']
}

fn job_line_of(j: &Job, id: usize) -> (r: String)
    ensures
        r@ == job_line(id, job_model(*j)),
{
    let mut out: Vec<char> = vec!['['];
    out.extend_from_slice(&decimal_chars(id as u64));
    out.push(']');
    out.push(' ');
    out.extend_from_slice(&pad_left_chars(&decimal_chars(j.pid as u64), 6, ' '));
    out.push(' ');
    out.push(' ');
    match j.status {
        JobStatus::Running => {
            let t: Vec<char> = vec!['\x1b', '[', '1', ';', '3', '2', 'm', 'R', 'u', 'n', 'n', 'i', 'n', 'g', '\x1b', '[', '0', 'm'];
            out.extend_from_slice(&t);
        },
        JobStatus::Done(c) => {
            let t: Vec<char> = vec!['\x1b', '[', '2', 'm', 'D', 'o', 'n', 'e', '('];
            out.extend_from_slice(&t);
            out.extend_from_slice(&crate::text::signed_decimal_chars(c as i64));
            let e: Vec<char> = vec![')', '\x1b', '[', '0', 'm'];
            out.extend_from_slice(&e);
        },
        JobStatus::Killed => {
            let t: Vec<char> = vec!['\x1b', '[', '1', ';', '3', '1', 'm', 'K', 'i', 'l', 'l', 'e', 'd', '\x1b', '[', '0', 'm'];
            out.extend_from_slice(&t);
        },
    }
    out.push(' ');
    out.push(' ');
    out.extend_from_slice(&chars_of(j.command.as_str()));
    assert(out@ =~= job_line(id, job_model(*j)));
    string_of(&out)
}

/// `%N` or `N` as a job number.
pub open spec fn job_spec_number(spec: Seq<char>) -> Option<nat> {
    crate::text::parse_unsigned(crate::text::strip_prefixes(spec, seq!['%']), 10, usize::MAX as nat)
}

/// Reads a job spec: `%N` or `N` (any number of leading `%`).
pub fn parse_job_spec(spec: &str) -> (r: Option<usize>)
    ensures
        match r {
            Some(n) => job_spec_number(spec@) == Some(n as nat),
            None => job_spec_number(spec@) is None,
        },
{
    let pct: Vec<char> = vec!['%'];
    assert(pct@ == seq!['%']);
    let s = crate::text::strip_prefixes_chars(&chars_of(spec), &pct);
    match crate::text::parse_unsigned_chars(&s, 10, usize::MAX as u64) {
        Some(n) => Some(n as usize),
        None => None,
    }
}

pub open spec fn invalid_spec_text(spec: Seq<char>) -> Seq<char> {
    seq!['j', 'o', 'b', 's', ':', ' ', 'i', 'n', 'v', 'a', 'l', 'i', 'd', ' ', 'j', 'o', 'b', ' ', 's', 'p', 'e', 'c', ':', ' ']
        + spec
}

pub open spec fn no_such_job_text(spec: Seq<char>) -> Seq<char> {
    seq!['j', 'o', 'b', 's', ':', ' ', 'n', 'o', ' ', 's', 'u', 'c', 'h', ' ', 'j', 'o', 'b', ':', ' '] + spec
}

impl JobTable {
    /// The lines of `jobs`: one per job in order of the numbers, or a note
    /// that there are none.
    pub fn listing(&self) -> (r: Vec<String>)
        ensures
            crate::builtins::ls::strings_view(r@) == (if self@ == Map::<usize, JobModel>::empty() {
                seq![no_jobs_text()]
            } else {
                self.entries().map_values(|j: Job| job_line(j.id, job_model(j)))
            }),
    {
        let mut out: Vec<String> = Vec::new();
        if self.is_empty() {
            let t: Vec<char> = vec!['N', 'o', ' ', 'b', 'a', 'c', 'k', 'g', 'r', 'o', 'u', 'n', 'd', ' ', 'j', 'o', 'b', 's', '.'];
            out.push(string_of(&t));
            assert(crate::builtins::ls::strings_view(out@) =~= seq![no_jobs_text()]);
            return out;
        }
        let ghost want = self.entries().map_values(|j: Job| job_line(j.id, job_model(j)));
        let mut i: usize = 0;
        while i < self.jobs.len()
            invariant
                i <= self.jobs@.len(),
                want == self.entries().map_values(|j: Job| job_line(j.id, job_model(j))),
                crate::builtins::ls::strings_view(out@) == want.take(i as int),
                out@.len() == i,
            decreases self.jobs@.len() - i,
        {
            let l = job_line_of(&self.jobs[i], self.jobs[i].id);
            let ghost o = out@;
            assert(want[i as int] == l@);
            out.push(l);
            assert(crate::builtins::ls::strings_view(out@) =~= want.take(i + 1));
            i += 1;
        }
        assert(want.take(self.jobs@.len() as int) =~= want);
        out
    }

    /// The line of `jobs %N` (for standard output), or the error (for
    /// standard error).
    pub fn print_job(&self, spec: &str) -> (r: Result<String, String>)
        ensures
            match job_spec_number(spec@) {
                None => r matches Err(e) && e@ == invalid_spec_text(spec@),
                Some(n) => if n <= usize::MAX && self@.contains_key(n as usize) {
                    r matches Ok(l) && l@ == job_line(n as usize, self@[n as usize])
                } else {
                    r matches Err(e) && e@ == no_such_job_text(spec@)
                },
            },
    {
        proof {
            use_type_invariant(self);
            lemma_jobs_map(self.jobs@);
        }
        match parse_job_spec(spec) {
            None => {
                let mut e: Vec<char> = vec![
                    'j', 'o', 'b', 's', ':', ' ', 'i', 'n', 'v', 'a', 'l', 'i', 'd', ' ', 'j', 'o', 'b', ' ', 's', 'p', 'e', 'c', ':', ' ',
                ];
                e.extend_from_slice(&chars_of(spec));
                Err(string_of(&e))
            },
            Some(n) => {
                let mut i: usize = 0;
                while i < self.jobs.len()
                    invariant
                        i <= self.jobs@.len(),
                        job_spec_number(spec@) == Some(n as nat),
                        forall|k: int| 0 <= k < i ==> #[trigger] self.jobs@[k].id != n,
                    decreases self.jobs@.len() - i,
                {
                    if self.jobs[i].id == n {
                        proof {
                            use_type_invariant(self);
                            lemma_jobs_map(self.jobs@);
                            assert(self@.contains_key(n));
                        }
                        return Ok(job_line_of(&self.jobs[i], n));
                    }
                    i += 1;
                }
                proof {
                    use_type_invariant(self);
                    lemma_jobs_map(self.jobs@);
                }
                let mut e: Vec<char> = vec!['j', 'o', 'b', 's', ':', ' ', 'n', 'o', ' ', 's', 'u', 'c', 'h', ' ', 'j', 'o', 'b', ':', ' '];
                e.extend_from_slice(&chars_of(spec));
                Err(string_of(&e))
            },
        }
    }
}

} // verus!

verus! {

/// The number a job is listed under, written back as `%N` or `N`, names
/// that job again in `jobs %N`.
pub proof fn lemma_job_number_reads_back(n: usize)
    ensures
        job_spec_number(seq!['%'] + decimal(n as nat)) == Some(n as nat),
        job_spec_number(decimal(n as nat)) == Some(n as nat),
{
    crate::text::lemma_decimal_reads_back(n as nat);
    let d = decimal(n as nat);
    let pd = seq!['%'] + d;
    assert(pd[0] == '%');
    assert(pd.subrange(0, 1) =~= seq!['%']);
    assert(crate::text::starts_with(pd, seq!['%']));
    assert(pd.skip(1) =~= d);
    assert('0' <= d[0] <= '9');
    assert(d.subrange(0, 1)[0] == d[0]);
    assert(!crate::text::starts_with(d, seq!['%']));
    assert(crate::text::strip_prefixes(d, seq!['%']) == d);
    assert(crate::text::strip_prefixes(pd, seq!['%']) == d);
}

} // verus!

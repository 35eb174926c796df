//! The rules of the wiping screen: which disks a wipe may start on, the
//! texts shown for each disk and each outcome, and the record of every
//! disk's jobs (state, attempts, post-wipe check) that decides what can be
//! retried.
use vstd::prelude::*;

use crate::disk::{disk_views, Disk, DiskView, shred_verdict};
use crate::text::{chars_of, copy_strings, push_chars, push_str, string_views, trim, trimmed};

verus! {

// ---------------------------------------------------------------------------
// Job records
// ---------------------------------------------------------------------------

#[derive(Debug, Clone, Copy, PartialEq, Eq, Structural)]
pub enum JobState {
    Pending,
    Running,
    Success,
    FailedIo,
    FailedOther,
    Cancelled,
}

#[derive(Debug, Clone, Copy, PartialEq, Eq, Structural)]
pub enum VerifyState {
    Pending,
    /// no file-system signature left
    Passed,
    Ko,
    Error,
}

/// What is known of the jobs run on one disk.
#[derive(Debug)]
pub struct JobRecord {
    pub status: JobState,
    /// one line per event: a start or an outcome's message
    pub attempts: Vec<String>,
    pub verify_state: Option<VerifyState>,
    pub verify_output: Option<String>,
}

pub ghost struct JobRecordView {
    pub status: JobState,
    pub attempts: Seq<Seq<char>>,
    pub verify_state: Option<VerifyState>,
    pub verify_output: Option<Seq<char>>,
}

impl View for JobRecord {
    type V = JobRecordView;

    open spec fn view(&self) -> JobRecordView {
        JobRecordView {
            status: self.status,
            attempts: string_views(self.attempts@),
            verify_state: self.verify_state,
            verify_output: crate::system::opt_view(self.verify_output),
        }
    }
}

pub open spec fn is_failed(s: JobState) -> bool {
    s == JobState::FailedIo || s == JobState::FailedOther
}

/// The record of every disk's jobs, by disk name.
pub struct JobTable {
    entries: Vec<(String, JobRecord)>,
}

pub open spec fn holds_key(e: Seq<(String, JobRecord)>, k: Seq<char>) -> bool {
    exists|i: int| 0 <= i < e.len() && (#[trigger] e[i]).0@ == k
}

pub open spec fn table_map(e: Seq<(String, JobRecord)>) -> Map<Seq<char>, JobRecordView> {
    Map::new(
        |k: Seq<char>| holds_key(e, k),
        |k: Seq<char>|
            {
                let i = choose|i: int| 0 <= i < e.len() && (#[trigger] e[i]).0@ == k;
                e[i].1@
            },
    )
}

pub open spec fn keys_unique(e: Seq<(String, JobRecord)>) -> bool {
    forall|i: int, j: int|
        0 <= i < e.len() && 0 <= j < e.len() && i != j ==> (#[trigger] e[i]).0@ != (#[trigger] e[j]).0@
}

impl View for JobTable {
    type V = Map<Seq<char>, JobRecordView>;

    closed spec fn view(&self) -> Map<Seq<char>, JobRecordView> {
        table_map(self.entries@)
    }
}

proof fn lemma_lookup(e: Seq<(String, JobRecord)>, i: int)
    requires
        keys_unique(e),
        0 <= i < e.len(),
    ensures
        table_map(e).dom().contains(e[i].0@),
        table_map(e)[e[i].0@] == e[i].1@,
{
    let k = e[i].0@;
    assert(holds_key(e, k));
    let j = choose|j: int| 0 <= j < e.len() && (#[trigger] e[j]).0@ == k;
    assert(e[j].0@ == k);
    assert(j == i);
}

proof fn lemma_update(e: Seq<(String, JobRecord)>, i: int, x: (String, JobRecord))
    requires
        keys_unique(e),
        0 <= i < e.len(),
        x.0@ == e[i].0@,
    ensures
        keys_unique(e.update(i, x)),
        table_map(e.update(i, x)) == table_map(e).insert(x.0@, x.1@),
{
    let e2 = e.update(i, x);
    assert forall|a: int, b: int|
        0 <= a < e2.len() && 0 <= b < e2.len() && a != b implies (#[trigger] e2[a]).0@
        != (#[trigger] e2[b]).0@ by {
        assert(e2[a].0@ == e[a].0@);
        assert(e2[b].0@ == e[b].0@);
    }
    assert forall|k: Seq<char>| holds_key(e2, k) <==> holds_key(e, k) || k == x.0@ by {
        if holds_key(e, k) {
            let j = choose|j: int| 0 <= j < e.len() && (#[trigger] e[j]).0@ == k;
            assert(e2[j].0@ == e[j].0@);
        }
        if holds_key(e2, k) {
            let j = choose|j: int| 0 <= j < e2.len() && (#[trigger] e2[j]).0@ == k;
            assert(e2[j].0@ == e[j].0@);
        }
        if k == x.0@ {
            assert(e2[i].0@ == k);
        }
    }
    assert forall|k: Seq<char>| #[trigger] table_map(e2).dom().contains(k) implies table_map(
        e2,
    )[k] == table_map(e).insert(x.0@, x.1@)[k] by {
        let j = choose|j: int| 0 <= j < e2.len() && (#[trigger] e2[j]).0@ == k;
        lemma_lookup(e2, j);
        if k != x.0@ {
            assert(j != i);
            assert(e2[j] == e[j]);
            lemma_lookup(e, j);
        }
    }
    assert(table_map(e2) =~= table_map(e).insert(x.0@, x.1@));
}

proof fn lemma_push(e: Seq<(String, JobRecord)>, x: (String, JobRecord))
    requires
        keys_unique(e),
        !holds_key(e, x.0@),
    ensures
        keys_unique(e.push(x)),
        table_map(e.push(x)) == table_map(e).insert(x.0@, x.1@),
{
    let e2 = e.push(x);
    let n = e.len() as int;
    assert forall|a: int, b: int|
        0 <= a < e2.len() && 0 <= b < e2.len() && a != b implies (#[trigger] e2[a]).0@
        != (#[trigger] e2[b]).0@ by {
        if a < n && b < n {
            assert(e2[a] == e[a] && e2[b] == e[b]);
        } else if a < n {
            assert(e2[a] == e[a]);
        } else {
            assert(e2[b] == e[b]);
        }
    }
    assert forall|k: Seq<char>| holds_key(e2, k) <==> holds_key(e, k) || k == x.0@ by {
        if holds_key(e, k) {
            let j = choose|j: int| 0 <= j < e.len() && (#[trigger] e[j]).0@ == k;
            assert(e2[j] == e[j]);
        }
        if holds_key(e2, k) {
            let j = choose|j: int| 0 <= j < e2.len() && (#[trigger] e2[j]).0@ == k;
            if j < n {
                assert(e2[j] == e[j]);
            }
        }
        if k == x.0@ {
            assert(e2[n].0@ == k);
        }
    }
    assert forall|k: Seq<char>| #[trigger] table_map(e2).dom().contains(k) implies table_map(
        e2,
    )[k] == table_map(e).insert(x.0@, x.1@)[k] by {
        let j = choose|j: int| 0 <= j < e2.len() && (#[trigger] e2[j]).0@ == k;
        lemma_lookup(e2, j);
        if k != x.0@ {
            assert(j != n);
            assert(e2[j] == e[j]);
            lemma_lookup(e, j);
        }
    }
    assert(table_map(e2) =~= table_map(e).insert(x.0@, x.1@));
}

/// The record that a job's outcome leaves: the new state, and the message
/// added to the attempts; a disk without a record starts from `Pending` with
/// no attempt.
pub open spec fn with_outcome(
    old: Option<JobRecordView>,
    status: JobState,
    message: Seq<char>,
) -> JobRecordView {
    let base = match old {
        Some(r) => r,
        None => JobRecordView {
            status: JobState::Pending,
            attempts: seq![],
            verify_state: None,
            verify_output: None,
        },
    };
    JobRecordView { status, attempts: base.attempts.push(message), ..base }
}

/// The record that starting a job leaves: `Running`, with a "Démarrage"
/// attempt added.
pub open spec fn with_start(old: Option<JobRecordView>) -> JobRecordView {
    match old {
        Some(r) => JobRecordView {
            status: JobState::Running,
            attempts: r.attempts.push("Démarrage"@),
            ..r
        },
        None => JobRecordView {
            status: JobState::Running,
            attempts: seq!["Démarrage"@],
            verify_state: None,
            verify_output: None,
        },
    }
}

pub open spec fn lookup(m: Map<Seq<char>, JobRecordView>, k: Seq<char>) -> Option<JobRecordView> {
    if m.dom().contains(k) {
        Some(m[k])
    } else {
        None
    }
}

fn copy_record(r: &JobRecord) -> (res: JobRecord)
    ensures
        res@ == r@,
{
    JobRecord {
        status: r.status,
        attempts: copy_strings(r.attempts.as_slice()),
        verify_state: r.verify_state,
        verify_output: match &r.verify_output {
            Some(s) => Some(s.clone()),
            None => None,
        },
    }
}

impl JobTable {
    #[verifier::type_invariant]
    spec fn wf(self) -> bool {
        keys_unique(self.entries@)
    }

    pub fn new() -> (res: Self)
        ensures
            res@ == Map::<Seq<char>, JobRecordView>::empty(),
    {
        let t = JobTable { entries: Vec::new() };
        assert(t@ =~= Map::<Seq<char>, JobRecordView>::empty());
        t
    }

    /// Forgets every record.
    pub fn clear(&mut self)
        ensures
            final(self)@ == Map::<Seq<char>, JobRecordView>::empty(),
    {
        self.entries = Vec::new();
        assert(self@ =~= Map::<Seq<char>, JobRecordView>::empty());
    }

    fn index_of(&self, name: &str) -> (res: Option<usize>)
        ensures
            match res {
                Some(i) => i < self.entries@.len() && self.entries@[i as int].0@ == name@,
                None => !holds_key(self.entries@, name@),
            },
    {
        let mut i: usize = 0;
        while i < self.entries.len()
            invariant
                i <= self.entries@.len(),
                forall|k: int| 0 <= k < i ==> (#[trigger] self.entries@[k]).0@ != name@,
            decreases self.entries@.len() - i,
        {
            if crate::text::eq_chars(
                chars_of(self.entries[i].0.as_str()).as_slice(),
                chars_of(name).as_slice(),
            ) {
                return Some(i);
            }
            i = i + 1;
        }
        None
    }

    /// The record of disk `name`.
    pub fn get(&self, name: &str) -> (res: Option<&JobRecord>)
        ensures
            match res {
                Some(r) => self@.dom().contains(name@) && self@[name@] == r@,
                None => !self@.dom().contains(name@),
            },
    {
        proof {
            use_type_invariant(self);
        }
        match self.index_of(name) {
            Some(i) => {
                proof {
                    lemma_lookup(self.entries@, i as int);
                }
                Some(&self.entries[i].1)
            },
            None => None,
        }
    }

    /// Sets the record of `name` to `r`.
    fn put(&mut self, name: &str, r: JobRecord)
        ensures
            final(self)@ == old(self)@.insert(name@, r@),
    {
        proof {
            use_type_invariant(&*self);
        }
        let entry = (String::from_str(name), r);
        match self.index_of(name) {
            Some(i) => {
                proof {
                    lemma_update(self.entries@, i as int, entry);
                }
                let mut entries: Vec<(String, JobRecord)> = Vec::new();
                std::mem::swap(&mut entries, &mut self.entries);
                entries.set(i, entry);
                self.entries = entries;
            },
            None => {
                proof {
                    lemma_push(self.entries@, entry);
                }
                let mut entries: Vec<(String, JobRecord)> = Vec::new();
                std::mem::swap(&mut entries, &mut self.entries);
                entries.push(entry);
                self.entries = entries;
            },
        }
    }

    /// Records that a job starts on disk `name`.
    pub fn mark_running(&mut self, name: &str)
        ensures
            final(self)@ == old(self)@.insert(name@, with_start(lookup(old(self)@, name@))),
    {
        let r = match self.get(name) {
            Some(old_r) => {
                let mut r = copy_record(old_r);
                r.status = JobState::Running;
                let s = String::from_str("Démarrage");
                let ghost before = r.attempts@;
                r.attempts.push(s);
                assert(string_views(r.attempts@) =~= string_views(before).push(s@));
                r
            },
            None => {
                let s = String::from_str("Démarrage");
                let attempts = vec![s];
                assert(string_views(attempts@) =~= seq!["Démarrage"@]);
                JobRecord { status: JobState::Running, attempts, verify_state: None, verify_output: None }
            },
        };
        self.put(name, r);
    }

    /// Records the outcome of a job on disk `name`: its new state and the
    /// message, added to the attempts.
    pub fn update_job_state(&mut self, name: &str, status: JobState, message: &str)
        ensures
            final(self)@ == old(self)@.insert(
                name@,
                with_outcome(lookup(old(self)@, name@), status, message@),
            ),
    {
        let mut r = match self.get(name) {
            Some(old_r) => copy_record(old_r),
            None => {
                let r = JobRecord {
                    status: JobState::Pending,
                    attempts: Vec::new(),
                    verify_state: None,
                    verify_output: None,
                };
                assert(string_views(r.attempts@) =~= seq![]);
                r
            },
        };
        r.status = status;
        let s = String::from_str(message);
        let ghost before = r.attempts@;
        r.attempts.push(s);
        assert(string_views(r.attempts@) =~= string_views(before).push(s@));
        self.put(name, r);
    }

    /// Records the state of the post-wipe check of disk `name`, if it has a
    /// record.
    pub fn set_verification(&mut self, name: &str, state: VerifyState, output: Option<String>)
        ensures
            old(self)@.dom().contains(name@) ==> final(self)@ == old(self)@.insert(
                name@,
                JobRecordView {
                    verify_state: Some(state),
                    verify_output: crate::system::opt_view(output),
                    ..old(self)@[name@]
                },
            ),
            !old(self)@.dom().contains(name@) ==> final(self)@ == old(self)@,
    {
        let r = match self.get(name) {
            Some(old_r) => {
                let mut r = copy_record(old_r);
                r.verify_state = Some(state);
                r.verify_output = output;
                r
            },
            None => {
                return ;
            },
        };
        self.put(name, r);
    }

    /// Forgets the post-wipe checks of every record.
    pub fn reset_verifications(&mut self)
        ensures
            final(self)@.dom() == old(self)@.dom(),
            forall|k: Seq<char>|
                #[trigger] old(self)@.dom().contains(k) ==> final(self)@[k] == (JobRecordView {
                    verify_state: None,
                    verify_output: None,
                    ..old(self)@[k]
                }),
    {
        proof {
            use_type_invariant(&*self);
        }
        let ghost m0 = self@;
        let mut entries: Vec<(String, JobRecord)> = Vec::new();
        std::mem::swap(&mut entries, &mut self.entries);
        let ghost e0 = entries@;
        assert(table_map(e0) == m0);
        let mut i: usize = 0;
        while i < entries.len()
            invariant
                i <= entries@.len() == e0.len(),
                keys_unique(e0),
                m0 == table_map(e0),
                forall|k: int| 0 <= k < e0.len() ==> (#[trigger] entries@[k]).0@ == e0[k].0@,
                forall|k: int| i <= k < e0.len() ==> (#[trigger] entries@[k]) == e0[k],
                forall|k: int|
                    0 <= k < i ==> (#[trigger] entries@[k]).1@ == (JobRecordView {
                        verify_state: None,
                        verify_output: None,
                        ..e0[k].1@
                    }),
            decreases e0.len() - i,
        {
            let mut r = copy_record(&entries[i].1);
            r.verify_state = None;
            r.verify_output = None;
            let k = entries[i].0.clone();
            entries.set(i, (k, r));
            i = i + 1;
        }
        proof {
            assert(keys_unique(entries@)) by {
                assert forall|a: int, b: int|
                    0 <= a < entries@.len() && 0 <= b < entries@.len() && a != b implies (
                    #[trigger] entries@[a]).0@ != (#[trigger] entries@[b]).0@ by {
                    assert(entries@[a].0@ == e0[a].0@);
                    assert(entries@[b].0@ == e0[b].0@);
                }
            }
            assert forall|k: Seq<char>| holds_key(entries@, k) <==> holds_key(e0, k) by {
                if holds_key(e0, k) {
                    let j = choose|j: int| 0 <= j < e0.len() && (#[trigger] e0[j]).0@ == k;
                    assert(entries@[j].0@ == e0[j].0@);
                }
                if holds_key(entries@, k) {
                    let j = choose|j: int| 0 <= j < entries@.len() && (#[trigger] entries@[j]).0@ == k;
                    assert(entries@[j].0@ == e0[j].0@);
                }
            }
            assert(table_map(entries@).dom() =~= m0.dom());
            assert forall|k: Seq<char>| #[trigger] m0.dom().contains(k) implies table_map(
                entries@,
            )[k] == (JobRecordView { verify_state: None, verify_output: None, ..m0[k] }) by {
                let j = choose|j: int| 0 <= j < e0.len() && (#[trigger] e0[j]).0@ == k;
                lemma_lookup(e0, j);
                assert(entries@[j].0@ == k);
                lemma_lookup(entries@, j);
            }
        }
        self.entries = entries;
    }

    /// Some disk has a job running.
    pub fn any_running(&self) -> (res: bool)
        ensures
            res == exists|k: Seq<char>|
                #[trigger] self@.dom().contains(k) && self@[k].status == JobState::Running,
    {
        proof {
            use_type_invariant(self);
        }
        let mut i: usize = 0;
        while i < self.entries.len()
            invariant
                i <= self.entries@.len(),
                keys_unique(self.entries@),
                forall|k: int| 0 <= k < i ==> (#[trigger] self.entries@[k]).1.status != JobState::Running,
            decreases self.entries@.len() - i,
        {
            if self.entries[i].1.status == JobState::Running {
                proof {
                    lemma_lookup(self.entries@, i as int);
                }
                return true;
            }
            i = i + 1;
        }
        proof {
            assert forall|k: Seq<char>| #[trigger] self@.dom().contains(k) implies self@[k].status
                != JobState::Running by {
                let j = choose|j: int|
                    0 <= j < self.entries@.len() && (#[trigger] self.entries@[j]).0@ == k;
                lemma_lookup(self.entries@, j);
            }
        }
        false
    }

    /// Some disk's last job failed (an input/output or another failure).
    pub fn has_failed(&self) -> (res: bool)
        ensures
            res == exists|k: Seq<char>|
                #[trigger] self@.dom().contains(k) && is_failed(self@[k].status),
    {
        proof {
            use_type_invariant(self);
        }
        let mut i: usize = 0;
        while i < self.entries.len()
            invariant
                i <= self.entries@.len(),
                keys_unique(self.entries@),
                forall|k: int| 0 <= k < i ==> !is_failed((#[trigger] self.entries@[k]).1.status),
            decreases self.entries@.len() - i,
        {
            let s = self.entries[i].1.status;
            if s == JobState::FailedIo || s == JobState::FailedOther {
                proof {
                    lemma_lookup(self.entries@, i as int);
                }
                return true;
            }
            i = i + 1;
        }
        proof {
            assert forall|k: Seq<char>| #[trigger] self@.dom().contains(k) implies !is_failed(
                self@[k].status,
            ) by {
                let j = choose|j: int|
                    0 <= j < self.entries@.len() && (#[trigger] self.entries@[j]).0@ == k;
                lemma_lookup(self.entries@, j);
            }
        }
        false
    }

    /// The positions of the disks of `names` whose last job failed, in order:
    /// those a retry restarts.
    pub fn failed_among(&self, names: &[String]) -> (res: Vec<usize>)
        ensures
            forall|k: int| 0 <= k < res@.len() ==> (#[trigger] res@[k]) < names@.len(),
            forall|k: int, l: int| 0 <= k < l < res@.len() ==> res@[k] < res@[l],
            forall|j: int|
                0 <= j < names@.len() ==> (res@.contains(j as usize) <==> (self@.dom().contains(
                    names@[j]@,
                ) && is_failed(self@[names@[j]@].status))),
    {
        let mut res: Vec<usize> = Vec::new();
        let mut i: usize = 0;
        while i < names.len()
            invariant
                i <= names@.len(),
                forall|k: int| 0 <= k < res@.len() ==> (#[trigger] res@[k]) < i,
                forall|k: int, l: int| 0 <= k < l < res@.len() ==> res@[k] < res@[l],
                forall|j: int|
                    0 <= j < i ==> (res@.contains(j as usize) <==> (self@.dom().contains(
                        names@[j]@,
                    ) && is_failed(self@[names@[j]@].status))),
            decreases names@.len() - i,
        {
            let failed = match self.get(names[i].as_str()) {
                Some(r) => r.status == JobState::FailedIo || r.status == JobState::FailedOther,
                None => false,
            };
            let ghost before = res@;
            if failed {
                res.push(i);
            }
            proof {
                assert forall|j: int|
                    0 <= j < i + 1 implies (res@.contains(j as usize) <==> (self@.dom().contains(
                    names@[j]@,
                ) && is_failed(self@[names@[j]@].status))) by {
                    if j < i {
                        if res@.contains(j as usize) {
                            let k = choose|k: int| 0 <= k < res@.len() && res@[k] == j as usize;
                            if failed && k == before.len() {
                            } else {
                                assert(before[k] == j as usize);
                                assert(before.contains(j as usize));
                            }
                        }
                        if before.contains(j as usize) {
                            let k = choose|k: int| 0 <= k < before.len() && before[k] == j as usize;
                            assert(res@[k] == j as usize);
                        }
                    } else {
                        if failed {
                            assert(res@[before.len() as int] == i);
                        } else {
                            if res@.contains(j as usize) {
                                let k = choose|k: int| 0 <= k < res@.len() && res@[k] == j as usize;
                                assert(before[k] < i);
                            }
                        }
                    }
                }
            }
            i = i + 1;
        }
        res
    }

    /// The text shown for the details of disk `name`'s failed check.
    pub fn verification_details(&self, name: &str) -> (res: String)
        ensures
            res@ == name@ + ": "@ + (if self@.dom().contains(name@)
                && self@[name@].verify_output is Some {
                self@[name@].verify_output->0
            } else {
                "Aucun détail disponible"@
            }),
    {
        let mut s = String::from_str(name);
        push_str(&mut s, ": ");
        match self.get(name) {
            Some(r) => match &r.verify_output {
                Some(o) => push_str(&mut s, o.as_str()),
                None => push_str(&mut s, "Aucun détail disponible"),
            },
            None => push_str(&mut s, "Aucun détail disponible"),
        }
        s
    }
}

// ---------------------------------------------------------------------------
// Starting a wipe
// ---------------------------------------------------------------------------

/// The most disks wiped at once.
pub const MAX_SELECTED: usize = 10;

/// Why a selection may not be wiped: the title and text of the dialog.
pub open spec fn selection_refusal(ds: Seq<DiskView>) -> Option<(Seq<char>, Seq<char>)> {
    if ds.len() == 0 {
        Some(("Aucun disque sélectionné"@, "Veuillez sélectionner au least un disque."@))
    } else if ds.len() > MAX_SELECTED {
        Some(("Trop de disques sélectionnés"@, "Veuillez sélectionner au plus 10 disques."@))
    } else {
        first_refused(ds)
    }
}

/// The dialog for the first disk of `ds` that may not be wiped.
pub open spec fn first_refused(ds: Seq<DiskView>) -> Option<(Seq<char>, Seq<char>)>
    decreases ds.len(),
{
    if ds.len() == 0 {
        None
    } else if !shred_verdict(ds[0]).0 {
        Some(("Impossible d'effacer "@ + ds[0].name, shred_verdict(ds[0]).1))
    } else {
        first_refused(ds.drop_first())
    }
}

proof fn lemma_first_refused_skip(ds: Seq<DiskView>, i: int)
    requires
        0 <= i < ds.len(),
    ensures
        first_refused(ds.skip(i)) == (if !shred_verdict(ds[i]).0 {
            Some(("Impossible d'effacer "@ + ds[i].name, shred_verdict(ds[i]).1))
        } else {
            first_refused(ds.skip(i + 1))
        }),
{
    assert(ds.skip(i).drop_first() == ds.skip(i + 1));
    assert(ds.skip(i)[0] == ds[i]);
}

proof fn lemma_first_refused_none(ds: Seq<DiskView>)
    ensures
        first_refused(ds) is None <==> forall|i: int| 0 <= i < ds.len() ==> shred_verdict(
            #[trigger] ds[i],
        ).0,
    decreases ds.len(),
{
    if ds.len() > 0 {
        lemma_first_refused_none(ds.drop_first());
        assert forall|i: int| 1 <= i < ds.len() implies ds[i] == ds.drop_first()[i - 1] by {}
        if forall|i: int| 0 <= i < ds.len() ==> shred_verdict(#[trigger] ds[i]).0 {
            assert forall|i: int| 0 <= i < ds.drop_first().len() implies shred_verdict(
                #[trigger] ds.drop_first()[i],
            ).0 by {
                assert(ds.drop_first()[i] == ds[i + 1]);
            }
        }
    }
}

/// Checks that a wipe may start on the selected disks: some disk is
/// selected, no more than the limit, and each may be wiped; otherwise the
/// title and text of the dialog that says why not.
pub fn validate_selection(disks: &[Disk]) -> (res: Result<(), (String, String)>)
    ensures
        match res {
            Ok(()) => selection_refusal(disk_views(disks@)) is None,
            Err((t, m)) => selection_refusal(disk_views(disks@)) == Some((t@, m@)),
        },
{
    let ghost ds = disk_views(disks@);
    if disks.len() == 0 {
        return Err(
            (
                String::from_str("Aucun disque sélectionné"),
                String::from_str("Veuillez sélectionner au least un disque."),
            ),
        );
    }
    if disks.len() > MAX_SELECTED {
        return Err(
            (
                String::from_str("Trop de disques sélectionnés"),
                String::from_str("Veuillez sélectionner au plus 10 disques."),
            ),
        );
    }
    let mut i: usize = 0;
    assert(ds.skip(0) == ds);
    while i < disks.len()
        invariant
            i <= disks@.len(),
            0 < disks@.len() <= MAX_SELECTED,
            ds == disk_views(disks@),
            first_refused(ds) == first_refused(ds.skip(i as int)),
        decreases disks@.len() - i,
    {
        proof {
            lemma_first_refused_skip(ds, i as int);
        }
        assert(ds[i as int] == disks@[i as int]@);
        let (ok, reason) = disks[i].can_be_shredded();
        if !ok {
            let mut title = String::from_str("Impossible d'effacer ");
            push_str(&mut title, disks[i].name.as_str());
            return Err((title, reason));
        }
        i = i + 1;
    }
    assert(ds.skip(i as int).len() == 0);
    Ok(())
}

/// The list of disks in the confirmation dialog, one "  • name (path)" per
/// line.
pub open spec fn disk_list(ds: Seq<DiskView>) -> Seq<char>
    decreases ds.len(),
{
    if ds.len() == 0 {
        seq![]
    } else if ds.len() == 1 {
        "  • "@ + ds[0].name + " ("@ + ds[0].path + ")"@
    } else {
        disk_list(ds.drop_last()) + "\n"@ + "  • "@ + ds.last().name + " ("@ + ds.last().path
            + ")"@
    }
}

pub open spec fn confirmation_of(ds: Seq<DiskView>) -> Seq<char> {
    "Vous êtes sur le point d'effacer DÉFINITIVEMENT les disques suivants :\n\n"@ + disk_list(ds)
        + "\n\nCette action est IRRÉVERSIBLE.\nToutes les données seront PERDUES.\n\nÊtes-vous ABSOLUMENT SÛR de vouloir continuer ?"@
}

/// The text of the last confirmation asked before wiping `disks`.
pub fn confirmation_message(disks: &[Disk]) -> (res: String)
    ensures
        res@ == confirmation_of(disk_views(disks@)),
{
    let ghost ds = disk_views(disks@);
    let mut s = String::from_str(
        "Vous êtes sur le point d'effacer DÉFINITIVEMENT les disques suivants :\n\n",
    );
    let ghost head = s@;
    let mut i: usize = 0;
    while i < disks.len()
        invariant
            i <= disks@.len(),
            ds == disk_views(disks@),
            s@ == head + disk_list(ds.take(i as int)),
        decreases disks@.len() - i,
    {
        assert(ds.take(i + 1).drop_last() == ds.take(i as int));
        assert(ds[i as int] == disks@[i as int]@);
        let mut item = String::new();
        if i > 0 {
            push_str(&mut item, "\n");
        }
        push_str(&mut item, "  • ");
        push_str(&mut item, disks[i].name.as_str());
        push_str(&mut item, " (");
        push_str(&mut item, disks[i].path.as_str());
        push_str(&mut item, ")");
        push_str(&mut s, item.as_str());
        proof {
            if i == 0 {
                assert(ds.take(1)[0] == ds[0]);
                assert(disk_list(ds.take(0)) =~= seq![]);
                assert(s@ =~= head + disk_list(ds.take(1)));
            } else {
                assert(ds.take(i + 1).last() == ds[i as int]);
                assert(s@ =~= head + disk_list(ds.take(i + 1)));
            }
        }
        i = i + 1;
    }
    assert(ds.take(disks@.len() as int) == ds);
    push_str(
        &mut s,
        "\n\nCette action est IRRÉVERSIBLE.\nToutes les données seront PERDUES.\n\nÊtes-vous ABSOLUMENT SÛR de vouloir continuer ?",
    );
    s
}

// ---------------------------------------------------------------------------
// Texts of a disk's card and of outcomes
// ---------------------------------------------------------------------------

/// What a disk's card shows before any wipe.
#[derive(Debug)]
pub struct DiskCard {
    /// the check box can be ticked
    pub selectable: bool,
    pub badge_text: String,
    pub badge_class: String,
    /// "<SSD|HDD> • <size> (<model>)", with " — <reason>" when refused
    pub subtitle: String,
}

pub open spec fn media_type(d: DiskView) -> Seq<char> {
    if d.is_ssd {
        "SSD"@
    } else {
        "HDD"@
    }
}

pub open spec fn subtitle_of(d: DiskView) -> Seq<char> {
    let base = media_type(d) + " • "@ + d.size + " ("@ + d.model + ")"@;
    if shred_verdict(d).0 {
        base
    } else {
        base + " — "@ + shred_verdict(d).1
    }
}

pub fn disk_card(disk: &Disk) -> (res: DiskCard)
    ensures
        res.selectable == shred_verdict(disk@).0,
        res.badge_text@ == (if shred_verdict(disk@).0 {
            "INACTIF"@
        } else {
            "INDISPONIBLE"@
        }),
        res.badge_class@ == (if shred_verdict(disk@).0 {
            "status-idle"@
        } else {
            "status-failed"@
        }),
        res.subtitle@ == subtitle_of(disk@),
{
    let (can_shred, reason) = disk.can_be_shredded();
    let mut subtitle = if disk.is_ssd {
        String::from_str("SSD")
    } else {
        String::from_str("HDD")
    };
    push_str(&mut subtitle, " • ");
    push_str(&mut subtitle, disk.size.as_str());
    push_str(&mut subtitle, " (");
    push_str(&mut subtitle, disk.model.as_str());
    push_str(&mut subtitle, ")");
    if !can_shred {
        push_str(&mut subtitle, " — ");
        push_str(&mut subtitle, reason.as_str());
    }
    DiskCard {
        selectable: can_shred,
        badge_text: if can_shred {
            String::from_str("INACTIF")
        } else {
            String::from_str("INDISPONIBLE")
        },
        badge_class: if can_shred {
            String::from_str("status-idle")
        } else {
            String::from_str("status-failed")
        },
        subtitle,
    }
}

/// The journal line of a failed wipe: the message, then the trimmed error
/// stream after ": " when there is one.
pub open spec fn failure_log_of(message: Seq<char>, stderr: Seq<char>) -> Seq<char> {
    if trim(stderr).len() == 0 {
        message
    } else {
        message + ": "@ + trim(stderr)
    }
}

pub fn failure_log_message(message: &str, stderr: &str) -> (res: String)
    ensures
        res@ == failure_log_of(message@, stderr@),
{
    let t = trimmed(chars_of(stderr).as_slice());
    let mut s = String::from_str(message);
    if t.len() > 0 {
        push_str(&mut s, ": ");
        push_chars(&mut s, t.as_slice());
    }
    s
}

/// The text of the dialog shown once when a disk hits an input/output error.
pub open spec fn io_error_dialog_of(disk_name: Seq<char>, stderr: Seq<char>) -> Seq<char> {
    let base = "Le disque "@ + disk_name
        + " a rencontré une erreur d'entrée/sortie.\nLe processus a été interrompu automatiquement."@;
    if trim(stderr).len() == 0 {
        base
    } else {
        base + "\n\nDétails:\n"@ + trim(stderr)
    }
}

pub fn io_error_dialog_message(disk_name: &str, stderr: &str) -> (res: String)
    ensures
        res@ == io_error_dialog_of(disk_name@, stderr@),
{
    let t = trimmed(chars_of(stderr).as_slice());
    let mut s = String::from_str("Le disque ");
    push_str(&mut s, disk_name);
    push_str(
        &mut s,
        " a rencontré une erreur d'entrée/sortie.\nLe processus a été interrompu automatiquement.",
    );
    if t.len() > 0 {
        push_str(&mut s, "\n\nDétails:\n");
        push_chars(&mut s, t.as_slice());
    }
    s
}

/// How many of the first `n` disks are selectable.
pub open spec fn selectable_before(selectable: Seq<bool>, n: int) -> nat
    decreases n,
{
    if n <= 0 {
        0
    } else {
        selectable_before(selectable, n - 1) + if selectable[n - 1] {
            1nat
        } else {
            0nat
        }
    }
}

/// How many of the first `n` disks are selectable and ticked.
pub open spec fn ticked_before(selectable: Seq<bool>, ticked: Seq<bool>, n: int) -> nat
    decreases n,
{
    if n <= 0 {
        0
    } else {
        ticked_before(selectable, ticked, n - 1) + if selectable[n - 1] && ticked[n - 1] {
            1nat
        } else {
            0nat
        }
    }
}

/// The state of the "select all" box: ticked when every selectable disk is
/// ticked or as many as may be wiped at once are, usable when some disk is
/// selectable (unticked and unusable otherwise).
pub open spec fn select_all_of(selectable: Seq<bool>, ticked: Seq<bool>) -> (bool, bool) {
    if forall|i: int| 0 <= i < selectable.len() ==> !selectable[i] {
        (false, false)
    } else {
        (
            (forall|i: int| 0 <= i < selectable.len() && selectable[i] ==> ticked[i])
                || ticked_before(selectable, ticked, selectable.len() as int) >= MAX_SELECTED,
            true,
        )
    }
}

pub fn select_all_state(selectable: &[bool], ticked: &[bool]) -> (res: (bool, bool))
    requires
        selectable@.len() == ticked@.len(),
    ensures
        res == select_all_of(selectable@, ticked@),
{
    let mut any = false;
    let mut all = true;
    let mut count: usize = 0;
    let mut i: usize = 0;
    while i < selectable.len()
        invariant
            i <= selectable@.len() == ticked@.len(),
            any == exists|k: int| 0 <= k < i && selectable@[k],
            all == forall|k: int| 0 <= k < i && selectable@[k] ==> ticked@[k],
            count == ticked_before(selectable@, ticked@, i as int),
            count <= i,
        decreases selectable@.len() - i,
    {
        if selectable[i] {
            any = true;
            if !ticked[i] {
                all = false;
            } else {
                count = count + 1;
            }
        }
        i = i + 1;
    }
    if !any {
        (false, false)
    } else {
        (all || count >= MAX_SELECTED, true)
    }
}

/// The disks that "select all" ticks: the selectable ones, in order, as
/// long as fewer than the most that may be wiped at once come before.
pub open spec fn select_all_ticks_of(selectable: Seq<bool>) -> Seq<bool> {
    Seq::new(
        selectable.len(),
        |i: int| selectable[i] && selectable_before(selectable, i) < MAX_SELECTED,
    )
}

pub fn select_all_ticks(selectable: &[bool]) -> (res: Vec<bool>)
    ensures
        res@ == select_all_ticks_of(selectable@),
{
    let mut res: Vec<bool> = Vec::new();
    let mut count: usize = 0;
    let mut i: usize = 0;
    while i < selectable.len()
        invariant
            i <= selectable@.len(),
            res@.len() == i,
            count == selectable_before(selectable@, i as int),
            count <= i,
            forall|k: int| 0 <= k < i ==> res@[k] == select_all_ticks_of(selectable@)[k],
        decreases selectable@.len() - i,
    {
        res.push(selectable[i] && count < MAX_SELECTED);
        if selectable[i] {
            count = count + 1;
        }
        i = i + 1;
    }
    assert(res@ =~= select_all_ticks_of(selectable@));
    res
}

/// The first of `picks`, as many as may be wiped at once.
pub open spec fn within_limit_of(picks: Seq<usize>) -> Seq<usize> {
    if picks.len() <= MAX_SELECTED {
        picks
    } else {
        picks.take(MAX_SELECTED as int)
    }
}

/// Keeps the first of `picks`, as many as may be wiped at once (the disks a
/// retry restarts).
pub fn within_limit(picks: Vec<usize>) -> (res: Vec<usize>)
    ensures
        res@ == within_limit_of(picks@),
{
    let mut res: Vec<usize> = Vec::new();
    let mut i: usize = 0;
    while i < picks.len() && i < MAX_SELECTED
        invariant
            i <= picks@.len(),
            i <= MAX_SELECTED,
            res@ == picks@.take(i as int),
        decreases picks@.len() - i,
    {
        res.push(picks[i]);
        assert(picks@.take(i + 1) == picks@.take(i as int).push(picks@[i as int]));
        i = i + 1;
    }
    assert(res@ =~= within_limit_of(picks@));
    res
}

/// After a run, the check boxes that open again: those of the disks that
/// were not in the run and may be wiped.
pub open spec fn reopened_of(disks: Seq<DiskView>, in_run: Seq<bool>) -> Seq<bool> {
    Seq::new(
        disks.len(),
        |i: int| !(i < in_run.len() && in_run[i]) && shred_verdict(disks[i]).0,
    )
}

pub fn reopened_after_run(disks: &[Disk], in_run: &[bool]) -> (res: Vec<bool>)
    ensures
        res@ == reopened_of(disk_views(disks@), in_run@),
{
    let mut res: Vec<bool> = Vec::new();
    let mut i: usize = 0;
    while i < disks.len()
        invariant
            i <= disks@.len(),
            res@.len() == i,
            forall|k: int|
                0 <= k < i ==> res@[k] == reopened_of(disk_views(disks@), in_run@)[k],
        decreases disks@.len() - i,
    {
        let (ok, _) = disks[i].can_be_shredded();
        assert(disk_views(disks@)[i as int] == disks@[i as int]@);
        res.push(!(i < in_run.len() && in_run[i]) && ok);
        i = i + 1;
    }
    assert(res@ =~= reopened_of(disk_views(disks@), in_run@));
    res
}

/// The line under a card for the post-wipe check, and its colour.
pub open spec fn verify_note_of(state: VerifyState) -> (Seq<char>, Seq<char>) {
    match state {
        VerifyState::Pending => ("Vérification: en cours..."@, "blue"@),
        VerifyState::Passed => ("Vérification: OK"@, "green"@),
        VerifyState::Ko => ("Vérification: KO"@, "red"@),
        VerifyState::Error => ("Vérification: erreur"@, "orange"@),
    }
}

pub fn verify_note(state: VerifyState) -> (res: (String, String))
    ensures
        (res.0@, res.1@) == verify_note_of(state),
{
    match state {
        VerifyState::Pending => (
            String::from_str("Vérification: en cours..."),
            String::from_str("blue"),
        ),
        VerifyState::Passed => (String::from_str("Vérification: OK"), String::from_str("green")),
        VerifyState::Ko => (String::from_str("Vérification: KO"), String::from_str("red")),
        VerifyState::Error => (String::from_str("Vérification: erreur"), String::from_str("orange")),
    }
}

/// The line under a card, as markup in its colour.
pub open spec fn colored_of(message: Seq<char>, color: Seq<char>) -> Seq<char> {
    "<span foreground='"@ + color + "'>"@ + message + "</span>"@
}

pub fn colored_line(message: &str, color: &str) -> (res: String)
    ensures
        res@ == colored_of(message@, color@),
{
    let mut s = String::from_str("<span foreground='");
    push_str(&mut s, color);
    push_str(&mut s, "'>");
    push_str(&mut s, message);
    push_str(&mut s, "</span>");
    proof {
        assert(s@ =~= colored_of(message@, color@));
    }
    s
}

// ---------------------------------------------------------------------------
// What a status does to a disk's card and records
// ---------------------------------------------------------------------------

/// What a wipe's status changes on the disk's card and in the records.
#[derive(Debug)]
pub struct StatusEffect {
    pub badge_text: String,
    pub badge_class: String,
    /// the text beside the progress bar, when the status fixes it
    pub progress_text: Option<String>,
    /// for a last status: the job's state, whether it succeeded, and the
    /// message journaled and added to the attempts
    pub outcome: Option<(JobState, bool, String)>,
    /// the colour of "Vérification : non effectuée" when no check follows
    pub skipped_check_color: Option<String>,
    /// the post-wipe check is to be started
    pub start_check: bool,
}

pub ghost struct StatusEffectView {
    pub badge_text: Seq<char>,
    pub badge_class: Seq<char>,
    pub progress_text: Option<Seq<char>>,
    pub outcome: Option<(JobState, bool, Seq<char>)>,
    pub skipped_check_color: Option<Seq<char>>,
    pub start_check: bool,
}

impl View for StatusEffect {
    type V = StatusEffectView;

    open spec fn view(&self) -> StatusEffectView {
        StatusEffectView {
            badge_text: self.badge_text@,
            badge_class: self.badge_class@,
            progress_text: crate::system::opt_view(self.progress_text),
            outcome: match self.outcome {
                Some((st, ok, m)) => Some((st, ok, m@)),
                None => None,
            },
            skipped_check_color: crate::system::opt_view(self.skipped_check_color),
            start_check: self.start_check,
        }
    }
}

pub open spec fn effect(
    badge_text: Seq<char>,
    badge_class: Seq<char>,
    progress_text: Option<Seq<char>>,
    outcome: Option<(JobState, bool, Seq<char>)>,
    skipped_check_color: Option<Seq<char>>,
    start_check: bool,
) -> StatusEffectView {
    StatusEffectView {
        badge_text,
        badge_class,
        progress_text,
        outcome,
        skipped_check_color,
        start_check,
    }
}

/// The effect of each status: a running wipe shows its progress, a finished
/// one records its outcome (a success starts the check, a stop or a failure
/// marks the check as not done).
pub open spec fn status_effect_of(s: crate::shred::ShredStatusView) -> StatusEffectView {
    match s {
        crate::shred::ShredStatusView::Starting => effect(
            "EN COURS"@,
            "status-running"@,
            Some("Démarrage..."@),
            None,
            None,
            false,
        ),
        crate::shred::ShredStatusView::InProgress { .. } => effect(
            "EN COURS"@,
            "status-running"@,
            None,
            None,
            None,
            false,
        ),
        crate::shred::ShredStatusView::Completed => effect(
            "TERMINÉ"@,
            "status-done"@,
            Some("100%"@),
            Some((JobState::Success, true, "Succès"@)),
            None,
            true,
        ),
        crate::shred::ShredStatusView::Stopped => effect(
            "ARRÊTÉ"@,
            "status-stopped"@,
            None,
            Some((JobState::Cancelled, false, "Arrêté par l'utilisateur"@)),
            Some("orange"@),
            false,
        ),
        crate::shred::ShredStatusView::FailedIoError { message, stderr } => effect(
            "ÉCHEC E/S"@,
            "status-failed"@,
            Some("Échec"@),
            Some((JobState::FailedIo, false, failure_log_of(message, stderr))),
            Some("red"@),
            false,
        ),
        crate::shred::ShredStatusView::FailedOther { message, stderr } => effect(
            "ÉCHEC"@,
            "status-failed"@,
            Some("Échec"@),
            Some((JobState::FailedOther, false, failure_log_of(message, stderr))),
            Some("red"@),
            false,
        ),
    }
}

pub fn status_effect(status: &crate::shred::ShredStatus) -> (res: StatusEffect)
    ensures
        res@ == status_effect_of(status@),
{
    match status {
        crate::shred::ShredStatus::Starting => StatusEffect {
            badge_text: String::from_str("EN COURS"),
            badge_class: String::from_str("status-running"),
            progress_text: Some(String::from_str("Démarrage...")),
            outcome: None,
            skipped_check_color: None,
            start_check: false,
        },
        crate::shred::ShredStatus::InProgress { .. } => StatusEffect {
            badge_text: String::from_str("EN COURS"),
            badge_class: String::from_str("status-running"),
            progress_text: None,
            outcome: None,
            skipped_check_color: None,
            start_check: false,
        },
        crate::shred::ShredStatus::Completed => StatusEffect {
            badge_text: String::from_str("TERMINÉ"),
            badge_class: String::from_str("status-done"),
            progress_text: Some(String::from_str("100%")),
            outcome: Some((JobState::Success, true, String::from_str("Succès"))),
            skipped_check_color: None,
            start_check: true,
        },
        crate::shred::ShredStatus::Stopped => StatusEffect {
            badge_text: String::from_str("ARRÊTÉ"),
            badge_class: String::from_str("status-stopped"),
            progress_text: None,
            outcome: Some(
                (JobState::Cancelled, false, String::from_str("Arrêté par l'utilisateur")),
            ),
            skipped_check_color: Some(String::from_str("orange")),
            start_check: false,
        },
        crate::shred::ShredStatus::FailedIoError { message, stderr } => StatusEffect {
            badge_text: String::from_str("ÉCHEC E/S"),
            badge_class: String::from_str("status-failed"),
            progress_text: Some(String::from_str("Échec")),
            outcome: Some(
                (JobState::FailedIo, false, failure_log_message(message.as_str(), stderr.as_str())),
            ),
            skipped_check_color: Some(String::from_str("red")),
            start_check: false,
        },
        crate::shred::ShredStatus::FailedOther { message, stderr } => StatusEffect {
            badge_text: String::from_str("ÉCHEC"),
            badge_class: String::from_str("status-failed"),
            progress_text: Some(String::from_str("Échec")),
            outcome: Some(
                (
                    JobState::FailedOther,
                    false,
                    failure_log_message(message.as_str(), stderr.as_str()),
                ),
            ),
            skipped_check_color: Some(String::from_str("red")),
            start_check: false,
        },
    }
}

// ---------------------------------------------------------------------------
// SMART texts
// ---------------------------------------------------------------------------

/// The style of the SMART badge for a verdict.
pub open spec fn info_style_of(s: crate::system::SmartSummary) -> Seq<char> {
    match s {
        crate::system::SmartSummary::Good => "info-good"@,
        crate::system::SmartSummary::PreFail => "info-warn"@,
        crate::system::SmartSummary::Bad => "info-bad"@,
    }
}

pub fn info_style(s: crate::system::SmartSummary) -> (res: String)
    ensures
        res@ == info_style_of(s),
{
    match s {
        crate::system::SmartSummary::Good => String::from_str("info-good"),
        crate::system::SmartSummary::PreFail => String::from_str("info-warn"),
        crate::system::SmartSummary::Bad => String::from_str("info-bad"),
    }
}

/// The letter shown on the SMART badge for a style.
pub open spec fn info_label_of(style: Seq<char>) -> Seq<char> {
    if style == "info-good"@ {
        "i"@
    } else if style == "info-warn"@ {
        "w"@
    } else if style == "info-bad"@ {
        "!"@
    } else {
        "?"@
    }
}

pub fn info_label(style: &str) -> (res: String)
    ensures
        res@ == info_label_of(style@),
{
    let s = chars_of(style);
    if crate::text::is_text(s.as_slice(), "info-good") {
        String::from_str("i")
    } else if crate::text::is_text(s.as_slice(), "info-warn") {
        String::from_str("w")
    } else if crate::text::is_text(s.as_slice(), "info-bad") {
        String::from_str("!")
    } else {
        String::from_str("?")
    }
}

/// The word and colour of a verdict in the disk information dialog.
pub open spec fn summary_words_of(s: crate::system::SmartSummary) -> (Seq<char>, Seq<char>) {
    match s {
        crate::system::SmartSummary::Good => ("Bon"@, "green"@),
        crate::system::SmartSummary::PreFail => ("Pré-fail"@, "orange"@),
        crate::system::SmartSummary::Bad => ("Mauvais"@, "red"@),
    }
}

pub fn summary_words(s: crate::system::SmartSummary) -> (res: (String, String))
    ensures
        (res.0@, res.1@) == summary_words_of(s),
{
    match s {
        crate::system::SmartSummary::Good => (String::from_str("Bon"), String::from_str("green")),
        crate::system::SmartSummary::PreFail => (
            String::from_str("Pré-fail"),
            String::from_str("orange"),
        ),
        crate::system::SmartSummary::Bad => (String::from_str("Mauvais"), String::from_str("red")),
    }
}

/// The colour of an attribute's dot.
pub open spec fn status_color_of(s: crate::system::SmartAttrStatus) -> Seq<char> {
    match s {
        crate::system::SmartAttrStatus::Good => "green"@,
        crate::system::SmartAttrStatus::Warn => "orange"@,
        crate::system::SmartAttrStatus::Bad => "red"@,
    }
}

pub fn status_color(s: crate::system::SmartAttrStatus) -> (res: String)
    ensures
        res@ == status_color_of(s),
{
    match s {
        crate::system::SmartAttrStatus::Good => String::from_str("green"),
        crate::system::SmartAttrStatus::Warn => String::from_str("orange"),
        crate::system::SmartAttrStatus::Bad => String::from_str("red"),
    }
}

/// The French label of a key attribute (other names are shown as they are).
pub open spec fn attr_label_of(name: Seq<char>) -> Seq<char> {
    if name == "Reallocated_Sector_Ct"@ {
        "Secteurs réalloués"@
    } else if name == "Current_Pending_Sector"@ {
        "Secteurs en attente"@
    } else if name == "Offline_Uncorrectable"@ {
        "Erreurs non corrigeables"@
    } else if name == "Reported_Uncorrect"@ {
        "Erreurs signalées"@
    } else if name == "Power_On_Hours"@ || name == "Power_On_Minutes"@ {
        "Heures de fonctionnement"@
    } else {
        name
    }
}

pub fn attr_label(name: &str) -> (res: String)
    ensures
        res@ == attr_label_of(name@),
{
    let n = chars_of(name);
    if crate::text::is_text(n.as_slice(), "Reallocated_Sector_Ct") {
        String::from_str("Secteurs réalloués")
    } else if crate::text::is_text(n.as_slice(), "Current_Pending_Sector") {
        String::from_str("Secteurs en attente")
    } else if crate::text::is_text(n.as_slice(), "Offline_Uncorrectable") {
        String::from_str("Erreurs non corrigeables")
    } else if crate::text::is_text(n.as_slice(), "Reported_Uncorrect") {
        String::from_str("Erreurs signalées")
    } else if crate::text::is_text(n.as_slice(), "Power_On_Hours") || crate::text::is_text(
        n.as_slice(),
        "Power_On_Minutes",
    ) {
        String::from_str("Heures de fonctionnement")
    } else {
        String::from_str(name)
    }
}

/// One attribute's line in the disk information dialog (the texts given
/// already escaped for markup).
pub open spec fn attr_line_of(
    color: Seq<char>,
    label: Seq<char>,
    raw: Seq<char>,
    threshold: Option<Seq<char>>,
) -> Seq<char> {
    let head = "<span foreground='"@ + color + "'>●</span> "@ + label + " = "@ + raw;
    match threshold {
        Some(t) => head + " (seuil "@ + t + ")"@,
        None => head,
    }
}

pub fn attr_line(color: &str, label: &str, raw: &str, threshold: Option<&str>) -> (res: String)
    ensures
        res@ == attr_line_of(
            color@,
            label@,
            raw@,
            match threshold {
                Some(t) => Some(t@),
                None => None,
            },
        ),
{
    let mut s = String::from_str("<span foreground='");
    push_str(&mut s, color);
    push_str(&mut s, "'>●</span> ");
    push_str(&mut s, label);
    push_str(&mut s, " = ");
    push_str(&mut s, raw);
    match threshold {
        Some(t) => {
            push_str(&mut s, " (seuil ");
            push_str(&mut s, t);
            push_str(&mut s, ")");
        },
        None => {},
    }
    s
}

/// The lines joined by newlines.
pub open spec fn joined(ls: Seq<Seq<char>>) -> Seq<char>
    decreases ls.len(),
{
    if ls.len() == 0 {
        seq![]
    } else if ls.len() == 1 {
        ls[0]
    } else {
        joined(ls.drop_last()) + "\n"@ + ls.last()
    }
}

/// The attribute lines of the dialog, or a sentence when there is none.
pub fn attr_lines_text(lines: &[String]) -> (res: String)
    ensures
        res@ == (if lines@.len() == 0 {
            "Aucun attribut clé trouvé"@
        } else {
            joined(string_views(lines@))
        }),
{
    if lines.len() == 0 {
        return String::from_str("Aucun attribut clé trouvé");
    }
    let ghost ls = string_views(lines@);
    let mut s = String::new();
    let mut i: usize = 0;
    while i < lines.len()
        invariant
            i <= lines@.len(),
            ls == string_views(lines@),
            s@ == joined(ls.take(i as int)),
        decreases lines@.len() - i,
    {
        assert(ls.take(i + 1).drop_last() == ls.take(i as int));
        assert(ls[i as int] == lines@[i as int]@);
        let ghost before = s@;
        if i > 0 {
            push_str(&mut s, "\n");
        }
        push_str(&mut s, lines[i].as_str());
        proof {
            if i == 0 {
                assert(joined(ls.take(0)) =~= seq![]);
                assert(ls.take(1)[0] == ls[0]);
                assert(s@ =~= joined(ls.take(1)));
            } else {
                assert(ls.take(i + 1).last() == ls[i as int]);
                assert(s@ =~= joined(ls.take(i + 1)));
            }
        }
        i = i + 1;
    }
    assert(ls.take(lines@.len() as int) == ls);
    s
}

/// The text of the disk information dialog (the texts given already escaped
/// for markup).
pub open spec fn smart_message_of(
    disk_name: Seq<char>,
    color: Seq<char>,
    label: Seq<char>,
    reason: Seq<char>,
    attrs: Seq<char>,
) -> Seq<char> {
    "Disque: "@ + disk_name + "\nStatut: <span foreground='"@ + color + "'>●</span> "@ + label
        + "\n\nSynthèse:\n"@ + reason + "\n\nAttributs clés:\n"@ + attrs
}

pub fn smart_message(
    disk_name: &str,
    color: &str,
    label: &str,
    reason: &str,
    attrs: &str,
) -> (res: String)
    ensures
        res@ == smart_message_of(disk_name@, color@, label@, reason@, attrs@),
{
    let mut s = String::from_str("Disque: ");
    push_str(&mut s, disk_name);
    push_str(&mut s, "\nStatut: <span foreground='");
    push_str(&mut s, color);
    push_str(&mut s, "'>●</span> ");
    push_str(&mut s, label);
    push_str(&mut s, "\n\nSynthèse:\n");
    push_str(&mut s, reason);
    push_str(&mut s, "\n\nAttributs clés:\n");
    push_str(&mut s, attrs);
    s
}

/// The banner under the disk list while wipes run: done when every
/// selected disk has an outcome.
pub open spec fn banner_of(completed: nat, total: nat) -> (Seq<char>, bool) {
    if completed == total {
        (
            "<b>✅ Toutes les opérations sont terminées ("@ + crate::text::decimal(completed) + "/"@
                + crate::text::decimal(total) + ")</b>"@,
            true,
        )
    } else {
        (
            "🔄 En cours... ("@ + crate::text::decimal(completed) + "/"@ + crate::text::decimal(total)
                + ")"@,
            false,
        )
    }
}

pub fn progress_banner(completed: u64, total: u64) -> (res: (String, bool))
    ensures
        (res.0@, res.1) == banner_of(completed as nat, total as nat),
{
    let done = completed == total;
    let mut s = if done {
        String::from_str("<b>✅ Toutes les opérations sont terminées (")
    } else {
        String::from_str("🔄 En cours... (")
    };
    crate::text::push_decimal(&mut s, completed);
    push_str(&mut s, "/");
    crate::text::push_decimal(&mut s, total);
    if done {
        push_str(&mut s, ")</b>");
    } else {
        push_str(&mut s, ")");
    }
    (s, done)
}

// ---------------------------------------------------------------------------
// Laws
// ---------------------------------------------------------------------------

/// Only a last status records an outcome; exactly a completed wipe starts
/// the post-wipe check, and a failed one records a failed state.
pub proof fn lemma_outcomes_of_statuses(s: crate::shred::ShredStatusView)
    ensures
        status_effect_of(s).outcome is Some <==> !(s is Starting || s is InProgress),
        status_effect_of(s).start_check <==> s is Completed,
        (s is FailedIoError || s is FailedOther) ==> (status_effect_of(s).outcome matches Some(o)
            && is_failed(o.0) && !o.1),
        (status_effect_of(s).outcome matches Some(o) && o.1) ==> s is Completed,
{
}

/// No wipe starts on a selection holding a disk that may not be wiped (the
/// system disk, a mounted disk, a read-only SSD), nor on an empty or too
/// large selection.
pub proof fn lemma_validated_selection_is_safe(ds: Seq<DiskView>)
    requires
        selection_refusal(ds) is None,
    ensures
        0 < ds.len() <= MAX_SELECTED,
        forall|i: int|
            0 <= i < ds.len() ==> !(#[trigger] ds[i]).is_system && !ds[i].is_mounted && !(
            ds[i].is_ssd && ds[i].is_read_only),
{
    lemma_first_refused_none(ds);
    assert forall|i: int| 0 <= i < ds.len() implies !(#[trigger] ds[i]).is_system
        && !ds[i].is_mounted && !(ds[i].is_ssd && ds[i].is_read_only) by {
        assert(shred_verdict(ds[i]).0);
    }
}

/// Recording an outcome keeps every earlier attempt of the disk and adds the
/// outcome's message last; other disks' records are unchanged.
pub proof fn lemma_outcome_appends(
    m: Map<Seq<char>, JobRecordView>,
    name: Seq<char>,
    status: JobState,
    message: Seq<char>,
)
    ensures
        ({
            let r = with_outcome(lookup(m, name), status, message);
            &&& r.status == status
            &&& r.attempts.last() == message
            &&& m.dom().contains(name) ==> r.attempts.drop_last() == m[name].attempts
        }),
        forall|k: Seq<char>|
            k != name && #[trigger] m.dom().contains(k) ==> m.insert(
                name,
                with_outcome(lookup(m, name), status, message),
            )[k] == m[k],
{
    let r = with_outcome(lookup(m, name), status, message);
    if m.dom().contains(name) {
        assert(r.attempts.drop_last() =~= m[name].attempts);
    }
}

proof fn lemma_ticks_counted(s: Seq<bool>, n: int)
    requires
        0 <= n <= s.len(),
    ensures
        ticked_before(s, select_all_ticks_of(s), n) == if selectable_before(s, n) < MAX_SELECTED {
            selectable_before(s, n)
        } else {
            MAX_SELECTED as nat
        },
    decreases n,
{
    if n > 0 {
        lemma_ticks_counted(s, n - 1);
    }
}

proof fn lemma_selectable_counted(s: Seq<bool>, n: int)
    requires
        0 <= n <= s.len(),
        forall|i: int| 0 <= i < n ==> !s[i],
    ensures
        selectable_before(s, n) == 0,
    decreases n,
{
    if n > 0 {
        lemma_selectable_counted(s, n - 1);
    }
}

/// "Select all" never ticks more disks than may be wiped at once, ticks
/// only selectable disks, ticks every one of them when there are no more
/// than that, and leaves its own box ticked whenever some disk is
/// selectable.
pub proof fn lemma_select_all_within_limit(s: Seq<bool>)
    ensures
        ticked_before(s, select_all_ticks_of(s), s.len() as int) <= MAX_SELECTED,
        forall|i: int| 0 <= i < s.len() && #[trigger] select_all_ticks_of(s)[i] ==> s[i],
        selectable_before(s, s.len() as int) <= MAX_SELECTED ==> forall|i: int|
            0 <= i < s.len() && s[i] ==> #[trigger] select_all_ticks_of(s)[i],
        (exists|i: int| 0 <= i < s.len() && s[i]) ==> select_all_of(s, select_all_ticks_of(s)).0,
{
    let t = select_all_ticks_of(s);
    lemma_ticks_counted(s, s.len() as int);
    if selectable_before(s, s.len() as int) <= MAX_SELECTED {
        assert forall|i: int| 0 <= i < s.len() && s[i] implies #[trigger] t[i] by {
            lemma_selectable_grows(s, i + 1, s.len() as int);
        }
    }
}

proof fn lemma_selectable_grows(s: Seq<bool>, m: int, n: int)
    requires
        0 <= m <= n <= s.len(),
    ensures
        selectable_before(s, m) <= selectable_before(s, n),
    decreases n - m,
{
    if m < n {
        lemma_selectable_grows(s, m, n - 1);
    }
}

/// A retry restarts no more disks than may be wiped at once, and only
/// disks it was given, in their order.
pub proof fn lemma_retry_within_limit(picks: Seq<usize>)
    ensures
        within_limit_of(picks).len() <= MAX_SELECTED,
        within_limit_of(picks).len() == if picks.len() <= MAX_SELECTED {
            picks.len()
        } else {
            MAX_SELECTED as nat
        },
        forall|i: int| 0 <= i < within_limit_of(picks).len() ==> #[trigger] within_limit_of(picks)[i]
            == picks[i],
{
}

/// A selection is accepted exactly when it holds from one to ten disks and
/// none of them is the system disk, mounted, or a read-only SSD.
pub proof fn lemma_selection_accepted_iff_safe(ds: Seq<DiskView>)
    ensures
        selection_refusal(ds) is None <==> (0 < ds.len() <= 10 && forall|i: int|
            0 <= i < ds.len() ==> !(#[trigger] ds[i]).is_system && !ds[i].is_mounted && !(
            ds[i].is_ssd && ds[i].is_read_only)),
{
    lemma_first_refused_none(ds);
    if 0 < ds.len() <= 10 && forall|i: int|
        0 <= i < ds.len() ==> !(#[trigger] ds[i]).is_system && !ds[i].is_mounted && !(ds[i].is_ssd
            && ds[i].is_read_only) {
        assert forall|i: int| 0 <= i < ds.len() implies shred_verdict(#[trigger] ds[i]).0 by {
            assert(!ds[i].is_system && !ds[i].is_mounted && !(ds[i].is_ssd && ds[i].is_read_only));
        }
    }
    if selection_refusal(ds) is None {
        assert forall|i: int| 0 <= i < ds.len() implies !(#[trigger] ds[i]).is_system
            && !ds[i].is_mounted && !(ds[i].is_ssd && ds[i].is_read_only) by {
            assert(shred_verdict(ds[i]).0);
        }
    }
}

/// Starting a job on a disk leaves its record `Running`, with "Démarrage"
/// added after its earlier attempts and its check kept; the other records
/// are unchanged, and some job is then running.
pub proof fn lemma_start_marks_running(m: Map<Seq<char>, JobRecordView>, name: Seq<char>)
    ensures
        ({
            let m2 = m.insert(name, with_start(lookup(m, name)));
            &&& m2[name].status == JobState::Running
            &&& m2[name].attempts == (if m.dom().contains(name) {
                m[name].attempts
            } else {
                seq![]
            }).push("Démarrage"@)
            &&& m.dom().contains(name) ==> m2[name].verify_state == m[name].verify_state
                && m2[name].verify_output == m[name].verify_output
            &&& forall|k: Seq<char>| k != name && #[trigger] m.dom().contains(k) ==> m2[k] == m[k]
            &&& exists|k: Seq<char>| #[trigger] m2.dom().contains(k) && m2[k].status
                == JobState::Running
        }),
{
    let m2 = m.insert(name, with_start(lookup(m, name)));
    assert(m2.dom().contains(name));
    if !m.dom().contains(name) {
        assert(seq!["Démarrage"@] =~= Seq::<Seq<char>>::empty().push("Démarrage"@));
    }
}

} // verus!

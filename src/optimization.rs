//! The run's bookkeeping: which files are worked on, in which state each one
//! is, and what the workers have reported so far.
use vstd::prelude::*;
use crate::error::Error;
use crate::PROGRESS_CONSTANT;
use vstd::utf8::encode_utf8;

verus! {

/// State of one work item: `Init`, then `Waiting` once it is handed to a
/// worker, then `Completed` or `Unhandled` for good.
#[derive(Copy, Clone, Debug, PartialEq, Eq, Structural)]
pub enum WorkStatus {
    Init,
    Waiting,
    Completed,
    Unhandled,
}

/// Compression selector of the output. `Default` and `Equal` are kept apart
/// although the encoder currently treats them alike.
#[derive(Copy, Clone, Debug, PartialEq, Eq, Structural)]
pub enum Compression {
    Default,
    Fast,
    Equal,
}

/// One discovered file.
#[derive(Debug)]
pub struct Work {
    pub id: usize,
    pub path: String,
    pub status: WorkStatus,
    pub progress: usize,
    /// Size before conversion, recorded when the item completes.
    pub original_size: u64,
    /// Size after conversion, recorded when the item completes.
    pub size: u64,
}

/// A worker's final report on one item.
#[derive(Copy, Clone, Debug, PartialEq, Eq, Structural)]
pub struct Status {
    pub id: usize,
    pub status: WorkStatus,
    pub original_size: u64,
    pub size: u64,
}

/// A worker's progress report on one item.
#[derive(Copy, Clone, Debug, PartialEq, Eq, Structural)]
pub struct Progress {
    pub id: usize,
    pub value: usize,
}

/// What a worker needs to convert one file.
#[derive(Debug)]
pub struct Job {
    pub id: usize,
    pub path: String,
    pub speed: Option<u8>,
    pub quality_min: Option<u8>,
    pub quality_max: Option<u8>,
    pub compression: Compression,
}

/// Sizes before and after the run, in kilobytes, and the decrease in percent.
#[derive(Copy, Clone, Debug, PartialEq, Eq, Structural)]
pub struct SizeChange {
    pub original_kb: u128,
    pub final_kb: u128,
    pub decrease_percent: i128,
}

pub open spec fn is_terminal(status: WorkStatus) -> bool {
    status == WorkStatus::Completed || status == WorkStatus::Unhandled
}

/// The only changes of state an item may go through.
pub open spec fn status_step(before: WorkStatus, after: WorkStatus) -> bool {
    ||| before == after
    ||| before == WorkStatus::Init && after == WorkStatus::Waiting
    ||| before == WorkStatus::Waiting && is_terminal(after)
}

/// Every item of `after` is the item of `before` at the same place, in the
/// same state or one step further on.
pub open spec fn statuses_advance(before: Seq<Work>, after: Seq<Work>) -> bool {
    &&& after.len() == before.len()
    &&& forall|i: int| 0 <= i < before.len() ==> status_step(before[i].status, #[trigger] after[i].status)
}

/// Sum of `f` over the items.
pub open spec fn sum_by(s: Seq<Work>, f: spec_fn(Work) -> nat) -> nat
    decreases s.len(),
{
    if s.len() == 0 {
        0
    } else {
        sum_by(s.drop_last(), f) + f(s.last())
    }
}

pub open spec fn terminal_weight() -> spec_fn(Work) -> nat {
    |w: Work| if is_terminal(w.status) { 1nat } else { 0nat }
}

pub open spec fn completed_weight() -> spec_fn(Work) -> nat {
    |w: Work| if w.status == WorkStatus::Completed { 1nat } else { 0nat }
}

pub open spec fn progress_weight() -> spec_fn(Work) -> nat {
    |w: Work| w.progress as nat
}

pub open spec fn original_weight() -> spec_fn(Work) -> nat {
    |w: Work| w.original_size as nat
}

pub open spec fn final_weight() -> spec_fn(Work) -> nat {
    |w: Work| w.size as nat
}

/// Items that reached `Completed` or `Unhandled`.
pub open spec fn terminal_count(s: Seq<Work>) -> nat {
    sum_by(s, terminal_weight())
}

/// Items that reached `Completed`.
pub open spec fn completed_count(s: Seq<Work>) -> nat {
    sum_by(s, completed_weight())
}

/// Sum of the items' progress.
pub open spec fn progress_total(s: Seq<Work>) -> nat {
    sum_by(s, progress_weight())
}

/// Sum of the items' sizes before conversion, in bytes.
pub open spec fn original_total(s: Seq<Work>) -> nat {
    sum_by(s, original_weight())
}

/// Sum of the items' sizes after conversion, in bytes.
pub open spec fn final_total(s: Seq<Work>) -> nat {
    sum_by(s, final_weight())
}

/// Replacing one item changes a sum by the difference of the two terms.
pub proof fn lemma_sum_by_update(s: Seq<Work>, i: int, w: Work, f: spec_fn(Work) -> nat)
    requires
        0 <= i < s.len(),
    ensures
        sum_by(s.update(i, w), f) + f(s[i]) == sum_by(s, f) + f(w),
    decreases s.len(),
{
    let t = s.update(i, w);
    if i == s.len() - 1 {
        assert(t.drop_last() =~= s.drop_last());
    } else {
        assert(t.drop_last() =~= s.drop_last().update(i, w));
        lemma_sum_by_update(s.drop_last(), i, w, f);
    }
}

/// The lower-case form of an ASCII letter; any other byte is kept.
pub open spec fn ascii_lower(b: u8) -> u8 {
    if 65 <= b <= 90 {
        (b + 32) as u8
    } else {
        b
    }
}

/// The name's extension, the part after its last dot where that dot is not
/// its first character, is `png` in any case. Over the UTF-8 bytes of the name.
pub open spec fn has_png_extension(name: Seq<u8>) -> bool {
    let n = name.len();
    &&& n >= 5
    &&& name[n - 4] == 46
    &&& ascii_lower(name[n - 3]) == 112
    &&& ascii_lower(name[n - 2]) == 110
    &&& ascii_lower(name[n - 1]) == 103
}

/// The name equals an entry of the exclusion list.
pub open spec fn is_excluded(exclude: Option<Vec<String>>, name: Seq<char>) -> bool {
    match exclude {
        Some(list) => exists|k: int| 0 <= k < list@.len() && (#[trigger] list@[k])@ == name,
        None => false,
    }
}

/// A file becomes a work item: it is not excluded and has the PNG extension.
pub open spec fn accepts(exclude: Option<Vec<String>>, name: Seq<char>) -> bool {
    !is_excluded(exclude, name) && has_png_extension(encode_utf8(name))
}

/// The accepted files, as (path, file name), in order.
pub open spec fn accepted_files(exclude: Option<Vec<String>>, files: Seq<(String, String)>) -> Seq<(String, String)> {
    files.filter(accepts_file(exclude))
}

/// `accepts`, on a (path, file name) pair.
pub open spec fn accepts_file(exclude: Option<Vec<String>>) -> spec_fn((String, String)) -> bool {
    |f: (String, String)| accepts(exclude, f.1@)
}

/// Ids of the items still in `Init`, in order.
pub open spec fn pending_ids(s: Seq<Work>) -> Seq<usize>
    decreases s.len(),
{
    if s.len() == 0 {
        seq![]
    } else {
        let prev = pending_ids(s.drop_last());
        if s.last().status == WorkStatus::Init {
            prev.push(s.last().id)
        } else {
            prev
        }
    }
}

/// A fresh item at position `id` for `path`.
pub open spec fn is_fresh_item(w: Work, id: int, path: Seq<char>) -> bool {
    &&& w.id == id
    &&& w.path@ == path
    &&& w.status == WorkStatus::Init
    &&& w.progress == 0
    &&& w.original_size == 0
    &&& w.size == 0
}

/// The worker's report that a conversion ended: `Completed` with both sizes,
/// or `Unhandled` with none.
pub open spec fn status_of(id: usize, outcome: Result<(u64, u64), Error>) -> Status {
    match outcome {
        Ok(sizes) => Status { id, status: WorkStatus::Completed, original_size: sizes.0, size: sizes.1 },
        Err(_) => Status { id, status: WorkStatus::Unhandled, original_size: 0, size: 0 },
    }
}

/// The report for one ended conversion.
pub fn job_status(id: usize, outcome: &Result<(u64, u64), Error>) -> (r: Status)
    ensures
        r == status_of(id, *outcome),
{
    match outcome {
        Ok((original_size, size)) => Status {
            id,
            status: WorkStatus::Completed,
            original_size: *original_size,
            size: *size,
        },
        Err(_) => Status { id, status: WorkStatus::Unhandled, original_size: 0, size: 0 },
    }
}


/// The run: its settings, its worklist and the counts of finished items.
pub struct Optimization {
    pub speed: Option<u8>,
    pub quality_min: Option<u8>,
    pub quality_max: Option<u8>,
    pub compression: Compression,
    /// File names that are never worked on.
    pub exclude: Option<Vec<String>>,
    pub worklist: Vec<Work>,
    /// Items that reached `Completed` or `Unhandled`.
    pub end_num: usize,
    /// Items that reached `Completed`.
    pub process_file_num: usize,
}

fn to_ascii_lower(b: u8) -> (r: u8)
    ensures
        r == ascii_lower(b),
{
    if 65 <= b && b <= 90 {
        b + 32
    } else {
        b
    }
}

impl Optimization {
    /// Item `i` has id `i`, progress stays within the ceiling, and the two
    /// counters count the finished and the completed items.
    pub open spec fn wf(&self) -> bool {
        &&& forall|i: int| 0 <= i < self.worklist@.len() ==> (#[trigger] self.worklist@[i]).id == i
        &&& forall|i: int|
            0 <= i < self.worklist@.len() ==> (#[trigger] self.worklist@[i]).progress <= PROGRESS_CONSTANT
        &&& self.end_num == terminal_count(self.worklist@)
        &&& self.process_file_num == completed_count(self.worklist@)
    }

    /// The settings of `self` and `other` agree.
    pub open spec fn same_settings(&self, other: &Optimization) -> bool {
        &&& self.speed == other.speed
        &&& self.quality_min == other.quality_min
        &&& self.quality_max == other.quality_max
        &&& self.compression == other.compression
        &&& self.exclude == other.exclude
    }

    pub fn new(
        speed: Option<u8>,
        quality_min: Option<u8>,
        quality_max: Option<u8>,
        compression: Compression,
        exclude: Option<Vec<String>>,
    ) -> (r: Optimization)
        ensures
            r.wf(),
            r.speed == speed,
            r.quality_min == quality_min,
            r.quality_max == quality_max,
            r.compression == compression,
            r.exclude == exclude,
            r.worklist@.len() == 0,
            r.end_num == 0,
            r.process_file_num == 0,
    {
        Optimization {
            speed,
            quality_min,
            quality_max,
            compression,
            exclude,
            worklist: Vec::new(),
            end_num: 0,
            process_file_num: 0,
        }
    }

    /// Whether a file of this name is to be worked on: it is not on the
    /// exclusion list and its extension is `png` in any case.
    pub fn has_extension(&self, file_name: &String) -> (r: bool)
        ensures
            r == accepts(self.exclude, file_name@),
    {
        if let Some(exclude) = &self.exclude {
            let mut k: usize = 0;
            while k < exclude.len()
                invariant
                    k <= exclude@.len(),
                    self.exclude == Some(*exclude),
                    forall|kk: int| 0 <= kk < k ==> (#[trigger] exclude@[kk])@ != file_name@,
                decreases exclude@.len() - k,
            {
                if exclude[k] == *file_name {
                    assert(exclude@[k as int]@ == file_name@);
                    assert(self.exclude->Some_0@[k as int]@ == file_name@);
                    assert(is_excluded(self.exclude, file_name@));
                    return false;
                }
                k = k + 1;
            }
        }
        let bytes = file_name.as_str().as_bytes();
        let n = bytes.len();
        n >= 5 && bytes[n - 4] == 46 && to_ascii_lower(bytes[n - 3]) == 112 && to_ascii_lower(
            bytes[n - 2],
        ) == 110 && to_ascii_lower(bytes[n - 1]) == 103
    }

    /// Adds a fresh item for `path` when its file name is accepted.
    fn iterate_pngs(&self, path: String, file_name: &String, paths: &mut Vec<Work>)
        ensures
            accepts(self.exclude, file_name@) ==> {
                &&& final(paths)@.len() == old(paths)@.len() + 1
                &&& final(paths)@.drop_last() == old(paths)@
                &&& is_fresh_item(final(paths)@.last(), old(paths)@.len() as int, path@)
            },
            !accepts(self.exclude, file_name@) ==> final(paths)@ == old(paths)@,
    {
        if self.has_extension(file_name) {
            let id = paths.len();
            paths.push(
                Work { id, path, status: WorkStatus::Init, progress: 0, original_size: 0, size: 0 },
            );
            assert(paths@.drop_last() =~= old(paths)@);
        }
    }

    /// Builds the worklist from the files found under the working directory,
    /// given as (path, file name): one fresh item per accepted file, in order,
    /// with ids counting from 0.
    pub fn generate_worklist(&mut self, files: Vec<(String, String)>)
        ensures
            final(self).wf(),
            final(self).same_settings(old(self)),
            final(self).worklist@.len() == accepted_files(old(self).exclude, files@).len(),
            forall|k: int|
                0 <= k < final(self).worklist@.len() ==> is_fresh_item(
                    #[trigger] final(self).worklist@[k],
                    k,
                    accepted_files(old(self).exclude, files@)[k].0@,
                ),
            final(self).end_num == 0,
            final(self).process_file_num == 0,
    {
        let ghost all = files@;
        let mut rest = files;
        let mut paths: Vec<Work> = Vec::new();
        let n = rest.len();
        let mut k: usize = 0;
        while k < n
            invariant
                n == all.len(),
                k <= n,
                rest@ == all.subrange(k as int, n as int),
                paths@.len() == accepted_files(self.exclude, all.subrange(0, k as int)).len(),
                forall|m: int|
                    0 <= m < paths@.len() ==> is_fresh_item(
                        #[trigger] paths@[m],
                        m,
                        accepted_files(self.exclude, all.subrange(0, k as int))[m].0@,
                    ),
            decreases n - k,
        {
            let (path, file_name) = rest.remove(0);
            proof {
                assert((path, file_name) == all[k as int]);
                assert(all.subrange(0, k + 1) =~= all.subrange(0, k as int).push(all[k as int]));
                all.subrange(0, k as int).lemma_filter_push(all[k as int], accepts_file(self.exclude));
            }
            let ghost before = paths@;
            self.iterate_pngs(path, &file_name, &mut paths);
            proof {
                let acc = accepted_files(self.exclude, all.subrange(0, k + 1));
                assert forall|m: int| 0 <= m < paths@.len() implies is_fresh_item(
                    #[trigger] paths@[m],
                    m,
                    acc[m].0@,
                ) by {
                    if m < before.len() {
                        assert(paths@[m] == before[m]);
                    }
                }
            }
            k = k + 1;
        }
        proof {
            assert(all.subrange(0, n as int) =~= all);
        }
        self.worklist = paths;
        self.end_num = 0;
        self.process_file_num = 0;
        proof {
            lemma_no_finished_items(self.worklist@);
        }
    }
}

/// A worklist of fresh items has no finished and no completed item, and no progress.
proof fn lemma_no_finished_items(s: Seq<Work>)
    requires
        forall|k: int| 0 <= k < s.len() ==> (#[trigger] s[k]).status == WorkStatus::Init && s[k].progress == 0,
    ensures
        terminal_count(s) == 0,
        completed_count(s) == 0,
    decreases s.len(),
{
    if s.len() > 0 {
        let p = s.drop_last();
        assert forall|k: int| 0 <= k < p.len() implies (#[trigger] p[k]).status == WorkStatus::Init
            && p[k].progress == 0 by {
            assert(p[k] == s[k]);
        }
        lemma_no_finished_items(p);
        assert(s.last() == s[s.len() - 1]);
    }
}


/// The state an item takes when the run starts the pending ones.
pub open spec fn started(status: WorkStatus) -> WorkStatus {
    if status == WorkStatus::Init {
        WorkStatus::Waiting
    } else {
        status
    }
}

/// A status report is taken: it names an item that is waiting, and reports
/// an end.
pub open spec fn status_applies(s: Seq<Work>, m: Status) -> bool {
    &&& m.id < s.len()
    &&& s[m.id as int].status == WorkStatus::Waiting
    &&& is_terminal(m.status)
}

/// Progress of an item after a report of `value`: it never goes down and
/// never passes the ceiling.
pub open spec fn progress_after(current: usize, value: usize) -> usize {
    let v = if value > PROGRESS_CONSTANT { PROGRESS_CONSTANT } else { value };
    if v > current {
        v
    } else {
        current
    }
}

/// `b` is `a` with another status, progress or sizes.
pub open spec fn same_item(a: Work, b: Work) -> bool {
    a.id == b.id && a.path == b.path
}

/// `after` is `before` once the status report `m` is taken.
pub open spec fn status_applied(before: Optimization, after: Optimization, m: Status) -> bool {
    &&& after.same_settings(&before)
    &&& after.worklist@.len() == before.worklist@.len()
    &&& if status_applies(before.worklist@, m) {
        let i = m.id as int;
        let (a, b) = (before.worklist@[i], after.worklist@[i]);
        &&& same_item(a, b)
        &&& b.status == m.status
        &&& b.progress == a.progress
        &&& b.original_size == (if m.status == WorkStatus::Completed {
            m.original_size
        } else {
            a.original_size
        })
        &&& b.size == (if m.status == WorkStatus::Completed {
            m.size
        } else {
            a.size
        })
        &&& forall|j: int|
            0 <= j < before.worklist@.len() && j != i ==> #[trigger] after.worklist@[j]
                == before.worklist@[j]
        &&& after.end_num == before.end_num + 1
        &&& after.process_file_num == before.process_file_num + (if m.status
            == WorkStatus::Completed {
            1int
        } else {
            0int
        })
    } else {
        &&& after.worklist@ == before.worklist@
        &&& after.end_num == before.end_num
        &&& after.process_file_num == before.process_file_num
    }
}

impl Optimization {
    /// Hands every item still in `Init` over to the workers: each becomes
    /// `Waiting`, and a job is returned for it, in worklist order.
    pub fn start_pending(&mut self) -> (jobs: Vec<Job>)
        requires
            old(self).wf(),
        ensures
            final(self).wf(),
            final(self).same_settings(old(self)),
            final(self).end_num == old(self).end_num,
            final(self).process_file_num == old(self).process_file_num,
            statuses_advance(old(self).worklist@, final(self).worklist@),
            forall|i: int|
                0 <= i < old(self).worklist@.len() ==> {
                    let (a, b) = (old(self).worklist@[i], #[trigger] final(self).worklist@[i]);
                    &&& same_item(a, b)
                    &&& b.status == started(a.status)
                    &&& b.progress == a.progress
                    &&& b.original_size == a.original_size
                    &&& b.size == a.size
                },
            jobs@.len() == pending_ids(old(self).worklist@).len(),
            forall|k: int|
                0 <= k < jobs@.len() ==> {
                    let j = #[trigger] jobs@[k];
                    &&& j.id == pending_ids(old(self).worklist@)[k]
                    &&& j.path@ == old(self).worklist@[j.id as int].path@
                    &&& j.speed == old(self).speed
                    &&& j.quality_min == old(self).quality_min
                    &&& j.quality_max == old(self).quality_max
                    &&& j.compression == old(self).compression
                },
    {
        let ghost start = self.worklist@;
        let mut jobs: Vec<Job> = Vec::new();
        let n = self.worklist.len();
        let mut i: usize = 0;
        while i < n
            invariant
                n == start.len(),
                i <= n,
                self.wf(),
                self.same_settings(old(self)),
                self.end_num == old(self).end_num,
                self.process_file_num == old(self).process_file_num,
                start == old(self).worklist@,
                self.worklist@.len() == n,
                forall|j: int|
                    0 <= j < n ==> {
                        let (a, b) = (start[j], #[trigger] self.worklist@[j]);
                        &&& same_item(a, b)
                        &&& b.status == (if j < i { started(a.status) } else { a.status })
                        &&& b.progress == a.progress
                        &&& b.original_size == a.original_size
                        &&& b.size == a.size
                    },
                jobs@.len() == pending_ids(start.subrange(0, i as int)).len(),
                forall|k: int|
                    0 <= k < jobs@.len() ==> {
                        let j = #[trigger] jobs@[k];
                        &&& j.id == pending_ids(start.subrange(0, i as int))[k]
                        &&& j.id < i
                        &&& j.path@ == start[j.id as int].path@
                        &&& j.speed == old(self).speed
                        &&& j.quality_min == old(self).quality_min
                        &&& j.quality_max == old(self).quality_max
                        &&& j.compression == old(self).compression
                    },
            decreases n - i,
        {
            proof {
                assert(start.subrange(0, i + 1).drop_last() =~= start.subrange(0, i as int));
                assert(start.subrange(0, i + 1).last() == start[i as int]);
            }
            if self.worklist[i].status == WorkStatus::Init {
                let ghost before = self.worklist@;
                let job = Job {
                    id: self.worklist[i].id,
                    path: self.worklist[i].path.clone(),
                    speed: self.speed,
                    quality_min: self.quality_min,
                    quality_max: self.quality_max,
                    compression: self.compression,
                };
                self.worklist[i].status = WorkStatus::Waiting;
                proof {
                    let w = self.worklist@[i as int];
                    assert(self.worklist@ =~= before.update(i as int, w));
                    lemma_sum_by_update(before, i as int, w, terminal_weight());
                    lemma_sum_by_update(before, i as int, w, completed_weight());
                }
                jobs.push(job);
            }
            i = i + 1;
        }
        proof {
            assert(start.subrange(0, n as int) =~= start);
        }
        jobs
    }

    /// Takes a worker's final report. When it names a waiting item and reports
    /// an end, the item takes that status; a completed item records both sizes
    /// and counts as processed; either way it counts as finished. Any other
    /// report changes nothing.
    pub fn apply_status(&mut self, message: Status)
        requires
            old(self).wf(),
        ensures
            final(self).wf(),
            statuses_advance(old(self).worklist@, final(self).worklist@),
            status_applied(*old(self), *final(self), message),
    {
        let i = message.id;
        if i >= self.worklist.len() {
            return;
        }
        if self.worklist[i].status != WorkStatus::Waiting {
            return;
        }
        if message.status != WorkStatus::Completed && message.status != WorkStatus::Unhandled {
            return;
        }
        let ghost before = self.worklist@;
        proof {
            lemma_count_bound(before);
        }
        self.worklist[i].status = message.status;
        proof {
            let w = self.worklist@[i as int];
            assert(self.worklist@ =~= before.update(i as int, w));
            lemma_sum_by_update(before, i as int, w, terminal_weight());
            lemma_sum_by_update(before, i as int, w, completed_weight());
            lemma_count_bound(self.worklist@);
        }
        if message.status == WorkStatus::Completed {
            self.worklist[i].original_size = message.original_size;
            self.worklist[i].size = message.size;
            self.process_file_num = self.process_file_num + 1;
        }
        self.end_num = self.end_num + 1;
        proof {
            let w = self.worklist@[i as int];
            assert(self.worklist@ =~= before.update(i as int, w));
            lemma_sum_by_update(before, i as int, w, terminal_weight());
            lemma_sum_by_update(before, i as int, w, completed_weight());
        }
    }

    /// Takes a worker's progress report on an item; one that names no item
    /// changes nothing.
    pub fn apply_progress(&mut self, progress: Progress)
        requires
            old(self).wf(),
        ensures
            final(self).wf(),
            final(self).same_settings(old(self)),
            final(self).end_num == old(self).end_num,
            final(self).process_file_num == old(self).process_file_num,
            statuses_advance(old(self).worklist@, final(self).worklist@),
            progress.id < old(self).worklist@.len() ==> {
                let i = progress.id as int;
                let (a, b) = (old(self).worklist@[i], final(self).worklist@[i]);
                &&& same_item(a, b)
                &&& b.status == a.status
                &&& b.original_size == a.original_size
                &&& b.size == a.size
                &&& b.progress == progress_after(a.progress, progress.value)
                &&& final(self).worklist@.len() == old(self).worklist@.len()
                &&& forall|j: int|
                    0 <= j < old(self).worklist@.len() && j != i ==> #[trigger] final(self).worklist@[j]
                        == old(self).worklist@[j]
            },
            progress.id >= old(self).worklist@.len() ==> final(self).worklist@ == old(self).worklist@,
    {
        let i = progress.id;
        if i >= self.worklist.len() {
            return;
        }
        let ghost before = self.worklist@;
        let value = if progress.value > PROGRESS_CONSTANT {
            PROGRESS_CONSTANT
        } else {
            progress.value
        };
        if value > self.worklist[i].progress {
            self.worklist[i].progress = value;
        }
        proof {
            let w = self.worklist@[i as int];
            assert(self.worklist@ =~= before.update(i as int, w));
            lemma_sum_by_update(before, i as int, w, terminal_weight());
            lemma_sum_by_update(before, i as int, w, completed_weight());
        }
    }

    /// Every item has reported its end.
    pub fn is_finished(&self) -> (r: bool)
        requires
            self.wf(),
        ensures
            r == (self.end_num == self.worklist@.len()),
            r == (forall|i: int| 0 <= i < self.worklist@.len() ==> is_terminal(#[trigger] self.worklist@[i].status)),
    {
        proof {
            lemma_all_terminal(self.worklist@);
        }
        self.end_num == self.worklist.len()
    }
}

/// A byte count in kilobytes, rounded to the nearest, halves up.
pub open spec fn kilobytes(bytes: nat) -> nat {
    (bytes + 512) / 1024
}

/// How many percent smaller the output is, rounded towards a larger output;
/// negative when it grew, and 0 when there was nothing to begin with.
pub open spec fn decrease_percent(original_kb: nat, final_kb: nat) -> int {
    if original_kb == 0 {
        0
    } else {
        100 - (final_kb * 100 / original_kb) as int
    }
}

/// Filled segments, out of 20, of the progress bar over the whole run.
pub open spec fn bar_filled(s: Seq<Work>) -> nat {
    if s.len() == 0 {
        0
    } else {
        progress_total(s) * 20 / (s.len() * PROGRESS_CONSTANT as nat)
    }
}

/// Percentage of the whole run done, rounded down.
pub open spec fn bar_percent(s: Seq<Work>) -> nat {
    if s.len() == 0 {
        0
    } else {
        progress_total(s) * 100 / (s.len() * PROGRESS_CONSTANT as nat)
    }
}

impl Optimization {
    /// The progress bar: filled segments out of 20 and the percentage done,
    /// the sum of the items' progress over the item count times the ceiling.
    pub fn progress_bar(&self) -> (r: (usize, usize))
        requires
            self.wf(),
        ensures
            r.0 == bar_filled(self.worklist@),
            r.1 == bar_percent(self.worklist@),
            r.0 <= 20,
            r.1 <= 100,
    {
        let n = self.worklist.len();
        if n == 0 {
            return (0, 0);
        }
        let mut sum: u128 = 0;
        let mut i: usize = 0;
        while i < n
            invariant
                self.wf(),
                n == self.worklist@.len(),
                i <= n,
                sum == progress_total(self.worklist@.subrange(0, i as int)),
                sum <= i * PROGRESS_CONSTANT,
            decreases n - i,
        {
            proof {
                let s = self.worklist@;
                assert(s.subrange(0, i + 1).drop_last() =~= s.subrange(0, i as int));
                assert(s.subrange(0, i + 1).last() == s[i as int]);
                assert(s[i as int].progress <= PROGRESS_CONSTANT);
                assert(i * PROGRESS_CONSTANT + PROGRESS_CONSTANT <= 0x1_0000_0000_0000_0000 * 110) by (nonlinear_arith)
                    requires
                        i < 0x1_0000_0000_0000_0000,
                ;
            }
            sum = sum + self.worklist[i].progress as u128;
            i = i + 1;
        }
        proof {
            assert(self.worklist@.subrange(0, n as int) =~= self.worklist@);
        }
        let total: u128 = n as u128 * 110;
        proof {
            let (a, t) = (sum as int, total as int);
            assert(a * 20 / t <= 20 && a * 100 / t <= 100) by {
                vstd::arithmetic::div_mod::lemma_div_is_ordered(a * 20, t * 20, t);
                vstd::arithmetic::div_mod::lemma_div_is_ordered(a * 100, t * 100, t);
                vstd::arithmetic::div_mod::lemma_div_by_multiple(20, t);
                vstd::arithmetic::div_mod::lemma_div_by_multiple(100, t);
                assert(a * 20 <= t * 20 && a * 100 <= t * 100) by (nonlinear_arith)
                    requires
                        a <= t,
                ;
                assert(t * 20 == 20 * t && t * 100 == 100 * t);
            }
        }
        ((sum * 20 / total) as usize, (sum * 100 / total) as usize)
    }

    /// Total size before and after the run, in kilobytes, and the decrease.
    pub fn size_change(&self) -> (r: SizeChange)
        ensures
            r.original_kb == kilobytes(original_total(self.worklist@)),
            r.final_kb == kilobytes(final_total(self.worklist@)),
            r.decrease_percent == decrease_percent(r.original_kb as nat, r.final_kb as nat),
    {
        let n = self.worklist.len();
        let mut original: u128 = 0;
        let mut fin: u128 = 0;
        let mut i: usize = 0;
        while i < n
            invariant
                n == self.worklist@.len(),
                i <= n,
                original == original_total(self.worklist@.subrange(0, i as int)),
                fin == final_total(self.worklist@.subrange(0, i as int)),
                original <= i * 0xFFFF_FFFF_FFFF_FFFF,
                fin <= i * 0xFFFF_FFFF_FFFF_FFFF,
            decreases n - i,
        {
            proof {
                let s = self.worklist@;
                assert(s.subrange(0, i + 1).drop_last() =~= s.subrange(0, i as int));
                assert(s.subrange(0, i + 1).last() == s[i as int]);
                assert((i + 1) * 0xFFFF_FFFF_FFFF_FFFF <= 0xFFFF_FFFF_FFFF_FFFF * 0xFFFF_FFFF_FFFF_FFFF)
                    by (nonlinear_arith)
                    requires
                        i < 0xFFFF_FFFF_FFFF_FFFF,
                ;
            }
            original = original + self.worklist[i].original_size as u128;
            fin = fin + self.worklist[i].size as u128;
            i = i + 1;
        }
        proof {
            assert(self.worklist@.subrange(0, n as int) =~= self.worklist@);
            assert(n * 0xFFFF_FFFF_FFFF_FFFF <= 0xFFFF_FFFF_FFFF_FFFF * 0xFFFF_FFFF_FFFF_FFFF) by (nonlinear_arith)
                requires
                    n <= 0xFFFF_FFFF_FFFF_FFFF,
            ;
        }
        let original_kb = (original + 512) / 1024;
        let final_kb = (fin + 512) / 1024;
        let decrease = if original_kb == 0 {
            0
        } else {
            100 - (final_kb * 100 / original_kb) as i128
        };
        SizeChange { original_kb, final_kb, decrease_percent: decrease }
    }
}

/// There are at most as many finished and completed items as items.
proof fn lemma_count_bound(s: Seq<Work>)
    ensures
        terminal_count(s) <= s.len(),
        completed_count(s) <= terminal_count(s),
    decreases s.len(),
{
    if s.len() > 0 {
        lemma_count_bound(s.drop_last());
    }
}

/// With no finished item, the finished count is 0.
proof fn lemma_none_terminal(s: Seq<Work>)
    requires
        forall|i: int| 0 <= i < s.len() ==> !is_terminal(#[trigger] s[i].status),
    ensures
        terminal_count(s) == 0,
    decreases s.len(),
{
    if s.len() > 0 {
        let p = s.drop_last();
        assert forall|i: int| 0 <= i < p.len() implies !is_terminal(#[trigger] p[i].status) by {
            assert(p[i] == s[i]);
        }
        lemma_none_terminal(p);
        assert(!is_terminal(s[s.len() - 1].status));
    }
}

/// All items are finished exactly when the finished items are as many as the items.
pub proof fn lemma_all_terminal(s: Seq<Work>)
    ensures
        (terminal_count(s) == s.len()) == (forall|i: int| 0 <= i < s.len() ==> is_terminal(#[trigger] s[i].status)),
    decreases s.len(),
{
    if s.len() > 0 {
        let p = s.drop_last();
        lemma_all_terminal(p);
        lemma_count_bound(p);
        if forall|i: int| 0 <= i < s.len() ==> is_terminal(#[trigger] s[i].status) {
            assert forall|i: int| 0 <= i < p.len() implies is_terminal(#[trigger] p[i].status) by {
                assert(p[i] == s[i]);
                assert(is_terminal(s[i].status));
            }
            assert(is_terminal(s[s.len() - 1].status));
        }
        if terminal_count(s) == s.len() {
            assert forall|i: int| 0 <= i < s.len() implies is_terminal(#[trigger] s[i].status) by {
                if i < p.len() {
                    assert(p[i] == s[i]);
                }
            }
        }
    }
}


/// Without an exclusion list, the worklist is made of exactly the files whose
/// name has the PNG extension, whatever the letter case of the extension.
pub proof fn lemma_worklist_counts_png_files(files: Seq<(String, String)>)
    ensures
        accepted_files(None, files) == files.filter(
            |f: (String, String)| has_png_extension(encode_utf8(f.1@)),
        ),
{
    let png = |f: (String, String)| has_png_extension(encode_utf8(f.1@));
    assert(accepts_file(None) =~= png);
}

/// Names that differ only in the letter case of ASCII letters either both have
/// the PNG extension or both lack it.
pub proof fn lemma_extension_case_insensitive(a: Seq<u8>, b: Seq<u8>)
    requires
        a.len() == b.len(),
        forall|k: int| 0 <= k < a.len() ==> ascii_lower(#[trigger] a[k]) == ascii_lower(b[k]),
    ensures
        has_png_extension(a) == has_png_extension(b),
{
    let n = a.len();
    if n >= 5 {
        assert(ascii_lower(a[n - 4]) == ascii_lower(b[n - 4]));
        assert(ascii_lower(a[n - 3]) == ascii_lower(b[n - 3]));
        assert(ascii_lower(a[n - 2]) == ascii_lower(b[n - 2]));
        assert(ascii_lower(a[n - 1]) == ascii_lower(b[n - 1]));
    }
}

/// No file whose name is on the exclusion list becomes a work item.
pub proof fn lemma_excluded_never_listed(exclude: Option<Vec<String>>, files: Seq<(String, String)>)
    ensures
        forall|k: int|
            0 <= k < accepted_files(exclude, files).len() ==> !is_excluded(
                exclude,
                (#[trigger] accepted_files(exclude, files)[k]).1@,
            ),
{
    broadcast use vstd::seq_lib::group_filter_ensures;

    assert forall|k: int| 0 <= k < accepted_files(exclude, files).len() implies !is_excluded(
        exclude,
        (#[trigger] accepted_files(exclude, files)[k]).1@,
    ) by {
        assert(accepts_file(exclude)(accepted_files(exclude, files)[k]));
    }
}

/// A file that the worker gives up on (`Pngquant::new` refuses every colour
/// mode but RGBA with `UnsupportedColorMode`) ends `Unhandled` once its report
/// is taken, with the sizes it had (none for a fresh item): the run counts it
/// as finished but not as processed.
pub proof fn lemma_refused_file_unhandled(before: Optimization, after: Optimization, id: usize, e: Error)
    requires
        before.wf(),
        id < before.worklist@.len(),
        before.worklist@[id as int].status == WorkStatus::Waiting,
        status_applied(before, after, status_of(id, Err(e))),
    ensures
        after.worklist@[id as int].status == WorkStatus::Unhandled,
        after.worklist@[id as int].original_size == before.worklist@[id as int].original_size,
        after.worklist@[id as int].size == before.worklist@[id as int].size,
        after.process_file_num == before.process_file_num,
        after.end_num == before.end_num + 1,
{
}

/// Some report names item `i`.
pub open spec fn is_reported(reports: Seq<Status>, i: int) -> bool {
    exists|k: int| 0 <= k < reports.len() && (#[trigger] reports[k]).id == i
}

/// One of the first `k` reports names item `i`.
pub open spec fn reported_before(reports: Seq<Status>, k: int, i: int) -> bool {
    exists|j: int| 0 <= j < k && (#[trigger] reports[j]).id == i
}

/// Once every item of a started run has sent its one final report, in any
/// order, the run is finished, its finished count is the number of items and
/// every item has ended.
pub proof fn lemma_run_completes(before: Optimization, reports: Seq<Status>, states: Seq<Optimization>)
    requires
        before.wf(),
        forall|i: int| 0 <= i < before.worklist@.len() ==> (#[trigger] before.worklist@[i]).status == WorkStatus::Waiting,
        reports.len() == before.worklist@.len(),
        forall|k: int| 0 <= k < reports.len() ==> (#[trigger] reports[k]).id < reports.len() && is_terminal(reports[k].status),
        forall|j: int, k: int| 0 <= j < k < reports.len() ==> (#[trigger] reports[j]).id != (#[trigger] reports[k]).id,
        forall|i: int| 0 <= i < reports.len() ==> #[trigger] is_reported(reports, i),
        states.len() == reports.len() + 1,
        states[0] == before,
        forall|k: int| 0 <= k < reports.len() ==> #[trigger] status_applied(states[k], states[k + 1], reports[k]),
    ensures
        states.last().end_num == before.worklist@.len(),
        forall|i: int|
            0 <= i < states.last().worklist@.len() ==> is_terminal(#[trigger] states.last().worklist@[i].status),
{
    let n = reports.len() as int;
    lemma_run_prefix(before, reports, states, n);
    let last = states[n];
    assert forall|i: int| 0 <= i < last.worklist@.len() implies is_terminal(#[trigger] last.worklist@[i].status) by {
        assert(is_reported(reports, i));
        let k = choose|k: int| 0 <= k < n && (#[trigger] reports[k]).id == i;
        assert(is_terminal(last.worklist@[reports[k].id as int].status));
    }
}

/// After the first `k` reports, the items they name have ended and every
/// other item still waits.
proof fn lemma_run_prefix(before: Optimization, reports: Seq<Status>, states: Seq<Optimization>, k: int)
    requires
        before.wf(),
        forall|i: int| 0 <= i < before.worklist@.len() ==> (#[trigger] before.worklist@[i]).status == WorkStatus::Waiting,
        reports.len() == before.worklist@.len(),
        forall|k: int| 0 <= k < reports.len() ==> (#[trigger] reports[k]).id < reports.len() && is_terminal(reports[k].status),
        forall|j: int, k: int| 0 <= j < k < reports.len() ==> (#[trigger] reports[j]).id != (#[trigger] reports[k]).id,
        states.len() == reports.len() + 1,
        states[0] == before,
        forall|j: int| 0 <= j < reports.len() ==> #[trigger] status_applied(states[j], states[j + 1], reports[j]),
        0 <= k <= reports.len(),
    ensures
        states[k].wf(),
        states[k].worklist@.len() == reports.len(),
        states[k].end_num == k,
        forall|j: int| 0 <= j < k ==> is_terminal(states[k].worklist@[(#[trigger] reports[j]).id as int].status),
        forall|i: int|
            0 <= i < reports.len() ==> (#[trigger] states[k].worklist@[i]).status == WorkStatus::Waiting
                || reported_before(reports, k, i),
    decreases k,
{
    if k > 0 {
        let j = k - 1;
        lemma_run_prefix(before, reports, states, j);
        let (a, b) = (states[j], states[j + 1]);
        let m = reports[j].id as int;
        assert(status_applied(a, b, reports[j]));
        if a.worklist@[m].status != WorkStatus::Waiting {
            assert(reported_before(reports, j, m));
            let jj = choose|jj: int| 0 <= jj < j && (#[trigger] reports[jj]).id == m;
            assert(reports[jj].id != reports[j].id);
        }
        assert(status_applies(a.worklist@, reports[j]));
        lemma_status_step_keeps_wf(a, b, reports[j]);
        assert forall|jj: int| 0 <= jj < k implies is_terminal(b.worklist@[(#[trigger] reports[jj]).id as int].status) by {
            if jj != j {
                assert(reports[jj].id != reports[j].id);
                assert(b.worklist@[reports[jj].id as int] == a.worklist@[reports[jj].id as int]);
            }
        }
        assert forall|i: int| 0 <= i < reports.len() implies (#[trigger] b.worklist@[i]).status == WorkStatus::Waiting
            || reported_before(reports, k, i) by {
            if i != m {
                assert(b.worklist@[i] == a.worklist@[i]);
                if a.worklist@[i].status != WorkStatus::Waiting {
                    assert(reported_before(reports, j, i));
                    let jj = choose|jj: int| 0 <= jj < j && (#[trigger] reports[jj]).id == i;
                    assert(reports[jj].id == i);
                }
            } else {
                assert(reports[j].id == i);
            }
        }
    } else {
        lemma_none_terminal(before.worklist@);
    }
}

/// Taking a status report keeps the run well formed.
pub proof fn lemma_status_step_keeps_wf(before: Optimization, after: Optimization, m: Status)
    requires
        before.wf(),
        status_applied(before, after, m),
    ensures
        after.wf(),
{
    if status_applies(before.worklist@, m) {
        let i = m.id as int;
        let w = after.worklist@[i];
        assert(after.worklist@ =~= before.worklist@.update(i, w));
        lemma_sum_by_update(before.worklist@, i, w, terminal_weight());
        lemma_sum_by_update(before.worklist@, i, w, completed_weight());
    }
}

} // verus!

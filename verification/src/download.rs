//! The bounded download stage: a scheduler that hands out at most a
//! configured number of fetches at a time. The caller performs each fetch —
//! writing the bytes to the task's own staged file — and reports every
//! completion back, so no two in-flight tasks ever share an output file and
//! the number in flight never exceeds the bound.

use crate::records::EmoteRecord;
use vstd::prelude::*;

verus! {

/// One asset to fetch: the platform's asset identifier — from which the
/// asset URL is built — and the record's identifier, which names the staged
/// file the bytes belong in.
pub struct DownloadTask {
    pub asset_id: String,
    pub identifier: u32,
}

/// Hands out download tasks in catalogue order while never letting more than
/// a fixed number be in flight at once. Tasks beyond the bound wait until a
/// completion frees a slot.
pub struct DownloadScheduler {
    queue: Vec<DownloadTask>,
    in_flight_count: usize,
    limit: usize,
}

impl DownloadScheduler {
    /// The tasks not yet handed out, in order.
    pub closed spec fn pending(self) -> Seq<DownloadTask> {
        self.queue@
    }

    /// How many handed-out tasks have not been reported finished.
    pub closed spec fn in_flight(self) -> nat {
        self.in_flight_count as nat
    }

    /// The configured bound on simultaneous fetches.
    pub closed spec fn bound(self) -> nat {
        self.limit as nat
    }

    /// The scheduler's invariant: the bound is at least one, and the number
    /// in flight never exceeds it.
    pub open spec fn wf(self) -> bool {
        1 <= self.bound() && self.in_flight() <= self.bound()
    }

    /// A scheduler over `tasks` that will keep at most `limit` fetches in
    /// flight.
    pub fn new(tasks: Vec<DownloadTask>, limit: usize) -> (s: Self)
        requires
            limit >= 1,
        ensures
            s.wf(),
            s.pending() == tasks@,
            s.in_flight() == 0,
            s.bound() == limit as nat,
    {
        DownloadScheduler { queue: tasks, in_flight_count: 0, limit }
    }

    /// Hands out the next pending task if a slot is free: the task leaves the
    /// queue and counts as in flight. Returns nothing — and changes nothing —
    /// when every slot is taken or no task is pending.
    pub fn start_next(&mut self) -> (t: Option<DownloadTask>)
        requires
            old(self).wf(),
        ensures
            final(self).wf(),
            final(self).bound() == old(self).bound(),
            old(self).in_flight() < old(self).bound() && old(self).pending().len() > 0 ==> (t
                matches Some(task) && task == old(self).pending()[0] && final(self).pending()
                == old(self).pending().drop_first() && final(self).in_flight() == old(
                self,
            ).in_flight() + 1),
            !(old(self).in_flight() < old(self).bound() && old(self).pending().len() > 0) ==> (t
                is None && final(self).pending() == old(self).pending() && final(self).in_flight()
                == old(self).in_flight()),
    {
        if self.in_flight_count < self.limit && self.queue.len() > 0 {
            let task = self.queue.remove(0);
            self.in_flight_count = self.in_flight_count + 1;
            proof {
                assert(self.queue@ =~= old(self).queue@.drop_first());
            }
            Some(task)
        } else {
            None
        }
    }

    /// Records that one handed-out fetch finished, freeing its slot.
    pub fn finish_one(&mut self)
        requires
            old(self).wf(),
            old(self).in_flight() > 0,
        ensures
            final(self).wf(),
            final(self).bound() == old(self).bound(),
            final(self).pending() == old(self).pending(),
            final(self).in_flight() == old(self).in_flight() - 1,
    {
        self.in_flight_count = self.in_flight_count - 1;
    }

    /// How many tasks are in flight right now.
    pub fn in_flight_now(&self) -> (n: usize)
        ensures
            n as nat == self.in_flight(),
    {
        self.in_flight_count
    }

    /// How many tasks still wait in the queue.
    pub fn pending_now(&self) -> (n: usize)
        ensures
            n as nat == self.pending().len(),
    {
        self.queue.len()
    }

    /// Whether every task has been handed out and reported finished.
    pub fn is_done(&self) -> (b: bool)
        ensures
            b == (self.pending().len() == 0 && self.in_flight() == 0),
    {
        self.queue.len() == 0 && self.in_flight_count == 0
    }
}

/// Law: at no point are more fetches in flight than the configured bound —
/// the invariant every scheduler operation is proved to preserve.
pub proof fn lemma_in_flight_bounded(s: DownloadScheduler)
    requires
        s.wf(),
    ensures
        s.in_flight() <= s.bound(),
{
}

/// The download task of every remote record, in catalogue order.
pub open spec fn task_list(rs: Seq<EmoteRecord>) -> Seq<DownloadTask> {
    Seq::new(
        rs.len(),
        |i: int| DownloadTask { asset_id: rs[i].remote_asset_id->0, identifier: rs[i].identifier },
    )
}

/// Pairs every remote record's asset identifier with its codepoint
/// identifier, ready for the download stage.
#[verifier::loop_isolation(false)]
pub fn download_tasks(records: &Vec<EmoteRecord>) -> (r: Vec<DownloadTask>)
    requires
        forall|i: int| 0 <= i < records@.len() ==> (#[trigger] records@[i]).remote_asset_id is Some,
    ensures
        r@ == task_list(records@),
{
    let n = records.len();
    let mut out: Vec<DownloadTask> = Vec::new();
    let mut i: usize = 0;
    while i < n
        invariant
            i <= n,
            out@ == task_list(records@).take(i as int),
        decreases n - i,
    {
        let asset_id = match &records[i].remote_asset_id {
            Some(s) => s.clone(),
            None => {
                proof {
                    assert(false);
                }
                String::new()
            },
        };
        out.push(DownloadTask { asset_id, identifier: records[i].identifier });
        proof {
            assert(task_list(records@).take(i as int + 1) =~= task_list(records@).take(
                i as int,
            ).push(
                DownloadTask {
                    asset_id: records@[i as int].remote_asset_id->0,
                    identifier: records@[i as int].identifier,
                },
            ));
        }
        i = i + 1;
    }
    proof {
        assert(task_list(records@).take(n as int) =~= task_list(records@));
    }
    out
}

} // verus!

use crate::capture::{CaptureWork, CaptureWorkType};
use std::collections::HashMap;
use vstd::multiset::Multiset;
use vstd::prelude::*;

verus! {

broadcast use {vstd::std_specs::hash::group_hash_axioms, vstd::seq_lib::group_to_multiset_ensures};

/// Hands out capture work to clients, lowest index first within each work type.
pub struct WorkQueue {
    /// Pending work of type `Normal`
    pub normal_work: Vec<CaptureWork>,
    /// Pending work of type `Tor`
    pub tor_work: Vec<CaptureWork>,
    /// Client IDs and the work types that each supports, in order of preference
    pub clients: HashMap<u64, Vec<CaptureWorkType>>,
    /// The last client ID handed out
    pub cur_client_id: u64,
}

/// The work of type `t` among `items`.
pub open spec fn work_of_type(items: Seq<(CaptureWorkType, CaptureWork)>, t: CaptureWorkType) -> Multiset<
    CaptureWork,
>
    decreases items.len(),
{
    if items.len() == 0 {
        Multiset::empty()
    } else {
        let rest = work_of_type(items.drop_last(), t);
        if items.last().0 == t {
            rest.insert(items.last().1)
        } else {
            rest
        }
    }
}

/// `w` is in `s` and no work in `s` has a lower index.
pub open spec fn is_first_in_line(s: Seq<CaptureWork>, w: CaptureWork) -> bool {
    s.contains(w) && forall|i: int| 0 <= i < s.len() ==> w.index <= #[trigger] s[i].index
}

/// Removes and returns the work with the lowest index.
fn pop_first_in_line(queue: &mut Vec<CaptureWork>) -> (r: CaptureWork)
    requires
        old(queue)@.len() > 0,
    ensures
        is_first_in_line(old(queue)@, r),
        final(queue)@.to_multiset() == old(queue)@.to_multiset().remove(r),
{
    let ghost q = queue@;
    let mut best: usize = 0;
    let mut i: usize = 1;
    while i < queue.len()
        invariant
            queue@ == q,
            0 <= best < i <= q.len(),
            forall|j: int| 0 <= j < i ==> q[best as int].index <= #[trigger] q[j].index,
        decreases q.len() - i,
    {
        if queue[i].index < queue[best].index {
            best = i;
        }
        i = i + 1;
    }
    let r = queue.remove(best);
    assert(q.remove(best as int).to_multiset() == q.to_multiset().remove(q[best as int]));
    assert(q.contains(r)) by {
        assert(q[best as int] == r);
    }
    r
}

impl WorkQueue {
    /// The pending work of type `t`.
    pub open spec fn queue(&self, t: CaptureWorkType) -> Seq<CaptureWork> {
        match t {
            CaptureWorkType::Normal => self.normal_work@,
            CaptureWorkType::Tor => self.tor_work@,
        }
    }

    /// The first of `types` with pending work.
    pub open spec fn first_with_work(&self, types: Seq<CaptureWorkType>) -> Option<CaptureWorkType>
        decreases types.len(),
    {
        if types.len() == 0 {
            None
        } else if self.queue(types[0]).len() > 0 {
            Some(types[0])
        } else {
            self.first_with_work(types.drop_first())
        }
    }

    /// Creates a work queue holding `items`, with no clients.
    pub fn from_work(items: Vec<(CaptureWorkType, CaptureWork)>) -> (r: Self)
        ensures
            r.queue(CaptureWorkType::Normal).to_multiset() == work_of_type(
                items@,
                CaptureWorkType::Normal,
            ),
            r.queue(CaptureWorkType::Tor).to_multiset() == work_of_type(items@, CaptureWorkType::Tor),
            r.clients@ == Map::<u64, Vec<CaptureWorkType>>::empty(),
            r.cur_client_id == 0,
    {
        let mut q = WorkQueue {
            normal_work: Vec::new(),
            tor_work: Vec::new(),
            clients: HashMap::new(),
            cur_client_id: 0,
        };
        let ghost all = items@;
        let mut rest = items;
        assert(q.normal_work@.to_multiset() =~= Multiset::empty());
        assert(q.tor_work@.to_multiset() =~= Multiset::empty());
        while rest.len() > 0
            invariant
                q.normal_work@.to_multiset().add(work_of_type(rest@, CaptureWorkType::Normal))
                    == work_of_type(all, CaptureWorkType::Normal),
                q.tor_work@.to_multiset().add(work_of_type(rest@, CaptureWorkType::Tor))
                    == work_of_type(all, CaptureWorkType::Tor),
                q.clients@ == Map::<u64, Vec<CaptureWorkType>>::empty(),
                q.cur_client_id == 0,
            decreases rest@.len(),
        {
            let ghost before = rest@;
            let item = rest.pop().unwrap();
            assert(before.drop_last() =~= rest@);
            let ghost qn = q.normal_work@;
            let ghost qt = q.tor_work@;
            let (t, w) = item;
            assert(before.last() == (t, w));
            q.add_work(t, w);
            if t == CaptureWorkType::Normal {
                assert(q.normal_work@ == qn.push(w));
                assert(q.queue(CaptureWorkType::Tor) == qt);
                assert(qn.push(w).to_multiset() == qn.to_multiset().insert(w));
            } else {
                assert(q.tor_work@ == qt.push(w));
                assert(q.queue(CaptureWorkType::Normal) == qn);
                assert(qt.push(w).to_multiset() == qt.to_multiset().insert(w));
            }
            assert(q.normal_work@.to_multiset().add(work_of_type(rest@, CaptureWorkType::Normal))
                =~= qn.to_multiset().add(work_of_type(before, CaptureWorkType::Normal)));
            assert(q.tor_work@.to_multiset().add(work_of_type(rest@, CaptureWorkType::Tor))
                =~= qt.to_multiset().add(work_of_type(before, CaptureWorkType::Tor)));
        }
        assert(q.normal_work@.to_multiset() =~= work_of_type(all, CaptureWorkType::Normal));
        assert(q.tor_work@.to_multiset() =~= work_of_type(all, CaptureWorkType::Tor));
        q
    }

    /// Adds a client supporting `work_types`, in order of preference, and
    /// returns its new ID.
    pub fn add_client(&mut self, work_types: Vec<CaptureWorkType>) -> (r: u64)
        requires
            old(self).cur_client_id < u64::MAX,
        ensures
            r == old(self).cur_client_id + 1,
            final(self).cur_client_id == r,
            final(self).clients@ == old(self).clients@.insert(r, work_types),
            final(self).normal_work@ == old(self).normal_work@,
            final(self).tor_work@ == old(self).tor_work@,
    {
        self.cur_client_id = self.cur_client_id + 1;
        self.clients.insert(self.cur_client_id, work_types);
        self.cur_client_id
    }

    /// Removes a client.
    pub fn remove_client(&mut self, client_id: u64)
        ensures
            final(self).clients@ == old(self).clients@.remove(client_id),
            final(self).cur_client_id == old(self).cur_client_id,
            final(self).normal_work@ == old(self).normal_work@,
            final(self).tor_work@ == old(self).tor_work@,
    {
        self.clients.remove(&client_id);
    }

    /// Returns the number of active clients.
    pub fn num_clients(&self) -> (r: usize)
        ensures
            r == self.clients@.len(),
    {
        self.clients.len()
    }

    /// Hands the client the lowest-indexed work of the first of its work
    /// types that has any.
    pub fn request_work(&mut self, client_id: u64) -> (r: Option<(CaptureWorkType, CaptureWork)>)
        ensures
            final(self).clients@ == old(self).clients@,
            final(self).cur_client_id == old(self).cur_client_id,
            !old(self).clients@.contains_key(client_id) ==> r is None && final(self).normal_work@
                == old(self).normal_work@ && final(self).tor_work@ == old(self).tor_work@,
            old(self).clients@.contains_key(client_id) ==> match old(self).first_with_work(
                old(self).clients@[client_id]@,
            ) {
                None => r is None && final(self).normal_work@ == old(self).normal_work@
                    && final(self).tor_work@ == old(self).tor_work@,
                Some(t) => r matches Some((rt, w)) && rt == t && is_first_in_line(
                    old(self).queue(t),
                    w,
                ) && final(self).queue(t).to_multiset() == old(self).queue(t).to_multiset().remove(w)
                    && (forall|u: CaptureWorkType| u != t ==> #[trigger] final(self).queue(u) == old(
                    self,
                ).queue(u)),
            },
    {
        let types = match self.clients.get(&client_id) {
            Some(types) => types,
            None => return None,
        };
        let ghost ts = types@;
        let mut i: usize = 0;
        assert(ts.skip(0) =~= ts);
        while i < types.len()
            invariant
                0 <= i <= ts.len(),
                ts == types@,
                old(self).clients@.contains_key(client_id),
                ts == old(self).clients@[client_id]@,
                self.clients@ == old(self).clients@,
                self.cur_client_id == old(self).cur_client_id,
                self.normal_work@ == old(self).normal_work@,
                self.tor_work@ == old(self).tor_work@,
                old(self).first_with_work(ts) == old(self).first_with_work(ts.skip(i as int)),
            decreases ts.len() - i,
        {
            let t = types[i];
            assert(ts.skip(i as int)[0] == t);
            assert(ts.skip(i as int).drop_first() =~= ts.skip(i + 1));
            match t {
                CaptureWorkType::Normal => {
                    if self.normal_work.len() > 0 {
                        let w = pop_first_in_line(&mut self.normal_work);
                        return Some((t, w));
                    }
                },
                CaptureWorkType::Tor => {
                    if self.tor_work.len() > 0 {
                        let w = pop_first_in_line(&mut self.tor_work);
                        return Some((t, w));
                    }
                },
            }
            i = i + 1;
        }
        None
    }

    /// Takes a worker's report: a successful report is handed back to be
    /// recorded; the work of a failed one goes back in the queue.
    pub fn accept_report(&mut self, report: WorkReportRequest<CaptureWorkType, CaptureWork>) -> (r:
        Option<WorkReportRequest<CaptureWorkType, CaptureWork>>)
        ensures
            final(self).clients@ == old(self).clients@,
            final(self).cur_client_id == old(self).cur_client_id,
            report.success ==> r == Some(report) && final(self).normal_work@ == old(
                self,
            ).normal_work@ && final(self).tor_work@ == old(self).tor_work@,
            !report.success ==> r is None && final(self).queue(report.work_type) == old(self).queue(
                report.work_type,
            ).push(report.work) && forall|u: CaptureWorkType|
                u != report.work_type ==> #[trigger] final(self).queue(u) == old(self).queue(u),
    {
        if report.success {
            Some(report)
        } else {
            self.add_work(report.work_type, report.work);
            None
        }
    }

    /// Removes a client; true when no client remains and the service should shut down.
    pub fn remove_client_was_last(&mut self, client_id: u64) -> (r: bool)
        ensures
            final(self).clients@ == old(self).clients@.remove(client_id),
            final(self).cur_client_id == old(self).cur_client_id,
            final(self).normal_work@ == old(self).normal_work@,
            final(self).tor_work@ == old(self).tor_work@,
            r == (final(self).clients@.len() == 0),
    {
        self.remove_client(client_id);
        self.num_clients() == 0
    }

    /// Adds work to the queue of its type.
    pub fn add_work(&mut self, work_type: CaptureWorkType, work_item: CaptureWork)
        ensures
            final(self).queue(work_type) == old(self).queue(work_type).push(work_item),
            forall|u: CaptureWorkType| u != work_type ==> #[trigger] final(self).queue(u) == old(
                self,
            ).queue(u),
            final(self).clients@ == old(self).clients@,
            final(self).cur_client_id == old(self).cur_client_id,
    {
        match work_type {
            CaptureWorkType::Normal => self.normal_work.push(work_item),
            CaptureWorkType::Tor => self.tor_work.push(work_item),
        }
    }
}

/// Request body of POST /work/get.
pub struct WorkRequest {
    pub client_id: u64,
}

/// Response body of POST /work/get.
pub struct WorkResponse<T, W> {
    pub success: bool,
    pub work_type: T,
    pub work: W,
    pub error: Option<String>,
}

/// Request body of POST /work/report.
#[derive(Debug)]
pub struct WorkReportRequest<T, W> {
    /// Whether the worker succeeded
    pub success: bool,
    /// Type of work attempted
    pub work_type: T,
    /// Work completed
    pub work: W,
    /// This is the Nth reported work of this type by the worker, from 1
    pub type_index: u64,
    /// When the work started (unix timestamp in nanoseconds)
    pub start_time: u64,
    /// When the work finished (unix timestamp in nanoseconds)
    pub finish_time: u64,
}

/// Response body of POST /work/report.
pub struct WorkReportResponse {
    pub success: bool,
    pub error: Option<String>,
}

/// Request body of POST /client/add.
pub struct AddClientRequest<T> {
    pub work_types: Vec<T>,
}

/// Response body of POST /client/add.
pub struct AddClientResponse {
    pub success: bool,
    pub client_id: u64,
    pub error: Option<String>,
}

/// Request body of POST /client/remove.
pub struct RemoveClientRequest {
    pub client_id: u64,
}

/// Response body of POST /client/remove.
pub struct RemoveClientResponse {
    pub success: bool,
    pub error: Option<String>,
}

} // verus!

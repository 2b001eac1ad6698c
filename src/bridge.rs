//! The approval queue: requests that gate automated actions, each pending,
//! approved or rejected, and the auto-approve switch.
use vstd::prelude::*;

verus! {

/// Where a request stands.
#[derive(Clone, Copy, Debug, PartialEq, Eq, Structural)]
pub enum RequestStatus {
    Pending,
    Approved,
    Rejected,
}

/// The status that a stored status text stands for: `approved` and
/// `rejected` name theirs, any other text reads as pending.
pub open spec fn status_of_text(t: Seq<char>) -> RequestStatus {
    if t == "approved"@ {
        RequestStatus::Approved
    } else if t == "rejected"@ {
        RequestStatus::Rejected
    } else {
        RequestStatus::Pending
    }
}

/// The text under which a status is stored.
pub open spec fn text_of_status(st: RequestStatus) -> Seq<char> {
    match st {
        RequestStatus::Pending => "pending"@,
        RequestStatus::Approved => "approved"@,
        RequestStatus::Rejected => "rejected"@,
    }
}

/// Reads a stored status text.
pub fn status_from_text(t: &str) -> (r: RequestStatus)
    ensures
        r == status_of_text(t@),
{
    let text = String::from_str(t);
    if text.eq(&String::from_str("approved")) {
        RequestStatus::Approved
    } else if text.eq(&String::from_str("rejected")) {
        RequestStatus::Rejected
    } else {
        RequestStatus::Pending
    }
}

/// The text under which a status is stored.
pub fn status_to_text(st: RequestStatus) -> (r: String)
    ensures
        r@ == text_of_status(st),
{
    match st {
        RequestStatus::Pending => String::from_str("pending"),
        RequestStatus::Approved => String::from_str("approved"),
        RequestStatus::Rejected => String::from_str("rejected"),
    }
}

pub struct BridgeRequest {
    pub id: String,
    pub message: String,
    pub status: RequestStatus,
}

pub struct BridgeData {
    pub requests: Vec<BridgeRequest>,
    pub auto_approve: bool,
}

/// True when `i` is the first position of a request with this id.
pub open spec fn is_first_with_id(reqs: Seq<BridgeRequest>, id: Seq<char>, i: int) -> bool {
    0 <= i < reqs.len() && reqs[i].id@ == id && forall|j: int| 0 <= j < i ==> reqs[j].id@ != id
}

/// The requests after the first one with this id is given status `st`; the
/// same requests when no request has this id.
pub open spec fn with_status(reqs: Seq<BridgeRequest>, id: Seq<char>, st: RequestStatus) -> Seq<
    BridgeRequest,
> {
    Seq::new(
        reqs.len(),
        |i: int|
            if is_first_with_id(reqs, id, i) {
                BridgeRequest { id: reqs[i].id, message: reqs[i].message, status: st }
            } else {
                reqs[i]
            },
    )
}

/// No two requests share an id.
pub open spec fn unique_ids(reqs: Seq<BridgeRequest>) -> bool {
    forall|i: int, j: int| 0 <= i < j < reqs.len() ==> reqs[i].id@ != reqs[j].id@
}

/// The requests after each decision of `ops` (an id and the status it sets)
/// was applied, in order.
pub open spec fn apply_decisions(
    reqs: Seq<BridgeRequest>,
    ops: Seq<(Seq<char>, RequestStatus)>,
) -> Seq<BridgeRequest>
    decreases ops.len(),
{
    if ops.len() == 0 {
        reqs
    } else {
        let last = ops.last();
        with_status(apply_decisions(reqs, ops.drop_last()), last.0, last.1)
    }
}

/// The status that the last decision of `ops` on this id sets, or `initial`
/// when no decision names it.
pub open spec fn last_decision(
    ops: Seq<(Seq<char>, RequestStatus)>,
    id: Seq<char>,
    initial: RequestStatus,
) -> RequestStatus
    decreases ops.len(),
{
    if ops.len() == 0 {
        initial
    } else if ops.last().0 == id {
        ops.last().1
    } else {
        last_decision(ops.drop_last(), id, initial)
    }
}

/// After any sequence of approve and reject decisions by id, each request
/// keeps its id and message, and its status is the one that the last decision
/// naming its id set (its former status if none did); decisions on unknown ids
/// change nothing.
pub proof fn lemma_last_decision_wins(
    reqs: Seq<BridgeRequest>,
    ops: Seq<(Seq<char>, RequestStatus)>,
)
    requires
        unique_ids(reqs),
    ensures
        apply_decisions(reqs, ops).len() == reqs.len(),
        forall|i: int|
            0 <= i < reqs.len() ==> {
                &&& #[trigger] apply_decisions(reqs, ops)[i].id == reqs[i].id
                &&& apply_decisions(reqs, ops)[i].message == reqs[i].message
                &&& apply_decisions(reqs, ops)[i].status == last_decision(
                    ops,
                    reqs[i].id@,
                    reqs[i].status,
                )
            },
    decreases ops.len(),
{
    if ops.len() > 0 {
        lemma_last_decision_wins(reqs, ops.drop_last());
        let prev = apply_decisions(reqs, ops.drop_last());
        let last = ops.last();
        assert forall|i: int| 0 <= i < reqs.len() implies #[trigger] apply_decisions(
            reqs,
            ops,
        )[i].id == reqs[i].id && apply_decisions(reqs, ops)[i].message == reqs[i].message
            && apply_decisions(reqs, ops)[i].status == last_decision(
            ops,
            reqs[i].id@,
            reqs[i].status,
        ) by {
            assert(prev[i].id == reqs[i].id);
            if reqs[i].id@ == last.0 {
                assert forall|j: int| 0 <= j < i implies prev[j].id@ != last.0 by {
                    assert(prev[j].id == reqs[j].id);
                }
                assert(is_first_with_id(prev, last.0, i));
            } else {
                assert(!is_first_with_id(prev, last.0, i));
            }
        }
    }
}

impl BridgeData {
    /// An empty queue with auto-approve on.
    pub fn new() -> (r: BridgeData)
        ensures
            r.requests@.len() == 0,
            r.auto_approve,
    {
        BridgeData { requests: Vec::new(), auto_approve: true }
    }

    pub fn set_auto_approve(&mut self, enabled: bool)
        ensures
            final(self).auto_approve == enabled,
            final(self).requests@ == old(self).requests@,
    {
        self.auto_approve = enabled;
    }

    /// Gives the first request with this id status `st`; no-op when none has it.
    pub fn decide(&mut self, id: &String, st: RequestStatus)
        ensures
            final(self).requests@ == with_status(old(self).requests@, id@, st),
            final(self).auto_approve == old(self).auto_approve,
    {
        let ghost reqs = self.requests@;
        let mut i: usize = 0;
        let mut found: bool = false;
        while i < self.requests.len() && !found
            invariant
                self.requests@ == reqs,
                i <= reqs.len(),
                found ==> i < reqs.len() && is_first_with_id(reqs, id@, i as int),
                !found ==> forall|j: int| 0 <= j < i ==> reqs[j].id@ != id@,
            decreases reqs.len() - i + if found { 0int } else { 1int },
        {
            if self.requests[i].id.eq(id) {
                found = true;
            } else {
                i = i + 1;
            }
        }
        if found {
            let old_req = self.requests.remove(i);
            let updated = BridgeRequest { id: old_req.id, message: old_req.message, status: st };
            self.requests.insert(i, updated);
            proof {
                assert forall|j: int| 0 <= j < reqs.len() && j != i implies !is_first_with_id(
                    reqs,
                    id@,
                    j,
                ) by {
                    if j > i {
                        assert(reqs[i as int].id@ == id@);
                    }
                }
            }
        }
        assert(self.requests@ =~= with_status(reqs, id@, st));
    }

    /// Marks the request with this id approved; no-op when no request has it.
    pub fn approve_request(&mut self, id: &String)
        ensures
            final(self).requests@ == with_status(
                old(self).requests@,
                id@,
                RequestStatus::Approved,
            ),
            final(self).auto_approve == old(self).auto_approve,
    {
        self.decide(id, RequestStatus::Approved)
    }

    /// Marks the request with this id rejected; no-op when no request has it.
    pub fn reject_request(&mut self, id: &String)
        ensures
            final(self).requests@ == with_status(
                old(self).requests@,
                id@,
                RequestStatus::Rejected,
            ),
            final(self).auto_approve == old(self).auto_approve,
    {
        self.decide(id, RequestStatus::Rejected)
    }
}

impl Default for BridgeData {
    fn default() -> (r: BridgeData)
        ensures
            r.requests@.len() == 0,
            r.auto_approve,
    {
        BridgeData::new()
    }
}

} // verus!

//! Session selection for the client pool that multiplexes request/response
//! sessions over a single peer connection.
//!
//! The pool creates sessions lazily, up to its cap. Each acquisition takes
//! the usable session with the fewest calls in flight, the earliest
//! winning ties; when no session is usable and the cap is not reached, a
//! new session is created.

use vstd::prelude::*;

verus! {

/// Bookkeeping of one client session.
#[derive(Debug, Clone, Copy, PartialEq, Eq, Structural)]
pub struct SessionStat {
    /// Identifier of the session.
    pub id: u64,
    /// Calls currently in flight on it.
    pub in_flight: u64,
    /// Whether the session still accepts calls.
    pub usable: bool,
}

/// What an acquisition should do.
#[derive(Debug, Clone, Copy, PartialEq, Eq, Structural)]
pub enum AcquireDecision {
    /// Use the existing session with this identifier.
    UseSession(u64),
    /// Open a new session; the cap leaves room.
    CreateNew,
    /// Every session is unusable and the cap is reached.
    Unavailable,
}

/// The least-loaded scan from index `i`, carrying the best so far (`-1`
/// for none): the usable session with the fewest calls in flight, earlier
/// index winning ties.
pub open spec fn least_loaded_from(s: Seq<SessionStat>, i: int, cur: int) -> int
    decreases s.len() - i,
{
    if i < 0 || i >= s.len() {
        cur
    } else {
        let better = s[i].usable && (cur < 0 || s[i].in_flight < s[cur].in_flight);
        least_loaded_from(s, i + 1, if better {
            i
        } else {
            cur
        })
    }
}

/// The state of the session pool.
#[derive(Debug)]
pub struct RpcClientPoolState {
    /// The sessions, in creation order.
    pub sessions: Vec<SessionStat>,
    /// The largest number of sessions the pool may hold.
    pub max_sessions: usize,
}

impl RpcClientPoolState {
    /// An empty pool with the given cap.
    pub fn new(max_sessions: usize) -> (r: RpcClientPoolState)
        ensures
            r.sessions@ =~= Seq::<SessionStat>::empty(),
            r.max_sessions == max_sessions,
    {
        RpcClientPoolState { sessions: Vec::new(), max_sessions }
    }

    /// Decides how to serve an acquisition: the least-loaded usable
    /// session; a new session when none is usable and the cap leaves room;
    /// otherwise nothing.
    pub fn acquire_decision(&self) -> (r: AcquireDecision)
        ensures
            ({
                let best = least_loaded_from(self.sessions@, 0, -1);
                if 0 <= best < self.sessions@.len() {
                    r == AcquireDecision::UseSession(self.sessions@[best].id)
                } else if self.sessions@.len() < self.max_sessions {
                    r == AcquireDecision::CreateNew
                } else {
                    r == AcquireDecision::Unavailable
                }
            }),
    {
        let ghost s = self.sessions@;
        let mut cur: usize = 0;
        let mut have: bool = false;
        let mut i: usize = 0;
        while i < self.sessions.len()
            invariant
                0 <= i <= s.len(),
                s == self.sessions@,
                have ==> 0 <= cur < s.len(),
                least_loaded_from(s, 0, -1) == least_loaded_from(
                    s,
                    i as int,
                    if have {
                        cur as int
                    } else {
                        -1
                    },
                ),
            decreases s.len() - i,
        {
            let st = &self.sessions[i];
            let better = st.usable && (!have || st.in_flight < self.sessions[cur].in_flight);
            if better {
                cur = i;
                have = true;
            }
            i += 1;
        }
        if have {
            AcquireDecision::UseSession(self.sessions[cur].id)
        } else {
            proof {
                lemma_least_loaded_none(s, 0, -1);
            }
            if self.sessions.len() < self.max_sessions {
                AcquireDecision::CreateNew
            } else {
                AcquireDecision::Unavailable
            }
        }
    }

    /// Records a freshly created session with no calls in flight.
    pub fn session_created(&mut self, id: u64)
        requires
            old(self).sessions@.len() < old(self).max_sessions,
        ensures
            final(self).sessions@ =~= old(self).sessions@.push(
                SessionStat { id, in_flight: 0, usable: true },
            ),
            final(self).max_sessions == old(self).max_sessions,
    {
        self.sessions.push(SessionStat { id, in_flight: 0, usable: true });
    }
}

/// A scan that carries no candidate and finds none answers `-1`, and then
/// no session is usable.
pub proof fn lemma_least_loaded_none(s: Seq<SessionStat>, i: int, cur: int)
    requires
        0 <= i,
        cur == -1 || 0 <= cur < s.len(),
    ensures
        cur >= 0 ==> least_loaded_from(s, i, cur) >= 0,
        least_loaded_from(s, i, cur) == -1 ==> forall|j: int|
            i <= j < s.len() ==> !(#[trigger] s[j].usable),
    decreases s.len() - i,
{
    if 0 <= i < s.len() {
        let better = s[i].usable && (cur < 0 || s[i].in_flight < s[cur].in_flight);
        lemma_least_loaded_none(s, i + 1, if better {
            i
        } else {
            cur
        });
        if !better && cur < 0 {
            assert(!s[i].usable || cur >= 0);
        }
    }
}

/// The least-loaded scan answers a usable session bearing no more calls in
/// flight than any other usable session.
pub proof fn lemma_least_loaded_minimal(s: Seq<SessionStat>, i: int, cur: int)
    requires
        0 <= i,
        cur == -1 || (0 <= cur < s.len() && s[cur].usable),
    ensures
        ({
            let r = least_loaded_from(s, i, cur);
            r >= 0 ==> {
                &&& 0 <= r < s.len()
                &&& s[r].usable
                &&& (cur >= 0 ==> s[r].in_flight <= s[cur].in_flight)
                &&& forall|j: int|
                    i <= j < s.len() && (#[trigger] s[j].usable) ==> s[r].in_flight
                        <= s[j].in_flight
            }
        }),
    decreases s.len() - i,
{
    if 0 <= i < s.len() {
        let better = s[i].usable && (cur < 0 || s[i].in_flight < s[cur].in_flight);
        lemma_least_loaded_minimal(s, i + 1, if better {
            i
        } else {
            cur
        });
    }
}

} // verus!

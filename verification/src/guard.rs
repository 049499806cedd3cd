//! The abuse guard: per-source-address registration velocity and
//! identity churn tracking, consulted before the registration protocol
//! runs.
//!
//! Each address carries two tracks. The block track counts registration
//! attempts and the distinct peer identifiers touched inside the churn
//! window (`IP_CHANGE_DUR`); when either count crosses its configured
//! limit the address is blocked for `IP_BLOCK_DUR` time units and both
//! counts start over. The churn track keeps per-identifier attempt
//! counts under the extended window (`IP_CHANGE_DUR_X2`), bookkeeping
//! that `record` updates after every registration whatever its outcome.
//! Both windows reset monotonically: once stale they are cleared and
//! restarted at the current time, never decayed.
//!
//! A blocked address is rejected for every `now` with
//! `now - t < IP_BLOCK_DUR` after the block fell at `t`, and allowed
//! again at exactly `t + IP_BLOCK_DUR`: the boundary instant is allowed.
//!
//! The caller supplies the clock as a monotonically non-decreasing count
//! of time units.

use vstd::prelude::*;

use crate::strmap::StrMap;
use crate::strmap::lemma_strmap_dom_finite;
use crate::types::{DAY_SECONDS, IP_BLOCK_DUR, IP_CHANGE_DUR, IP_CHANGE_DUR_X2};

verus! {

/// What the guard answers for one registration attempt.
#[derive(Clone, Copy, PartialEq, Eq, Structural, Debug)]
pub enum Verdict {
    Allow,
    Reject,
}

/// Mathematical image of one address's block track.
#[verifier::ext_equal]
pub ghost struct BlockModel {
    /// Registration attempts seen inside the current window.
    pub attempts: u32,
    /// When the attempt window started.
    pub attempts_since: u64,
    /// Distinct peer identifiers seen inside the current window.
    pub recent_ids: Set<Seq<char>>,
    /// When the identifier window started.
    pub ids_since: u64,
    /// The moment the address was blocked, while the block lasts.
    pub blocked_at: Option<u64>,
}

/// Mathematical image of one address's churn track.
#[verifier::ext_equal]
pub ghost struct ChurnModel {
    /// The last time the address registered anything.
    pub last_seen: u64,
    /// How often each distinct identifier was registered from the
    /// address inside the extended window.
    pub id_counts: Map<Seq<char>, u32>,
}

/// Mathematical image of the whole guard.
#[verifier::ext_equal]
pub ghost struct GuardModel {
    pub blocks: Map<Seq<char>, BlockModel>,
    pub churn: Map<Seq<char>, ChurnModel>,
    /// Most distinct identifiers an address may touch per window.
    pub id_limit: u32,
    /// Most registration attempts an address may make per window.
    pub attempt_limit: u32,
}

/// A block-track entry first observed now: nothing counted, unblocked.
pub open spec fn fresh_block(now: u64) -> BlockModel {
    BlockModel {
        attempts: 0,
        attempts_since: now,
        recent_ids: Set::empty(),
        ids_since: now,
        blocked_at: None,
    }
}

/// Counter increment that pins at the top instead of wrapping.
pub open spec fn sat_inc(a: u32) -> u32 {
    if a == u32::MAX {
        a
    } else {
        (a + 1) as u32
    }
}

/// One evaluation: fast rejection while blocked; otherwise both counts
/// are brought into the current window and bumped, and crossing either
/// limit blocks the address at `now`, restarts both counts, and rejects.
pub open spec fn eval_step(g: GuardModel, addr: Seq<char>, id: Seq<char>, now: u64) -> (
    GuardModel,
    Verdict,
) {
    let b0 = if g.blocks.contains_key(addr) {
        g.blocks[addr]
    } else {
        fresh_block(now)
    };
    if b0.blocked_at matches Some(t) && now < t + IP_BLOCK_DUR {
        (g, Verdict::Reject)
    } else {
        let b1 = BlockModel { blocked_at: None, ..b0 };
        let b2 = if now > b1.attempts_since + IP_CHANGE_DUR {
            BlockModel { attempts: 0, attempts_since: now, ..b1 }
        } else {
            b1
        };
        let b3 = BlockModel { attempts: sat_inc(b2.attempts), ..b2 };
        let b4 = if now > b3.ids_since + IP_CHANGE_DUR {
            BlockModel { recent_ids: Set::empty(), ids_since: now, ..b3 }
        } else {
            b3
        };
        let b5 = BlockModel { recent_ids: b4.recent_ids.insert(id), ..b4 };
        if b5.attempts > g.attempt_limit || b5.recent_ids.len() > g.id_limit {
            (
                GuardModel {
                    blocks: g.blocks.insert(
                        addr,
                        BlockModel { blocked_at: Some(now), ..fresh_block(now) },
                    ),
                    ..g
                },
                Verdict::Reject,
            )
        } else {
            (GuardModel { blocks: g.blocks.insert(addr, b5), ..g }, Verdict::Allow)
        }
    }
}

/// One churn update: the per-identifier counts are cleared once the
/// address has been quiet past the extended window, then the count for
/// this identifier is bumped and the last-seen time refreshed.
pub open spec fn record_step(g: GuardModel, addr: Seq<char>, id: Seq<char>, now: u64) -> GuardModel {
    let c0 = if g.churn.contains_key(addr) {
        g.churn[addr]
    } else {
        ChurnModel { last_seen: now, id_counts: Map::empty() }
    };
    let counts = if now > c0.last_seen + IP_CHANGE_DUR_X2 {
        Map::<Seq<char>, u32>::empty()
    } else {
        c0.id_counts
    };
    let prev = if counts.contains_key(id) {
        counts[id]
    } else {
        0
    };
    GuardModel {
        churn: g.churn.insert(
            addr,
            ChurnModel { last_seen: now, id_counts: counts.insert(id, sat_inc(prev)) },
        ),
        ..g
    }
}

/// Whether one address's block track is a full day old on every count.
pub open spec fn block_stale(b: BlockModel, now: u64) -> bool {
    &&& now > b.attempts_since + DAY_SECONDS
    &&& now > b.ids_since + DAY_SECONDS
    &&& match b.blocked_at {
        Some(t) => now > t + DAY_SECONDS,
        None => true,
    }
}

/// Whether everything the guard holds for an address is a full day
/// old, making the state stale and evictable.
pub open spec fn stale_at(g: GuardModel, addr: Seq<char>, now: u64) -> bool {
    &&& (g.blocks.contains_key(addr) ==> block_stale(g.blocks[addr], now))
    &&& (g.churn.contains_key(addr) ==> now > g.churn[addr].last_seen + DAY_SECONDS)
}

/// The model invariants the laws rest on: usable limits and finite
/// identifier sets.
pub open spec fn guard_model_wf(g: GuardModel) -> bool {
    &&& g.id_limit >= 1
    &&& g.attempt_limit >= 1
    &&& forall|a: Seq<char>| #[trigger] g.blocks.contains_key(a) ==> g.blocks[a].recent_ids.finite()
}

/// No remembered moment lies in the caller's future.
pub open spec fn guard_times_ok(g: GuardModel, now: u64) -> bool {
    &&& forall|a: Seq<char>| #[trigger] g.blocks.contains_key(a) ==> block_times_ok(
        g.blocks[a],
        now,
    )
    &&& forall|a: Seq<char>| #[trigger] g.churn.contains_key(a) ==> g.churn[a].last_seen <= now
}

pub open spec fn block_times_ok(b: BlockModel, now: u64) -> bool {
    &&& b.attempts_since <= now
    &&& b.ids_since <= now
    &&& match b.blocked_at {
        Some(t) => t <= now,
        None => true,
    }
}

/// Time coherence survives the clock moving forward.
pub proof fn lemma_times_ok_monotonic(g: GuardModel, now: u64, later: u64)
    requires
        guard_times_ok(g, now),
        now <= later,
    ensures
        guard_times_ok(g, later),
{
}

/// One address's block track.
pub struct BlockState {
    pub attempts: u32,
    pub attempts_since: u64,
    pub recent_ids: StrMap<()>,
    pub ids_since: u64,
    pub blocked_at: Option<u64>,
}

impl View for BlockState {
    type V = BlockModel;

    open spec fn view(&self) -> BlockModel {
        BlockModel {
            attempts: self.attempts,
            attempts_since: self.attempts_since,
            recent_ids: self.recent_ids@.dom(),
            ids_since: self.ids_since,
            blocked_at: self.blocked_at,
        }
    }
}

impl BlockState {
    pub open spec fn wf(&self) -> bool {
        self.recent_ids.wf()
    }
}

/// One address's churn track.
pub struct ChurnState {
    pub last_seen: u64,
    pub id_counts: StrMap<u32>,
}

impl View for ChurnState {
    type V = ChurnModel;

    open spec fn view(&self) -> ChurnModel {
        ChurnModel { last_seen: self.last_seen, id_counts: self.id_counts@ }
    }
}

impl ChurnState {
    pub open spec fn wf(&self) -> bool {
        self.id_counts.wf()
    }
}

/// The abuse-detection subsystem: per-source-address block and churn
/// state behind one pair of configurable limits.
pub struct AbuseGuard {
    blocks: StrMap<BlockState>,
    churn: StrMap<ChurnState>,
    id_limit: u32,
    attempt_limit: u32,
}

impl AbuseGuard {
    pub closed spec fn view(&self) -> GuardModel {
        GuardModel {
            blocks: Map::new(
                |a: Seq<char>| self.blocks@.contains_key(a),
                |a: Seq<char>| self.blocks@[a]@,
            ),
            churn: Map::new(
                |a: Seq<char>| self.churn@.contains_key(a),
                |a: Seq<char>| self.churn@[a]@,
            ),
            id_limit: self.id_limit,
            attempt_limit: self.attempt_limit,
        }
    }

    pub closed spec fn wf(&self) -> bool {
        &&& self.blocks.wf()
        &&& self.churn.wf()
        &&& self.id_limit >= 1
        &&& self.attempt_limit >= 1
        &&& forall|a: Seq<char>| #[trigger] self.blocks@.contains_key(a) ==> self.blocks@[a].wf()
        &&& forall|a: Seq<char>| #[trigger] self.churn@.contains_key(a) ==> self.churn@[a].wf()
    }

    /// A well-formed guard satisfies the model invariants.
    pub proof fn lemma_model_wf(&self)
        requires
            self.wf(),
        ensures
            guard_model_wf(self@),
    {
        assert forall|a: Seq<char>| #[trigger] self@.blocks.contains_key(a) implies self@.blocks[a].recent_ids.finite() by {
            lemma_strmap_dom_finite(self.blocks@[a].recent_ids);
        }
    }

    /// A guard with the given limits and nothing yet observed. The
    /// numeric thresholds are deliberately configuration, not built in.
    pub fn new(id_limit: u32, attempt_limit: u32) -> (r: Self)
        requires
            id_limit >= 1,
            attempt_limit >= 1,
        ensures
            r.wf(),
            r@.blocks == Map::<Seq<char>, BlockModel>::empty(),
            r@.churn == Map::<Seq<char>, ChurnModel>::empty(),
            r@.id_limit == id_limit,
            r@.attempt_limit == attempt_limit,
    {
        let r = AbuseGuard {
            blocks: StrMap::new(),
            churn: StrMap::new(),
            id_limit,
            attempt_limit,
        };
        proof {
            assert(r@.blocks =~= Map::<Seq<char>, BlockModel>::empty());
            assert(r@.churn =~= Map::<Seq<char>, ChurnModel>::empty());
        }
        r
    }

    /// Decides one registration attempt from `addr` for `id` at `now`,
    /// exactly as `eval_step` says: fast rejection while the address is
    /// blocked, otherwise window upkeep, counting, and a possible trip
    /// into the blocked state.
    pub fn evaluate(&mut self, addr: &String, id: &String, now: u64) -> (v: Verdict)
        requires
            old(self).wf(),
            guard_times_ok(old(self)@, now),
        ensures
            final(self).wf(),
            guard_times_ok(final(self)@, now),
            final(self)@ == eval_step(old(self)@, addr@, id@, now).0,
            v == eval_step(old(self)@, addr@, id@, now).1,
    {
        let ghost g0 = self@;
        let b_opt = self.blocks.remove(addr);
        let mut b = match b_opt {
            Some(b) => b,
            None => BlockState {
                attempts: 0,
                attempts_since: now,
                recent_ids: StrMap::new(),
                ids_since: now,
                blocked_at: None,
            },
        };
        proof {
            if g0.blocks.contains_key(addr@) {
                assert(b@ == g0.blocks[addr@]);
            } else {
                assert(b@.recent_ids =~= Set::<Seq<char>>::empty());
                assert(b@ =~= fresh_block(now));
            }
        }
        if let Some(t) = b.blocked_at {
            if now - t < IP_BLOCK_DUR {
                self.blocks.insert(addr, b);
                proof {
                    assert(self.blocks@ =~= old(self).blocks@);
                    assert(self@.blocks =~= g0.blocks);
                    assert(self@ =~= g0);
                }
                return Verdict::Reject;
            }
            b.blocked_at = None;
        }
        if now - b.attempts_since > IP_CHANGE_DUR {
            b.attempts = 0;
            b.attempts_since = now;
        }
        b.attempts = if b.attempts == u32::MAX {
            b.attempts
        } else {
            b.attempts + 1
        };
        if now - b.ids_since > IP_CHANGE_DUR {
            b.recent_ids.clear();
            b.ids_since = now;
            proof {
                assert(b@.recent_ids =~= Set::<Seq<char>>::empty());
            }
        }
        let ghost before_ids = b@.recent_ids;
        b.recent_ids.insert(id, ());
        proof {
            assert(b@.recent_ids =~= before_ids.insert(id@));
            lemma_strmap_dom_finite(b.recent_ids);
        }
        let over = b.attempts > self.attempt_limit || b.recent_ids.len() > self.id_limit as usize;
        if over {
            let blocked = BlockState {
                attempts: 0,
                attempts_since: now,
                recent_ids: StrMap::new(),
                ids_since: now,
                blocked_at: Some(now),
            };
            self.blocks.insert(addr, blocked);
            proof {
                assert(self@.blocks =~= eval_step(g0, addr@, id@, now).0.blocks);
                assert(self@ =~= eval_step(g0, addr@, id@, now).0);
            }
            Verdict::Reject
        } else {
            self.blocks.insert(addr, b);
            proof {
                assert(self@.blocks =~= eval_step(g0, addr@, id@, now).0.blocks);
                assert(self@ =~= eval_step(g0, addr@, id@, now).0);
            }
            Verdict::Allow
        }
    }

    /// Updates the churn bookkeeping for one registration, whatever its
    /// outcome, exactly as `record_step` says.
    pub fn record(&mut self, addr: &String, id: &String, now: u64)
        requires
            old(self).wf(),
            guard_times_ok(old(self)@, now),
        ensures
            final(self).wf(),
            guard_times_ok(final(self)@, now),
            final(self)@ == record_step(old(self)@, addr@, id@, now),
    {
        let ghost g0 = self@;
        let c_opt = self.churn.remove(addr);
        let mut c = match c_opt {
            Some(c) => c,
            None => ChurnState { last_seen: now, id_counts: StrMap::new() },
        };
        proof {
            if g0.churn.contains_key(addr@) {
                assert(c@ == g0.churn[addr@]);
            } else {
                assert(c@.id_counts =~= Map::<Seq<char>, u32>::empty());
            }
        }
        if now - c.last_seen > IP_CHANGE_DUR_X2 {
            c.id_counts.clear();
            proof {
                assert(c@.id_counts =~= Map::<Seq<char>, u32>::empty());
            }
        }
        let prev: u32 = match c.id_counts.get(id) {
            Some(v) => *v,
            None => 0,
        };
        let next = if prev == u32::MAX {
            prev
        } else {
            prev + 1
        };
        c.id_counts.insert(id, next);
        c.last_seen = now;
        self.churn.insert(addr, c);
        proof {
            assert(self@.churn =~= record_step(g0, addr@, id@, now).churn);
            assert(self@.blocks =~= record_step(g0, addr@, id@, now).blocks);
            assert(self@ =~= record_step(g0, addr@, id@, now));
        }
    }

    /// Whether everything held for an address is at least a day old and
    /// could be evicted without losing live abuse evidence.
    pub fn is_stale(&self, addr: &String, now: u64) -> (r: bool)
        requires
            self.wf(),
        ensures
            r == stale_at(self@, addr@, now),
    {
        let block_old = match self.blocks.get(addr) {
            Some(b) => {
                now > b.attempts_since.saturating_add(DAY_SECONDS) && now
                    > b.ids_since.saturating_add(DAY_SECONDS) && match b.blocked_at {
                    Some(t) => now > t.saturating_add(DAY_SECONDS),
                    None => true,
                }
            },
            None => true,
        };
        let churn_old = match self.churn.get(addr) {
            Some(c) => now > c.last_seen.saturating_add(DAY_SECONDS),
            None => true,
        };
        block_old && churn_old
    }
}

/// Once an evaluation trips the block on an address that was not
/// blocked before, every evaluation of that address inside the block
/// duration is rejected, from any identifier, and changes nothing; the
/// first evaluation at exactly the end of the duration is allowed
/// again (the boundary instant is allowed).
pub proof fn lemma_block_covers_duration(
    g: GuardModel,
    addr: Seq<char>,
    id: Seq<char>,
    now: u64,
    expiry: u64,
    id_back: Seq<char>,
)
    requires
        guard_model_wf(g),
        guard_times_ok(g, now),
        g.blocks.contains_key(addr) ==> g.blocks[addr].blocked_at is None,
        eval_step(g, addr, id, now).1 == Verdict::Reject,
        expiry == now + IP_BLOCK_DUR,
    ensures
        forall|id2: Seq<char>, t2: u64|
            now <= t2 < expiry ==> #[trigger] eval_step(eval_step(g, addr, id, now).0, addr, id2, t2)
                == (eval_step(g, addr, id, now).0, Verdict::Reject),
        eval_step(eval_step(g, addr, id, now).0, addr, id_back, expiry).1 == Verdict::Allow,
{
    let g1 = eval_step(g, addr, id, now).0;
    assert(g1.blocks.contains_key(addr));
    assert(g1.blocks[addr] == BlockModel { blocked_at: Some(now), ..fresh_block(now) });
    assert forall|id2: Seq<char>, t2: u64| now <= t2 < expiry implies #[trigger] eval_step(
        g1,
        addr,
        id2,
        t2,
    ) == (g1, Verdict::Reject) by {
        assert(g1.blocks[addr].blocked_at == Some(now));
        assert(t2 < now + IP_BLOCK_DUR);
    }
    let b0 = g1.blocks[addr];
    assert(b0.blocked_at == Some(now));
    assert(!(expiry < now + IP_BLOCK_DUR));
    let b5 = BlockModel {
        recent_ids: Set::<Seq<char>>::empty().insert(id_back),
        attempts: 1,
        attempts_since: now,
        ids_since: now,
        blocked_at: None,
    };
    assert(Set::<Seq<char>>::empty().insert(id_back).len() == 1);
    assert(eval_step(g1, addr, id_back, expiry).1 == Verdict::Allow);
}

} // verus!

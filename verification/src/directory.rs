//! The peer directory: a coherent in-process cache of peer records in
//! front of the durable peer store, and the registration protocol that
//! decides between a first insert and an update of an existing row.
//!
//! The store itself lives outside the crate. A caller that misses the
//! cache looks the identifier up in the store and hands the row (or its
//! absence) to the directory; a registration yields the write to
//! perform, and its reported outcome finishes the operation. Every
//! function states over the directory's map view exactly what it does
//! with what it was handed.

use vstd::prelude::*;

use crate::infojson;
use crate::strmap::StrMap;
use crate::types::{
    OfflineWrite, OfflineWriteModel, ActionModel, OutcomeModel, Peer, PeerModel,
    RegisterPkResult, RegistrationAction, StoreOutcome, StoredModel, StoredPeer, clone_bytes,
};

verus! {

/// The placeholder network address a record carries until a
/// registration brings the real one.
pub open spec fn default_addr() -> Seq<char> {
    "0.0.0.0:0"@
}

/// A record never registered through this process: empty guid (never
/// persisted), empty credentials, the placeholder address.
pub open spec fn fresh_peer(now: u64) -> PeerModel {
    PeerModel {
        socket_addr: default_addr(),
        last_reg_time: now,
        guid: Seq::empty(),
        uuid: Seq::empty(),
        pk: Seq::empty(),
        ip: Seq::empty(),
        connected: true,
    }
}

/// Whether a stored status column counts as online: only an explicit
/// zero does; a non-zero or absent status is treated as offline.
pub open spec fn status_connected(status: Option<i64>) -> bool {
    match status {
        Some(v) => v == 0,
        None => false,
    }
}

/// The record a stored row reconstructs on a cache miss.
pub open spec fn peer_of_stored(s: StoredModel, now: u64) -> PeerModel {
    PeerModel {
        socket_addr: default_addr(),
        last_reg_time: now,
        guid: s.guid,
        uuid: s.uuid,
        pk: s.pk,
        ip: infojson::parse_info(s.info),
        connected: status_connected(s.status),
    }
}

/// Memory-then-storage lookup: the cached record wins; otherwise a
/// fetched row is admitted into the cache; otherwise nothing is found.
pub open spec fn lookup_step(
    m: Map<Seq<char>, PeerModel>,
    id: Seq<char>,
    fetched: Option<StoredModel>,
    now: u64,
) -> (Map<Seq<char>, PeerModel>, Option<PeerModel>) {
    if m.contains_key(id) {
        (m, Some(m[id]))
    } else {
        match fetched {
            Some(s) => (m.insert(id, peer_of_stored(s, now)), Some(peer_of_stored(s, now))),
            None => (m, None),
        }
    }
}

/// Like `lookup_step`, but a miss on both sides creates and caches a
/// fresh record instead of failing.
pub open spec fn get_or_step(
    m: Map<Seq<char>, PeerModel>,
    id: Seq<char>,
    fetched: Option<StoredModel>,
    now: u64,
) -> (Map<Seq<char>, PeerModel>, PeerModel) {
    let (m1, found) = lookup_step(m, id, fetched, now);
    match found {
        Some(p) => (m1, p),
        None => (m1.insert(id, fresh_peer(now)), fresh_peer(now)),
    }
}

/// The in-memory half of a registration: the record takes the presented
/// address, instance identifier, key and IP, is stamped with the call
/// time and marked online; only the guid is left as it was.
pub open spec fn prepare_step(
    p: PeerModel,
    addr: Seq<char>,
    uuid: Seq<u8>,
    pk: Seq<u8>,
    ip: Seq<char>,
    now: u64,
) -> PeerModel {
    PeerModel {
        socket_addr: addr,
        last_reg_time: now,
        guid: p.guid,
        uuid: uuid,
        pk: pk,
        ip: ip,
        connected: true,
    }
}

/// The storage write a prepared record calls for: an empty guid is the
/// one and only signal that the record was never persisted, so it takes
/// the insert path; any other guid takes the update path.
pub open spec fn action_of(p: PeerModel) -> ActionModel {
    if p.guid.len() == 0 {
        ActionModel::Insert {
            uuid: p.uuid,
            pk: p.pk,
            info: infojson::json_of_ip(p.ip),
            connected: p.connected,
        }
    } else {
        ActionModel::Update {
            guid: p.guid,
            pk: p.pk,
            info: infojson::json_of_ip(p.ip),
            connected: p.connected,
        }
    }
}

/// How a record absorbs the outcome of its storage write: a successful
/// insert writes the assigned guid back; a failure changes nothing, so
/// a record whose insert failed still has an empty guid and a retry
/// takes the insert path again.
pub open spec fn finish_step(p: PeerModel, outcome: OutcomeModel) -> (PeerModel, RegisterPkResult) {
    match outcome {
        OutcomeModel::Inserted { guid } => (
            PeerModel { guid: guid, ..p },
            RegisterPkResult::OK,
        ),
        OutcomeModel::Updated => (p, RegisterPkResult::OK),
        OutcomeModel::Failed => (p, RegisterPkResult::SERVER_ERROR),
    }
}

/// Marking a peer offline: resolve the record as a lookup would, clear
/// its online flag, and ask for the best-effort write-through carrying
/// the record's guid, key and bare IP.
pub open spec fn set_offline_step(
    m: Map<Seq<char>, PeerModel>,
    id: Seq<char>,
    fetched: Option<StoredModel>,
    now: u64,
) -> (Map<Seq<char>, PeerModel>, Option<OfflineWriteModel>) {
    let (m1, found) = lookup_step(m, id, fetched, now);
    match found {
        Some(p) => (
            m1.insert(id, PeerModel { connected: false, ..p }),
            Some(OfflineWriteModel { guid: p.guid, pk: p.pk, info: p.ip }),
        ),
        None => (m1, None),
    }
}

impl Peer {
    /// A record never registered through this process, stamped with the
    /// caller's clock: empty guid, empty credentials, the placeholder
    /// address, considered online until marked otherwise.
    pub fn fresh(now: u64) -> (r: Peer)
        ensures
            r@ == fresh_peer(now),
    {
        Peer {
            socket_addr: "0.0.0.0:0".to_owned(),
            last_reg_time: now,
            guid: Vec::new(),
            uuid: Vec::new(),
            pk: Vec::new(),
            ip: String::new(),
            connected: true,
        }
    }
}

/// The directory: at most one record per peer identifier, shared by all
/// callers, viewed as the map from identifiers to record models.
pub struct PeerMap {
    peers: StrMap<Peer>,
}

impl PeerMap {
    /// The map of cached records.
    pub closed spec fn view(&self) -> Map<Seq<char>, PeerModel> {
        Map::new(|k: Seq<char>| self.peers@.contains_key(k), |k: Seq<char>| self.peers@[k]@)
    }

    pub closed spec fn wf(&self) -> bool {
        self.peers.wf()
    }

    pub fn new() -> (r: Self)
        ensures
            r.wf(),
            r@ == Map::<Seq<char>, PeerModel>::empty(),
    {
        let r = PeerMap { peers: StrMap::new() };
        proof {
            assert(r@ =~= Map::<Seq<char>, PeerModel>::empty());
        }
        r
    }

    /// Cache-only membership test; no storage round trip is implied.
    pub fn is_in_memory(&self, id: &String) -> (r: bool)
        requires
            self.wf(),
        ensures
            r == self@.contains_key(id@),
    {
        self.peers.contains_key(id)
    }

    /// Cache-only lookup; no storage round trip is implied.
    pub fn get_in_memory(&self, id: &String) -> (r: Option<Peer>)
        requires
            self.wf(),
        ensures
            match r {
                Some(p) => self@.contains_key(id@) && p@ == self@[id@],
                None => !self@.contains_key(id@),
            },
    {
        match self.peers.get(id) {
            Some(p) => Some(p.snapshot()),
            None => None,
        }
    }

    /// Memory-then-storage lookup. `fetched` is what the durable store
    /// answered for `id` (the caller need only consult it on a cache
    /// miss); a fetched row is admitted into the cache, mapping a
    /// non-zero or absent status to offline. Never fabricates a record.
    pub fn get(&mut self, id: &String, fetched: Option<StoredPeer>, now: u64) -> (r: Option<Peer>)
        requires
            old(self).wf(),
        ensures
            final(self).wf(),
            final(self)@ == lookup_step(old(self)@, id@, fetched_model(fetched), now).0,
            match r {
                Some(p) => lookup_step(old(self)@, id@, fetched_model(fetched), now).1
                    == Some(p@),
                None => lookup_step(old(self)@, id@, fetched_model(fetched), now).1
                    is None,
            },
    {
        let cached = self.get_in_memory(id);
        if let Some(p) = cached {
            return Some(p);
        }
        match fetched {
            Some(row) => {
                let peer = Peer {
                    socket_addr: "0.0.0.0:0".to_owned(),
                    last_reg_time: now,
                    guid: row.guid,
                    uuid: row.uuid,
                    pk: row.pk,
                    ip: infojson::info_ip_from_json(&row.info),
                    connected: match row.status {
                        Some(v) => v == 0,
                        None => false,
                    },
                };
                let out = peer.snapshot();
                self.peers.insert(id, peer);
                proof {
                    assert(self@ =~= old(self)@.insert(id@, out@));
                }
                Some(out)
            },
            None => None,
        }
    }

    /// `get`, except that a miss on both sides creates, caches and
    /// returns a fresh record (empty guid, nothing persisted yet).
    /// Exactly one record per identifier is visible after this call.
    pub fn get_or(&mut self, id: &String, fetched: Option<StoredPeer>, now: u64) -> (r: Peer)
        requires
            old(self).wf(),
        ensures
            final(self).wf(),
            final(self)@ == get_or_step(old(self)@, id@, fetched_model(fetched), now).0,
            r@ == get_or_step(old(self)@, id@, fetched_model(fetched), now).1,
            final(self)@.contains_key(id@),
            final(self)@[id@] == r@,
    {
        let found = self.get(id, fetched, now);
        match found {
            Some(p) => p,
            None => {
                let peer = Peer::fresh(now);
                let out = peer.snapshot();
                self.peers.insert(id, peer);
                proof {
                    assert(out@ == fresh_peer(now));
                    assert(self@ =~= old(self)@.insert(id@, fresh_peer(now)));
                }
                out
            },
        }
    }

    /// The in-memory half of a registration: updates the cached record
    /// as `prepare_step` says and returns the storage write to perform.
    /// The caller must hold a record for `id` (from `get_or`).
    pub fn update_pk_prepare(
        &mut self,
        id: &String,
        addr: &String,
        uuid: Vec<u8>,
        pk: Vec<u8>,
        ip: &String,
        now: u64,
    ) -> (action: RegistrationAction)
        requires
            old(self).wf(),
            old(self)@.contains_key(id@),
        ensures
            final(self).wf(),
            final(self)@ == old(self)@.insert(
                id@,
                prepare_step(old(self)@[id@], addr@, uuid@, pk@, ip@, now),
            ),
            action@ == action_of(prepare_step(old(self)@[id@], addr@, uuid@, pk@, ip@, now)),
    {
        let cached = self.peers.get(id).unwrap();
        let guid = clone_bytes(&cached.guid);
        let info = infojson::info_to_json(ip);
        let action = if guid.len() == 0 {
            RegistrationAction::Insert {
                uuid: clone_bytes(&uuid),
                pk: clone_bytes(&pk),
                info: info,
                connected: true,
            }
        } else {
            RegistrationAction::Update {
                guid: guid,
                pk: clone_bytes(&pk),
                info: info,
                connected: true,
            }
        };
        let updated = Peer {
            socket_addr: addr.clone(),
            last_reg_time: now,
            guid: clone_bytes(&cached.guid),
            uuid: uuid,
            pk: pk,
            ip: ip.clone(),
            connected: true,
        };
        self.peers.insert(id, updated);
        proof {
            assert(self@ =~= old(self)@.insert(
                id@,
                prepare_step(old(self)@[id@], addr@, uuid@, pk@, ip@, now),
            ));
        }
        action
    }

    /// Finishes a registration with what the durable store answered:
    /// a successful insert writes the assigned guid into the record and
    /// the call is `OK`; a failed write leaves the directory exactly as
    /// it was and the call is `SERVER_ERROR`.
    pub fn update_pk_finish(&mut self, id: &String, outcome: StoreOutcome) -> (r: RegisterPkResult)
        requires
            old(self).wf(),
            old(self)@.contains_key(id@),
        ensures
            final(self).wf(),
            final(self)@ == old(self)@.insert(
                id@,
                finish_step(old(self)@[id@], outcome@).0,
            ),
            r == finish_step(old(self)@[id@], outcome@).1,
    {
        match outcome {
            StoreOutcome::Inserted { guid } => {
                let cached = self.peers.get(id).unwrap();
                let mut updated = cached.snapshot();
                updated.guid = guid;
                self.peers.insert(id, updated);
                proof {
                    assert(self@ =~= old(self)@.insert(
                        id@,
                        finish_step(old(self)@[id@], OutcomeModel::Inserted { guid: updated.guid@ }).0,
                    ));
                }
                RegisterPkResult::OK
            },
            StoreOutcome::Updated => {
                proof {
                    assert(self@ =~= old(self)@.insert(id@, old(self)@[id@]));
                }
                RegisterPkResult::OK
            },
            StoreOutcome::Failed => {
                proof {
                    assert(self@ =~= old(self)@.insert(id@, old(self)@[id@]));
                }
                RegisterPkResult::SERVER_ERROR
            },
        }
    }

    /// Marks a peer offline, best effort: if the record exists in memory
    /// or in the fetched row, clears its online flag and returns the
    /// write-through to perform; the caller logs and swallows a failure
    /// of that write, which never fails this call.
    pub fn set_offline(&mut self, id: &String, fetched: Option<StoredPeer>, now: u64) -> (w:
        Option<OfflineWrite>)
        requires
            old(self).wf(),
        ensures
            final(self).wf(),
            final(self)@ == set_offline_step(old(self)@, id@, fetched_model(fetched), now).0,
            match w {
                Some(wr) => set_offline_step(old(self)@, id@, fetched_model(fetched), now).1
                    == Some(wr@),
                None => set_offline_step(old(self)@, id@, fetched_model(fetched), now).1
                    is None,
            },
    {
        let ghost m0 = self@;
        let found = self.get(id, fetched, now);
        match found {
            Some(p) => {
                let ghost m1 = self@;
                let mut updated = p.snapshot();
                updated.connected = false;
                let w = OfflineWrite {
                    guid: clone_bytes(&p.guid),
                    pk: clone_bytes(&p.pk),
                    info: p.ip.clone(),
                };
                self.peers.insert(id, updated);
                proof {
                    assert(self@ =~= m1.insert(id@, PeerModel { connected: false, ..p@ }));
                }
                Some(w)
            },
            None => None,
        }
    }
}

/// The model of what a storage lookup answered.
pub open spec fn fetched_model(fetched: Option<StoredPeer>) -> Option<StoredModel> {
    match fetched {
        Some(s) => Some(s@),
        None => None,
    }
}

/// An identifier never seen before registers with exactly one insert:
/// resolving it finds an empty guid, so the one storage write is the
/// insert; once the store answers with its (non-empty) row identifier
/// the record carries it, the call is `OK`, and every later
/// registration of the identifier takes the update path, never a
/// second insert.
pub proof fn lemma_first_registration_inserts_once(
    m: Map<Seq<char>, PeerModel>,
    id: Seq<char>,
    addr: Seq<char>,
    uuid: Seq<u8>,
    pk: Seq<u8>,
    ip: Seq<char>,
    now: u64,
    g: Seq<u8>,
    addr2: Seq<char>,
    uuid2: Seq<u8>,
    pk2: Seq<u8>,
    ip2: Seq<char>,
    now2: u64,
)
    requires
        !m.contains_key(id),
        g.len() > 0,
    ensures
        ({
            let (m1, p1) = get_or_step(m, id, None, now);
            let p2 = prepare_step(p1, addr, uuid, pk, ip, now);
            let (p3, r) = finish_step(p2, OutcomeModel::Inserted { guid: g });
            let p4 = prepare_step(p3, addr2, uuid2, pk2, ip2, now2);
            &&& action_of(p2) is Insert
            &&& r == RegisterPkResult::OK
            &&& p3.guid == g
            &&& p3.guid.len() > 0
            &&& action_of(p4) is Update
        }),
{
}

/// At most one record per identifier: once any call has resolved an
/// identifier, a later `get_or` returns that same record and leaves
/// the directory unchanged, whatever row its caller fetched and
/// whenever it runs.
pub proof fn lemma_get_or_single_entry(
    m: Map<Seq<char>, PeerModel>,
    id: Seq<char>,
    f1: Option<StoredModel>,
    now1: u64,
    f2: Option<StoredModel>,
    now2: u64,
)
    ensures
        ({
            let (m1, p1) = get_or_step(m, id, f1, now1);
            let (m2, p2) = get_or_step(m1, id, f2, now2);
            m2 == m1 && p2 == p1
        }),
{
}

/// Marking a known peer offline is idempotent: a second call finds the
/// record already offline, observes the same directory state, and asks
/// for the very same write-through.
pub proof fn lemma_set_offline_idempotent(
    m: Map<Seq<char>, PeerModel>,
    id: Seq<char>,
    fetched: Option<StoredModel>,
    now: u64,
    f2: Option<StoredModel>,
    now2: u64,
)
    requires
        lookup_step(m, id, fetched, now).1 is Some,
    ensures
        ({
            let (m1, w1) = set_offline_step(m, id, fetched, now);
            let (m2, w2) = set_offline_step(m1, id, f2, now2);
            m2 == m1 && w2 == w1
        }),
{
    let (m1, w1) = set_offline_step(m, id, fetched, now);
    let p = lookup_step(m, id, fetched, now).1.unwrap();
    let off = PeerModel { connected: false, ..p };
    assert(m1.contains_key(id) && m1[id] == off);
    let (m2, w2) = set_offline_step(m1, id, f2, now2);
    assert(m2 =~= m1.insert(id, PeerModel { connected: false, ..off }));
    assert(m1.insert(id, off) =~= m1);
}

/// Round trip through storage: load after persist reproduces what was
/// registered. A registration prepares the record and asks for a write
/// carrying the record's uuid, key and metadata blob; a row holding
/// exactly those fields, read back by a later lookup, reconstructs a
/// record with the same uuid, the same key and the same IP that were
/// presented (the identifier is the map key on both sides).
pub proof fn lemma_storage_round_trip(
    p: PeerModel,
    addr: Seq<char>,
    uuid: Seq<u8>,
    pk: Seq<u8>,
    ip: Seq<char>,
    now: u64,
    g: Seq<u8>,
    status: Option<i64>,
    now2: u64,
)
    ensures
        ({
            let p1 = prepare_step(p, addr, uuid, pk, ip, now);
            let row = StoredModel {
                guid: g,
                uuid: p1.uuid,
                pk: p1.pk,
                info: infojson::json_of_ip(p1.ip),
                status: status,
            };
            let loaded = peer_of_stored(row, now2);
            &&& loaded.uuid == uuid
            &&& loaded.pk == pk
            &&& loaded.ip == ip
            &&& loaded.guid == g
            &&& loaded.connected == status_connected(status)
        }),
{
    infojson::lemma_info_round_trip(ip);
}

} // verus!

//! Records, protocol codes and the time constants of the registration
//! core. Opaque outside values (instance identifiers, public keys,
//! server-assigned row identifiers) are carried as plain byte strings;
//! network addresses and peer identifiers as strings; time as a count of
//! time units supplied by the caller on every call that needs a clock.

use vstd::prelude::*;

verus! {

/// Length of the sliding window, in time units, over which registration
/// attempts and distinct-identity churn are counted per source address.
pub const IP_CHANGE_DUR: u64 = 180;

/// Extended retention window for the per-address identity-churn
/// bookkeeping kept by `AbuseGuard::record`.
pub const IP_CHANGE_DUR_X2: u64 = IP_CHANGE_DUR * 2;

/// One full day of time units; per-address abuse state untouched for
/// this long is stale and may be evicted.
pub const DAY_SECONDS: u64 = 86400;

/// How long a source address stays blocked once the guard trips.
pub const IP_BLOCK_DUR: u64 = 60;

/// Mathematical image of one peer record.
pub ghost struct PeerModel {
    /// Last-seen network address of the peer.
    pub socket_addr: Seq<char>,
    /// Time of the most recent registration, in caller time units.
    pub last_reg_time: u64,
    /// Server-assigned durable row identifier; empty until the record
    /// has been persisted by a first successful insert.
    pub guid: Seq<u8>,
    /// Opaque client-presented instance identifier.
    pub uuid: Seq<u8>,
    /// Opaque public-key credential presented at registration.
    pub pk: Seq<u8>,
    /// Last-seen IP string, the one field of the stored metadata blob.
    pub ip: Seq<char>,
    /// True while the peer is considered online.
    pub connected: bool,
}

/// One peer identity record held by the directory.
pub struct Peer {
    pub socket_addr: String,
    pub last_reg_time: u64,
    pub guid: Vec<u8>,
    pub uuid: Vec<u8>,
    pub pk: Vec<u8>,
    pub ip: String,
    pub connected: bool,
}

impl View for Peer {
    type V = PeerModel;

    open spec fn view(&self) -> PeerModel {
        PeerModel {
            socket_addr: self.socket_addr@,
            last_reg_time: self.last_reg_time,
            guid: self.guid@,
            uuid: self.uuid@,
            pk: self.pk@,
            ip: self.ip@,
            connected: self.connected,
        }
    }
}

/// Copies a byte string.
pub fn clone_bytes(v: &Vec<u8>) -> (r: Vec<u8>)
    ensures
        r@ == v@,
{
    let mut r: Vec<u8> = Vec::new();
    let mut i: usize = 0;
    while i < v.len()
        invariant
            i <= v@.len(),
            r@ == v@.take(i as int),
        decreases v@.len() - i,
    {
        r.push(v[i]);
        proof {
            assert(v@.take(i + 1) =~= v@.take(i as int).push(v@[i as int]));
        }
        i += 1;
    }
    proof {
        assert(v@.take(v@.len() as int) =~= v@);
    }
    r
}

impl Peer {
    /// An independent copy of the record with the same contents.
    pub fn snapshot(&self) -> (r: Peer)
        ensures
            r@ == self@,
    {
        Peer {
            socket_addr: self.socket_addr.clone(),
            last_reg_time: self.last_reg_time,
            guid: clone_bytes(&self.guid),
            uuid: clone_bytes(&self.uuid),
            pk: clone_bytes(&self.pk),
            ip: self.ip.clone(),
            connected: self.connected,
        }
    }
}

/// Mathematical image of a row the durable peer store returned.
pub ghost struct StoredModel {
    pub guid: Seq<u8>,
    pub uuid: Seq<u8>,
    pub pk: Seq<u8>,
    /// The stored metadata blob, as written by `infojson`.
    pub info: Seq<char>,
    /// The stored status column, when the row has one.
    pub status: Option<i64>,
}

/// A row as the durable peer store hands it back on lookup.
pub struct StoredPeer {
    pub guid: Vec<u8>,
    pub uuid: Vec<u8>,
    pub pk: Vec<u8>,
    pub info: String,
    pub status: Option<i64>,
}

impl View for StoredPeer {
    type V = StoredModel;

    open spec fn view(&self) -> StoredModel {
        StoredModel {
            guid: self.guid@,
            uuid: self.uuid@,
            pk: self.pk@,
            info: self.info@,
            status: self.status,
        }
    }
}

/// The two protocol result codes a registration can end with.
#[allow(non_camel_case_types)]
#[derive(Clone, Copy, PartialEq, Eq, Structural, Debug)]
pub enum RegisterPkResult {
    OK,
    SERVER_ERROR,
}

/// Mathematical image of the storage write a registration calls for.
pub ghost enum ActionModel {
    /// First registration: insert a new row with these fields.
    Insert { uuid: Seq<u8>, pk: Seq<u8>, info: Seq<char>, connected: bool },
    /// Re-registration: overwrite the row named by `guid`.
    Update { guid: Seq<u8>, pk: Seq<u8>, info: Seq<char>, connected: bool },
}

/// The storage write a registration calls for; the caller performs it
/// against the durable peer store and reports the outcome back.
pub enum RegistrationAction {
    Insert { uuid: Vec<u8>, pk: Vec<u8>, info: String, connected: bool },
    Update { guid: Vec<u8>, pk: Vec<u8>, info: String, connected: bool },
}

impl View for RegistrationAction {
    type V = ActionModel;

    open spec fn view(&self) -> ActionModel {
        match self {
            RegistrationAction::Insert { uuid, pk, info, connected } => ActionModel::Insert {
                uuid: uuid@,
                pk: pk@,
                info: info@,
                connected: *connected,
            },
            RegistrationAction::Update { guid, pk, info, connected } => ActionModel::Update {
                guid: guid@,
                pk: pk@,
                info: info@,
                connected: *connected,
            },
        }
    }
}

/// Mathematical image of a storage write's outcome.
pub ghost enum OutcomeModel {
    /// The insert succeeded and the store assigned this row identifier.
    Inserted { guid: Seq<u8> },
    /// The update succeeded.
    Updated,
    /// The write failed; the store is treated as unchanged.
    Failed,
}

/// What the durable peer store answered to a registration write.
pub enum StoreOutcome {
    Inserted { guid: Vec<u8> },
    Updated,
    Failed,
}

impl View for StoreOutcome {
    type V = OutcomeModel;

    open spec fn view(&self) -> OutcomeModel {
        match self {
            StoreOutcome::Inserted { guid } => OutcomeModel::Inserted { guid: guid@ },
            StoreOutcome::Updated => OutcomeModel::Updated,
            StoreOutcome::Failed => OutcomeModel::Failed,
        }
    }
}

/// Mathematical image of the best-effort offline write-through.
pub ghost struct OfflineWriteModel {
    pub guid: Seq<u8>,
    pub pk: Seq<u8>,
    /// The info column the offline write carries: the record's bare IP.
    pub info: Seq<char>,
}

/// The write-through that marking a peer offline asks the caller to
/// perform; its failure is swallowed, so no outcome comes back.
pub struct OfflineWrite {
    pub guid: Vec<u8>,
    pub pk: Vec<u8>,
    pub info: String,
}

impl View for OfflineWrite {
    type V = OfflineWriteModel;

    open spec fn view(&self) -> OfflineWriteModel {
        OfflineWriteModel { guid: self.guid@, pk: self.pk@, info: self.info@ }
    }
}

} // verus!

//! Core data model: identities, amounts, timestamps, transactions, socket
//! addresses, peer handles, and the wire-packet enum.

use vstd::prelude::*;
use vstd::wrapping::i64_specs;

verus! {

/// A signed 64-bit amount of the ledger's currency. Arithmetic on
/// balances wraps on overflow and carries no sign guard: balances may go
/// negative.
#[derive(Clone, Copy, Debug, Hash, PartialEq, Eq, Structural)]
pub struct Amount(pub i64);

impl Amount {
    /// The sum of two amounts, wrapping on 64-bit overflow.
    pub fn wrapping_add(self, rhs: Amount) -> (r: Amount)
        ensures
            r.0 == i64_specs::wrapping_add(self.0, rhs.0),
    {
        Amount(self.0.wrapping_add(rhs.0))
    }

    /// The difference of two amounts, wrapping on 64-bit overflow.
    pub fn wrapping_sub(self, rhs: Amount) -> (r: Amount)
        ensures
            r.0 == i64_specs::wrapping_sub(self.0, rhs.0),
    {
        Amount(self.0.wrapping_sub(rhs.0))
    }
}

/// A human-readable name a node announces itself under.
#[derive(Clone, Debug)]
pub struct NodeName(pub String);

/// A 32-byte Ed25519 public key. It doubles as the account identifier and
/// the node identity; equality is by raw bytes.
#[derive(Clone, Copy, Debug, Hash)]
pub struct Id(pub [u8; 32]);

impl View for Id {
    type V = Seq<u8>;

    open spec fn view(&self) -> Seq<u8> {
        self.0@
    }
}

impl Id {
    /// Wraps raw key bytes as an identity. The bytes need not name a valid
    /// curve point; such an identity simply never verifies a signature.
    pub fn from_bytes(bytes: [u8; 32]) -> (r: Id)
        ensures
            r@ == bytes@,
    {
        Id(bytes)
    }

    /// The raw 32 key bytes.
    pub fn to_bytes(&self) -> (r: [u8; 32])
        ensures
            r@ == self@,
    {
        self.0
    }
}

/// Compares two byte slices for element-wise equality.
fn bytes_eq(a: &[u8], b: &[u8]) -> (r: bool)
    ensures
        r == (a@ == b@),
{
    if a.len() != b.len() {
        assert(a@.len() != b@.len());
        return false;
    }
    let n = a.len();
    let mut i: usize = 0;
    while i < n
        invariant
            n == a@.len() == b@.len(),
            0 <= i <= n,
            forall|k: int| 0 <= k < i ==> a@[k] == b@[k],
        decreases n - i,
    {
        if a[i] != b[i] {
            assert(a@[i as int] != b@[i as int]);
            return false;
        }
        i = i + 1;
    }
    assert(a@ =~= b@);
    true
}

impl PartialEq for Id {
    fn eq(&self, other: &Id) -> (r: bool) {
        let r = bytes_eq(self.0.as_slice(), other.0.as_slice());
        proof {
            if self.0@ == other.0@ {
                assert(self.0 =~= other.0);
            }
        }
        r
    }
}

impl vstd::std_specs::cmp::PartialEqSpecImpl for Id {
    open spec fn obeys_eq_spec() -> bool {
        true
    }

    open spec fn eq_spec(&self, other: &Id) -> bool {
        self.0 == other.0
    }
}

/// A 64-byte Ed25519 signature; equality is by raw bytes.
#[derive(Clone, Copy, Debug, Hash)]
pub struct Signature(pub [u8; 64]);

impl View for Signature {
    type V = Seq<u8>;

    open spec fn view(&self) -> Seq<u8> {
        self.0@
    }
}

impl PartialEq for Signature {
    fn eq(&self, other: &Signature) -> (r: bool) {
        let r = bytes_eq(self.0.as_slice(), other.0.as_slice());
        proof {
            if self.0@ == other.0@ {
                assert(self.0 =~= other.0);
            }
        }
        r
    }
}

impl vstd::std_specs::cmp::PartialEqSpecImpl for Signature {
    open spec fn obeys_eq_spec() -> bool {
        true
    }

    open spec fn eq_spec(&self, other: &Signature) -> bool {
        self.0 == other.0
    }
}

/// Milliseconds since the Unix epoch, captured when a transaction is
/// created. Part of a transaction's identity; not used for ordering.
#[derive(Clone, Copy, Debug, Hash, PartialEq, Eq, Structural)]
pub struct Timestamp(pub u64);

/// Why the wall clock could not produce a timestamp.
#[derive(Clone, Copy, Debug, PartialEq, Eq, Structural)]
pub enum TimeError {
    /// The system clock reads earlier than the Unix epoch.
    BeforeEpoch,
}

/// Relies on std::time::SystemTime::now and duration_since(UNIX_EPOCH):
/// the wall clock now, as whole milliseconds since the Unix epoch
/// (truncated to 64 bits), or None when the clock reads before the epoch.
/// The result depends on the machine's clock, so nothing is promised of it.
#[verifier::external_body]
fn now_millis() -> Option<u64> {
    match std::time::SystemTime::now().duration_since(std::time::UNIX_EPOCH) {
        Ok(d) => Some(d.as_millis() as u64),
        Err(_) => None,
    }
}

impl Timestamp {
    /// The wall clock now, in milliseconds since the Unix epoch. Fails only
    /// when the system clock reads earlier than the epoch.
    pub fn since_unix() -> (r: Result<Timestamp, TimeError>)
        ensures
            r is Err ==> r == Err::<Timestamp, TimeError>(TimeError::BeforeEpoch),
    {
        match now_millis() {
            Some(ms) => Ok(Timestamp(ms)),
            None => Err(TimeError::BeforeEpoch),
        }
    }
}

/// An IPv4 socket address: the four address octets packed big-endian into a
/// `u32`, and a port.
#[derive(Clone, Copy, Debug, Hash, PartialEq, Eq, Structural)]
pub struct SocketAddress {
    pub ip: u32,
    pub port: u16,
}

/// One money transfer: `amount` moves from the account `from` to the
/// account `to`. Two transactions with identical fields (timestamp
/// included) are the same transaction for deduplication purposes.
#[derive(Clone, Copy, Debug, Hash)]
pub struct AccountTransaction {
    pub to: Id,
    pub from: Id,
    pub amount: Amount,
    pub timestamp: Timestamp,
}

impl PartialEq for AccountTransaction {
    fn eq(&self, other: &AccountTransaction) -> (r: bool) {
        self.to == other.to && self.from == other.from && self.amount == other.amount
            && self.timestamp == other.timestamp
    }
}

impl vstd::std_specs::cmp::PartialEqSpecImpl for AccountTransaction {
    open spec fn obeys_eq_spec() -> bool {
        true
    }

    open spec fn eq_spec(&self, other: &AccountTransaction) -> bool {
        *self == *other
    }
}

/// A transaction together with the Ed25519 signature of its canonical byte
/// encoding, made by the `from` account's key.
#[derive(Clone, Copy, Debug, Hash)]
pub struct SignedAccountTransaction {
    pub signature: Signature,
    pub trx: AccountTransaction,
}

impl PartialEq for SignedAccountTransaction {
    fn eq(&self, other: &SignedAccountTransaction) -> (r: bool) {
        self.signature == other.signature && self.trx == other.trx
    }
}

impl vstd::std_specs::cmp::PartialEqSpecImpl for SignedAccountTransaction {
    open spec fn obeys_eq_spec() -> bool {
        true
    }

    open spec fn eq_spec(&self, other: &SignedAccountTransaction) -> bool {
        *self == *other
    }
}

/// A request to create an account for an identity.
#[derive(Clone, Copy, Debug, Hash)]
pub struct AccountCreation {
    pub id: Id,
}

impl PartialEq for AccountCreation {
    fn eq(&self, other: &AccountCreation) -> (r: bool) {
        self.id == other.id
    }
}

impl vstd::std_specs::cmp::PartialEqSpecImpl for AccountCreation {
    open spec fn obeys_eq_spec() -> bool {
        true
    }

    open spec fn eq_spec(&self, other: &AccountCreation) -> bool {
        *self == *other
    }
}

/// One wire-protocol message.
#[derive(Clone, Debug)]
pub enum Packet {
    /// Ask the receiver for a sample of the peers it knows.
    GetPeers,
    /// Advertise an address the sending connection should be bound to.
    AddPeer(SocketAddress),
    /// Flood a signed transaction.
    Broadcast(SignedAccountTransaction),
    /// Answer to `GetPeers`: a bounded sample of known addresses.
    ResponseGetPeers(Vec<SocketAddress>),
}

/// Compares two address vectors element-wise.
fn addr_vec_eq(a: &Vec<SocketAddress>, b: &Vec<SocketAddress>) -> (r: bool)
    ensures
        r == (a@ == b@),
{
    if a.len() != b.len() {
        assert(a@.len() != b@.len());
        return false;
    }
    let n = a.len();
    let mut i: usize = 0;
    while i < n
        invariant
            n == a@.len() == b@.len(),
            0 <= i <= n,
            forall|k: int| 0 <= k < i ==> a@[k] == b@[k],
        decreases n - i,
    {
        if a[i] != b[i] {
            assert(a@[i as int] != b@[i as int]);
            return false;
        }
        i = i + 1;
    }
    assert(a@ =~= b@);
    true
}

impl PartialEq for Packet {
    fn eq(&self, other: &Packet) -> (r: bool) {
        match (self, other) {
            (Packet::GetPeers, Packet::GetPeers) => true,
            (Packet::AddPeer(x), Packet::AddPeer(y)) => x == y,
            (Packet::Broadcast(x), Packet::Broadcast(y)) => x == y,
            (Packet::ResponseGetPeers(x), Packet::ResponseGetPeers(y)) => addr_vec_eq(x, y),
            _ => false,
        }
    }
}

impl vstd::std_specs::cmp::PartialEqSpecImpl for Packet {
    open spec fn obeys_eq_spec() -> bool {
        true
    }

    open spec fn eq_spec(&self, other: &Packet) -> bool {
        match (self, other) {
            (Packet::GetPeers, Packet::GetPeers) => true,
            (Packet::AddPeer(x), Packet::AddPeer(y)) => x == y,
            (Packet::Broadcast(x), Packet::Broadcast(y)) => x == y,
            (Packet::ResponseGetPeers(x), Packet::ResponseGetPeers(y)) => x@ == y@,
            _ => false,
        }
    }
}

/// A call on the administrative surface.
#[derive(Clone, Copy, Debug, Hash, PartialEq, Eq, Structural)]
pub enum RpcCall {
    GetPeers,
}

/// A lightweight handle on one live connection: the remote socket address
/// plus the identifier of the connection's outbound queue in the
/// surrounding application. Equality is by address only.
#[derive(Clone, Copy, Debug)]
pub struct Peer {
    pub address: SocketAddress,
    pub channel: u64,
}

impl Peer {
    /// The remote address of the connection this handle stands for.
    pub fn get_address(&self) -> (r: SocketAddress)
        ensures
            r == self.address,
    {
        self.address
    }
}

impl PartialEq for Peer {
    fn eq(&self, other: &Peer) -> (r: bool) {
        self.address == other.address
    }
}

impl vstd::std_specs::cmp::PartialEqSpecImpl for Peer {
    open spec fn obeys_eq_spec() -> bool {
        true
    }

    open spec fn eq_spec(&self, other: &Peer) -> bool {
        self.address == other.address
    }
}

} // verus!

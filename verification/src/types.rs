//! The core data model: peer identities, roles, locators, links and the
//! error kinds shared by the whole library.

use vstd::prelude::*;

verus! {

/// Maximum number of bytes in a peer identity.
pub const PID_MAX_SIZE: usize = 16;

/// A short opaque byte string identifying a peer; equality is bytewise.
#[derive(Debug)]
pub struct PeerId {
    pub id: Vec<u8>,
}

impl PeerId {
    /// A peer identity is well formed when it holds at most
    /// [`PID_MAX_SIZE`] bytes.
    pub open spec fn wf(&self) -> bool {
        self.id@.len() <= PID_MAX_SIZE
    }

    /// Builds a peer identity, rejecting byte strings over the size bound.
    pub fn new(id: Vec<u8>) -> (r: Result<PeerId, ZError>)
        ensures
            id@.len() <= PID_MAX_SIZE ==> (r matches Ok(p) && p.id@ == id@ && p.wf()),
            id@.len() > PID_MAX_SIZE ==> (r matches Err(e) && e is Other),
    {
        if id.len() <= PID_MAX_SIZE {
            Ok(PeerId { id })
        } else {
            Err(ZError::Other { descr: String::from_str("peer id too long") })
        }
    }

    /// Bytewise equality of two peer identities.
    pub fn same(&self, other: &PeerId) -> (r: bool)
        ensures
            r == (self.id@ == other.id@),
    {
        bytes_eq(&self.id, &other.id)
    }

    /// A copy of this peer identity.
    pub fn dup(&self) -> (r: PeerId)
        ensures
            r.id@ == self.id@,
    {
        PeerId { id: clone_bytes(&self.id) }
    }
}

/// How an endpoint participates in the network.
#[derive(Clone, Copy, PartialEq, Eq, Structural, Debug)]
pub enum WhatAmI {
    Router,
    Peer,
    Client,
}

/// The error kinds surfaced by the library.
#[derive(Debug)]
pub enum ZError {
    /// A factory for the protocol exists, or a transport for the peer
    /// exists with diverging parameters.
    AlreadyExists { descr: String },
    /// A factory, listener or transport was absent.
    NotFound { descr: String },
    /// An admission bound (`max_transports`) was reached.
    LimitExceeded { descr: String },
    /// A configuration value could not be parsed.
    ValueDecodingFailed { key: String, value: String },
    /// An authenticator rejected a link or peer.
    Auth { descr: String },
    /// The accept deadline expired.
    Timeout { descr: String },
    /// The underlying link failed.
    Io { descr: String },
    /// Any other failure, described in prose.
    Other { descr: String },
}

/// A structured address: a protocol tag and an endpoint within it.
#[derive(Debug)]
pub struct Locator {
    pub protocol: String,
    pub address: String,
}

impl Locator {
    /// Builds a locator from its two components.
    pub fn new(protocol: &str, address: &str) -> (r: Locator)
        ensures
            r.protocol@ == protocol@,
            r.address@ == address@,
    {
        Locator { protocol: String::from_str(protocol), address: String::from_str(address) }
    }

    /// The protocol tag of this locator.
    pub fn get_proto(&self) -> (r: &String)
        ensures
            r@ == self.protocol@,
    {
        &self.protocol
    }

    /// Componentwise equality of two locators.
    pub fn same(&self, other: &Locator) -> (r: bool)
        ensures
            r == (self.protocol@ == other.protocol@ && self.address@ == other.address@),
    {
        self.protocol == other.protocol && self.address == other.address
    }

    /// A copy of this locator.
    pub fn dup(&self) -> (r: Locator)
        ensures
            r.protocol@ == self.protocol@,
            r.address@ == self.address@,
    {
        Locator { protocol: self.protocol.clone(), address: self.address.clone() }
    }
}

/// An established bidirectional byte channel between two locators.
/// Closing and I/O belong to the embedding runtime; the model identifies
/// a link by its endpoint pair.
#[derive(Debug)]
pub struct Link {
    pub src: Locator,
    pub dst: Locator,
}

impl Link {
    /// Equality of links: both endpoints agree.
    pub fn same(&self, other: &Link) -> (r: bool)
        ensures
            r == (self.src.protocol@ == other.src.protocol@ && self.src.address@
                == other.src.address@ && self.dst.protocol@ == other.dst.protocol@
                && self.dst.address@ == other.dst.address@),
    {
        self.src.same(&other.src) && self.dst.same(&other.dst)
    }

    /// A copy of this link descriptor.
    pub fn dup(&self) -> (r: Link)
        ensures
            r.src.protocol@ == self.src.protocol@,
            r.src.address@ == self.src.address@,
            r.dst.protocol@ == self.dst.protocol@,
            r.dst.address@ == self.dst.address@,
    {
        Link { src: self.src.dup(), dst: self.dst.dup() }
    }
}

/// Bytewise equality of two byte vectors.
pub fn bytes_eq(a: &Vec<u8>, b: &Vec<u8>) -> (r: bool)
    ensures
        r == (a@ == b@),
{
    if a.len() != b.len() {
        assert(a@ != b@);
        return false;
    }
    let mut i: usize = 0;
    while i < a.len()
        invariant
            i <= a.len(),
            a@.len() == b@.len(),
            forall|j: int| 0 <= j < i ==> a@[j] == b@[j],
        decreases a.len() - i,
    {
        if a[i] != b[i] {
            return false;
        }
        i += 1;
    }
    assert(a@ =~= b@);
    true
}

/// Appends a copy of `src` to `dst`.
pub fn append_bytes(dst: &mut Vec<u8>, src: &Vec<u8>)
    ensures
        final(dst)@ == old(dst)@ + src@,
{
    let mut i: usize = 0;
    while i < src.len()
        invariant
            i <= src.len(),
            dst@ == old(dst)@ + src@.subrange(0, i as int),
        decreases src.len() - i,
    {
        dst.push(src[i]);
        assert(dst@ =~= old(dst)@ + src@.subrange(0, i as int + 1));
        i += 1;
    }
    assert(dst@ =~= old(dst)@ + src@);
}

/// A copy of a byte vector.
pub fn clone_bytes(a: &Vec<u8>) -> (r: Vec<u8>)
    ensures
        r@ == a@,
{
    let mut r: Vec<u8> = Vec::new();
    let mut i: usize = 0;
    while i < a.len()
        invariant
            i <= a.len(),
            r@ == a@.subrange(0, i as int),
        decreases a.len() - i,
    {
        r.push(a[i]);
        assert(r@ =~= a@.subrange(0, i as int + 1));
        i += 1;
    }
    assert(r@ =~= a@);
    r
}

} // verus!

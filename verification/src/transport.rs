//! Established transports: the durable per-peer session record and the
//! lightweight handle the manager hands out.

use vstd::prelude::*;
use vstd::seq_lib::*;
use crate::config::PeerAuthenticatorId;
use crate::manager::TransportManager;
use crate::text::{
    bool_str, hex_of_bytes, push_dec, spec_bool_str, spec_hex, spec_u64_dec, spec_whatami_str,
    whatami_str,
};
use crate::types::{PeerId, WhatAmI, ZError};

verus! {

/// The full configuration a finished handshake settles on; consumed by
/// transport initialisation.
pub struct TransportConfigUnicast {
    pub peer: PeerId,
    pub whatami: WhatAmI,
    pub sn_resolution: u64,
    pub initial_sn_tx: u64,
    pub initial_sn_rx: u64,
    pub is_shm: bool,
    pub is_qos: bool,
}

/// The durable transport record for an established peer, stored in the
/// manager's table keyed by peer identity.
pub struct TransportUnicastInner {
    pub peer: PeerId,
    pub whatami: WhatAmI,
    pub sn_resolution: u64,
    pub initial_sn_tx: u64,
    pub initial_sn_rx: u64,
    pub is_shm: bool,
    pub is_qos: bool,
}

impl TransportUnicastInner {
    /// Whether this record carries the same essential parameters the
    /// given handshake configuration asks for.
    pub open spec fn spec_compatible(&self, cfg: TransportConfigUnicast) -> bool {
        &&& self.whatami == cfg.whatami
        &&& self.sn_resolution == cfg.sn_resolution
        &&& self.is_shm == cfg.is_shm
    }
}

/// A lightweight handle onto an established transport: a snapshot of its
/// essential attributes. Liveness of the underlying session is the
/// embedding runtime's business.
#[derive(Debug)]
pub struct TransportUnicast {
    pub peer: PeerId,
    pub whatami: WhatAmI,
    pub sn_resolution: u64,
    pub is_shm: bool,
    pub is_qos: bool,
}

impl TransportUnicast {
    /// Whether this handle snapshots the given record.
    pub open spec fn spec_of(&self, t: TransportUnicastInner) -> bool {
        &&& self.peer.id@ == t.peer.id@
        &&& self.whatami == t.whatami
        &&& self.sn_resolution == t.sn_resolution
        &&& self.is_shm == t.is_shm
        &&& self.is_qos == t.is_qos
    }
}

/// Negotiated handshake parameters held while establishment is still in
/// flight, keyed by peer in the opened table.
pub struct Opened {
    pub whatami: WhatAmI,
    pub sn_resolution: u64,
    pub initial_sn: u64,
}

/// An opened-table entry: the peer and its in-flight parameters.
pub struct OpenedEntry {
    pub peer: PeerId,
    pub opened: Opened,
}

/// Description of a rejected re-initialisation: the stored role differs.
pub open spec fn spec_whatami_mismatch_descr(
    peer: Seq<u8>,
    found: WhatAmI,
    expected: WhatAmI,
) -> Seq<char> {
    "transport with peer "@ + spec_hex(peer) + " already exists; whatami mismatch: found "@
        + spec_whatami_str(found) + ", expected "@ + spec_whatami_str(expected)
}

/// Description of a rejected re-initialisation: the stored sequence-number
/// resolution differs.
pub open spec fn spec_sn_mismatch_descr(peer: Seq<u8>, found: u64, expected: u64) -> Seq<char> {
    "transport with peer "@ + spec_hex(peer) + " already exists; sn resolution mismatch: found "@
        + spec_u64_dec(found as nat) + ", expected "@ + spec_u64_dec(expected as nat)
}

/// Description of a rejected re-initialisation: the stored shared-memory
/// flag differs.
pub open spec fn spec_shm_mismatch_descr(peer: Seq<u8>, found: bool, expected: bool) -> Seq<char> {
    "transport with peer "@ + spec_hex(peer) + " already exists; shm mismatch: found "@
        + spec_bool_str(found) + ", expected "@ + spec_bool_str(expected)
}

/// Description of a denied insertion: the transport bound is reached.
pub open spec fn spec_limit_descr(limit: nat, peer: Seq<u8>) -> Seq<char> {
    "max transports reached ("@ + spec_u64_dec(limit) + "); denying new transport with peer "@
        + spec_hex(peer)
}

fn whatami_mismatch_descr(peer: &PeerId, found: WhatAmI, expected: WhatAmI) -> (r: String)
    ensures
        r@ == spec_whatami_mismatch_descr(peer.id@, found, expected),
{
    let mut s = String::from_str("transport with peer ");
    let h = hex_of_bytes(&peer.id);
    s.append(h.as_str());
    s.append(" already exists; whatami mismatch: found ");
    let f = whatami_str(found);
    s.append(f.as_str());
    s.append(", expected ");
    let e = whatami_str(expected);
    s.append(e.as_str());
    proof {
        assert(s@ =~= spec_whatami_mismatch_descr(peer.id@, found, expected));
    }
    s
}

fn sn_mismatch_descr(peer: &PeerId, found: u64, expected: u64) -> (r: String)
    ensures
        r@ == spec_sn_mismatch_descr(peer.id@, found, expected),
{
    let mut s = String::from_str("transport with peer ");
    let h = hex_of_bytes(&peer.id);
    s.append(h.as_str());
    s.append(" already exists; sn resolution mismatch: found ");
    push_dec(&mut s, found);
    s.append(", expected ");
    push_dec(&mut s, expected);
    proof {
        assert(s@ =~= spec_sn_mismatch_descr(peer.id@, found, expected));
    }
    s
}

fn shm_mismatch_descr(peer: &PeerId, found: bool, expected: bool) -> (r: String)
    ensures
        r@ == spec_shm_mismatch_descr(peer.id@, found, expected),
{
    let mut s = String::from_str("transport with peer ");
    let h = hex_of_bytes(&peer.id);
    s.append(h.as_str());
    s.append(" already exists; shm mismatch: found ");
    let f = bool_str(found);
    s.append(f.as_str());
    s.append(", expected ");
    let e = bool_str(expected);
    s.append(e.as_str());
    proof {
        assert(s@ =~= spec_shm_mismatch_descr(peer.id@, found, expected));
    }
    s
}

fn limit_descr(limit: usize, peer: &PeerId) -> (r: String)
    ensures
        r@ == spec_limit_descr(limit as nat, peer.id@),
{
    let mut s = String::from_str("max transports reached (");
    push_dec(&mut s, limit as u64);
    s.append("); denying new transport with peer ");
    let h = hex_of_bytes(&peer.id);
    s.append(h.as_str());
    proof {
        assert(s@ =~= spec_limit_descr(limit as nat, peer.id@));
    }
    s
}

/// One close notification owed after a transport was deleted: the
/// embedding runtime must call `handle_close` for this peer on this
/// authenticator.
pub struct HandleCloseAction {
    pub authenticator: PeerAuthenticatorId,
    pub peer: PeerId,
}

/// How transport initialisation moves the manager from `pre` to `post`
/// and whether it succeeds, for a finished handshake `cfg`:
/// a compatible entry for the peer is reused, an incompatible one or a
/// full table rejects without mutation, and otherwise the transport is
/// appended to the table.
pub open spec fn spec_init_transport(
    pre: TransportManager,
    cfg: TransportConfigUnicast,
    post: TransportManager,
    ok: bool,
) -> bool {
    let x = cfg.peer.id@;
    if pre.spec_has_peer(x) {
        if pre.spec_peer_at(x).spec_compatible(cfg) {
            ok && post == pre
        } else {
            !ok && post == pre
        }
    } else if pre.state.transports@.len() >= pre.config.max_transports {
        !ok && post == pre
    } else {
        &&& ok
        &&& post.state.transports@.len() == pre.state.transports@.len() + 1
        &&& post.state.transports@.drop_last() == pre.state.transports@
        &&& post.state.transports@.last().peer.id@ == x
        &&& post.state.transports@.last().whatami == cfg.whatami
        &&& post.state.transports@.last().sn_resolution == cfg.sn_resolution
        &&& post.state.transports@.last().initial_sn_tx == cfg.initial_sn_tx
        &&& post.state.transports@.last().initial_sn_rx == cfg.initial_sn_rx
        &&& post.state.transports@.last().is_shm == cfg.is_shm
        &&& post.state.transports@.last().is_qos == cfg.is_qos
        &&& post.config == pre.config
        &&& post.state.protocols == pre.state.protocols
        &&& post.state.incoming == pre.state.incoming
        &&& post.state.opened == pre.state.opened
    }
}

impl TransportManager {
    /// Whether a transport for this peer is established.
    pub open spec fn spec_has_peer(&self, x: Seq<u8>) -> bool {
        exists|j: int|
            0 <= j < self.state.transports@.len() && self.state.transports@[j].peer.id@ == x
    }

    /// The established transport for this peer; meaningful only when
    /// [`Self::spec_has_peer`] holds and the manager is well formed.
    pub open spec fn spec_peer_at(&self, x: Seq<u8>) -> TransportUnicastInner {
        self.state.transports@[choose|j: int|
            0 <= j < self.state.transports@.len() && self.state.transports@[j].peer.id@ == x]
    }

    /// In a well-formed manager, any table slot holding peer `x` is the
    /// transport [`Self::spec_peer_at`] names.
    pub proof fn lemma_peer_at(&self, j: int)
        requires
            self.wf(),
            0 <= j < self.state.transports@.len(),
        ensures
            self.spec_peer_at(self.state.transports@[j].peer.id@) == self.state.transports@[j],
    {
        let x = self.state.transports@[j].peer.id@;
        assert(self.spec_has_peer(x));
        let k = choose|k: int|
            0 <= k < self.state.transports@.len() && self.state.transports@[k].peer.id@ == x;
        if k != j {
            if k < j {
                assert(self.state.transports@[k].peer.id@ != self.state.transports@[j].peer.id@);
            } else {
                assert(self.state.transports@[j].peer.id@ != self.state.transports@[k].peer.id@);
            }
        }
    }

    /// The table index of the transport for this peer, if any.
    fn find_peer(&self, peer: &PeerId) -> (r: Option<usize>)
        ensures
            match r {
                Some(i) => i < self.state.transports@.len() && self.state.transports@[
                    i as int
                ].peer.id@ == peer.id@,
                None => !self.spec_has_peer(peer.id@),
            },
    {
        let mut i: usize = 0;
        while i < self.state.transports.len()
            invariant
                i <= self.state.transports@.len(),
                forall|j: int| 0 <= j < i ==> self.state.transports@[j].peer.id@ != peer.id@,
            decreases self.state.transports@.len() - i,
        {
            if self.state.transports[i].peer.same(peer) {
                return Some(i);
            }
            i += 1;
        }
        None
    }

    /// Initialises the transport a finished handshake describes. An
    /// existing entry for the peer is returned as it stands when its
    /// role, sequence-number resolution and shared-memory flag all agree;
    /// any disagreement, or a full table, rejects without mutating the
    /// table, naming the offending field or the bound in the error.
    pub fn init_transport_unicast(&mut self, config: TransportConfigUnicast) -> (r: Result<
        TransportUnicast,
        ZError,
    >)
        requires
            old(self).wf(),
        ensures
            final(self).wf(),
            spec_init_transport(*old(self), config, *final(self), r is Ok),
            match r {
                Ok(h) => {
                    if old(self).spec_has_peer(config.peer.id@) {
                        h.spec_of(old(self).spec_peer_at(config.peer.id@))
                    } else {
                        h.spec_of(final(self).state.transports@.last())
                    }
                },
                Err(e) => {
                    if old(self).spec_has_peer(config.peer.id@) {
                        let t = old(self).spec_peer_at(config.peer.id@);
                        if t.whatami != config.whatami {
                            e matches ZError::AlreadyExists { descr } && descr@
                                == spec_whatami_mismatch_descr(
                                config.peer.id@,
                                config.whatami,
                                t.whatami,
                            )
                        } else if t.sn_resolution != config.sn_resolution {
                            e matches ZError::AlreadyExists { descr } && descr@
                                == spec_sn_mismatch_descr(
                                config.peer.id@,
                                config.sn_resolution,
                                t.sn_resolution,
                            )
                        } else {
                            e matches ZError::AlreadyExists { descr } && descr@
                                == spec_shm_mismatch_descr(
                                config.peer.id@,
                                config.is_shm,
                                t.is_shm,
                            )
                        }
                    } else {
                        e matches ZError::LimitExceeded { descr } && descr@ == spec_limit_descr(
                            old(self).config.max_transports as nat,
                            config.peer.id@,
                        )
                    }
                },
            },
    {
        match self.find_peer(&config.peer) {
            Some(i) => {
                proof {
                    self.lemma_peer_at(i as int);
                }
                let t = &self.state.transports[i];
                if t.whatami != config.whatami {
                    let d = whatami_mismatch_descr(&config.peer, config.whatami, t.whatami);
                    return Err(ZError::AlreadyExists { descr: d });
                }
                if t.sn_resolution != config.sn_resolution {
                    let d = sn_mismatch_descr(
                        &config.peer,
                        config.sn_resolution,
                        t.sn_resolution,
                    );
                    return Err(ZError::AlreadyExists { descr: d });
                }
                if t.is_shm != config.is_shm {
                    let d = shm_mismatch_descr(&config.peer, config.is_shm, t.is_shm);
                    return Err(ZError::AlreadyExists { descr: d });
                }
                Ok(
                    TransportUnicast {
                        peer: t.peer.dup(),
                        whatami: t.whatami,
                        sn_resolution: t.sn_resolution,
                        is_shm: t.is_shm,
                        is_qos: t.is_qos,
                    },
                )
            },
            None => {
                if self.state.transports.len() >= self.config.max_transports {
                    let d = limit_descr(self.config.max_transports, &config.peer);
                    return Err(ZError::LimitExceeded { descr: d });
                }
                let handle = TransportUnicast {
                    peer: config.peer.dup(),
                    whatami: config.whatami,
                    sn_resolution: config.sn_resolution,
                    is_shm: config.is_shm,
                    is_qos: config.is_qos,
                };
                let inner = TransportUnicastInner {
                    peer: config.peer,
                    whatami: config.whatami,
                    sn_resolution: config.sn_resolution,
                    initial_sn_tx: config.initial_sn_tx,
                    initial_sn_rx: config.initial_sn_rx,
                    is_shm: config.is_shm,
                    is_qos: config.is_qos,
                };
                self.state.transports.push(inner);
                proof {
                    let news = self.state.transports@;
                    let olds = old(self).state.transports@;
                    assert forall|j: int, k: int| 0 <= j < k < news.len() implies news[j].peer.id@
                        != news[k].peer.id@ by {
                        if k == news.len() - 1 {
                            assert(news[j] == olds[j]);
                        }
                    }
                    assert(news.drop_last() =~= olds);
                }
                Ok(handle)
            },
        }
    }

    /// A handle onto the established transport for this peer, if any.
    pub fn get_transport_unicast(&self, peer: &PeerId) -> (r: Option<TransportUnicast>)
        requires
            self.wf(),
        ensures
            match r {
                Some(h) => self.spec_has_peer(peer.id@) && h.spec_of(self.spec_peer_at(peer.id@)),
                None => !self.spec_has_peer(peer.id@),
            },
    {
        match self.find_peer(peer) {
            Some(i) => {
                proof {
                    self.lemma_peer_at(i as int);
                }
                let t = &self.state.transports[i];
                Some(
                    TransportUnicast {
                        peer: t.peer.dup(),
                        whatami: t.whatami,
                        sn_resolution: t.sn_resolution,
                        is_shm: t.is_shm,
                        is_qos: t.is_qos,
                    },
                )
            },
            None => None,
        }
    }

    /// Handles onto every established transport, in table order.
    pub fn get_transports_unicast(&self) -> (r: Vec<TransportUnicast>)
        ensures
            r@.len() == self.state.transports@.len(),
            forall|j: int|
                0 <= j < r@.len() ==> (#[trigger] r@[j]).spec_of(self.state.transports@[j]),
    {
        let mut r: Vec<TransportUnicast> = Vec::new();
        let mut i: usize = 0;
        while i < self.state.transports.len()
            invariant
                i <= self.state.transports@.len(),
                r@.len() == i,
                forall|j: int|
                    0 <= j < i ==> (#[trigger] r@[j]).spec_of(self.state.transports@[j]),
            decreases self.state.transports@.len() - i,
        {
            let t = &self.state.transports[i];
            r.push(
                TransportUnicast {
                    peer: t.peer.dup(),
                    whatami: t.whatami,
                    sn_resolution: t.sn_resolution,
                    is_shm: t.is_shm,
                    is_qos: t.is_qos,
                },
            );
            i += 1;
        }
        r
    }

    /// Deletes the transport for this peer and hands back one close
    /// notification per peer authenticator, in configuration order, to be
    /// delivered best effort strictly after the removal; fails when no
    /// transport for the peer is established.
    pub fn del_transport_unicast(&mut self, peer: &PeerId) -> (r: Result<
        Vec<HandleCloseAction>,
        ZError,
    >)
        requires
            old(self).wf(),
        ensures
            final(self).wf(),
            final(self).config == old(self).config,
            final(self).state.protocols == old(self).state.protocols,
            final(self).state.incoming == old(self).state.incoming,
            final(self).state.opened == old(self).state.opened,
            match r {
                Ok(acts) => {
                    &&& old(self).spec_has_peer(peer.id@)
                    &&& !final(self).spec_has_peer(peer.id@)
                    &&& final(self).state.transports@.len() == old(
                        self,
                    ).state.transports@.len() - 1
                    &&& forall|x: Seq<u8>|
                        x != peer.id@ ==> (final(self).spec_has_peer(x) <==> old(self).spec_has_peer(x))
                    &&& forall|x: Seq<u8>|
                        x != peer.id@ && old(self).spec_has_peer(x)
                            ==> final(self).spec_peer_at(x) == old(self).spec_peer_at(x)
                    &&& acts@.len() == old(self).config.peer_authenticator@.len()
                    &&& forall|j: int|
                        0 <= j < acts@.len() ==> (#[trigger] acts@[j]).authenticator == old(
                            self,
                        ).config.peer_authenticator@[j] && acts@[j].peer.id@ == peer.id@
                },
                Err(e) => {
                    &&& e is NotFound
                    &&& *final(self) == *old(self)
                    &&& !old(self).spec_has_peer(peer.id@)
                },
            },
    {
        match self.find_peer(peer) {
            None => Err(
                ZError::NotFound {
                    descr: String::from_str("no transport for this peer is established"),
                },
            ),
            Some(i) => {
                self.state.transports.remove(i);
                proof {
                    let news = self.state.transports@;
                    let olds = old(self).state.transports@;
                    assert forall|j: int| 0 <= j < news.len() implies news[j].peer.id@
                        != peer.id@ by {
                        if j < i {
                            assert(news[j] == olds[j]);
                        } else {
                            assert(news[j] == olds[j + 1]);
                        }
                    }
                    assert forall|x: Seq<u8>|
                        x != peer.id@ && old(self).spec_has_peer(x) implies self.spec_has_peer(
                        x,
                    ) by {
                        let j = choose|j: int| 0 <= j < olds.len() && olds[j].peer.id@ == x;
                        if j < i {
                            assert(news[j] == olds[j]);
                        } else {
                            assert(j > i);
                            assert(news[j - 1] == olds[j]);
                        }
                    }
                    assert forall|x: Seq<u8>|
                        x != peer.id@ && self.spec_has_peer(x) implies old(self).spec_has_peer(
                        x,
                    ) by {
                        let j = choose|j: int| 0 <= j < news.len() && news[j].peer.id@ == x;
                        if j < i {
                            assert(news[j] == olds[j]);
                        } else {
                            assert(news[j] == olds[j + 1]);
                        }
                    }
                    assert forall|x: Seq<u8>|
                        x != peer.id@ && old(self).spec_has_peer(x) implies self.spec_peer_at(x)
                        == old(self).spec_peer_at(x) by {
                        let j = choose|j: int| 0 <= j < news.len() && news[j].peer.id@ == x;
                        self.lemma_peer_at(j);
                        if j < i {
                            assert(news[j] == olds[j]);
                            old(self).lemma_peer_at(j);
                        } else {
                            assert(news[j] == olds[j + 1]);
                            old(self).lemma_peer_at(j + 1);
                        }
                    }
                }
                let mut acts: Vec<HandleCloseAction> = Vec::new();
                let mut j: usize = 0;
                while j < self.config.peer_authenticator.len()
                    invariant
                        j <= self.config.peer_authenticator@.len(),
                        acts@.len() == j,
                        forall|k: int|
                            0 <= k < j ==> (#[trigger] acts@[k]).authenticator
                                == self.config.peer_authenticator@[k] && acts@[k].peer.id@
                                == peer.id@,
                    decreases self.config.peer_authenticator@.len() - j,
                {
                    let a = self.config.peer_authenticator[j];
                    acts.push(HandleCloseAction { authenticator: a, peer: peer.dup() });
                    j += 1;
                }
                Ok(acts)
            },
        }
    }
}

/// In a table whose peers are pairwise distinct, at most one entry
/// matches any given peer.
proof fn lemma_filter_distinct_peers(s: Seq<TransportUnicastInner>, x: Seq<u8>)
    requires
        forall|j: int, k: int| 0 <= j < k < s.len() ==> s[j].peer.id@ != s[k].peer.id@,
    ensures
        s.filter(|t: TransportUnicastInner| t.peer.id@ == x).len() <= 1,
    decreases s.len(),
{
    reveal(Seq::filter);
    let pred = |t: TransportUnicastInner| t.peer.id@ == x;
    if s.len() > 0 {
        let rest = s.drop_last();
        lemma_filter_distinct_peers(rest, x);
        if pred(s.last()) && rest.filter(pred).len() > 0 {
            let fs = rest.filter(pred);
            rest.lemma_filter_pred(pred, 0);
            assert(0 <= 0 < fs.len() && fs[0] == fs[0]);
            assert(fs.contains(fs[0]));
            rest.lemma_filter_contains_rev(pred, fs[0]);
            let j = choose|j: int| 0 <= j < rest.len() && rest[j] == fs[0];
            assert(s[j] == rest[j]);
            assert(s[j].peer.id@ == x);
            assert(s.last().peer.id@ == x);
            assert(s[j].peer.id@ != s[s.len() - 1].peer.id@);
        }
    }
}

/// Law: for every peer, at any instant, the established-transport table
/// holds at most one entry for that peer.
pub proof fn lemma_at_most_one_transport_per_peer(m: TransportManager, x: Seq<u8>)
    requires
        m.wf(),
    ensures
        m.state.transports@.filter(|t: TransportUnicastInner| t.peer.id@ == x).len() <= 1,
{
    lemma_filter_distinct_peers(m.state.transports@, x);
}

/// Law: when one initialisation for a peer has succeeded, a second one
/// for the same peer whose role, sequence-number resolution or
/// shared-memory flag differs fails and leaves the whole manager, in
/// particular the table entry, unchanged.
pub proof fn lemma_init_transport_conflict(
    pre: TransportManager,
    cfg1: TransportConfigUnicast,
    mid: TransportManager,
    cfg2: TransportConfigUnicast,
    post: TransportManager,
    ok2: bool,
)
    requires
        pre.wf(),
        mid.wf(),
        spec_init_transport(pre, cfg1, mid, true),
        spec_init_transport(mid, cfg2, post, ok2),
        cfg2.peer.id@ == cfg1.peer.id@,
        cfg2.whatami != cfg1.whatami || cfg2.sn_resolution != cfg1.sn_resolution || cfg2.is_shm
            != cfg1.is_shm,
    ensures
        !ok2,
        post == mid,
        mid.spec_peer_at(cfg1.peer.id@).whatami == cfg1.whatami,
        mid.spec_peer_at(cfg1.peer.id@).sn_resolution == cfg1.sn_resolution,
        mid.spec_peer_at(cfg1.peer.id@).is_shm == cfg1.is_shm,
{
    let x = cfg1.peer.id@;
    if pre.spec_has_peer(x) {
        assert(pre.spec_peer_at(x).spec_compatible(cfg1));
        assert(mid == pre);
    } else {
        let n = mid.state.transports@.len() - 1;
        assert(mid.state.transports@[n].peer.id@ == x);
        mid.lemma_peer_at(n);
    }
    assert(mid.spec_has_peer(x));
    assert(!mid.spec_peer_at(x).spec_compatible(cfg2));
}

} // verus!

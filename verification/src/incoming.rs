//! Admission of incoming links: the bounded pending table, the folding of
//! link-authenticator verdicts, and the terminal bookkeeping of the accept
//! task. The embedding runtime performs the closes and spawns the tasks
//! these decisions call for.

use vstd::prelude::*;
use crate::manager::{link_key, TransportManager};
use crate::types::{Link, Locator, PeerId, ZError};

verus! {

/// What one link authenticator answered for a fresh link: an optional
/// peer identification, or a rejection.
pub enum LinkAuthResult {
    Identified(Option<PeerId>),
    Rejected(ZError),
}

/// A link that passed the link-authenticator chain, ready for the
/// establishment handshake. Opaque locator-level material (for example
/// TLS peer information) is the embedding runtime's to carry alongside;
/// the library never reads it.
pub struct AuthenticatedPeerLink {
    pub src: Locator,
    pub dst: Locator,
    pub peer_id: Option<PeerId>,
}

/// How the authenticator chain settles.
#[derive(Clone, Copy, PartialEq, Eq, Structural, Debug)]
pub enum AuthDecision {
    /// Some authenticator rejected the link. Its pending entry is
    /// released; the link is not closed here, because a rejecting
    /// authenticator has already disposed of it.
    Rejected,
    /// Two authenticators identified different peers; the link is closed
    /// and its pending entry released.
    Ambiguous,
    /// The chain agrees; establishment may proceed.
    Accepted,
}

/// The peer-identity view of an optional identification.
pub open spec fn spec_pid_view(pid: Option<PeerId>) -> Option<Seq<u8>> {
    match pid {
        Some(p) => Some(p.id@),
        None => None,
    }
}

/// How the chain settles from result `i` on, having already accumulated
/// the identification `acc`: a rejection aborts, two different
/// identifications are ambiguous, and the first identification is kept.
pub open spec fn spec_auth_decision(
    results: Seq<LinkAuthResult>,
    i: int,
    acc: Option<Seq<u8>>,
) -> AuthDecision
    decreases results.len() - i,
{
    if i < 0 || i >= results.len() {
        AuthDecision::Accepted
    } else {
        match results[i] {
            LinkAuthResult::Rejected(e) => AuthDecision::Rejected,
            LinkAuthResult::Identified(pid) => {
                if acc is Some && spec_pid_view(pid) is Some && acc != spec_pid_view(pid) {
                    AuthDecision::Ambiguous
                } else {
                    spec_auth_decision(
                        results,
                        i + 1,
                        if acc is None {
                            spec_pid_view(pid)
                        } else {
                            acc
                        },
                    )
                }
            },
        }
    }
}

/// The identification the chain settles on when it accepts.
pub open spec fn spec_auth_peer(
    results: Seq<LinkAuthResult>,
    i: int,
    acc: Option<Seq<u8>>,
) -> Option<Seq<u8>>
    decreases results.len() - i,
{
    if i < 0 || i >= results.len() {
        acc
    } else {
        match results[i] {
            LinkAuthResult::Rejected(e) => acc,
            LinkAuthResult::Identified(pid) => spec_auth_peer(
                results,
                i + 1,
                if acc is None {
                    spec_pid_view(pid)
                } else {
                    acc
                },
            ),
        }
    }
}

/// Folds the link-authenticator verdicts in chain order, stopping at the
/// first rejection or ambiguity.
pub fn fold_link_auth(results: &Vec<LinkAuthResult>) -> (r: (
    AuthDecision,
    Option<PeerId>,
))
    ensures
        r.0 == spec_auth_decision(results@, 0, None::<Seq<u8>>),
        r.0 is Accepted ==> spec_pid_view(r.1) == spec_auth_peer(results@, 0, None::<Seq<u8>>),
{
    let mut acc: Option<PeerId> = None;
    let mut i: usize = 0;
    while i < results.len()
        invariant
            i <= results@.len(),
            spec_auth_decision(results@, 0, None::<Seq<u8>>) == spec_auth_decision(
                results@,
                i as int,
                spec_pid_view(acc),
            ),
            spec_auth_peer(results@, 0, None::<Seq<u8>>) == spec_auth_peer(
                results@,
                i as int,
                spec_pid_view(acc),
            ),
        decreases results@.len() - i,
    {
        match &results[i] {
            LinkAuthResult::Rejected(e) => {
                return (AuthDecision::Rejected, None);
            },
            LinkAuthResult::Identified(pid) => {
                match (&acc, pid) {
                    (Some(p1), Some(p2)) => {
                        if !p1.same(p2) {
                            return (AuthDecision::Ambiguous, None);
                        }
                    },
                    (None, _) => {
                        acc = match pid {
                            Some(p) => Some(p.dup()),
                            None => None,
                        };
                    },
                    _ => {},
                }
            },
        }
        i += 1;
    }
    (AuthDecision::Accepted, acc)
}

/// What an invocation of the admission path settles to; the embedding
/// runtime owes the action each variant names.
pub enum HandleNewLinkOutcome {
    /// The pending table is full: close the link straight away, with no
    /// further notification, and record nothing.
    DenyCapacity,
    /// An authenticator rejected the link: its pending entry is
    /// released; do not close the link here, because the rejecting
    /// authenticator owns its disposal.
    AuthRejected,
    /// The chain identified two different peers: the pending entry is
    /// released; close the link.
    AuthAmbiguous,
    /// The link is admitted and authenticated: spawn the accept task for
    /// this authenticated link, bounded by the open timeout, and settle
    /// it with [`TransportManager::finish_accept`].
    Accepted(AuthenticatedPeerLink),
}

/// How the accept task ended.
#[derive(Clone, Copy, PartialEq, Eq, Structural, Debug)]
pub enum AcceptOutcome {
    /// Establishment succeeded; the transport table already holds the
    /// peer's entry.
    Established,
    /// Establishment failed within the deadline; the establishment code
    /// owns the link's disposal.
    InnerError,
    /// The open deadline expired; the link must be closed here.
    TimedOut,
}

impl TransportManager {
    /// Whether a pending entry for this link exists.
    pub open spec fn spec_has_pending(
        &self,
        key: ((Seq<char>, Seq<char>), (Seq<char>, Seq<char>)),
    ) -> bool {
        exists|j: int|
            0 <= j < self.state.incoming@.len() && link_key(self.state.incoming@[j]) == key
    }

    /// The index of the pending entry for this link, if any.
    fn find_pending(&self, link: &Link) -> (r: Option<usize>)
        ensures
            match r {
                Some(i) => i < self.state.incoming@.len() && link_key(
                    self.state.incoming@[i as int],
                ) == link_key(*link),
                None => !self.spec_has_pending(link_key(*link)),
            },
    {
        let mut i: usize = 0;
        while i < self.state.incoming.len()
            invariant
                i <= self.state.incoming@.len(),
                forall|j: int| 0 <= j < i ==> link_key(self.state.incoming@[j]) != link_key(*link),
            decreases self.state.incoming@.len() - i,
        {
            if self.state.incoming[i].same(link) {
                return Some(i);
            }
            i += 1;
        }
        None
    }

    /// The admission check and slot reservation: a full pending table
    /// denies the link, anything else reserves its entry.
    pub fn admit_incoming_link(&mut self, link: &Link) -> (admitted: bool)
        requires
            old(self).wf(),
        ensures
            final(self).wf(),
            final(self).config == old(self).config,
            final(self).state.protocols == old(self).state.protocols,
            final(self).state.transports == old(self).state.transports,
            final(self).state.opened == old(self).state.opened,
            final(self).state.incoming@.len() <= final(self).config.open_pending,
            admitted <==> old(self).state.incoming@.len() < old(self).config.open_pending,
            !admitted ==> *final(self) == *old(self),
            admitted ==> final(self).spec_has_pending(link_key(*link)),
            admitted ==> forall|k: ((Seq<char>, Seq<char>), (Seq<char>, Seq<char>))|
                k != link_key(*link) ==> (final(self).spec_has_pending(k) <==> old(self).spec_has_pending(k)),
            admitted && old(self).spec_has_pending(link_key(*link)) ==> *final(self) == *old(
                self,
            ),
    {
        if self.state.incoming.len() >= self.config.open_pending {
            return false;
        }
        match self.find_pending(link) {
            Some(_) => true,
            None => {
                self.state.incoming.push(link.dup());
                proof {
                    let news = self.state.incoming@;
                    let olds = old(self).state.incoming@;
                    assert(link_key(news[news.len() - 1]) == link_key(*link));
                    assert(self.spec_has_pending(link_key(*link)));
                    assert forall|j: int, k: int| 0 <= j < k < news.len() implies link_key(
                        news[j],
                    ) != link_key(news[k]) by {
                        if k == news.len() - 1 {
                            assert(news[j] == olds[j]);
                        }
                    }
                    assert forall|k: ((Seq<char>, Seq<char>), (Seq<char>, Seq<char>))|
                        k != link_key(*link) && self.spec_has_pending(k) implies old(
                        self,
                    ).spec_has_pending(k) by {
                        let j = choose|j: int|
                            0 <= j < news.len() && link_key(news[j]) == k;
                        assert(j < olds.len());
                        assert(news[j] == olds[j]);
                    }
                    assert forall|k: ((Seq<char>, Seq<char>), (Seq<char>, Seq<char>))|
                        k != link_key(*link) && old(self).spec_has_pending(k) implies self
                        .spec_has_pending(k) by {
                        let j = choose|j: int|
                            0 <= j < olds.len() && link_key(olds[j]) == k;
                        assert(news[j] == olds[j]);
                    }
                }
                true
            },
        }
    }

    /// Releases the pending entry for this link, if any.
    pub fn remove_pending_link(&mut self, link: &Link)
        requires
            old(self).wf(),
        ensures
            final(self).wf(),
            final(self).config == old(self).config,
            final(self).state.protocols == old(self).state.protocols,
            final(self).state.transports == old(self).state.transports,
            final(self).state.opened == old(self).state.opened,
            !final(self).spec_has_pending(link_key(*link)),
            forall|k: ((Seq<char>, Seq<char>), (Seq<char>, Seq<char>))|
                k != link_key(*link) ==> (final(self).spec_has_pending(k) <==> old(self).spec_has_pending(k)),
            !old(self).spec_has_pending(link_key(*link)) ==> *final(self) == *old(self),
            final(self).state.incoming@.len() == old(self).state.incoming@.len() - (
            if old(self).spec_has_pending(link_key(*link)) {
                1int
            } else {
                0int
            }),
    {
        match self.find_pending(link) {
            None => {},
            Some(i) => {
                self.state.incoming.remove(i);
                proof {
                    let news = self.state.incoming@;
                    let olds = old(self).state.incoming@;
                    assert forall|j: int| 0 <= j < news.len() implies link_key(news[j])
                        != link_key(*link) by {
                        if j < i {
                            assert(news[j] == olds[j]);
                        } else {
                            assert(news[j] == olds[j + 1]);
                        }
                    }
                    assert forall|k: ((Seq<char>, Seq<char>), (Seq<char>, Seq<char>))|
                        k != link_key(*link) && old(self).spec_has_pending(k) implies self
                        .spec_has_pending(k) by {
                        let j = choose|j: int|
                            0 <= j < olds.len() && link_key(olds[j]) == k;
                        if j < i {
                            assert(news[j] == olds[j]);
                        } else {
                            assert(j > i);
                            assert(news[j - 1] == olds[j]);
                        }
                    }
                    assert forall|k: ((Seq<char>, Seq<char>), (Seq<char>, Seq<char>))|
                        k != link_key(*link) && self.spec_has_pending(k) implies old(
                        self,
                    ).spec_has_pending(k) by {
                        let j = choose|j: int|
                            0 <= j < news.len() && link_key(news[j]) == k;
                        if j < i {
                            assert(news[j] == olds[j]);
                        } else {
                            assert(news[j] == olds[j + 1]);
                        }
                    }
                }
            },
        }
    }

    /// The admission path for one fresh incoming link, given the chain's
    /// verdicts in order: a full table denies silently, a rejection or an
    /// ambiguous identification releases the slot (only the ambiguity
    /// also orders a close here), and agreement yields the authenticated
    /// link the accept task runs on. Every error path that reserved a
    /// pending entry releases it before returning.
    pub fn handle_new_link_unicast(&mut self, link: &Link, results: &Vec<LinkAuthResult>) -> (r:
        HandleNewLinkOutcome)
        requires
            old(self).wf(),
        ensures
            final(self).wf(),
            final(self).config == old(self).config,
            final(self).state.protocols == old(self).state.protocols,
            final(self).state.transports == old(self).state.transports,
            final(self).state.opened == old(self).state.opened,
            final(self).state.incoming@.len() <= final(self).config.open_pending,
            r is DenyCapacity <==> old(self).state.incoming@.len() >= old(
                self,
            ).config.open_pending,
            r is DenyCapacity ==> *final(self) == *old(self),
            !(r is DenyCapacity) ==> {
                let d = spec_auth_decision(results@, 0, None::<Seq<u8>>);
                &&& (r is AuthRejected <==> d is Rejected)
                &&& (r is AuthAmbiguous <==> d is Ambiguous)
                &&& (r is AuthRejected ==> !final(self).spec_has_pending(link_key(*link)))
                &&& (r is AuthAmbiguous ==> !final(self).spec_has_pending(link_key(*link)))
                &&& forall|k: ((Seq<char>, Seq<char>), (Seq<char>, Seq<char>))|
                    k != link_key(*link) ==> (final(self).spec_has_pending(k) <==> old(self).spec_has_pending(k))
            },
            match r {
                HandleNewLinkOutcome::Accepted(auth) => {
                    &&& spec_auth_decision(results@, 0, None::<Seq<u8>>) is Accepted
                    &&& final(self).spec_has_pending(link_key(*link))
                    &&& auth.src.protocol@ == link.src.protocol@ && auth.src.address@
                        == link.src.address@
                    &&& auth.dst.protocol@ == link.dst.protocol@ && auth.dst.address@
                        == link.dst.address@
                    &&& spec_pid_view(auth.peer_id) == spec_auth_peer(
                        results@,
                        0,
                        None::<Seq<u8>>,
                    )
                },
                _ => true,
            },
    {
        if !self.admit_incoming_link(link) {
            return HandleNewLinkOutcome::DenyCapacity;
        }
        let (decision, pid) = fold_link_auth(results);
        match decision {
            AuthDecision::Rejected => {
                self.remove_pending_link(link);
                HandleNewLinkOutcome::AuthRejected
            },
            AuthDecision::Ambiguous => {
                self.remove_pending_link(link);
                HandleNewLinkOutcome::AuthAmbiguous
            },
            AuthDecision::Accepted => HandleNewLinkOutcome::Accepted(
                AuthenticatedPeerLink { src: link.src.dup(), dst: link.dst.dup(), peer_id: pid },
            ),
        }
    }

    /// Settles the accept task for an admitted link: its pending entry is
    /// released whatever happened, and the returned flag orders the
    /// embedding runtime to close the link exactly when the deadline
    /// expired. After an inner establishment failure the establishment
    /// code owns the link's disposal.
    pub fn finish_accept(&mut self, link: &Link, outcome: AcceptOutcome) -> (close: bool)
        requires
            old(self).wf(),
        ensures
            final(self).wf(),
            final(self).config == old(self).config,
            final(self).state.protocols == old(self).state.protocols,
            final(self).state.transports == old(self).state.transports,
            final(self).state.opened == old(self).state.opened,
            !final(self).spec_has_pending(link_key(*link)),
            forall|k: ((Seq<char>, Seq<char>), (Seq<char>, Seq<char>))|
                k != link_key(*link) ==> (final(self).spec_has_pending(k) <==> old(self).spec_has_pending(k)),
            close == (outcome is TimedOut),
    {
        self.remove_pending_link(link);
        match outcome {
            AcceptOutcome::TimedOut => true,
            AcceptOutcome::Established => false,
            AcceptOutcome::InnerError => false,
        }
    }
}

/// Law: a manager over fresh state is listener-coherent, the base of the
/// coherence that listener additions and removals preserve.
pub proof fn lemma_fresh_manager_coherent(m: TransportManager)
    requires
        m.state.protocols@.len() == 0,
    ensures
        m.listener_coherent(),
{
}

/// Law: the pending table never outgrows the admission bound.
pub proof fn lemma_pending_bounded(m: TransportManager)
    requires
        m.wf(),
    ensures
        m.state.incoming@.len() <= m.config.open_pending,
{
}

} // verus!

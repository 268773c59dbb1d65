//! The unicast transport manager: the per-protocol link-factory registry,
//! the listener bookkeeping, and the shared state tables.

use vstd::prelude::*;
use crate::config::TransportManagerConfigUnicast;
use crate::transport::{OpenedEntry, TransportUnicastInner};
use crate::types::{Link, Locator, ZError};

verus! {

/// The identifying components of a locator.
pub open spec fn loc_key(l: Locator) -> (Seq<char>, Seq<char>) {
    (l.protocol@, l.address@)
}

/// The sequence of locator keys of a locator vector.
pub open spec fn locs_view(s: Seq<Locator>) -> Seq<(Seq<char>, Seq<char>)> {
    Seq::new(s.len(), |i: int| loc_key(s[i]))
}

/// The identifying components of a link: its two endpoints.
pub open spec fn link_key(l: Link) -> ((Seq<char>, Seq<char>), (Seq<char>, Seq<char>)) {
    (loc_key(l.src), loc_key(l.dst))
}

/// A per-protocol link factory. It owns the listeners registered for its
/// protocol; opening sockets and accepting connections belong to the
/// embedding runtime.
pub struct LinkManagerUnicast {
    pub protocol: String,
    pub listeners: Vec<Locator>,
}

impl LinkManagerUnicast {
    /// Listeners are pairwise distinct.
    pub open spec fn wf(&self) -> bool {
        forall|j: int, k: int|
            0 <= j < k < self.listeners@.len() ==> loc_key(self.listeners@[j]) != loc_key(
                self.listeners@[k],
            )
    }

    /// Whether a listener with this locator is registered here.
    pub open spec fn spec_has_listener(&self, key: (Seq<char>, Seq<char>)) -> bool {
        exists|j: int| 0 <= j < self.listeners@.len() && loc_key(self.listeners@[j]) == key
    }

    /// The index of the listener with this locator, if any.
    fn find_listener(&self, locator: &Locator) -> (r: Option<usize>)
        ensures
            match r {
                Some(i) => i < self.listeners@.len() && loc_key(self.listeners@[i as int])
                    == loc_key(*locator),
                None => !self.spec_has_listener(loc_key(*locator)),
            },
    {
        let mut i: usize = 0;
        while i < self.listeners.len()
            invariant
                i <= self.listeners@.len(),
                forall|j: int| 0 <= j < i ==> loc_key(self.listeners@[j]) != loc_key(*locator),
            decreases self.listeners@.len() - i,
        {
            if self.listeners[i].same(locator) {
                return Some(i);
            }
            i += 1;
        }
        None
    }

    /// Registers a listener, publishing the locator it will serve.
    /// Fails when a listener for the same locator is already registered,
    /// leaving the factory untouched.
    pub fn new_listener(&mut self, locator: &Locator) -> (r: Result<Locator, ZError>)
        requires
            old(self).wf(),
        ensures
            final(self).wf(),
            final(self).protocol@ == old(self).protocol@,
            match r {
                Ok(adv) => {
                    &&& !old(self).spec_has_listener(loc_key(*locator))
                    &&& final(self).listeners@.len() == old(self).listeners@.len() + 1
                    &&& final(self).listeners@.drop_last() == old(self).listeners@
                    &&& loc_key(final(self).listeners@.last()) == loc_key(*locator)
                    &&& loc_key(adv) == loc_key(*locator)
                },
                Err(e) => {
                    &&& old(self).spec_has_listener(loc_key(*locator))
                    &&& e is AlreadyExists
                    &&& *final(self) == *old(self)
                },
            },
    {
        match self.find_listener(locator) {
            Some(_) => Err(
                ZError::AlreadyExists {
                    descr: String::from_str("a listener for this locator already exists"),
                },
            ),
            None => {
                self.listeners.push(locator.dup());
                Ok(locator.dup())
            },
        }
    }

    /// Removes the listener for this locator; fails when none is
    /// registered, leaving the factory untouched.
    pub fn del_listener(&mut self, locator: &Locator) -> (r: Result<(), ZError>)
        requires
            old(self).wf(),
        ensures
            final(self).wf(),
            final(self).protocol@ == old(self).protocol@,
            match r {
                Ok(u) => {
                    &&& old(self).spec_has_listener(loc_key(*locator))
                    &&& final(self).listeners@.len() == old(self).listeners@.len() - 1
                    &&& !final(self).spec_has_listener(loc_key(*locator))
                    &&& forall|k: (Seq<char>, Seq<char>)|
                        k != loc_key(*locator) ==> (final(self).spec_has_listener(k) <==> old(
                            self,
                        ).spec_has_listener(k))
                },
                Err(e) => {
                    &&& !old(self).spec_has_listener(loc_key(*locator))
                    &&& e is NotFound
                    &&& *final(self) == *old(self)
                },
            },
    {
        match self.find_listener(locator) {
            Some(i) => {
                self.listeners.remove(i);
                proof {
                    let key = loc_key(*locator);
                    let olds = old(self).listeners@;
                    let news = self.listeners@;
                    assert forall|j: int| 0 <= j < news.len() implies loc_key(news[j]) != key by {
                        if j < i {
                            assert(news[j] == olds[j]);
                        } else {
                            assert(news[j] == olds[j + 1]);
                        }
                    }
                    assert forall|k: (Seq<char>, Seq<char>)|
                        k != key && old(self).spec_has_listener(k) implies self.spec_has_listener(
                        k,
                    ) by {
                        let j = choose|j: int|
                            0 <= j < olds.len() && loc_key(olds[j]) == k;
                        if j < i {
                            assert(news[j] == olds[j]);
                        } else {
                            assert(j > i);
                            assert(news[j - 1] == olds[j]);
                        }
                    }
                    assert forall|k: (Seq<char>, Seq<char>)|
                        k != key && self.spec_has_listener(k) implies old(
                        self,
                    ).spec_has_listener(k) by {
                        let j = choose|j: int|
                            0 <= j < news.len() && loc_key(news[j]) == k;
                        if j < i {
                            assert(news[j] == olds[j]);
                        } else {
                            assert(news[j] == olds[j + 1]);
                        }
                    }
                }
                Ok(())
            },
            None => Err(
                ZError::NotFound {
                    descr: String::from_str("no listener for this locator is registered"),
                },
            ),
        }
    }

    /// A snapshot of the currently registered listeners.
    pub fn get_listeners(&self) -> (r: Vec<Locator>)
        ensures
            locs_view(r@) =~= locs_view(self.listeners@),
    {
        dup_locators(&self.listeners)
    }

    /// The locators this factory advertises. A factory may know more
    /// reachable endpoints than its listeners; this model advertises
    /// exactly the listeners.
    pub fn get_locators(&self) -> (r: Vec<Locator>)
        ensures
            locs_view(r@) =~= locs_view(self.listeners@),
    {
        dup_locators(&self.listeners)
    }
}

/// A copy of a locator vector.
pub fn dup_locators(s: &Vec<Locator>) -> (r: Vec<Locator>)
    ensures
        locs_view(r@) =~= locs_view(s@),
        r@.len() == s@.len(),
{
    let mut r: Vec<Locator> = Vec::new();
    let mut i: usize = 0;
    while i < s.len()
        invariant
            i <= s@.len(),
            r@.len() == i,
            forall|j: int| 0 <= j < i ==> loc_key(r@[j]) == loc_key(s@[j]),
        decreases s@.len() - i,
    {
        r.push(s[i].dup());
        i += 1;
    }
    r
}

/// The shared state of a unicast transport manager: opened handshakes,
/// incoming links under admission, per-protocol factories and
/// established transports.
pub struct TransportManagerStateUnicast {
    /// Negotiated parameters of handshakes still in flight, by peer.
    pub opened: Vec<OpenedEntry>,
    /// Incoming links under authentication or establishment.
    pub incoming: Vec<Link>,
    /// One link factory per locator protocol.
    pub protocols: Vec<LinkManagerUnicast>,
    /// Established transports, at most one per peer.
    pub transports: Vec<TransportUnicastInner>,
}

impl Default for TransportManagerStateUnicast {
    /// Fresh state: every table empty.
    fn default() -> (r: TransportManagerStateUnicast)
        ensures
            r.opened@.len() == 0,
            r.incoming@.len() == 0,
            r.protocols@.len() == 0,
            r.transports@.len() == 0,
    {
        TransportManagerStateUnicast {
            opened: Vec::new(),
            incoming: Vec::new(),
            protocols: Vec::new(),
            transports: Vec::new(),
        }
    }
}

/// The unicast transport manager: its settled configuration and its
/// shared state.
pub struct TransportManager {
    pub config: TransportManagerConfigUnicast,
    pub state: TransportManagerStateUnicast,
}

impl TransportManager {
    /// Well-formedness: registries are keyed uniquely and the admission
    /// bounds hold.
    pub open spec fn wf(&self) -> bool {
        &&& forall|j: int, k: int|
            0 <= j < k < self.state.protocols@.len() ==> self.state.protocols@[j].protocol@
                != self.state.protocols@[k].protocol@
        &&& forall|j: int|
            0 <= j < self.state.protocols@.len() ==> (#[trigger] self.state.protocols@[j]).wf()
        &&& forall|j: int, k: int|
            0 <= j < k < self.state.transports@.len() ==> self.state.transports@[j].peer.id@
                != self.state.transports@[k].peer.id@
        &&& forall|j: int, k: int|
            0 <= j < k < self.state.incoming@.len() ==> link_key(self.state.incoming@[j])
                != link_key(self.state.incoming@[k])
        &&& self.state.incoming@.len() <= self.config.open_pending
        &&& self.state.transports@.len() <= self.config.max_transports
    }

    /// Builds a manager over fresh state.
    pub fn new(config: TransportManagerConfigUnicast) -> (r: TransportManager)
        ensures
            r.wf(),
            r.config == config,
            r.state.opened@.len() == 0,
            r.state.incoming@.len() == 0,
            r.state.protocols@.len() == 0,
            r.state.transports@.len() == 0,
    {
        TransportManager { config, state: TransportManagerStateUnicast::default() }
    }

    /// Whether a factory for this protocol is registered.
    pub open spec fn spec_has_protocol(&self, proto: Seq<char>) -> bool {
        exists|j: int|
            0 <= j < self.state.protocols@.len() && self.state.protocols@[j].protocol@ == proto
    }

    /// The index of the factory for this protocol, if any.
    fn find_protocol(&self, protocol: &String) -> (r: Option<usize>)
        ensures
            match r {
                Some(i) => i < self.state.protocols@.len() && self.state.protocols@[
                    i as int
                ].protocol@ == protocol@,
                None => !self.spec_has_protocol(protocol@),
            },
    {
        let mut i: usize = 0;
        while i < self.state.protocols.len()
            invariant
                i <= self.state.protocols@.len(),
                forall|j: int| 0 <= j < i ==> self.state.protocols@[j].protocol@ != protocol@,
            decreases self.state.protocols@.len() - i,
        {
            if self.state.protocols[i].protocol.eq(protocol) {
                return Some(i);
            }
            i += 1;
        }
        None
    }
}

/// The listeners every factory advertises, flattened in registry order.
pub open spec fn spec_all_listeners(s: Seq<LinkManagerUnicast>) -> Seq<(Seq<char>, Seq<char>)>
    decreases s.len(),
{
    if s.len() == 0 {
        Seq::empty()
    } else {
        spec_all_listeners(s.drop_last()) + locs_view(s.last().listeners@)
    }
}

impl TransportManager {
    /// The factory registered for this protocol; meaningful only when
    /// [`Self::spec_has_protocol`] holds and the manager is well formed.
    pub open spec fn spec_protocol_at(&self, proto: Seq<char>) -> LinkManagerUnicast {
        self.state.protocols@[choose|j: int|
            0 <= j < self.state.protocols@.len() && self.state.protocols@[j].protocol@ == proto]
    }

    /// Coherence of factories and listeners: every registered factory
    /// owns at least one listener. Holds along any sequence of listener
    /// additions and removals; outbound transports may break it by
    /// creating a factory eagerly.
    pub open spec fn listener_coherent(&self) -> bool {
        forall|j: int|
            0 <= j < self.state.protocols@.len() ==> (#[trigger] self.state.protocols@[
                j
            ]).listeners@.len() > 0
    }

    /// In a well-formed manager, any registry slot holding `proto` is the
    /// factory [`Self::spec_protocol_at`] names.
    pub proof fn lemma_protocol_at(&self, j: int)
        requires
            self.wf(),
            0 <= j < self.state.protocols@.len(),
        ensures
            self.spec_protocol_at(self.state.protocols@[j].protocol@) == self.state.protocols@[j],
    {
        let proto = self.state.protocols@[j].protocol@;
        assert(self.spec_has_protocol(proto));
        let k = choose|k: int|
            0 <= k < self.state.protocols@.len() && self.state.protocols@[k].protocol@ == proto;
        if k != j {
            if k < j {
                assert(self.state.protocols@[k].protocol@ != self.state.protocols@[j].protocol@);
            } else {
                assert(self.state.protocols@[j].protocol@ != self.state.protocols@[k].protocol@);
            }
        }
    }

    /// Registers a fresh factory for this protocol; fails when one is
    /// already registered, leaving the registry untouched.
    pub fn new_link_manager_unicast(&mut self, protocol: &String) -> (r: Result<
        LinkManagerUnicast,
        ZError,
    >)
        requires
            old(self).wf(),
        ensures
            final(self).wf(),
            final(self).config == old(self).config,
            final(self).state.transports == old(self).state.transports,
            final(self).state.incoming == old(self).state.incoming,
            final(self).state.opened == old(self).state.opened,
            match r {
                Ok(lm) => {
                    &&& !old(self).spec_has_protocol(protocol@)
                    &&& final(self).state.protocols@ == old(self).state.protocols@.push(
                        final(self).state.protocols@.last(),
                    )
                    &&& final(self).state.protocols@.last().protocol@ == protocol@
                    &&& final(self).state.protocols@.last().listeners@.len() == 0
                    &&& lm.protocol@ == protocol@
                    &&& lm.listeners@.len() == 0
                },
                Err(e) => {
                    &&& old(self).spec_has_protocol(protocol@)
                    &&& e is AlreadyExists
                    &&& *final(self) == *old(self)
                },
            },
    {
        match self.find_protocol(protocol) {
            Some(_) => Err(
                ZError::AlreadyExists {
                    descr: String::from_str(
                        "a link manager for this protocol already exists",
                    ),
                },
            ),
            None => {
                let lm = LinkManagerUnicast {
                    protocol: protocol.clone(),
                    listeners: Vec::new(),
                };
                self.state.protocols.push(lm);
                proof {
                    let news = self.state.protocols@;
                    let olds = old(self).state.protocols@;
                    assert forall|j: int, k: int| 0 <= j < k < news.len() implies news[j].protocol@
                        != news[k].protocol@ by {
                        if k == news.len() - 1 {
                            assert(news[j] == olds[j]);
                            assert(!old(self).spec_has_protocol(protocol@));
                        }
                    }
                }
                Ok(LinkManagerUnicast { protocol: protocol.clone(), listeners: Vec::new() })
            },
        }
    }

    /// The factory for this protocol, as a snapshot; fails when none is
    /// registered.
    pub fn get_link_manager_unicast(&self, protocol: &String) -> (r: Result<
        LinkManagerUnicast,
        ZError,
    >)
        requires
            self.wf(),
        ensures
            match r {
                Ok(lm) => {
                    &&& self.spec_has_protocol(protocol@)
                    &&& lm.protocol@ == protocol@
                    &&& locs_view(lm.listeners@) =~= locs_view(
                        self.spec_protocol_at(protocol@).listeners@,
                    )
                },
                Err(e) => {
                    &&& !self.spec_has_protocol(protocol@)
                    &&& e is NotFound
                },
            },
    {
        match self.find_protocol(protocol) {
            Some(i) => {
                proof {
                    self.lemma_protocol_at(i as int);
                }
                let lm = &self.state.protocols[i];
                Ok(LinkManagerUnicast {
                    protocol: protocol.clone(),
                    listeners: dup_locators(&lm.listeners),
                })
            },
            None => Err(
                ZError::NotFound {
                    descr: String::from_str("no link manager for this protocol is registered"),
                },
            ),
        }
    }

    /// The factory for this protocol, creating it when absent. Returns a
    /// snapshot of the factory; creation is observable at most once per
    /// protocol until it is deleted.
    pub fn get_or_new_link_manager_unicast(&mut self, protocol: &String) -> (r:
        LinkManagerUnicast)
        requires
            old(self).wf(),
        ensures
            final(self).wf(),
            final(self).config == old(self).config,
            final(self).state.transports == old(self).state.transports,
            final(self).state.incoming == old(self).state.incoming,
            final(self).state.opened == old(self).state.opened,
            final(self).spec_has_protocol(protocol@),
            r.protocol@ == protocol@,
            old(self).spec_has_protocol(protocol@) ==> *final(self) == *old(self) && locs_view(
                r.listeners@,
            ) =~= locs_view(old(self).spec_protocol_at(protocol@).listeners@),
            !old(self).spec_has_protocol(protocol@) ==> {
                &&& final(self).state.protocols@ == old(self).state.protocols@.push(
                    final(self).state.protocols@.last(),
                )
                &&& final(self).state.protocols@.last().protocol@ == protocol@
                &&& final(self).state.protocols@.last().listeners@.len() == 0
                &&& r.listeners@.len() == 0
            },
    {
        let existing = self.get_link_manager_unicast(protocol);
        match existing {
            Ok(lm) => lm,
            Err(_) => {
                match self.new_link_manager_unicast(protocol) {
                    Ok(lm) => lm,
                    Err(_) => {
                        proof {
                            assert(false);
                        }
                        LinkManagerUnicast { protocol: protocol.clone(), listeners: Vec::new() }
                    },
                }
            },
        }
    }

    /// Removes the factory for this protocol, handing back the listeners
    /// the embedding runtime still has to tear down, best effort; fails
    /// when no factory is registered.
    pub fn del_link_manager_unicast(&mut self, protocol: &String) -> (r: Result<
        Vec<Locator>,
        ZError,
    >)
        requires
            old(self).wf(),
        ensures
            final(self).wf(),
            final(self).config == old(self).config,
            final(self).state.transports == old(self).state.transports,
            final(self).state.incoming == old(self).state.incoming,
            final(self).state.opened == old(self).state.opened,
            match r {
                Ok(ls) => {
                    &&& old(self).spec_has_protocol(protocol@)
                    &&& !final(self).spec_has_protocol(protocol@)
                    &&& final(self).state.protocols@.len() == old(self).state.protocols@.len() - 1
                    &&& locs_view(ls@) =~= locs_view(
                        old(self).spec_protocol_at(protocol@).listeners@,
                    )
                    &&& forall|q: Seq<char>|
                        q != protocol@ ==> (final(self).spec_has_protocol(q) <==> old(self).spec_has_protocol(q))
                    &&& forall|q: Seq<char>|
                        q != protocol@ && old(self).spec_has_protocol(q)
                            ==> final(self).spec_protocol_at(q) == old(self).spec_protocol_at(q)
                },
                Err(e) => {
                    &&& !old(self).spec_has_protocol(protocol@)
                    &&& e is NotFound
                    &&& *final(self) == *old(self)
                },
            },
    {
        match self.find_protocol(protocol) {
            Some(i) => {
                proof {
                    self.lemma_protocol_at(i as int);
                }
                let lm = self.state.protocols.remove(i);
                proof {
                    let news = self.state.protocols@;
                    let olds = old(self).state.protocols@;
                    assert forall|j: int| 0 <= j < news.len() implies news[j].protocol@
                        != protocol@ by {
                        if j < i {
                            assert(news[j] == olds[j]);
                        } else {
                            assert(news[j] == olds[j + 1]);
                        }
                    }
                    assert forall|q: Seq<char>|
                        q != protocol@ && old(self).spec_has_protocol(q) implies self
                        .spec_has_protocol(q) by {
                        let j = choose|j: int| 0 <= j < olds.len() && olds[j].protocol@ == q;
                        if j < i {
                            assert(news[j] == olds[j]);
                        } else {
                            assert(j > i);
                            assert(news[j - 1] == olds[j]);
                        }
                    }
                    assert forall|q: Seq<char>|
                        q != protocol@ && self.spec_has_protocol(q) implies old(
                        self,
                    ).spec_has_protocol(q) by {
                        let j = choose|j: int| 0 <= j < news.len() && news[j].protocol@ == q;
                        if j < i {
                            assert(news[j] == olds[j]);
                        } else {
                            assert(news[j] == olds[j + 1]);
                        }
                    }
                    assert forall|q: Seq<char>|
                        q != protocol@ && old(self).spec_has_protocol(q) implies self
                        .spec_protocol_at(q) == old(self).spec_protocol_at(q) by {
                        let j = choose|j: int| 0 <= j < news.len() && news[j].protocol@ == q;
                        self.lemma_protocol_at(j);
                        if j < i {
                            assert(news[j] == olds[j]);
                            old(self).lemma_protocol_at(j);
                        } else {
                            assert(news[j] == olds[j + 1]);
                            old(self).lemma_protocol_at(j + 1);
                        }
                    }
                }
                Ok(lm.listeners)
            },
            None => Err(
                ZError::NotFound {
                    descr: String::from_str("no link manager for this protocol is registered"),
                },
            ),
        }
    }
}

/// What the embedding runtime must do to open an outbound transport:
/// dial the remote locator through the protocol's factory, then run
/// establishment, which calls back into transport initialisation.
pub struct OpenAction {
    pub remote: Locator,
}

/// Appends copies of `src`'s locators to `dst`.
pub fn append_locators(dst: &mut Vec<Locator>, src: &Vec<Locator>)
    ensures
        locs_view(final(dst)@) =~= locs_view(old(dst)@) + locs_view(src@),
{
    let mut i: usize = 0;
    while i < src.len()
        invariant
            i <= src@.len(),
            dst@.len() == old(dst)@.len() + i,
            forall|j: int| 0 <= j < old(dst)@.len() ==> loc_key(dst@[j]) == loc_key(old(dst)@[j]),
            forall|j: int|
                0 <= j < i ==> loc_key(dst@[old(dst)@.len() + j]) == loc_key(src@[j]),
        decreases src@.len() - i,
    {
        dst.push(src[i].dup());
        i += 1;
    }
}

impl TransportManager {
    /// Registers a listener: resolves or creates the factory for the
    /// locator's protocol and delegates to it, returning the locator the
    /// factory publishes. When a listener for the same locator already
    /// exists the factory and the registry stay untouched.
    pub fn add_listener_unicast(&mut self, locator: &Locator) -> (r: Result<Locator, ZError>)
        requires
            old(self).wf(),
        ensures
            final(self).wf(),
            final(self).config == old(self).config,
            final(self).state.transports == old(self).state.transports,
            final(self).state.incoming == old(self).state.incoming,
            final(self).state.opened == old(self).state.opened,
            old(self).listener_coherent() ==> final(self).listener_coherent(),
            match r {
                Ok(adv) => {
                    &&& loc_key(adv) == loc_key(*locator)
                    &&& final(self).spec_has_protocol(locator.protocol@)
                    &&& final(self).spec_protocol_at(locator.protocol@).spec_has_listener(
                        loc_key(*locator),
                    )
                    &&& final(self).spec_protocol_at(locator.protocol@).listeners@.len() == (
                    if old(self).spec_has_protocol(locator.protocol@) {
                        old(self).spec_protocol_at(locator.protocol@).listeners@.len() + 1
                    } else {
                        1
                    })
                    &&& forall|q: Seq<char>|
                        q != locator.protocol@ ==> (final(self).spec_has_protocol(q) <==> old(self).spec_has_protocol(q))
                    &&& forall|q: Seq<char>|
                        q != locator.protocol@ && old(self).spec_has_protocol(q)
                            ==> final(self).spec_protocol_at(q) == old(self).spec_protocol_at(q)
                    &&& !(old(self).spec_has_protocol(locator.protocol@) && old(
                        self,
                    ).spec_protocol_at(locator.protocol@).spec_has_listener(loc_key(*locator)))
                },
                Err(e) => {
                    &&& e is AlreadyExists
                    &&& *final(self) == *old(self)
                    &&& old(self).spec_has_protocol(locator.protocol@)
                    &&& old(self).spec_protocol_at(locator.protocol@).spec_has_listener(
                        loc_key(*locator),
                    )
                },
            },
    {
        let i: usize = match self.find_protocol(&locator.protocol) {
            Some(i) => i,
            None => {
                let n = self.state.protocols.len();
                match self.new_link_manager_unicast(&locator.protocol) {
                    Ok(_) => {},
                    Err(_) => {
                        proof {
                            assert(false);
                        }
                    },
                }
                n
            },
        };
        proof {
            self.lemma_protocol_at(i as int);
        }
        let dup = {
            let lm = &self.state.protocols[i];
            lm.find_listener(locator)
        };
        match dup {
            Some(_) => {
                proof {
                    assert(old(self).spec_has_protocol(locator.protocol@));
                    assert(*self == *old(self));
                }
                Err(
                    ZError::AlreadyExists {
                        descr: String::from_str("a listener for this locator already exists"),
                    },
                )
            },
            None => {
                let ghost mid = *self;
                let mut lm = self.state.protocols.remove(i);
                let res = lm.new_listener(locator);
                let ghost lmf = lm;
                self.state.protocols.insert(i, lm);
                proof {
                    assert(self.state.protocols@ =~= mid.state.protocols@.update(i as int, lmf));
                    assert forall|j: int, k: int|
                        0 <= j < k < self.state.protocols@.len() implies self.state.protocols@[
                        j
                    ].protocol@ != self.state.protocols@[k].protocol@ by {
                        assert(mid.state.protocols@[j].protocol@ != mid.state.protocols@[
                            k
                        ].protocol@);
                    }
                    self.lemma_protocol_at(i as int);
                    assert forall|q: Seq<char>|
                        q != locator.protocol@ implies (self.spec_has_protocol(q) <==> old(self).spec_has_protocol(q)) by {
                        if old(self).spec_has_protocol(q) {
                            let j = choose|j: int|
                                0 <= j < old(self).state.protocols@.len() && old(
                                    self,
                                ).state.protocols@[j].protocol@ == q;
                            assert(mid.state.protocols@[j] == old(self).state.protocols@[j]);
                            assert(j != i);
                            assert(self.state.protocols@[j] == mid.state.protocols@[j]);
                        }
                        if self.spec_has_protocol(q) {
                            let j = choose|j: int|
                                0 <= j < self.state.protocols@.len() && self.state.protocols@[
                                    j
                                ].protocol@ == q;
                            assert(j != i);
                            assert(self.state.protocols@[j] == mid.state.protocols@[j]);
                            if j < old(self).state.protocols@.len() {
                                assert(mid.state.protocols@[j] == old(self).state.protocols@[j]);
                            }
                        }
                    }
                    assert forall|q: Seq<char>|
                        q != locator.protocol@ && old(self).spec_has_protocol(q) implies self
                        .spec_protocol_at(q) == old(self).spec_protocol_at(q) by {
                        let j = choose|j: int|
                            0 <= j < old(self).state.protocols@.len() && old(
                                self,
                            ).state.protocols@[j].protocol@ == q;
                        old(self).lemma_protocol_at(j);
                        assert(self.state.protocols@[j] == old(self).state.protocols@[j]);
                        self.lemma_protocol_at(j);
                    }
                    assert forall|q: Seq<char>|
                        q != locator.protocol@ && self.spec_has_protocol(q) implies old(
                        self,
                    ).spec_has_protocol(q) by {
                        let j = choose|j: int|
                            0 <= j < self.state.protocols@.len() && self.state.protocols@[
                                j
                            ].protocol@ == q;
                        if j != i {
                            assert(self.state.protocols@[j] == mid.state.protocols@[j]);
                        }
                    }
                }
                match res {
                    Ok(adv) => Ok(adv),
                    Err(_) => {
                        proof {
                            assert(false);
                        }
                        Err(
                            ZError::AlreadyExists {
                                descr: String::from_str(
                                    "a listener for this locator already exists",
                                ),
                            },
                        )
                    },
                }
            },
        }
    }

    /// Removes a listener through its protocol's factory; when the
    /// factory is left with no listeners its registry entry goes too.
    /// Fails when no such factory or listener is registered.
    pub fn del_listener_unicast(&mut self, locator: &Locator) -> (r: Result<(), ZError>)
        requires
            old(self).wf(),
        ensures
            final(self).wf(),
            final(self).config == old(self).config,
            final(self).state.transports == old(self).state.transports,
            final(self).state.incoming == old(self).state.incoming,
            final(self).state.opened == old(self).state.opened,
            old(self).listener_coherent() ==> final(self).listener_coherent(),
            match r {
                Ok(u) => {
                    &&& old(self).spec_has_protocol(locator.protocol@)
                    &&& old(self).spec_protocol_at(locator.protocol@).spec_has_listener(
                        loc_key(*locator),
                    )
                    &&& (old(self).spec_protocol_at(locator.protocol@).listeners@.len() == 1
                        <==> !final(self).spec_has_protocol(locator.protocol@))
                    &&& final(self).spec_has_protocol(locator.protocol@) ==> {
                        &&& final(self).spec_protocol_at(locator.protocol@).listeners@.len()
                            == old(self).spec_protocol_at(locator.protocol@).listeners@.len() - 1
                        &&& !final(self).spec_protocol_at(locator.protocol@).spec_has_listener(
                            loc_key(*locator),
                        )
                    }
                    &&& forall|q: Seq<char>|
                        q != locator.protocol@ ==> (final(self).spec_has_protocol(q) <==> old(self).spec_has_protocol(q))
                    &&& forall|q: Seq<char>|
                        q != locator.protocol@ && old(self).spec_has_protocol(q)
                            ==> final(self).spec_protocol_at(q) == old(self).spec_protocol_at(q)
                },
                Err(e) => {
                    &&& e is NotFound
                    &&& *final(self) == *old(self)
                    &&& !(old(self).spec_has_protocol(locator.protocol@) && old(
                        self,
                    ).spec_protocol_at(locator.protocol@).spec_has_listener(loc_key(*locator)))
                },
            },
    {
        match self.find_protocol(&locator.protocol) {
            None => Err(
                ZError::NotFound {
                    descr: String::from_str("no link manager for this protocol is registered"),
                },
            ),
            Some(i) => {
                proof {
                    self.lemma_protocol_at(i as int);
                }
                let present = {
                    let lm = &self.state.protocols[i];
                    lm.find_listener(locator)
                };
                match present {
                    None => Err(
                        ZError::NotFound {
                            descr: String::from_str(
                                "no listener for this locator is registered",
                            ),
                        },
                    ),
                    Some(_) => {
                        let ghost pre = *self;
                        let mut lm = self.state.protocols.remove(i);
                        match lm.del_listener(locator) {
                            Ok(_) => {},
                            Err(_) => {
                                proof {
                                    assert(false);
                                }
                            },
                        }
                        let keep = lm.listeners.len() > 0;
                        let ghost lmf = lm;
                        if keep {
                            self.state.protocols.insert(i, lm);
                        }
                        proof {
                            let olds = pre.state.protocols@;
                            let news = self.state.protocols@;
                            if keep {
                                assert(news =~= olds.update(i as int, lmf));
                                assert forall|j: int, k: int|
                                    0 <= j < k < news.len() implies news[j].protocol@ != news[
                                    k
                                ].protocol@ by {
                                    assert(olds[j].protocol@ != olds[k].protocol@);
                                }
                                self.lemma_protocol_at(i as int);
                                assert forall|q: Seq<char>|
                                    q != locator.protocol@ && pre.spec_has_protocol(q) implies self
                                    .spec_has_protocol(q) by {
                                    let j = choose|j: int|
                                        0 <= j < olds.len() && olds[j].protocol@ == q;
                                    assert(news[j] == olds[j]);
                                }
                                assert forall|q: Seq<char>|
                                    q != locator.protocol@ && self.spec_has_protocol(q) implies pre
                                    .spec_has_protocol(q) by {
                                    let j = choose|j: int|
                                        0 <= j < news.len() && news[j].protocol@ == q;
                                    if j != i {
                                        assert(news[j] == olds[j]);
                                    }
                                }
                                assert forall|q: Seq<char>|
                                    q != locator.protocol@ && pre.spec_has_protocol(q) implies self
                                    .spec_protocol_at(q) == pre.spec_protocol_at(q) by {
                                    let j = choose|j: int|
                                        0 <= j < olds.len() && olds[j].protocol@ == q;
                                    pre.lemma_protocol_at(j);
                                    assert(news[j] == olds[j]);
                                    self.lemma_protocol_at(j);
                                }
                            } else {
                                assert forall|j: int|
                                    0 <= j < news.len() implies news[j].protocol@
                                    != locator.protocol@ by {
                                    if j < i {
                                        assert(news[j] == olds[j]);
                                    } else {
                                        assert(news[j] == olds[j + 1]);
                                    }
                                }
                                assert forall|q: Seq<char>|
                                    q != locator.protocol@ && pre.spec_has_protocol(q) implies self
                                    .spec_has_protocol(q) by {
                                    let j = choose|j: int|
                                        0 <= j < olds.len() && olds[j].protocol@ == q;
                                    if j < i {
                                        assert(news[j] == olds[j]);
                                    } else {
                                        assert(j > i);
                                        assert(news[j - 1] == olds[j]);
                                    }
                                }
                                assert forall|q: Seq<char>|
                                    q != locator.protocol@ && self.spec_has_protocol(q) implies pre
                                    .spec_has_protocol(q) by {
                                    let j = choose|j: int|
                                        0 <= j < news.len() && news[j].protocol@ == q;
                                    if j < i {
                                        assert(news[j] == olds[j]);
                                    } else {
                                        assert(news[j] == olds[j + 1]);
                                    }
                                }
                                assert forall|q: Seq<char>|
                                    q != locator.protocol@ && pre.spec_has_protocol(q) implies self
                                    .spec_protocol_at(q) == pre.spec_protocol_at(q) by {
                                    let j = choose|j: int|
                                        0 <= j < news.len() && news[j].protocol@ == q;
                                    self.lemma_protocol_at(j);
                                    if j < i {
                                        assert(news[j] == olds[j]);
                                        pre.lemma_protocol_at(j);
                                    } else {
                                        assert(news[j] == olds[j + 1]);
                                        pre.lemma_protocol_at(j + 1);
                                    }
                                }
                            }
                        }
                        Ok(())
                    },
                }
            },
        }
    }

    /// Every listener registered with any factory, in registry order.
    pub fn get_listeners_unicast(&self) -> (r: Vec<Locator>)
        ensures
            locs_view(r@) =~= spec_all_listeners(self.state.protocols@),
    {
        let mut r: Vec<Locator> = Vec::new();
        let mut i: usize = 0;
        while i < self.state.protocols.len()
            invariant
                i <= self.state.protocols@.len(),
                locs_view(r@) =~= spec_all_listeners(self.state.protocols@.subrange(0, i as int)),
            decreases self.state.protocols@.len() - i,
        {
            append_locators(&mut r, &self.state.protocols[i].listeners);
            proof {
                let pre = self.state.protocols@.subrange(0, i as int + 1);
                assert(pre.drop_last() =~= self.state.protocols@.subrange(0, i as int));
                assert(pre.last() == self.state.protocols@[i as int]);
                assert(locs_view(r@) =~= spec_all_listeners(pre));
            }
            i += 1;
        }
        proof {
            assert(self.state.protocols@.subrange(0, self.state.protocols@.len() as int)
                =~= self.state.protocols@);
        }
        r
    }

    /// Every locator any factory advertises, in registry order; in this
    /// model a factory advertises exactly its listeners.
    pub fn get_locators_unicast(&self) -> (r: Vec<Locator>)
        ensures
            locs_view(r@) =~= spec_all_listeners(self.state.protocols@),
    {
        self.get_listeners_unicast()
    }

    /// Prepares an outbound transport: resolves or creates the factory
    /// for the locator's protocol and hands the embedding runtime the
    /// dial order. Establishment calls back into
    /// [`Self::init_transport_unicast`] on success.
    pub fn open_transport_unicast(&mut self, locator: &Locator) -> (r: OpenAction)
        requires
            old(self).wf(),
        ensures
            final(self).wf(),
            final(self).config == old(self).config,
            final(self).state.transports == old(self).state.transports,
            final(self).state.incoming == old(self).state.incoming,
            final(self).state.opened == old(self).state.opened,
            final(self).spec_has_protocol(locator.protocol@),
            old(self).spec_has_protocol(locator.protocol@) ==> *final(self) == *old(self),
            loc_key(r.remote) == loc_key(*locator),
    {
        let _ = self.get_or_new_link_manager_unicast(&locator.protocol);
        OpenAction { remote: locator.dup() }
    }
}

} // verus!

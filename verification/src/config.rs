//! Unicast transport-manager configuration: the builder, its defaults and
//! the string-keyed property bag it can be read from.

use vstd::prelude::*;
use crate::types::ZError;

verus! {

/// Default link lease, in milliseconds.
pub const ZN_LINK_LEASE_DEFAULT: u64 = 10000;

/// Default keep-alive period, in milliseconds.
pub const ZN_LINK_KEEP_ALIVE_DEFAULT: u64 = 2500;

/// Default deadline for accepting an incoming link, in milliseconds.
pub const ZN_OPEN_TIMEOUT_DEFAULT: u64 = 10000;

/// Default bound on concurrently pending incoming links.
pub const ZN_OPEN_INCOMING_PENDING_DEFAULT: usize = 1024;

/// An ordered-chain member authenticating peers during the handshake.
/// The behaviour of an authenticator belongs to the embedding runtime;
/// the library tracks identity and order only.
#[derive(Clone, Copy, PartialEq, Eq, Structural, Debug)]
pub struct PeerAuthenticatorId {
    pub id: u64,
}

impl PeerAuthenticatorId {
    /// The no-op authenticator present in the default chain.
    pub fn dummy() -> (r: PeerAuthenticatorId)
        ensures
            r.id == 0,
    {
        PeerAuthenticatorId { id: 0 }
    }
}

/// An ordered-chain member authenticating raw links before the handshake.
#[derive(Clone, Copy, PartialEq, Eq, Structural, Debug)]
pub struct LinkAuthenticatorId {
    pub id: u64,
}

impl LinkAuthenticatorId {
    /// The no-op authenticator present in the default chain.
    pub fn dummy() -> (r: LinkAuthenticatorId)
        ensures
            r.id == 0,
    {
        LinkAuthenticatorId { id: 0 }
    }
}

/// The settled unicast configuration of a transport manager.
pub struct TransportManagerConfigUnicast {
    pub lease: u64,
    pub keep_alive: u64,
    pub open_timeout: u64,
    pub open_pending: usize,
    pub max_transports: usize,
    pub max_links: usize,
    pub peer_authenticator: Vec<PeerAuthenticatorId>,
    pub link_authenticator: Vec<LinkAuthenticatorId>,
}

impl TransportManagerConfigUnicast {
    /// The configuration that the default builder settles to.
    pub open spec fn is_spec_default(self) -> bool {
        &&& self.lease == ZN_LINK_LEASE_DEFAULT
        &&& self.keep_alive == ZN_LINK_KEEP_ALIVE_DEFAULT
        &&& self.open_timeout == ZN_OPEN_TIMEOUT_DEFAULT
        &&& self.open_pending == ZN_OPEN_INCOMING_PENDING_DEFAULT
        &&& self.max_transports == usize::MAX
        &&& self.max_links == usize::MAX
        &&& self.peer_authenticator@ =~= seq![PeerAuthenticatorId { id: 0 }]
        &&& self.link_authenticator@ =~= seq![LinkAuthenticatorId { id: 0 }]
    }

    /// A fresh builder holding the library defaults.
    pub fn builder() -> (r: TransportManagerConfigBuilderUnicast)
        ensures
            r.is_spec_default(),
    {
        TransportManagerConfigBuilderUnicast::default()
    }
}

impl Default for TransportManagerConfigUnicast {
    /// The configuration that the default builder settles to.
    fn default() -> (r: TransportManagerConfigUnicast)
        ensures
            r.is_spec_default(),
    {
        TransportManagerConfigUnicast::builder().build()
    }
}

/// Accumulates unicast configuration before a manager is created.
pub struct TransportManagerConfigBuilderUnicast {
    pub lease: u64,
    pub keep_alive: u64,
    pub open_timeout: u64,
    pub open_pending: usize,
    pub max_transports: usize,
    pub max_links: usize,
    pub peer_authenticator: Vec<PeerAuthenticatorId>,
    pub link_authenticator: Vec<LinkAuthenticatorId>,
}

impl TransportManagerConfigBuilderUnicast {
    /// The default builder: library defaults, unbounded transport and link
    /// counts, one no-op authenticator in each chain.
    pub open spec fn is_spec_default(self) -> bool {
        &&& self.lease == ZN_LINK_LEASE_DEFAULT
        &&& self.keep_alive == ZN_LINK_KEEP_ALIVE_DEFAULT
        &&& self.open_timeout == ZN_OPEN_TIMEOUT_DEFAULT
        &&& self.open_pending == ZN_OPEN_INCOMING_PENDING_DEFAULT
        &&& self.max_transports == usize::MAX
        &&& self.max_links == usize::MAX
        &&& self.peer_authenticator@ =~= seq![PeerAuthenticatorId { id: 0 }]
        &&& self.link_authenticator@ =~= seq![LinkAuthenticatorId { id: 0 }]
    }

    /// The configuration this builder settles to.
    pub open spec fn spec_build(self) -> TransportManagerConfigUnicast {
        TransportManagerConfigUnicast {
            lease: self.lease,
            keep_alive: self.keep_alive,
            open_timeout: self.open_timeout,
            open_pending: self.open_pending,
            max_transports: self.max_transports,
            max_links: self.max_links,
            peer_authenticator: self.peer_authenticator,
            link_authenticator: self.link_authenticator,
        }
    }

    pub fn lease(self, lease: u64) -> (r: TransportManagerConfigBuilderUnicast)
        ensures
            r == (TransportManagerConfigBuilderUnicast { lease, ..self }),
    {
        TransportManagerConfigBuilderUnicast { lease, ..self }
    }

    pub fn keep_alive(self, keep_alive: u64) -> (r: TransportManagerConfigBuilderUnicast)
        ensures
            r == (TransportManagerConfigBuilderUnicast { keep_alive, ..self }),
    {
        TransportManagerConfigBuilderUnicast { keep_alive, ..self }
    }

    pub fn open_timeout(self, open_timeout: u64) -> (r: TransportManagerConfigBuilderUnicast)
        ensures
            r == (TransportManagerConfigBuilderUnicast { open_timeout, ..self }),
    {
        TransportManagerConfigBuilderUnicast { open_timeout, ..self }
    }

    pub fn open_pending(self, open_pending: usize) -> (r: TransportManagerConfigBuilderUnicast)
        ensures
            r == (TransportManagerConfigBuilderUnicast { open_pending, ..self }),
    {
        TransportManagerConfigBuilderUnicast { open_pending, ..self }
    }

    pub fn max_transports(self, max_transports: usize) -> (r:
        TransportManagerConfigBuilderUnicast)
        ensures
            r == (TransportManagerConfigBuilderUnicast { max_transports, ..self }),
    {
        TransportManagerConfigBuilderUnicast { max_transports, ..self }
    }

    pub fn max_links(self, max_links: usize) -> (r: TransportManagerConfigBuilderUnicast)
        ensures
            r == (TransportManagerConfigBuilderUnicast { max_links, ..self }),
    {
        TransportManagerConfigBuilderUnicast { max_links, ..self }
    }

    pub fn peer_authenticator(self, peer_authenticator: Vec<PeerAuthenticatorId>) -> (r:
        TransportManagerConfigBuilderUnicast)
        ensures
            r == (TransportManagerConfigBuilderUnicast { peer_authenticator, ..self }),
    {
        TransportManagerConfigBuilderUnicast { peer_authenticator, ..self }
    }

    pub fn link_authenticator(self, link_authenticator: Vec<LinkAuthenticatorId>) -> (r:
        TransportManagerConfigBuilderUnicast)
        ensures
            r == (TransportManagerConfigBuilderUnicast { link_authenticator, ..self }),
    {
        TransportManagerConfigBuilderUnicast { link_authenticator, ..self }
    }

    pub fn build(self) -> (r: TransportManagerConfigUnicast)
        ensures
            r == self.spec_build(),
    {
        TransportManagerConfigUnicast {
            lease: self.lease,
            keep_alive: self.keep_alive,
            open_timeout: self.open_timeout,
            open_pending: self.open_pending,
            max_transports: self.max_transports,
            max_links: self.max_links,
            peer_authenticator: self.peer_authenticator,
            link_authenticator: self.link_authenticator,
        }
    }
}

impl Default for TransportManagerConfigBuilderUnicast {
    fn default() -> (r: TransportManagerConfigBuilderUnicast)
        ensures
            r.is_spec_default(),
    {
        let mut peer_authenticator: Vec<PeerAuthenticatorId> = Vec::new();
        peer_authenticator.push(PeerAuthenticatorId::dummy());
        let mut link_authenticator: Vec<LinkAuthenticatorId> = Vec::new();
        link_authenticator.push(LinkAuthenticatorId::dummy());
        proof {
            assert(peer_authenticator@ =~= seq![PeerAuthenticatorId { id: 0 }]);
            assert(link_authenticator@ =~= seq![LinkAuthenticatorId { id: 0 }]);
        }
        TransportManagerConfigBuilderUnicast {
            lease: ZN_LINK_LEASE_DEFAULT,
            keep_alive: ZN_LINK_KEEP_ALIVE_DEFAULT,
            open_timeout: ZN_OPEN_TIMEOUT_DEFAULT,
            open_pending: ZN_OPEN_INCOMING_PENDING_DEFAULT,
            max_transports: usize::MAX,
            max_links: usize::MAX,
            peer_authenticator,
            link_authenticator,
        }
    }
}

/// A string-keyed configuration bag; the first entry for a key wins.
pub struct ConfigProperties {
    pub entries: Vec<(String, String)>,
}

/// The value bound to `key` in `entries`, first match first.
pub open spec fn spec_lookup_entries(entries: Seq<(String, String)>, key: Seq<char>) -> Option<
    Seq<char>,
>
    decreases entries.len(),
{
    if entries.len() == 0 {
        None
    } else if entries[0].0@ == key {
        Some(entries[0].1@)
    } else {
        spec_lookup_entries(entries.drop_first(), key)
    }
}

impl ConfigProperties {
    /// The value bound to `key`, if any.
    pub open spec fn spec_lookup(&self, key: Seq<char>) -> Option<Seq<char>> {
        spec_lookup_entries(self.entries@, key)
    }

    /// An empty bag.
    pub fn new() -> (r: ConfigProperties)
        ensures
            r.entries@.len() == 0,
    {
        ConfigProperties { entries: Vec::new() }
    }

    /// Appends one entry; an earlier entry for the same key keeps priority.
    pub fn insert(&mut self, key: &str, value: &str)
        ensures
            final(self).entries@.len() == old(self).entries@.len() + 1,
            final(self).entries@.drop_last() == old(self).entries@,
            final(self).entries@.last().0@ == key@,
            final(self).entries@.last().1@ == value@,
    {
        self.entries.push((String::from_str(key), String::from_str(value)));
    }

    /// Looks `key` up, returning the first bound value.
    pub fn get(&self, key: &String) -> (r: Option<&String>)
        ensures
            match r {
                Some(v) => self.spec_lookup(key@) == Some(v@),
                None => self.spec_lookup(key@) is None,
            },
    {
        proof {
            assert(self.entries@.skip(0) =~= self.entries@);
        }
        let mut i: usize = 0;
        while i < self.entries.len()
            invariant
                i <= self.entries@.len(),
                spec_lookup_entries(self.entries@, key@) == spec_lookup_entries(
                    self.entries@.skip(i as int),
                    key@,
                ),
            decreases self.entries@.len() - i,
        {
            proof {
                assert(self.entries@.skip(i as int).drop_first() =~= self.entries@.skip(
                    i as int + 1,
                ));
                assert(self.entries@.skip(i as int)[0] == self.entries@[i as int]);
            }
            let e = &self.entries[i];
            if e.0.eq(key) {
                return Some(&e.1);
            }
            i += 1;
        }
        proof {
            assert(self.entries@.skip(self.entries@.len() as int).len() == 0);
        }
        None
    }
}

/// Whether a character is a decimal digit.
pub open spec fn spec_is_digit(c: char) -> bool {
    48 <= c as int && c as int <= 57
}

/// The numeric value of a run of digits, or `None` on a non-digit or when
/// the value leaves `u64`.
pub open spec fn spec_parse_digits(s: Seq<char>) -> Option<u64>
    decreases s.len(),
{
    if s.len() == 0 {
        Some(0u64)
    } else {
        match spec_parse_digits(s.drop_last()) {
            None => None,
            Some(v) => {
                if !spec_is_digit(s.last()) {
                    None
                } else if v * 10 + (s.last() as int - 48) > u64::MAX {
                    None
                } else {
                    Some((v * 10 + (s.last() as int - 48)) as u64)
                }
            },
        }
    }
}

/// The unsigned integer a string parses to: an optional leading plus sign,
/// then at least one digit, rejecting values beyond `u64`.
pub open spec fn spec_parse_u64(s: Seq<char>) -> Option<u64> {
    let t = if s.len() > 0 && s[0] == '+' {
        s.drop_first()
    } else {
        s
    };
    if t.len() == 0 {
        None
    } else {
        spec_parse_digits(t)
    }
}

/// Whether the value bound to `key`, if any, parses as a `u64`.
pub open spec fn spec_key_ok_u64(p: ConfigProperties, key: Seq<char>) -> bool {
    match p.spec_lookup(key) {
        Some(v) => spec_parse_u64(v) is Some,
        None => true,
    }
}

/// Whether the value bound to `key`, if any, parses and fits a `usize`.
pub open spec fn spec_key_ok_usize(p: ConfigProperties, key: Seq<char>) -> bool {
    match p.spec_lookup(key) {
        Some(v) => match spec_parse_u64(v) {
            Some(x) => x <= usize::MAX,
            None => false,
        },
        None => true,
    }
}

/// The `u64` a builder field settles to: the parsed bound value, or the
/// current one when the key is absent.
pub open spec fn spec_u64_field(p: ConfigProperties, key: Seq<char>, current: u64) -> u64 {
    match p.spec_lookup(key) {
        Some(v) => match spec_parse_u64(v) {
            Some(x) => x,
            None => current,
        },
        None => current,
    }
}

/// The `usize` a builder field settles to.
pub open spec fn spec_usize_field(p: ConfigProperties, key: Seq<char>, current: usize) -> usize {
    match p.spec_lookup(key) {
        Some(v) => match spec_parse_u64(v) {
            Some(x) => if x <= usize::MAX {
                x as usize
            } else {
                current
            },
            None => current,
        },
        None => current,
    }
}

/// The first recognised key, in the fixed reading order, whose bound value
/// does not parse; `None` when every recognised key is absent or parses.
pub open spec fn spec_first_bad_key(p: ConfigProperties) -> Option<Seq<char>> {
    if !spec_key_ok_u64(p, "link_lease"@) {
        Some("link_lease"@)
    } else if !spec_key_ok_u64(p, "link_keep_alive"@) {
        Some("link_keep_alive"@)
    } else if !spec_key_ok_u64(p, "open_timeout"@) {
        Some("open_timeout"@)
    } else if !spec_key_ok_usize(p, "open_incoming_pending"@) {
        Some("open_incoming_pending"@)
    } else if !spec_key_ok_usize(p, "max_sessions"@) {
        Some("max_sessions"@)
    } else if !spec_key_ok_usize(p, "max_links"@) {
        Some("max_links"@)
    } else {
        None
    }
}

/// How a builder settles from a property bag when every recognised key
/// parses: each numeric field takes the bound value and the authenticator
/// chains stay as they are. Unrecognised keys play no part.
pub open spec fn spec_from_properties_ok(
    b: TransportManagerConfigBuilderUnicast,
    p: ConfigProperties,
    r: TransportManagerConfigBuilderUnicast,
) -> bool {
    &&& r.lease == spec_u64_field(p, "link_lease"@, b.lease)
    &&& r.keep_alive == spec_u64_field(p, "link_keep_alive"@, b.keep_alive)
    &&& r.open_timeout == spec_u64_field(p, "open_timeout"@, b.open_timeout)
    &&& r.open_pending == spec_usize_field(p, "open_incoming_pending"@, b.open_pending)
    &&& r.max_transports == spec_usize_field(p, "max_sessions"@, b.max_transports)
    &&& r.max_links == spec_usize_field(p, "max_links"@, b.max_links)
    &&& r.peer_authenticator == b.peer_authenticator
    &&& r.link_authenticator == b.link_authenticator
}

/// Once a digit prefix fails to parse, every extension fails too.
proof fn lemma_parse_digits_none_extends(s: Seq<char>, i: int)
    requires
        0 <= i <= s.len(),
        spec_parse_digits(s.subrange(0, i)) is None,
    ensures
        spec_parse_digits(s) is None,
    decreases s.len() - i,
{
    if i < s.len() {
        assert(s.subrange(0, i + 1).drop_last() =~= s.subrange(0, i));
        lemma_parse_digits_none_extends(s, i + 1);
    } else {
        assert(s.subrange(0, i) =~= s);
    }
}

/// Parses the digits of `s` starting at character `from`.
fn parse_digits_from(s: &String, from: usize, len: usize) -> (r: Option<u64>)
    requires
        from <= len,
        len == s@.len(),
    ensures
        r == spec_parse_digits(s@.skip(from as int)),
{
    let ghost t = s@.skip(from as int);
    let mut acc: u64 = 0;
    let mut i: usize = from;
    while i < len
        invariant
            from <= i <= len,
            len == s@.len(),
            t == s@.skip(from as int),
            spec_parse_digits(t.subrange(0, i - from)) == Some(acc),
        decreases len - i,
    {
        let c = s.as_str().get_char(i);
        let ghost pre = t.subrange(0, i - from + 1);
        proof {
            assert(pre.drop_last() =~= t.subrange(0, i - from));
            assert(pre.last() == t[i - from] == s@[i as int]);
        }
        let cv = c as u32;
        if cv < 48 || cv > 57 {
            proof {
                lemma_parse_digits_none_extends(t, i - from + 1);
            }
            return None;
        }
        let d: u64 = (cv - 48) as u64;
        if acc > (u64::MAX - d) / 10 {
            proof {
                assert(acc * 10 + (pre.last() as int - 48) > u64::MAX) by (nonlinear_arith)
                    requires
                        acc > (u64::MAX - d) / 10,
                        d == pre.last() as int - 48,
                        0 <= d <= 9,
                ;
                lemma_parse_digits_none_extends(t, i - from + 1);
            }
            return None;
        }
        proof {
            assert(acc * 10 + (pre.last() as int - 48) <= u64::MAX) by (nonlinear_arith)
                requires
                    acc <= (u64::MAX - d) / 10,
                    d == pre.last() as int - 48,
                    0 <= d <= 9,
            ;
        }
        acc = acc * 10 + d;
        i += 1;
    }
    proof {
        assert(t.subrange(0, len - from) =~= t);
    }
    Some(acc)
}

impl TransportManagerConfigBuilderUnicast {
    /// Reads the recognised numeric keys from a property bag, in the fixed
    /// order, failing on the first value that does not parse and leaving
    /// the builder untouched by unrecognised keys. Authenticator-specific
    /// keys are the business of the embedding runtime's chains and leave
    /// the chains here unchanged.
    pub fn from_properties(self, properties: &ConfigProperties) -> (r: Result<
        TransportManagerConfigBuilderUnicast,
        ZError,
    >)
        ensures
            match r {
                Ok(nb) => spec_first_bad_key(*properties) is None && spec_from_properties_ok(
                    self,
                    *properties,
                    nb,
                ),
                Err(e) => {
                    &&& spec_first_bad_key(*properties) matches Some(k)
                    &&& e matches ZError::ValueDecodingFailed { key, value }
                    &&& spec_first_bad_key(*properties) == Some(key@)
                    &&& properties.spec_lookup(key@) == Some(value@)
                },
            },
    {
        let mut b = self;
        let k = String::from_str("link_lease");
        match properties.get(&k) {
            Some(v) => match parse_u64_str(v) {
                Some(x) => {
                    b = b.lease(x);
                },
                None => {
                    return Err(ZError::ValueDecodingFailed { key: k, value: v.clone() });
                },
            },
            None => {},
        }
        let k = String::from_str("link_keep_alive");
        match properties.get(&k) {
            Some(v) => match parse_u64_str(v) {
                Some(x) => {
                    b = b.keep_alive(x);
                },
                None => {
                    return Err(ZError::ValueDecodingFailed { key: k, value: v.clone() });
                },
            },
            None => {},
        }
        let k = String::from_str("open_timeout");
        match properties.get(&k) {
            Some(v) => match parse_u64_str(v) {
                Some(x) => {
                    b = b.open_timeout(x);
                },
                None => {
                    return Err(ZError::ValueDecodingFailed { key: k, value: v.clone() });
                },
            },
            None => {},
        }
        let k = String::from_str("open_incoming_pending");
        match properties.get(&k) {
            Some(v) => match parse_usize_str(v) {
                Some(x) => {
                    b = b.open_pending(x);
                },
                None => {
                    return Err(ZError::ValueDecodingFailed { key: k, value: v.clone() });
                },
            },
            None => {},
        }
        let k = String::from_str("max_sessions");
        match properties.get(&k) {
            Some(v) => match parse_usize_str(v) {
                Some(x) => {
                    b = b.max_transports(x);
                },
                None => {
                    return Err(ZError::ValueDecodingFailed { key: k, value: v.clone() });
                },
            },
            None => {},
        }
        let k = String::from_str("max_links");
        match properties.get(&k) {
            Some(v) => match parse_usize_str(v) {
                Some(x) => {
                    b = b.max_links(x);
                },
                None => {
                    return Err(ZError::ValueDecodingFailed { key: k, value: v.clone() });
                },
            },
            None => {},
        }
        Ok(b)
    }
}

/// Law: reading the same property bag a second time changes nothing; the
/// settled builder is a fixed point of the reading.
pub proof fn lemma_from_properties_idempotent(
    b: TransportManagerConfigBuilderUnicast,
    b1: TransportManagerConfigBuilderUnicast,
    b2: TransportManagerConfigBuilderUnicast,
    p: ConfigProperties,
)
    requires
        spec_from_properties_ok(b, p, b1),
        spec_from_properties_ok(b1, p, b2),
    ensures
        b2 == b1,
{
}

/// Law: keys other than the six recognised ones play no part: two bags
/// that agree on the recognised keys settle any builder identically, and
/// fail on the same key.
pub proof fn lemma_from_properties_ignores_unknown(
    b: TransportManagerConfigBuilderUnicast,
    b1: TransportManagerConfigBuilderUnicast,
    b2: TransportManagerConfigBuilderUnicast,
    p1: ConfigProperties,
    p2: ConfigProperties,
)
    requires
        p1.spec_lookup("link_lease"@) == p2.spec_lookup("link_lease"@),
        p1.spec_lookup("link_keep_alive"@) == p2.spec_lookup("link_keep_alive"@),
        p1.spec_lookup("open_timeout"@) == p2.spec_lookup("open_timeout"@),
        p1.spec_lookup("open_incoming_pending"@) == p2.spec_lookup("open_incoming_pending"@),
        p1.spec_lookup("max_sessions"@) == p2.spec_lookup("max_sessions"@),
        p1.spec_lookup("max_links"@) == p2.spec_lookup("max_links"@),
    ensures
        spec_first_bad_key(p1) == spec_first_bad_key(p2),
        spec_from_properties_ok(b, p1, b1) && spec_from_properties_ok(b, p2, b2) ==> b1 == b2,
{
}

/// Parses an unsigned integer that must also fit a `usize`.
pub fn parse_usize_str(s: &String) -> (r: Option<usize>)
    ensures
        match spec_parse_u64(s@) {
            Some(x) => if x <= usize::MAX {
                r == Some(x as usize)
            } else {
                r is None
            },
            None => r is None,
        },
{
    match parse_u64_str(s) {
        Some(x) => {
            if x <= usize::MAX as u64 {
                Some(x as usize)
            } else {
                None
            }
        },
        None => None,
    }
}

/// Parses an unsigned integer as [`spec_parse_u64`] describes.
pub fn parse_u64_str(s: &String) -> (r: Option<u64>)
    ensures
        r == spec_parse_u64(s@),
{
    let len = s.as_str().unicode_len();
    if len == 0 {
        return None;
    }
    let first = s.as_str().get_char(0);
    if first == '+' {
        proof {
            assert(s@.drop_first() =~= s@.skip(1));
        }
        if len == 1 {
            return None;
        }
        parse_digits_from(s, 1, len)
    } else {
        proof {
            assert(s@.skip(0) =~= s@);
        }
        parse_digits_from(s, 0, len)
    }
}

} // verus!

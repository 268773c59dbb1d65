//! The admin space: a queryable namespace rooted at the router's peer
//! identity that renders introspection documents and answers queries by
//! key-expression intersection. Delivering the replies, and gathering the
//! runtime facts the documents render, belong to the embedding runtime;
//! the reply phase must run in a detached task because the router that
//! delivered the query is not re-entrant.

use vstd::prelude::*;
use vstd::utf8::encode_utf8;
use crate::rname::{
    intersect, lemma_split_head, lemma_split_single, spec_dstar, spec_intersect,
    spec_seg_intersect, spec_split, SLASH,
};
use crate::text::{hex_bytes_of_bytes, lemma_hex_bytes_plain, spec_hex_bytes};
use crate::types::{append_bytes, clone_bytes, Locator, PeerId};

verus! {

/// The encoding tag a reply payload carries.
#[derive(Clone, Copy, PartialEq, Eq, Structural, Debug)]
pub enum Encoding {
    AppJson,
    TextPlain,
}

/// A resource key: interned, interned with a suffix, or a plain name.
pub enum ResKey {
    RId(u64),
    RIdWithSuffix(u64, Vec<u8>),
    RName(Vec<u8>),
}

/// Which document a registered handler renders.
#[derive(Clone, Copy, PartialEq, Eq, Structural, Debug)]
pub enum HandlerKind {
    RouterData,
    LinkstateRouters,
    LinkstatePeers,
}

/// One registered handler: an absolute path and the document it serves.
pub struct HandlerEntry {
    pub path: Vec<u8>,
    pub kind: HandlerKind,
}

/// The admin space: the router's hex identity, the interned resource
/// names, and the handlers in registration order.
pub struct AdminSpace {
    pub pid_str: Vec<u8>,
    pub mappings: Vec<(u64, Vec<u8>)>,
    pub handlers: Vec<HandlerEntry>,
}

/// One reply owed for a query: the handler's path and document kind.
pub struct ReplyData {
    pub path: Vec<u8>,
    pub kind: HandlerKind,
}

/// What the embedding runtime must emit for one query, in a detached
/// task: one `reply_data` per entry of `replies`, in order, each with the
/// rendered document, then exactly one `reply_final` for `qid`.
pub struct QueryPlan {
    pub qid: u64,
    pub replies: Vec<ReplyData>,
}

/// One active session, as the runtime reports it: the peer when known,
/// and the destination locators of its links.
pub struct SessionInfo {
    pub peer: Option<PeerId>,
    pub links: Vec<Locator>,
}

/// One loaded plugin, as the runtime reports it.
pub struct PluginInfo {
    pub name: Vec<u8>,
    pub path: Vec<u8>,
}

/// The JSON string literal (quoted and escaped) for a byte string, as
/// serde_json renders it after lossy UTF-8 decoding; a function of the
/// bytes alone.
pub uninterp spec fn json_quoted(b: Seq<u8>) -> Seq<u8>;

/// Relies on serde_json::to_string on a string slice: the JSON string
/// literal for the given text. String serialisation never fails and
/// depends on the characters alone; invalid UTF-8 is first replaced as
/// std's lossy decoding does.
#[verifier::external_body]
fn json_quote(b: &Vec<u8>) -> (r: Vec<u8>)
    ensures
        r@ == json_quoted(b@),
{
    let s = String::from_utf8_lossy(b);
    serde_json::to_string(s.as_ref()).unwrap().into_bytes()
}

/// The admin-space root path for a router identity.
pub open spec fn spec_root_path(pid: Seq<u8>) -> Seq<u8> {
    encode_utf8("/@/router/"@) + spec_hex_bytes(pid)
}

/// The textual form of a locator: protocol, separator, address.
pub open spec fn spec_locator_text(l: Locator) -> Seq<u8> {
    encode_utf8(l.protocol@) + seq![47u8] + encode_utf8(l.address@)
}

/// Renders a locator as text.
pub fn locator_text(l: &Locator) -> (r: Vec<u8>)
    ensures
        r@ == spec_locator_text(*l),
{
    let mut out = l.protocol.as_str().as_bytes_vec();
    out.push(47);
    let a = l.address.as_str().as_bytes_vec();
    append_bytes(&mut out, &a);
    proof {
        assert(out@ =~= spec_locator_text(*l));
    }
    out
}

/// A comma-separated list of already rendered JSON values.
pub open spec fn spec_json_list(items: Seq<Seq<u8>>) -> Seq<u8>
    decreases items.len(),
{
    if items.len() == 0 {
        Seq::<u8>::empty()
    } else if items.len() == 1 {
        items[0]
    } else {
        spec_json_list(items.drop_last()) + seq![44u8] + items.last()
    }
}

/// The rendered entries of the `locators` array.
pub open spec fn spec_locator_items(ls: Seq<Locator>) -> Seq<Seq<u8>> {
    Seq::new(ls.len(), |i: int| json_quoted(spec_locator_text(ls[i])))
}

/// The `peer` field of one session: its hex identity, or `unavailable`.
pub open spec fn spec_session_peer_json(p: Option<PeerId>) -> Seq<u8> {
    match p {
        Some(pid) => json_quoted(spec_hex_bytes(pid.id@)),
        None => encode_utf8("\"unavailable\""@),
    }
}

/// The rendered object of one session.
pub open spec fn spec_session_json(s: SessionInfo) -> Seq<u8> {
    encode_utf8("{\"peer\":"@) + spec_session_peer_json(s.peer) + encode_utf8(",\"links\":["@)
        + spec_json_list(Seq::new(s.links@.len(), |i: int| json_quoted(spec_locator_text(s.links@[i]))))
        + encode_utf8("]}"@)
}

/// The rendered entries of the `sessions` array.
pub open spec fn spec_session_items(ss: Seq<SessionInfo>) -> Seq<Seq<u8>> {
    Seq::new(ss.len(), |i: int| spec_session_json(ss[i]))
}

/// The rendered object of one plugin.
pub open spec fn spec_plugin_json(p: PluginInfo) -> Seq<u8> {
    encode_utf8("{\"name\":"@) + json_quoted(p.name@) + encode_utf8(",\"path\":"@) + json_quoted(
        p.path@,
    ) + encode_utf8("}"@)
}

/// The rendered entries of the `plugins` array.
pub open spec fn spec_plugin_items(ps: Seq<PluginInfo>) -> Seq<Seq<u8>> {
    Seq::new(ps.len(), |i: int| spec_plugin_json(ps[i]))
}

/// The router summary document: identity, locators, sessions with their
/// links, and loaded plugins.
pub open spec fn spec_router_json(
    pid: Seq<u8>,
    ls: Seq<Locator>,
    ss: Seq<SessionInfo>,
    ps: Seq<PluginInfo>,
) -> Seq<u8> {
    encode_utf8("{\"pid\":"@) + json_quoted(pid) + encode_utf8(",\"locators\":["@)
        + spec_json_list(spec_locator_items(ls)) + encode_utf8("],\"sessions\":["@)
        + spec_json_list(spec_session_items(ss)) + encode_utf8("],\"plugins\":["@)
        + spec_json_list(spec_plugin_items(ps)) + encode_utf8("]}"@)
}

/// Renders the `locators` array's inner list.
fn render_locator_list(ls: &Vec<Locator>) -> (r: Vec<u8>)
    ensures
        r@ == spec_json_list(spec_locator_items(ls@)),
{
    let ghost items = spec_locator_items(ls@);
    let mut out: Vec<u8> = Vec::new();
    let mut i: usize = 0;
    while i < ls.len()
        invariant
            i <= ls@.len(),
            items == spec_locator_items(ls@),
            out@ == spec_json_list(items.subrange(0, i as int)),
        decreases ls@.len() - i,
    {
        if i > 0 {
            out.push(44);
        }
        let t = locator_text(&ls[i]);
        let q = json_quote(&t);
        append_bytes(&mut out, &q);
        proof {
            let pre = items.subrange(0, i as int + 1);
            assert(pre.drop_last() =~= items.subrange(0, i as int));
            assert(pre.last() == items[i as int]);
            assert(out@ =~= spec_json_list(pre));
        }
        i += 1;
    }
    proof {
        assert(items.subrange(0, items.len() as int) =~= items);
    }
    out
}

/// Renders one session object.
fn render_session(s: &SessionInfo) -> (r: Vec<u8>)
    ensures
        r@ == spec_session_json(*s),
{
    let mut out = "{\"peer\":".as_bytes_vec();
    match &s.peer {
        Some(pid) => {
            let h = hex_bytes_of_bytes(&pid.id);
            let q = json_quote(&h);
            append_bytes(&mut out, &q);
        },
        None => {
            let u = "\"unavailable\"".as_bytes_vec();
            append_bytes(&mut out, &u);
        },
    }
    let mid = ",\"links\":[".as_bytes_vec();
    append_bytes(&mut out, &mid);
    let links = render_locator_list(&s.links);
    append_bytes(&mut out, &links);
    let end = "]}".as_bytes_vec();
    append_bytes(&mut out, &end);
    proof {
        assert(out@ =~= spec_session_json(*s));
    }
    out
}

/// Renders the `sessions` array's inner list.
fn render_session_list(ss: &Vec<SessionInfo>) -> (r: Vec<u8>)
    ensures
        r@ == spec_json_list(spec_session_items(ss@)),
{
    let ghost items = spec_session_items(ss@);
    let mut out: Vec<u8> = Vec::new();
    let mut i: usize = 0;
    while i < ss.len()
        invariant
            i <= ss@.len(),
            items == spec_session_items(ss@),
            out@ == spec_json_list(items.subrange(0, i as int)),
        decreases ss@.len() - i,
    {
        if i > 0 {
            out.push(44);
        }
        let one = render_session(&ss[i]);
        append_bytes(&mut out, &one);
        proof {
            let pre = items.subrange(0, i as int + 1);
            assert(pre.drop_last() =~= items.subrange(0, i as int));
            assert(pre.last() == items[i as int]);
            assert(out@ =~= spec_json_list(pre));
        }
        i += 1;
    }
    proof {
        assert(items.subrange(0, items.len() as int) =~= items);
    }
    out
}

/// Renders the `plugins` array's inner list.
fn render_plugin_list(ps: &Vec<PluginInfo>) -> (r: Vec<u8>)
    ensures
        r@ == spec_json_list(spec_plugin_items(ps@)),
{
    let ghost items = spec_plugin_items(ps@);
    let mut out: Vec<u8> = Vec::new();
    let mut i: usize = 0;
    while i < ps.len()
        invariant
            i <= ps@.len(),
            items == spec_plugin_items(ps@),
            out@ == spec_json_list(items.subrange(0, i as int)),
        decreases ps@.len() - i,
    {
        if i > 0 {
            out.push(44);
        }
        let mut one = "{\"name\":".as_bytes_vec();
        let qn = json_quote(&ps[i].name);
        append_bytes(&mut one, &qn);
        let mid = ",\"path\":".as_bytes_vec();
        append_bytes(&mut one, &mid);
        let qp = json_quote(&ps[i].path);
        append_bytes(&mut one, &qp);
        let end = "}".as_bytes_vec();
        append_bytes(&mut one, &end);
        proof {
            assert(one@ =~= spec_plugin_json(ps@[i as int]));
        }
        append_bytes(&mut out, &one);
        proof {
            let pre = items.subrange(0, i as int + 1);
            assert(pre.drop_last() =~= items.subrange(0, i as int));
            assert(pre.last() == items[i as int]);
            assert(out@ =~= spec_json_list(pre));
        }
        i += 1;
    }
    proof {
        assert(items.subrange(0, items.len() as int) =~= items);
    }
    out
}

/// The value interned for `rid`, if any.
pub open spec fn spec_mapping_has(m: Seq<(u64, Vec<u8>)>, rid: u64) -> bool {
    exists|j: int| 0 <= j < m.len() && m[j].0 == rid
}

/// The name interned for `rid`; meaningful only when present and keys are
/// unique.
pub open spec fn spec_mapping_at(m: Seq<(u64, Vec<u8>)>, rid: u64) -> Seq<u8> {
    m[choose|j: int| 0 <= j < m.len() && m[j].0 == rid].1@
}

/// The handlers whose path can match the resolved name, in registration
/// order.
pub open spec fn spec_matching(handlers: Seq<HandlerEntry>, name: Seq<u8>) -> Seq<HandlerEntry> {
    handlers.filter(|h: HandlerEntry| spec_intersect(name, h.path@))
}

/// Whether the planned replies are exactly the matched handlers, in
/// order.
pub open spec fn spec_replies_match(replies: Seq<ReplyData>, m: Seq<HandlerEntry>) -> bool {
    &&& replies.len() == m.len()
    &&& forall|j: int|
        0 <= j < m.len() ==> (#[trigger] replies[j]).path@ == m[j].path@ && replies[j].kind
            == m[j].kind
}

/// The `@` segment of the admin root path, as bytes.
pub open spec fn seg_at() -> Seq<u8> {
    seq![64u8]
}

/// The `router` segment, as bytes.
pub open spec fn seg_router() -> Seq<u8> {
    seq![114u8, 111u8, 117u8, 116u8, 101u8, 114u8]
}

/// The `linkstate` segment, as bytes.
pub open spec fn seg_linkstate() -> Seq<u8> {
    seq![108u8, 105u8, 110u8, 107u8, 115u8, 116u8, 97u8, 116u8, 101u8]
}

/// The `routers` segment, as bytes.
pub open spec fn seg_routers() -> Seq<u8> {
    seq![114u8, 111u8, 117u8, 116u8, 101u8, 114u8, 115u8]
}

/// The `peers` segment, as bytes.
pub open spec fn seg_peers() -> Seq<u8> {
    seq![112u8, 101u8, 101u8, 114u8, 115u8]
}

/// The bytes of the admin path literals, spelled out.
proof fn lemma_admin_literal_bytes()
    ensures
        encode_utf8("/@/router/"@) == seq![SLASH] + seg_at() + seq![SLASH] + seg_router() + seq![
            SLASH,
        ],
        encode_utf8("/linkstate/routers"@) == seq![SLASH] + seg_linkstate() + seq![SLASH]
            + seg_routers(),
        encode_utf8("/linkstate/peers"@) == seq![SLASH] + seg_linkstate() + seq![SLASH]
            + seg_peers(),
        encode_utf8("/**"@) == seq![SLASH] + spec_dstar(),
{
    broadcast use vstd::utf8::is_ascii_chars_encode_utf8;

    reveal_strlit("/@/router/");
    reveal_strlit("/linkstate/routers");
    reveal_strlit("/linkstate/peers");
    reveal_strlit("/**");
    let s1 = "/@/router/"@;
    assert(vstd::utf8::is_ascii_chars(s1)) by {
        assert forall|i: int| 0 <= i < s1.len() implies '\0' <= #[trigger] s1[i]
            <= '\u{7f}' by {
            if i < 5 {
                if i < 2 {
                    if i == 0 {
                    } else {
                    }
                } else if i == 2 {
                } else if i == 3 {
                } else {
                }
            } else if i < 8 {
                if i == 5 {
                } else if i == 6 {
                } else {
                }
            } else if i == 8 {
            } else {
            }
        }
    }
    assert(encode_utf8(s1) =~= seq![SLASH] + seg_at() + seq![SLASH] + seg_router() + seq![SLASH])
        by {
        assert forall|i: int| 0 <= i < 10 implies encode_utf8(s1)[i] == (seq![SLASH] + seg_at()
            + seq![SLASH] + seg_router() + seq![SLASH])[i] by {
            assert(encode_utf8(s1)[i] == s1[i] as u8);
            if i < 5 {
                if i < 2 {
                    if i == 0 {
                    } else {
                    }
                } else if i == 2 {
                } else if i == 3 {
                } else {
                }
            } else if i < 8 {
                if i == 5 {
                } else if i == 6 {
                } else {
                }
            } else if i == 8 {
            } else {
            }
        }
    }
    let s2 = "/linkstate/routers"@;
    assert(vstd::utf8::is_ascii_chars(s2)) by {
        assert forall|i: int| 0 <= i < s2.len() implies '\0' <= #[trigger] s2[i]
            <= '\u{7f}' by {
            lemma_index_cases_18(i);
        }
    }
    assert(encode_utf8(s2) =~= seq![SLASH] + seg_linkstate() + seq![SLASH] + seg_routers()) by {
        assert forall|i: int| 0 <= i < 18 implies encode_utf8(s2)[i] == (seq![SLASH]
            + seg_linkstate() + seq![SLASH] + seg_routers())[i] by {
            assert(encode_utf8(s2)[i] == s2[i] as u8);
            lemma_index_cases_18(i);
        }
    }
    let s3 = "/linkstate/peers"@;
    assert(vstd::utf8::is_ascii_chars(s3)) by {
        assert forall|i: int| 0 <= i < s3.len() implies '\0' <= #[trigger] s3[i]
            <= '\u{7f}' by {
            lemma_index_cases_18(i);
        }
    }
    assert(encode_utf8(s3) =~= seq![SLASH] + seg_linkstate() + seq![SLASH] + seg_peers()) by {
        assert forall|i: int| 0 <= i < 16 implies encode_utf8(s3)[i] == (seq![SLASH]
            + seg_linkstate() + seq![SLASH] + seg_peers())[i] by {
            assert(encode_utf8(s3)[i] == s3[i] as u8);
            lemma_index_cases_18(i);
        }
    }
    let s4 = "/**"@;
    assert(vstd::utf8::is_ascii_chars(s4)) by {
        assert forall|i: int| 0 <= i < s4.len() implies '\0' <= #[trigger] s4[i]
            <= '\u{7f}' by {
            if i == 0 {
            } else if i == 1 {
            } else {
            }
        }
    }
    assert(encode_utf8(s4) =~= seq![SLASH] + spec_dstar()) by {
        assert forall|i: int| 0 <= i < 3 implies encode_utf8(s4)[i] == (seq![SLASH]
            + spec_dstar())[i] by {
            assert(encode_utf8(s4)[i] == s4[i] as u8);
            if i == 0 {
            } else if i == 1 {
            } else {
            }
        }
    }
}

/// Pins an index below eighteen to one concrete value, forcing the case
/// split the finite lookups above need.
proof fn lemma_index_cases_18(i: int)
    ensures
        !(0 <= i < 18) || i == 0 || i == 1 || i == 2 || i == 3 || i == 4 || i == 5 || i == 6
            || i == 7 || i == 8 || i == 9 || i == 10 || i == 11 || i == 12 || i == 13 || i == 14
            || i == 15 || i == 16 || i == 17,
{
}

/// The segment lists of the four admin names, for any router identity.
proof fn lemma_admin_splits(pid: Seq<u8>)
    ensures
        spec_split(spec_root_path(pid)) == seq![
            Seq::<u8>::empty(),
            seg_at(),
            seg_router(),
            spec_hex_bytes(pid),
        ],
        spec_split(spec_root_path(pid) + encode_utf8("/**"@)) == seq![
            Seq::<u8>::empty(),
            seg_at(),
            seg_router(),
            spec_hex_bytes(pid),
            spec_dstar(),
        ],
        spec_split(spec_root_path(pid) + encode_utf8("/linkstate/routers"@)) == seq![
            Seq::<u8>::empty(),
            seg_at(),
            seg_router(),
            spec_hex_bytes(pid),
            seg_linkstate(),
            seg_routers(),
        ],
        spec_split(spec_root_path(pid) + encode_utf8("/linkstate/peers"@)) == seq![
            Seq::<u8>::empty(),
            seg_at(),
            seg_router(),
            spec_hex_bytes(pid),
            seg_linkstate(),
            seg_peers(),
        ],
{
    lemma_admin_literal_bytes();
    lemma_hex_bytes_plain(pid);
    let hex = spec_hex_bytes(pid);
    let e = Seq::<u8>::empty();
    let sl = seq![SLASH];
    assert forall|j: int| 0 <= j < hex.len() implies hex[j] != SLASH by {
        assert(48 <= hex[j] <= 102);
    }
    assert forall|j: int| 0 <= j < seg_at().len() implies seg_at()[j] != SLASH by {
        assert(j == 0);
    }
    assert forall|j: int| 0 <= j < seg_router().len() implies seg_router()[j] != SLASH by {
        lemma_index_cases_18(j);
    }
    assert forall|j: int| 0 <= j < seg_linkstate().len() implies seg_linkstate()[j] != SLASH by {
        lemma_index_cases_18(j);
    }
    assert forall|j: int| 0 <= j < seg_routers().len() implies seg_routers()[j] != SLASH by {
        lemma_index_cases_18(j);
    }
    assert forall|j: int| 0 <= j < seg_peers().len() implies seg_peers()[j] != SLASH by {
        lemma_index_cases_18(j);
    }
    assert forall|j: int| 0 <= j < spec_dstar().len() implies spec_dstar()[j] != SLASH by {
        if j == 0 {
        } else {
        }
    }
    // The root path.
    let r3 = hex;
    let r2 = seg_router() + sl + r3;
    let r1 = seg_at() + sl + r2;
    assert(spec_root_path(pid) =~= e + sl + r1);
    lemma_split_head(e, r1);
    lemma_split_head(seg_at(), r2);
    lemma_split_head(seg_router(), r3);
    lemma_split_single(hex);
    assert(spec_split(spec_root_path(pid)) =~= seq![e, seg_at(), seg_router(), hex]);
    // The queryable expression.
    let q3 = hex + sl + spec_dstar();
    let q2 = seg_router() + sl + q3;
    let q1 = seg_at() + sl + q2;
    assert(spec_root_path(pid) + encode_utf8("/**"@) =~= e + sl + q1);
    lemma_split_head(e, q1);
    lemma_split_head(seg_at(), q2);
    lemma_split_head(seg_router(), q3);
    lemma_split_head(hex, spec_dstar());
    lemma_split_single(spec_dstar());
    assert(spec_split(spec_root_path(pid) + encode_utf8("/**"@)) =~= seq![
        e,
        seg_at(),
        seg_router(),
        hex,
        spec_dstar(),
    ]);
    // The router link-state path.
    let t4 = seg_linkstate() + sl + seg_routers();
    let t3 = hex + sl + t4;
    let t2 = seg_router() + sl + t3;
    let t1 = seg_at() + sl + t2;
    assert(spec_root_path(pid) + encode_utf8("/linkstate/routers"@) =~= e + sl + t1);
    lemma_split_head(e, t1);
    lemma_split_head(seg_at(), t2);
    lemma_split_head(seg_router(), t3);
    lemma_split_head(hex, t4);
    lemma_split_head(seg_linkstate(), seg_routers());
    lemma_split_single(seg_routers());
    assert(spec_split(spec_root_path(pid) + encode_utf8("/linkstate/routers"@)) =~= seq![
        e,
        seg_at(),
        seg_router(),
        hex,
        seg_linkstate(),
        seg_routers(),
    ]);
    // The peer link-state path.
    let p4 = seg_linkstate() + sl + seg_peers();
    let p3 = hex + sl + p4;
    let p2 = seg_router() + sl + p3;
    let p1 = seg_at() + sl + p2;
    assert(spec_root_path(pid) + encode_utf8("/linkstate/peers"@) =~= e + sl + p1);
    lemma_split_head(e, p1);
    lemma_split_head(seg_at(), p2);
    lemma_split_head(seg_router(), p3);
    lemma_split_head(hex, p4);
    lemma_split_head(seg_linkstate(), seg_peers());
    lemma_split_single(seg_peers());
    assert(spec_split(spec_root_path(pid) + encode_utf8("/linkstate/peers"@)) =~= seq![
        e,
        seg_at(),
        seg_router(),
        hex,
        seg_linkstate(),
        seg_peers(),
    ]);
}

/// The root wildcard expression intersects each of the three admin
/// handler paths, whatever the router identity.
proof fn lemma_root_wildcard_intersects(pid: Seq<u8>)
    ensures
        spec_intersect(spec_root_path(pid) + encode_utf8("/**"@), spec_root_path(pid)),
        spec_intersect(
            spec_root_path(pid) + encode_utf8("/**"@),
            spec_root_path(pid) + encode_utf8("/linkstate/routers"@),
        ),
        spec_intersect(
            spec_root_path(pid) + encode_utf8("/**"@),
            spec_root_path(pid) + encode_utf8("/linkstate/peers"@),
        ),
{
    lemma_admin_splits(pid);
    lemma_hex_bytes_plain(pid);
    let hex = spec_hex_bytes(pid);
    let e = Seq::<u8>::empty();
    let ds = spec_dstar();
    assert(hex != ds) by {
        if hex == ds {
            assert(hex[0] == 42);
            assert(48 <= hex[0] <= 102);
        }
    }
    assert(e != ds) by {
        assert(e.len() == 0 && ds.len() == 2);
    }
    let none: Seq<Seq<u8>> = Seq::empty();
    // The exhausted suffix under the trailing wildcard.
    assert(spec_seg_intersect(none, none));
    assert(seq![ds].drop_first() =~= none);
    assert(spec_seg_intersect(seq![ds], none));
    // Against the remaining link-state segments.
    assert(seq![seg_routers()].drop_first() =~= none);
    assert(spec_seg_intersect(seq![ds], seq![seg_routers()]));
    assert(seq![seg_linkstate(), seg_routers()].drop_first() =~= seq![seg_routers()]);
    assert(spec_seg_intersect(seq![ds], seq![seg_linkstate(), seg_routers()]));
    assert(seq![seg_peers()].drop_first() =~= none);
    assert(spec_seg_intersect(seq![ds], seq![seg_peers()]));
    assert(seq![seg_linkstate(), seg_peers()].drop_first() =~= seq![seg_peers()]);
    assert(spec_seg_intersect(seq![ds], seq![seg_linkstate(), seg_peers()]));
    // Consume the four common segments, against each suffix.
    assert(seq![hex, ds].drop_first() =~= seq![ds]);
    assert(seq![seg_router(), hex, ds].drop_first() =~= seq![hex, ds]);
    assert(seq![seg_at(), seg_router(), hex, ds].drop_first() =~= seq![seg_router(), hex, ds]);
    assert(seq![e, seg_at(), seg_router(), hex, ds].drop_first() =~= seq![
        seg_at(),
        seg_router(),
        hex,
        ds,
    ]);
    assert(seq![hex].drop_first() =~= none);
    assert(seq![seg_router(), hex].drop_first() =~= seq![hex]);
    assert(seq![seg_at(), seg_router(), hex].drop_first() =~= seq![seg_router(), hex]);
    assert(seq![e, seg_at(), seg_router(), hex].drop_first() =~= seq![seg_at(), seg_router(), hex]);
    assert(spec_seg_intersect(seq![hex, ds], seq![hex]));
    assert(spec_seg_intersect(seq![seg_router(), hex, ds], seq![seg_router(), hex]));
    assert(spec_seg_intersect(
        seq![seg_at(), seg_router(), hex, ds],
        seq![seg_at(), seg_router(), hex],
    ));
    assert(spec_seg_intersect(
        seq![e, seg_at(), seg_router(), hex, ds],
        seq![e, seg_at(), seg_router(), hex],
    ));
    let rt = seq![seg_linkstate(), seg_routers()];
    assert(seq![hex, seg_linkstate(), seg_routers()].drop_first() =~= rt);
    assert(seq![seg_router(), hex, seg_linkstate(), seg_routers()].drop_first() =~= seq![
        hex,
        seg_linkstate(),
        seg_routers(),
    ]);
    assert(seq![seg_at(), seg_router(), hex, seg_linkstate(), seg_routers()].drop_first() =~= seq![
        seg_router(),
        hex,
        seg_linkstate(),
        seg_routers(),
    ]);
    assert(seq![e, seg_at(), seg_router(), hex, seg_linkstate(), seg_routers()].drop_first()
        =~= seq![seg_at(), seg_router(), hex, seg_linkstate(), seg_routers()]);
    assert(spec_seg_intersect(seq![hex, ds], seq![hex, seg_linkstate(), seg_routers()]));
    assert(spec_seg_intersect(
        seq![seg_router(), hex, ds],
        seq![seg_router(), hex, seg_linkstate(), seg_routers()],
    ));
    assert(spec_seg_intersect(
        seq![seg_at(), seg_router(), hex, ds],
        seq![seg_at(), seg_router(), hex, seg_linkstate(), seg_routers()],
    ));
    assert(spec_seg_intersect(
        seq![e, seg_at(), seg_router(), hex, ds],
        seq![e, seg_at(), seg_router(), hex, seg_linkstate(), seg_routers()],
    ));
    let pr = seq![seg_linkstate(), seg_peers()];
    assert(seq![hex, seg_linkstate(), seg_peers()].drop_first() =~= pr);
    assert(seq![seg_router(), hex, seg_linkstate(), seg_peers()].drop_first() =~= seq![
        hex,
        seg_linkstate(),
        seg_peers(),
    ]);
    assert(seq![seg_at(), seg_router(), hex, seg_linkstate(), seg_peers()].drop_first() =~= seq![
        seg_router(),
        hex,
        seg_linkstate(),
        seg_peers(),
    ]);
    assert(seq![e, seg_at(), seg_router(), hex, seg_linkstate(), seg_peers()].drop_first()
        =~= seq![seg_at(), seg_router(), hex, seg_linkstate(), seg_peers()]);
    assert(spec_seg_intersect(seq![hex, ds], seq![hex, seg_linkstate(), seg_peers()]));
    assert(spec_seg_intersect(
        seq![seg_router(), hex, ds],
        seq![seg_router(), hex, seg_linkstate(), seg_peers()],
    ));
    assert(spec_seg_intersect(
        seq![seg_at(), seg_router(), hex, ds],
        seq![seg_at(), seg_router(), hex, seg_linkstate(), seg_peers()],
    ));
    assert(spec_seg_intersect(
        seq![e, seg_at(), seg_router(), hex, ds],
        seq![e, seg_at(), seg_router(), hex, seg_linkstate(), seg_peers()],
    ));
}

/// Law: the root wildcard — the key expression `start` declares the
/// admin space queryable for — intersects every handler `start`
/// registers, so a query resolving to it plans exactly one reply per
/// handler, in registration order, before the single terminal reply.
pub proof fn lemma_root_wildcard_matches_all_handlers(admin: AdminSpace, pid: Seq<u8>)
    requires
        admin.handlers@.len() == 3,
        admin.handlers@[0].path@ == spec_root_path(pid),
        admin.handlers@[1].path@ == spec_root_path(pid) + encode_utf8("/linkstate/routers"@),
        admin.handlers@[2].path@ == spec_root_path(pid) + encode_utf8("/linkstate/peers"@),
    ensures
        spec_matching(admin.handlers@, spec_root_path(pid) + encode_utf8("/**"@))
            == admin.handlers@,
{
    reveal(Seq::filter);
    lemma_root_wildcard_intersects(pid);
    let hs = admin.handlers@;
    let name = spec_root_path(pid) + encode_utf8("/**"@);
    let h2 = hs.drop_last();
    let h1 = h2.drop_last();
    let h0 = h1.drop_last();
    assert(h0.len() == 0);
    assert(spec_matching(h0, name) =~= Seq::<HandlerEntry>::empty());
    assert(h1.last() == hs[0]);
    assert(spec_intersect(name, hs[0].path@));
    assert(spec_matching(h1, name) =~= seq![hs[0]]);
    assert(h2.last() == hs[1]);
    assert(spec_intersect(name, hs[1].path@));
    assert(spec_matching(h2, name) =~= seq![hs[0], hs[1]]);
    assert(hs.last() == hs[2]);
    assert(spec_intersect(name, hs[2].path@));
    assert(spec_matching(hs, name) =~= seq![hs[0], hs[1], hs[2]]);
    assert(spec_matching(hs, name) =~= hs);
}

impl AdminSpace {
    /// Interned resource ids are unique.
    pub open spec fn wf(&self) -> bool {
        forall|j: int, k: int|
            0 <= j < k < self.mappings@.len() ==> self.mappings@[j].0 != self.mappings@[k].0
    }

    /// Builds the admin space for a router identity: the three handlers,
    /// root summary first, then the two link-state documents, under the
    /// root path; also returns the key expression the embedding runtime
    /// must declare itself queryable for.
    pub fn start(pid: &PeerId) -> (r: (AdminSpace, Vec<u8>))
        ensures
            r.0.wf(),
            r.0.pid_str@ == spec_hex_bytes(pid.id@),
            r.0.mappings@.len() == 0,
            r.0.handlers@.len() == 3,
            r.0.handlers@[0].path@ == spec_root_path(pid.id@),
            r.0.handlers@[0].kind == HandlerKind::RouterData,
            r.0.handlers@[1].path@ == spec_root_path(pid.id@) + encode_utf8(
                "/linkstate/routers"@,
            ),
            r.0.handlers@[1].kind == HandlerKind::LinkstateRouters,
            r.0.handlers@[2].path@ == spec_root_path(pid.id@) + encode_utf8("/linkstate/peers"@),
            r.0.handlers@[2].kind == HandlerKind::LinkstatePeers,
            r.1@ == spec_root_path(pid.id@) + encode_utf8("/**"@),
    {
        let pid_str = hex_bytes_of_bytes(&pid.id);
        let mut root = "/@/router/".as_bytes_vec();
        append_bytes(&mut root, &pid_str);
        proof {
            assert(root@ =~= spec_root_path(pid.id@));
        }
        let mut routers_path = clone_bytes(&root);
        let lr = "/linkstate/routers".as_bytes_vec();
        append_bytes(&mut routers_path, &lr);
        let mut peers_path = clone_bytes(&root);
        let lp = "/linkstate/peers".as_bytes_vec();
        append_bytes(&mut peers_path, &lp);
        let mut queryable = clone_bytes(&root);
        let q = "/**".as_bytes_vec();
        append_bytes(&mut queryable, &q);
        let mut handlers: Vec<HandlerEntry> = Vec::new();
        handlers.push(HandlerEntry { path: root, kind: HandlerKind::RouterData });
        handlers.push(HandlerEntry { path: routers_path, kind: HandlerKind::LinkstateRouters });
        handlers.push(HandlerEntry { path: peers_path, kind: HandlerKind::LinkstatePeers });
        (AdminSpace { pid_str, mappings: Vec::new(), handlers }, queryable)
    }

    /// The absolute name a resource key resolves to against the interned
    /// mappings, if any.
    pub open spec fn spec_resolve(&self, key: ResKey) -> Option<Seq<u8>> {
        match key {
            ResKey::RId(id) => if spec_mapping_has(self.mappings@, id) {
                Some(spec_mapping_at(self.mappings@, id))
            } else {
                None
            },
            ResKey::RIdWithSuffix(id, suffix) => if spec_mapping_has(self.mappings@, id) {
                Some(spec_mapping_at(self.mappings@, id) + suffix@)
            } else {
                None
            },
            ResKey::RName(name) => Some(name@),
        }
    }

    /// In a well-formed admin space, any mapping slot holding `rid`
    /// carries the name [`spec_mapping_at`] names.
    pub proof fn lemma_mapping_at(&self, j: int)
        requires
            self.wf(),
            0 <= j < self.mappings@.len(),
        ensures
            spec_mapping_at(self.mappings@, self.mappings@[j].0) == self.mappings@[j].1@,
    {
        let rid = self.mappings@[j].0;
        assert(spec_mapping_has(self.mappings@, rid));
        let k = choose|k: int| 0 <= k < self.mappings@.len() && self.mappings@[k].0 == rid;
        if k != j {
            if k < j {
                assert(self.mappings@[k].0 != self.mappings@[j].0);
            } else {
                assert(self.mappings@[j].0 != self.mappings@[k].0);
            }
        }
    }

    /// The index of the mapping for `rid`, if any.
    fn find_rid(&self, rid: u64) -> (r: Option<usize>)
        ensures
            match r {
                Some(i) => i < self.mappings@.len() && self.mappings@[i as int].0 == rid,
                None => !spec_mapping_has(self.mappings@, rid),
            },
    {
        let mut i: usize = 0;
        while i < self.mappings.len()
            invariant
                i <= self.mappings@.len(),
                forall|j: int| 0 <= j < i ==> self.mappings@[j].0 != rid,
            decreases self.mappings@.len() - i,
        {
            if self.mappings[i].0 == rid {
                return Some(i);
            }
            i += 1;
        }
        None
    }

    /// Resolves a resource key to an absolute name.
    pub fn reskey_to_string(&self, key: &ResKey) -> (r: Option<Vec<u8>>)
        requires
            self.wf(),
        ensures
            match r {
                Some(name) => self.spec_resolve(*key) == Some(name@),
                None => self.spec_resolve(*key) is None,
            },
    {
        match key {
            ResKey::RId(id) => {
                match self.find_rid(*id) {
                    Some(i) => {
                        proof {
                            self.lemma_mapping_at(i as int);
                        }
                        Some(clone_bytes(&self.mappings[i].1))
                    },
                    None => None,
                }
            },
            ResKey::RIdWithSuffix(id, suffix) => {
                match self.find_rid(*id) {
                    Some(i) => {
                        proof {
                            self.lemma_mapping_at(i as int);
                        }
                        let mut name = clone_bytes(&self.mappings[i].1);
                        append_bytes(&mut name, suffix);
                        Some(name)
                    },
                    None => None,
                }
            },
            ResKey::RName(name) => Some(clone_bytes(name)),
        }
    }

    /// Interns `rid` as the name the key resolves to; an unresolvable
    /// declaration is ignored. A re-declaration replaces the name.
    pub fn resource(&mut self, rid: u64, key: &ResKey)
        requires
            old(self).wf(),
        ensures
            final(self).wf(),
            final(self).pid_str == old(self).pid_str,
            final(self).handlers == old(self).handlers,
            match old(self).spec_resolve(*key) {
                Some(name) => {
                    &&& spec_mapping_has(final(self).mappings@, rid)
                    &&& spec_mapping_at(final(self).mappings@, rid) == name
                    &&& forall|x: u64|
                        x != rid ==> (spec_mapping_has(final(self).mappings@, x) <==> spec_mapping_has(old(self).mappings@, x))
                    &&& forall|x: u64|
                        x != rid && spec_mapping_has(old(self).mappings@, x)
                            ==> spec_mapping_at(final(self).mappings@, x) == spec_mapping_at(old(self).mappings@, x)
                },
                None => *final(self) == *old(self),
            },
    {
        let resolved = self.reskey_to_string(key);
        match resolved {
            None => {},
            Some(name) => {
                let ghost pre = *self;
                match self.find_rid(rid) {
                    Some(i) => {
                        self.mappings.remove(i);
                        self.mappings.insert(i, (rid, name));
                        proof {
                            let news = self.mappings@;
                            let olds = pre.mappings@;
                            assert(news =~= olds.update(i as int, news[i as int]));
                            assert(news[i as int].0 == rid && news[i as int].1@
                                == pre.spec_resolve(*key)->Some_0);
                            assert forall|j: int, k: int| 0 <= j < k < news.len() implies news[
                                j
                            ].0 != news[k].0 by {
                                assert(olds[j].0 != olds[k].0);
                            }
                            self.lemma_mapping_at(i as int);
                            assert forall|x: u64|
                                x != rid && spec_mapping_has(olds, x) implies spec_mapping_has(
                                news,
                                x,
                            ) && spec_mapping_at(news, x) == spec_mapping_at(olds, x) by {
                                let j = choose|j: int| 0 <= j < olds.len() && olds[j].0 == x;
                                assert(news[j] == olds[j]);
                                self.lemma_mapping_at(j);
                                pre.lemma_mapping_at(j);
                            }
                            assert forall|x: u64|
                                x != rid && spec_mapping_has(news, x) implies spec_mapping_has(
                                olds,
                                x,
                            ) by {
                                let j = choose|j: int| 0 <= j < news.len() && news[j].0 == x;
                                assert(j != i);
                                assert(news[j] == olds[j]);
                            }
                        }
                    },
                    None => {
                        self.mappings.push((rid, name));
                        proof {
                            let news = self.mappings@;
                            let olds = pre.mappings@;
                            assert(news[news.len() - 1].0 == rid);
                            assert forall|j: int, k: int| 0 <= j < k < news.len() implies news[
                                j
                            ].0 != news[k].0 by {
                                if k == news.len() - 1 {
                                    assert(news[j] == olds[j]);
                                }
                            }
                            self.lemma_mapping_at(news.len() - 1);
                            assert forall|x: u64|
                                x != rid && spec_mapping_has(olds, x) implies spec_mapping_has(
                                news,
                                x,
                            ) && spec_mapping_at(news, x) == spec_mapping_at(olds, x) by {
                                let j = choose|j: int| 0 <= j < olds.len() && olds[j].0 == x;
                                assert(news[j] == olds[j]);
                                self.lemma_mapping_at(j);
                                pre.lemma_mapping_at(j);
                            }
                            assert forall|x: u64|
                                x != rid && spec_mapping_has(news, x) implies spec_mapping_has(
                                olds,
                                x,
                            ) by {
                                let j = choose|j: int| 0 <= j < news.len() && news[j].0 == x;
                                assert(j != news.len() - 1);
                                assert(news[j] == olds[j]);
                            }
                        }
                    },
                }
            },
        }
    }

    /// Answers a query: resolves the key and plans exactly one reply per
    /// registered handler whose path intersects the resolved name, in
    /// registration order, to be followed by exactly one terminal reply.
    /// An unresolvable key draws no reply at all.
    pub fn query(&self, key: &ResKey, qid: u64) -> (r: Option<QueryPlan>)
        requires
            self.wf(),
        ensures
            match r {
                Some(plan) => {
                    &&& self.spec_resolve(*key) matches Some(name)
                    &&& plan.qid == qid
                    &&& spec_replies_match(
                        plan.replies@,
                        spec_matching(self.handlers@, self.spec_resolve(*key)->Some_0),
                    )
                },
                None => self.spec_resolve(*key) is None,
            },
    {
        let name = match self.reskey_to_string(key) {
            Some(n) => n,
            None => {
                return None;
            },
        };
        let ghost gname = name@;
        let mut replies: Vec<ReplyData> = Vec::new();
        let mut i: usize = 0;
        while i < self.handlers.len()
            invariant
                i <= self.handlers@.len(),
                gname == name@,
                spec_replies_match(
                    replies@,
                    spec_matching(self.handlers@.subrange(0, i as int), gname),
                ),
            decreases self.handlers@.len() - i,
        {
            let ghost rpre = replies@;
            let h = &self.handlers[i];
            let hit = intersect(&name, &h.path);
            if hit {
                replies.push(ReplyData { path: clone_bytes(&h.path), kind: h.kind });
            }
            proof {
                reveal(Seq::filter);
                let pre = self.handlers@.subrange(0, i as int + 1);
                let prev = self.handlers@.subrange(0, i as int);
                let hh = self.handlers@[i as int];
                let mprev = spec_matching(prev, gname);
                assert(pre.drop_last() =~= prev);
                assert(pre.last() == hh);
                let mnew = spec_matching(pre, gname);
                assert(rpre.len() == mprev.len());
                if hit {
                    assert(mnew =~= mprev.push(hh));
                    assert(replies@ == rpre.push(replies@.last()));
                } else {
                    assert(mnew =~= mprev);
                }
                assert(replies@.len() == mnew.len());
                assert forall|j: int| 0 <= j < mnew.len() implies (#[trigger] replies@[j]).path@
                    == mnew[j].path@ && replies@[j].kind == mnew[j].kind by {
                    if j < mprev.len() {
                        assert(replies@[j] == rpre[j]);
                        assert(mnew[j] == mprev[j]);
                    } else {
                        assert(mnew[j] == hh);
                    }
                }
            }
            i += 1;
        }
        proof {
            assert(self.handlers@.subrange(0, self.handlers@.len() as int) =~= self.handlers@);
        }
        Some(QueryPlan { qid, replies })
    }

    /// Renders the router summary document: the JSON object with the
    /// router's identity, its locators, its sessions and their links, and
    /// the loaded plugins, tagged as JSON.
    pub fn router_data(
        &self,
        locators: &Vec<Locator>,
        sessions: &Vec<SessionInfo>,
        plugins: &Vec<PluginInfo>,
    ) -> (r: (Vec<u8>, Encoding))
        ensures
            r.0@ == spec_router_json(self.pid_str@, locators@, sessions@, plugins@),
            r.1 == Encoding::AppJson,
    {
        let mut out = "{\"pid\":".as_bytes_vec();
        let qpid = json_quote(&self.pid_str);
        append_bytes(&mut out, &qpid);
        let t1 = ",\"locators\":[".as_bytes_vec();
        append_bytes(&mut out, &t1);
        let l = render_locator_list(locators);
        append_bytes(&mut out, &l);
        let t2 = "],\"sessions\":[".as_bytes_vec();
        append_bytes(&mut out, &t2);
        let s = render_session_list(sessions);
        append_bytes(&mut out, &s);
        let t3 = "],\"plugins\":[".as_bytes_vec();
        append_bytes(&mut out, &t3);
        let p = render_plugin_list(plugins);
        append_bytes(&mut out, &p);
        let t4 = "]}".as_bytes_vec();
        append_bytes(&mut out, &t4);
        proof {
            assert(out@ =~= spec_router_json(self.pid_str@, locators@, sessions@, plugins@));
        }
        (out, Encoding::AppJson)
    }

    /// Wraps the router link-state graph, rendered by the routing
    /// collaborator as a Graphviz document, as a plain-text payload.
    pub fn linkstate_routers_data(&self, dot: &Vec<u8>) -> (r: (Vec<u8>, Encoding))
        ensures
            r.0@ == dot@,
            r.1 == Encoding::TextPlain,
    {
        (clone_bytes(dot), Encoding::TextPlain)
    }

    /// Wraps the peer link-state graph as a plain-text payload.
    pub fn linkstate_peers_data(&self, dot: &Vec<u8>) -> (r: (Vec<u8>, Encoding))
        ensures
            r.0@ == dot@,
            r.1 == Encoding::TextPlain,
    {
        (clone_bytes(dot), Encoding::TextPlain)
    }

    /// Accepted and traced; no effect on admin-space state.
    pub fn forget_resource(&self, rid: u64) {
    }

    /// Accepted and traced; no effect on admin-space state.
    pub fn publisher(&self, key: &ResKey) {
    }

    /// Accepted and traced; no effect on admin-space state.
    pub fn forget_publisher(&self, key: &ResKey) {
    }

    /// Accepted and traced; no effect on admin-space state.
    pub fn subscriber(&self, key: &ResKey) {
    }

    /// Accepted and traced; no effect on admin-space state.
    pub fn forget_subscriber(&self, key: &ResKey) {
    }

    /// Accepted and traced; no effect on admin-space state.
    pub fn queryable(&self, key: &ResKey) {
    }

    /// Accepted and traced; no effect on admin-space state.
    pub fn forget_queryable(&self, key: &ResKey) {
    }

    /// Accepted and traced; no effect on admin-space state.
    pub fn data(&self, key: &ResKey, payload: &Vec<u8>) {
    }

    /// Accepted and traced; no effect on admin-space state.
    pub fn reply_data(&self, qid: u64, replier: &PeerId, key: &ResKey, payload: &Vec<u8>) {
    }

    /// Accepted and traced; no effect on admin-space state.
    pub fn reply_final(&self, qid: u64) {
    }

    /// Accepted and traced; no effect on admin-space state.
    pub fn pull(&self, is_final: bool, key: &ResKey, pull_id: u64) {
    }

    /// Accepted and traced; no effect on admin-space state.
    pub fn close(&self) {
    }
}

} // verus!

//! Verified text rendering: decimal numbers, hexadecimal byte strings and
//! role names, used to build error descriptions and admin-space paths.

use vstd::prelude::*;
use crate::types::WhatAmI;

verus! {

/// Relies on std's `String::push`: appends the given character to the end
/// of the string.
#[verifier::external_body]
pub fn push_char(s: &mut String, c: char)
    ensures
        final(s)@ == old(s)@.push(c),
{
    s.push(c);
}

/// The character for one decimal digit.
pub open spec fn spec_digit_char(d: nat) -> char {
    ((48 + (d % 10)) as u8) as char
}

/// The decimal rendering of a natural number, most significant digit first.
pub open spec fn spec_u64_dec(n: nat) -> Seq<char>
    decreases n,
{
    if n < 10 {
        seq![spec_digit_char(n)]
    } else {
        spec_u64_dec(n / 10).push(spec_digit_char(n % 10))
    }
}

/// Appends the decimal rendering of `v` to `s`.
pub fn push_dec(s: &mut String, v: u64)
    ensures
        final(s)@ == old(s)@ + spec_u64_dec(v as nat),
    decreases v,
{
    if v >= 10 {
        push_dec(s, v / 10);
    }
    let d: u8 = 48 + (v % 10) as u8;
    push_char(s, d as char);
    proof {
        if v < 10 {
            assert(final(s)@ =~= old(s)@ + spec_u64_dec(v as nat));
        } else {
            assert(final(s)@ =~= old(s)@ + spec_u64_dec(v as nat));
        }
    }
}

/// The decimal rendering of `v` as a fresh string.
pub fn u64_to_dec(v: u64) -> (r: String)
    ensures
        r@ == spec_u64_dec(v as nat),
{
    let mut s = String::new();
    push_dec(&mut s, v);
    proof {
        assert(s@ =~= spec_u64_dec(v as nat));
    }
    s
}

/// The character for one hexadecimal digit (lower case).
pub open spec fn spec_hex_char(d: nat) -> char {
    if d % 16 < 10 {
        ((48 + (d % 16)) as u8) as char
    } else {
        ((87 + (d % 16)) as u8) as char
    }
}

/// The lower-case hexadecimal rendering of a byte string, two characters
/// per byte.
pub open spec fn spec_hex(b: Seq<u8>) -> Seq<char>
    decreases b.len(),
{
    if b.len() == 0 {
        Seq::<char>::empty()
    } else {
        spec_hex(b.drop_last()).push(spec_hex_char((b.last() / 16) as nat)).push(
            spec_hex_char((b.last() % 16) as nat),
        )
    }
}

/// One hexadecimal digit character for a value below sixteen.
fn hex_char(d: u8) -> (r: char)
    requires
        d < 16,
    ensures
        r == spec_hex_char(d as nat),
{
    if d < 10 {
        (48 + d) as char
    } else {
        (87 + d) as char
    }
}

/// The lower-case hexadecimal rendering of `b` as a fresh string.
pub fn hex_of_bytes(b: &Vec<u8>) -> (r: String)
    ensures
        r@ == spec_hex(b@),
{
    let mut s = String::new();
    let mut i: usize = 0;
    while i < b.len()
        invariant
            i <= b.len(),
            s@ == spec_hex(b@.subrange(0, i as int)),
        decreases b.len() - i,
    {
        let hi: u8 = b[i] / 16;
        let lo: u8 = b[i] % 16;
        push_char(&mut s, hex_char(hi));
        push_char(&mut s, hex_char(lo));
        proof {
            let pre = b@.subrange(0, i as int + 1);
            assert(pre.drop_last() =~= b@.subrange(0, i as int));
            assert(pre.last() == b@[i as int]);
            assert(s@ =~= spec_hex(pre));
        }
        i += 1;
    }
    proof {
        assert(b@.subrange(0, b@.len() as int) =~= b@);
    }
    s
}

/// The lower-case hexadecimal rendering of a byte string, as bytes, two
/// output bytes per input byte.
pub open spec fn spec_hex_bytes(b: Seq<u8>) -> Seq<u8>
    decreases b.len(),
{
    if b.len() == 0 {
        Seq::<u8>::empty()
    } else {
        spec_hex_bytes(b.drop_last()).push(spec_hex_byte((b.last() / 16) as nat)).push(
            spec_hex_byte((b.last() % 16) as nat),
        )
    }
}

/// One hexadecimal digit, as a byte, for a value below sixteen.
pub open spec fn spec_hex_byte(d: nat) -> u8 {
    if d % 16 < 10 {
        (48 + (d % 16)) as u8
    } else {
        (87 + (d % 16)) as u8
    }
}

/// The lower-case hexadecimal rendering of `b` as a fresh byte vector.
pub fn hex_bytes_of_bytes(b: &Vec<u8>) -> (r: Vec<u8>)
    ensures
        r@ == spec_hex_bytes(b@),
{
    let mut s: Vec<u8> = Vec::new();
    let mut i: usize = 0;
    while i < b.len()
        invariant
            i <= b.len(),
            s@ == spec_hex_bytes(b@.subrange(0, i as int)),
        decreases b.len() - i,
    {
        let hi: u8 = b[i] / 16;
        let lo: u8 = b[i] % 16;
        if hi < 10 {
            s.push(48 + hi);
        } else {
            s.push(87 + hi);
        }
        if lo < 10 {
            s.push(48 + lo);
        } else {
            s.push(87 + lo);
        }
        proof {
            let pre = b@.subrange(0, i as int + 1);
            assert(pre.drop_last() =~= b@.subrange(0, i as int));
            assert(pre.last() == b@[i as int]);
            assert(s@ =~= spec_hex_bytes(pre));
        }
        i += 1;
    }
    proof {
        assert(b@.subrange(0, b@.len() as int) =~= b@);
    }
    s
}

/// Hexadecimal renderings hold only digit and letter bytes: never the
/// name separator and never the wildcard byte.
pub proof fn lemma_hex_bytes_plain(b: Seq<u8>)
    ensures
        forall|j: int|
            0 <= j < spec_hex_bytes(b).len() ==> 48 <= #[trigger] spec_hex_bytes(b)[j] <= 102,
    decreases b.len(),
{
    if b.len() > 0 {
        lemma_hex_bytes_plain(b.drop_last());
        let h = spec_hex_bytes(b);
        let ph = spec_hex_bytes(b.drop_last());
        assert forall|j: int| 0 <= j < h.len() implies 48 <= #[trigger] h[j] <= 102 by {
            if j < ph.len() {
                assert(h[j] == ph[j]);
            }
        }
    }
}

/// The textual name of a role.
pub open spec fn spec_whatami_str(w: WhatAmI) -> Seq<char> {
    match w {
        WhatAmI::Router => "router"@,
        WhatAmI::Peer => "peer"@,
        WhatAmI::Client => "client"@,
    }
}

/// Renders a role as its textual name.
pub fn whatami_str(w: WhatAmI) -> (r: String)
    ensures
        r@ == spec_whatami_str(w),
{
    match w {
        WhatAmI::Router => String::from_str("router"),
        WhatAmI::Peer => String::from_str("peer"),
        WhatAmI::Client => String::from_str("client"),
    }
}

/// The textual rendering of a boolean.
pub open spec fn spec_bool_str(b: bool) -> Seq<char> {
    if b {
        "true"@
    } else {
        "false"@
    }
}

/// Renders a boolean as `true` or `false`.
pub fn bool_str(b: bool) -> (r: String)
    ensures
        r@ == spec_bool_str(b),
{
    if b {
        String::from_str("true")
    } else {
        String::from_str("false")
    }
}

} // verus!

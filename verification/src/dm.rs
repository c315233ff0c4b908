//! Direct-message channel naming and authorization.
//!
//! A DM channel between two users is named `DM_<h1>_<h2>`, where `h1` and
//! `h2` are the participants' identity hashes in ascending order.  The
//! name is the only record of who the channel belongs to, so the hub must
//! parse it back exactly: a user may read or receive from the channel
//! only if their own hash is one of the two encoded there.

use vstd::prelude::*;

use crate::digits::canonical_digits;
use crate::digits::dec_digits;
use crate::digits::is_digit_char;
use crate::digits::lemma_canonical_round_trip;
use crate::digits::lemma_dec_digits_wf;
use crate::digits::push_decimal;
use crate::digits::parse_digit_run;
use std::collections::hash_map::DefaultHasher;
use std::hash::Hash;
use std::hash::Hasher;

verus! {

/// The 64-bit digest that the standard library's default hasher assigns
/// to a username.
pub uninterp spec fn name_digest(name: Seq<char>) -> u64;

/// Relies on std's `DefaultHasher`: every hasher made by `new` computes
/// the same function, so the digest depends on the characters alone.
#[verifier::external_body]
fn raw_name_digest(name: &str) -> (digest: u64)
    ensures
        digest == name_digest(name@),
{
    let mut hasher = DefaultHasher::new();
    name.hash(&mut hasher);
    hasher.finish()
}

/// The identity hash of a username: its digest squeezed into the
/// non-negative half of `i64` by dropping the lowest bit.
pub open spec fn user_hash(name: Seq<char>) -> u64 {
    name_digest(name) >> 1
}

/// Computes the identity hash of a username.  Stable across sessions, it
/// is stored in the user registry and embedded in DM channel names.
pub fn hash_username(username: &str) -> (h: i64)
    ensures
        0 <= h,
        h == user_hash(username@) as i64,
        h as u64 == user_hash(username@),
{
    let raw = raw_name_digest(username);
    let shifted = raw >> 1;
    assert(shifted < 0x8000000000000000u64 && shifted as i64 as u64 == shifted
        && 0 <= shifted as i64) by (bit_vector)
        requires shifted == raw >> 1;
    shifted as i64
}

/// The name of the DM channel whose participants hash to `a` and `b`,
/// already in ascending order.
pub open spec fn dm_name(a: u64, b: u64) -> Seq<char> {
    seq!['D', 'M', '_'] + dec_digits(a as nat) + seq!['_'] + dec_digits(b as nat)
}

/// Whether `s` is a well-formed DM channel name for some pair of hashes.
pub open spec fn is_dm_name(s: Seq<char>) -> bool {
    exists|a: u64, b: u64| s == dm_name(a, b)
}

/// The pair of hashes a well-formed DM channel name encodes.
pub closed spec fn dm_parts(s: Seq<char>) -> (u64, u64) {
    choose|p: (u64, u64)| s == dm_name(p.0, p.1)
}

/// Whether `s` carries the `DM_` marker that routes a channel through the
/// DM rules at all, well formed or not.
pub open spec fn is_dm_prefix(s: Seq<char>) -> bool {
    s.len() >= 3 && s[0] == 'D' && s[1] == 'M' && s[2] == '_'
}

/// How a DM channel name is laid out: the marker, the first hash's
/// digits, one underscore, the second hash's digits.
pub proof fn lemma_dm_name_shape(a: u64, b: u64)
    ensures
        ({
            let s = dm_name(a, b);
            let la = dec_digits(a as nat).len() as int;
            let lb = dec_digits(b as nat).len() as int;
            &&& la >= 1 && lb >= 1
            &&& s.len() == 4 + la + lb
            &&& s.len() >= 6
            &&& s[0] == 'D' && s[1] == 'M' && s[2] == '_'
            &&& forall|i: int| 3 <= i < 3 + la ==> is_digit_char(#[trigger] s[i])
            &&& s[3 + la] == '_'
            &&& forall|i: int| 4 + la <= i < s.len() ==> is_digit_char(#[trigger] s[i])
            &&& s.subrange(3, 3 + la) == dec_digits(a as nat)
            &&& s.subrange(4 + la, s.len() as int) == dec_digits(b as nat)
        }),
{
    lemma_dec_digits_wf(a as nat);
    lemma_dec_digits_wf(b as nat);
    let s = dm_name(a, b);
    let la = dec_digits(a as nat).len() as int;
    let lb = dec_digits(b as nat).len() as int;
    assert(s.subrange(3, 3 + la) =~= dec_digits(a as nat));
    assert(s.subrange(4 + la, s.len() as int) =~= dec_digits(b as nat));
    assert(forall|i: int| 3 <= i < 3 + la ==> s[i] == #[trigger] dec_digits(a as nat)[i - 3]);
    assert(forall|i: int|
        4 + la <= i < s.len() ==> s[i] == #[trigger] dec_digits(b as nat)[i - 4 - la]);
}

/// A digit is never the underscore separator.
pub proof fn lemma_digit_not_underscore(c: char)
    requires
        is_digit_char(c),
    ensures
        c != '_',
{
}

/// One name encodes one pair: equal names mean equal hashes.
pub proof fn lemma_dm_name_injective(a: u64, b: u64, c: u64, d: u64)
    requires
        dm_name(a, b) == dm_name(c, d),
    ensures
        a == c && b == d,
{
    lemma_dm_name_shape(a, b);
    lemma_dm_name_shape(c, d);
    let s = dm_name(a, b);
    let la = dec_digits(a as nat).len() as int;
    let lc = dec_digits(c as nat).len() as int;
    if la < lc {
        assert(is_digit_char(s[3 + la]));
        lemma_digit_not_underscore(s[3 + la]);
    }
    if lc < la {
        assert(is_digit_char(s[3 + lc]));
        lemma_digit_not_underscore(s[3 + lc]);
    }
    assert(la == lc);
    assert(dec_digits(a as nat) == dec_digits(c as nat));
    assert(dec_digits(b as nat) == dec_digits(d as nat));
    crate::digits::lemma_dec_digits_injective(a as nat, c as nat);
    crate::digits::lemma_dec_digits_injective(b as nat, d as nat);
}

/// `dm_parts` reads back exactly the pair a name was built from.
pub proof fn lemma_dm_parts(a: u64, b: u64)
    ensures
        is_dm_name(dm_name(a, b)),
        dm_parts(dm_name(a, b)) == (a, b),
{
    let s = dm_name(a, b);
    assert(exists|p: (u64, u64)| s == dm_name(p.0, p.1)) by {
        assert(s == dm_name((a, b).0, (a, b).1));
    }
    let p = choose|p: (u64, u64)| s == dm_name(p.0, p.1);
    lemma_dm_name_injective(a, b, p.0, p.1);
}

/// Tells whether a channel name is routed as a DM channel, which the hub
/// decides by its `DM_` marker alone.
pub fn is_dm(channel: &str) -> (r: bool)
    ensures
        r == is_dm_prefix(channel@),
{
    let len = channel.unicode_len();
    if len < 3 {
        return false;
    }
    channel.get_char(0) == 'D' && channel.get_char(1) == 'M' && channel.get_char(2) == '_'
}

/// Reads a DM channel name back into the two hashes it encodes, and
/// rejects every string that is not the rendering of some pair.
pub fn parse_dm(channel: &str) -> (r: Option<(u64, u64)>)
    ensures
        match r {
            Some(p) => channel@ == dm_name(p.0, p.1),
            None => !is_dm_name(channel@),
        },
        forall|a: u64, b: u64| channel@ == dm_name(a, b) ==> r == Some((a, b)),
{
    let s = channel;
    let len = s.unicode_len();
    if len < 6 {
        assert forall|a: u64, b: u64| s@ != dm_name(a, b) by {
            lemma_dm_name_shape(a, b);
        }
        return None;
    }
    if !(s.get_char(0) == 'D' && s.get_char(1) == 'M' && s.get_char(2) == '_') {
        assert forall|a: u64, b: u64| s@ != dm_name(a, b) by {
            lemma_dm_name_shape(a, b);
        }
        return None;
    }
    // Find the first underscore after the marker: it separates the two
    // digit runs.
    let mut k: usize = 3;
    while k < len && s.get_char(k) != '_'
        invariant
            3 <= k <= len,
            len == s@.len(),
            forall|j: int| 3 <= j < k ==> s@[j] != '_',
        decreases len - k,
    {
        k = k + 1;
    }
    if k >= len {
        assert forall|a: u64, b: u64| s@ != dm_name(a, b) by {
            lemma_dm_name_shape(a, b);
            if s@ == dm_name(a, b) {
                let la = dec_digits(a as nat).len() as int;
                assert(s@[3 + la] == '_');
            }
        }
        return None;
    }
    assert(s@[k as int] == '_');
    // The separator found first is the one the layout puts after the
    // first digit run.
    proof {
        assert forall|a: u64, b: u64| s@ == dm_name(a, b) implies k == 3 + dec_digits(
            a as nat,
        ).len() by {
            lemma_dm_name_shape(a, b);
            let la = dec_digits(a as nat).len() as int;
            if (k as int) < 3 + la {
                assert(is_digit_char(s@[k as int]));
                lemma_digit_not_underscore(s@[k as int]);
            }
            if (k as int) > 3 + la {
                assert(s@[3 + la] == '_');
            }
        }
    }
    if k == 3 || k + 1 >= len {
        assert forall|a: u64, b: u64| s@ != dm_name(a, b) by {
            lemma_dm_name_shape(a, b);
        }
        return None;
    }
    // Reject a leading zero in either run: the canonical rendering of a
    // hash never has one.
    if k - 3 > 1 && s.get_char(3) == '0' {
        assert forall|a: u64, b: u64| s@ != dm_name(a, b) by {
            lemma_dm_name_shape(a, b);
            if s@ == dm_name(a, b) {
                lemma_dec_digits_wf(a as nat);
                assert(s@[3] == dec_digits(a as nat)[0]);
            }
        }
        return None;
    }
    if len - (k + 1) > 1 && s.get_char(k + 1) == '0' {
        assert forall|a: u64, b: u64| s@ != dm_name(a, b) by {
            lemma_dm_name_shape(a, b);
            if s@ == dm_name(a, b) {
                lemma_dec_digits_wf(b as nat);
                let la = dec_digits(a as nat).len() as int;
                assert(s@[4 + la] == dec_digits(b as nat)[0]);
            }
        }
        return None;
    }
    let first = parse_digit_run(s, 3, k);
    let va = match first {
        Some(v) => v,
        None => {
            assert forall|a: u64, b: u64| s@ != dm_name(a, b) by {
                lemma_dm_name_shape(a, b);
                if s@ == dm_name(a, b) {
                    lemma_dec_digits_wf(a as nat);
                    assert(s@.subrange(3, k as int) == dec_digits(a as nat));
                }
            }
            return None;
        },
    };
    let second = parse_digit_run(s, k + 1, len);
    let vb = match second {
        Some(v) => v,
        None => {
            assert forall|a: u64, b: u64| s@ != dm_name(a, b) by {
                lemma_dm_name_shape(a, b);
                if s@ == dm_name(a, b) {
                    lemma_dec_digits_wf(b as nat);
                    assert(s@.subrange(k as int + 1, len as int) == dec_digits(b as nat));
                }
            }
            return None;
        },
    };
    proof {
        let run1 = s@.subrange(3, k as int);
        let run2 = s@.subrange(k as int + 1, len as int);
        assert(canonical_digits(run1));
        assert(canonical_digits(run2));
        lemma_canonical_round_trip(run1);
        lemma_canonical_round_trip(run2);
        assert(dec_digits(va as nat) == run1);
        assert(dec_digits(vb as nat) == run2);
        assert(s@ =~= dm_name(va, vb));
        assert forall|a: u64, b: u64| s@ == dm_name(a, b) implies (va, vb) == (a, b) by {
            lemma_dm_name_injective(va, vb, a, b);
        }
    }
    Some((va, vb))
}

/// Whether `user` is one of the two participants a DM channel name
/// encodes.  A name that encodes no pair admits nobody.
pub open spec fn allowed_dm_spec(ch: Seq<char>, user: Seq<char>) -> bool {
    is_dm_name(ch) && (user_hash(user) == dm_parts(ch).0 || user_hash(user) == dm_parts(ch).1)
}

/// Tells whether a user may take part in a DM channel: their identity
/// hash must be one of the two encoded in its name.
pub fn allowed_dm(channel: &str, username: &str) -> (r: bool)
    ensures
        r == allowed_dm_spec(channel@, username@),
{
    let parts = parse_dm(channel);
    match parts {
        Some((a, b)) => {
            let h = hash_username(username) as u64;
            proof {
                lemma_dm_parts(a, b);
            }
            h == a || h == b
        },
        None => false,
    }
}

/// The name of the DM channel for two usernames: their hashes in
/// ascending order under the `DM_` marker.
pub open spec fn dm_channel_spec(ua: Seq<char>, ub: Seq<char>) -> Seq<char> {
    if user_hash(ua) <= user_hash(ub) {
        dm_name(user_hash(ua), user_hash(ub))
    } else {
        dm_name(user_hash(ub), user_hash(ua))
    }
}

/// Builds the DM channel name for two users.  Either order of arguments
/// yields the same name.
pub fn dm_channel(user_a: &str, user_b: &str) -> (r: String)
    ensures
        r@ == dm_channel_spec(user_a@, user_b@),
{
    let ha = hash_username(user_a) as u64;
    let hb = hash_username(user_b) as u64;
    let lo = if ha <= hb { ha } else { hb };
    let hi = if ha <= hb { hb } else { ha };
    let mut name = "DM_".to_owned();
    push_decimal(&mut name, lo);
    name.append("_");
    push_decimal(&mut name, hi);
    proof {
        reveal_strlit("DM_");
        reveal_strlit("_");
        assert(name@ =~= dm_name(lo, hi));
    }
    name
}

/// Law: the DM channel name is symmetric in its two users, and is the
/// `DM_` marker followed by the smaller and then the larger of their
/// identity hashes.
pub proof fn lemma_dm_channel_symmetric(ua: Seq<char>, ub: Seq<char>)
    ensures
        dm_channel_spec(ua, ub) == dm_channel_spec(ub, ua),
        dm_channel_spec(ua, ub) == dm_name(
            if user_hash(ua) <= user_hash(ub) { user_hash(ua) } else { user_hash(ub) },
            if user_hash(ua) <= user_hash(ub) { user_hash(ub) } else { user_hash(ua) },
        ),
        allowed_dm_spec(dm_channel_spec(ua, ub), ua),
        allowed_dm_spec(dm_channel_spec(ua, ub), ub),
{
    let ha = user_hash(ua);
    let hb = user_hash(ub);
    if ha <= hb {
        lemma_dm_parts(ha, hb);
    } else {
        lemma_dm_parts(hb, ha);
    }
}

} // verus!

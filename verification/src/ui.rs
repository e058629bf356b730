//! What the user interface shows and accepts: durations, byte sizes, the
//! lobby search, and the bootstrap peers typed in by the user.

use vstd::prelude::*;
use crate::text::{
    contains_chars, contains_seq, decimal, decimal_pad2, digit_char, push_chars, push_decimal,
    push_decimal_pad2, starts_with, str_chars, string_from_chars, trim, trim_chars, trim_end_by,
    trim_end_of,
};
use crate::tracker_proto::NetworkFile;

verus! {

/// `HH:MM:SS` of a number of seconds (the hours may have more than two digits).
pub open spec fn uptime_text(secs: nat) -> Seq<char> {
    decimal_pad2(secs / 3600) + ":"@ + decimal_pad2((secs % 3600) / 60) + ":"@ + decimal_pad2(secs % 60)
}

/// `n / d` rounded to the nearest integer, ties to the even one.
pub open spec fn round_half_even(n: nat, d: nat) -> nat {
    let q = n / d;
    let r = n % d;
    if 2 * r > d || (2 * r == d && q % 2 == 1) { q + 1 } else { q }
}

/// How many low bits an integer loses when it becomes a 53-bit-mantissa float.
pub open spec fn float_shift(b: nat) -> nat
    decreases b,
{
    if b < 0x20_0000_0000_0000 { 0 } else { 1 + float_shift(b / 2) }
}

/// The value of `b as f64`: `b` rounded to 53 significant bits, ties to even.
pub open spec fn as_float(b: nat) -> nat {
    let unit = vstd::arithmetic::power2::pow2(float_shift(b));
    round_half_even(b, unit) * unit
}

/// A number of hundredths (or tenths, with `places` 1) as decimal text.
pub open spec fn fixed_text(q: nat, places: nat) -> Seq<char> {
    if places == 1 {
        decimal(q / 10) + "."@ + seq![digit_char(q % 10)]
    } else {
        decimal(q / 100) + "."@ + decimal_pad2(q % 100)
    }
}

/// A byte count as the interface shows it: bytes below 1 KiB, then KB with
/// one decimal, MB and GB with two (binary units, rounded half to even, GB
/// going through the 53-bit float the count converts to).
pub open spec fn bytes_text(b: nat) -> Seq<char> {
    if b >= 0x4000_0000 {
        fixed_text(round_half_even(as_float(b) * 100, 0x4000_0000), 2) + " GB"@
    } else if b >= 0x10_0000 {
        fixed_text(round_half_even(b * 100, 0x10_0000), 2) + " MB"@
    } else if b >= 1024 {
        fixed_text(round_half_even(b * 10, 1024), 1) + " KB"@
    } else {
        decimal(b) + " B"@
    }
}

pub(crate) fn round_half_even_exec(n: u128, d: u128) -> (q: u128)
    requires
        0 < d <= 0x1_0000_0000_0000_0000,
        n <= 0x1_0000_0000_0000_0000_0000,
    ensures
        q == round_half_even(n as nat, d as nat),
{
    let q = n / d;
    let r = n % d;
    if 2 * r > d || (2 * r == d && q % 2 == 1) {
        q + 1
    } else {
        q
    }
}

pub(crate) fn push_fixed(out: &mut Vec<char>, q: u64, places: u64)
    requires
        places == 1 || places == 2,
    ensures
        final(out)@ == old(out)@ + fixed_text(q as nat, places as nat),
{
    if places == 1 {
        push_decimal(out, q / 10);
        out.push('.');
        let ghost mid = out@;
        proof {
            assert(q % 10 < 10);
        }
        let d = q % 10;
        let mut one: Vec<char> = Vec::new();
        push_decimal(&mut one, d);
        assert(decimal(d as nat) == seq![digit_char(d as nat)]);
        push_chars(out, &one);
    } else {
        push_decimal(out, q / 100);
        out.push('.');
        push_decimal_pad2(out, q % 100);
    }
    proof {
        assert("."@ == seq!['.']) by {
            reveal_strlit(".");
        }
    }
}

/// The float value of `b` (as an integer), computed exactly.
pub(crate) fn as_float_exec(b: u64) -> (v: u128)
    ensures
        v == as_float(b as nat),
        v <= 0x2_0000_0000_0000_0000,
{
    let mut x: u64 = b;
    let mut s: u32 = 0;
    let mut unit: u128 = 1;
    proof {
        vstd::arithmetic::power2::lemma2_to64();
    }
    while x >= 0x20_0000_0000_0000
        invariant
            float_shift(b as nat) == s + float_shift(x as nat),
            unit == vstd::arithmetic::power2::pow2(s as nat),
            x as nat * unit <= b as nat,
            b as nat / (unit as nat) == x as nat,
            unit <= 0x1_0000_0000_0000_0000,
            s <= 64,
        decreases x,
    {
        proof {
            assert(unit <= 2048) by (nonlinear_arith)
                requires
                    x as nat * unit <= b as nat,
                    x >= 0x20_0000_0000_0000,
                    b <= 0xffff_ffff_ffff_ffff,
            ;
            vstd::arithmetic::power2::lemma_pow2_unfold((s + 1) as nat);
            vstd::arithmetic::power2::lemma_pow2_pos(s as nat);
            vstd::arithmetic::power2::lemma2_to64();
            if s >= 12 {
                vstd::arithmetic::power2::lemma_pow2_strictly_increases(11, s as nat);
            }
            vstd::arithmetic::div_mod::lemma_div_denominator(b as int, unit as int, 2);
            assert(unit as nat * 2 == vstd::arithmetic::power2::pow2((s + 1) as nat));
            assert((x / 2) as nat * (unit * 2) <= x as nat * unit) by (nonlinear_arith)
                requires
                    x >= 0,
                    unit >= 0,
            ;
        }
        x = x / 2;
        s = s + 1;
        unit = unit * 2;
    }
    proof {
        vstd::arithmetic::power2::lemma_pow2_pos(s as nat);
        assert(b as nat <= 0xffff_ffff_ffff_ffff);
        assert(round_half_even(b as nat, unit as nat) <= b as nat / (unit as nat) + 1);
        assert(round_half_even(b as nat, unit as nat) * unit <= (b as nat / (unit as nat) + 1) * unit) by (nonlinear_arith)
            requires
                round_half_even(b as nat, unit as nat) <= b as nat / (unit as nat) + 1,
                unit > 0,
        ;
        assert((b as nat / (unit as nat) + 1) * unit <= b as nat + unit) by (nonlinear_arith)
            requires
                unit > 0,
                (b as nat / (unit as nat)) * unit <= b as nat,
            {
            }
    }
    let q = round_half_even_exec(b as u128, unit);
    q * unit
}

/// The lower-case form of `s` that `str::to_lowercase` gives.
pub uninterp spec fn lowercase(s: Seq<char>) -> Seq<char>;

/// Calls `str::to_lowercase`; its result is named `lowercase`.
#[verifier::external_body]
fn to_lowercase(s: &str) -> (r: String)
    ensures
        r@ == lowercase(s@),
{
    s.to_lowercase()
}

/// Whether a lobby file named `name` is shown for the search `query`:
/// always when the query is empty, otherwise when the lower-case name
/// contains the lower-case query.
pub open spec fn query_matches(name: Seq<char>, query: Seq<char>) -> bool {
    lowercase(query).len() == 0 || contains_seq(lowercase(name), lowercase(query))
}

/// The search law: an empty lower-case query shows every file; otherwise a
/// file is shown exactly when its lower-case name holds the lower-case query
/// as a contiguous piece, starting at any position.
pub proof fn lemma_query_matches_substring(name: Seq<char>, query: Seq<char>)
    ensures
        lowercase(query).len() == 0 ==> query_matches(name, query),
        lowercase(query).len() > 0 ==> (query_matches(name, query) <==> exists|i: int|
            0 <= i && i + lowercase(query).len() <= lowercase(name).len()
            && #[trigger] lowercase(name).subrange(i, i + lowercase(query).len()) == lowercase(query)),
{
}

/// Whether a lobby file named `name` is shown for the search `query`.
pub fn matches_query(name: &str, query: &str) -> (r: bool)
    ensures
        r == query_matches(name@, query@),
        r <==> (lowercase(query@).len() == 0 || exists|i: int|
            0 <= i && i + lowercase(query@).len() <= lowercase(name@).len()
            && #[trigger] lowercase(name@).subrange(i, i + lowercase(query@).len()) == lowercase(query@)),
{
    proof {
        lemma_query_matches_substring(name@, query@);
    }
    let q = str_chars(to_lowercase(query).as_str());
    if q.len() == 0 {
        return true;
    }
    let n = str_chars(to_lowercase(name).as_str());
    contains_chars(&n, &q)
}

/// The positions of the lobby files the search `query` shows, in order.
pub fn search_lobby(files: &Vec<NetworkFile>, query: &str) -> (r: Vec<usize>)
    ensures
        r@ == Seq::new(files@.len(), |i: int| i).filter(|i: int| query_matches(files@[i].name@, query@)).map_values(|i: int| i as usize),
{
    let ghost pred = |i: int| query_matches(files@[i].name@, query@);
    let ghost all = Seq::new(files@.len(), |i: int| i);
    let mut r: Vec<usize> = Vec::new();
    let mut i: usize = 0;
    while i < files.len()
        invariant
            i <= files@.len(),
            all == Seq::new(files@.len(), |i: int| i),
            forall|k: int| #[trigger] pred(k) == query_matches(files@[k].name@, query@),
            r@ == all.take(i as int).filter(pred).map_values(|i: int| i as usize),
        decreases files.len() - i,
    {
        let ghost before = all.take(i as int).filter(pred);
        proof {
            assert(all.take(i + 1) =~= all.take(i as int).push(i as int));
            all.take(i as int).lemma_filter_push(i as int, pred);
        }
        if matches_query(files[i].name.as_str(), query) {
            r.push(i);
            assert(r@ =~= before.push(i as int).map_values(|i: int| i as usize));
        }
        i += 1;
    }
    assert(all.take(files@.len() as int) =~= all);
    r
}

/// The bootstrap peer a user typed in, as stored: trimmed, and with
/// `http://` in front unless it already starts with `http`; nothing if only
/// white space was typed.
pub open spec fn normalized_peer(input: Seq<char>) -> Option<Seq<char>> {
    let t = trim(input);
    if t.len() == 0 {
        None
    } else if "http"@.len() <= t.len() && t.take("http"@.len() as int) == "http"@ {
        Some(t)
    } else {
        Some("http://"@ + t)
    }
}

/// Whether `t` begins with the four letters `h`, `t`, `t`, `p`.
pub open spec fn begins_with_http(t: Seq<char>) -> bool {
    &&& t.len() >= 4
    &&& t[0] == 'h'
    &&& t[1] == 't'
    &&& t[2] == 't'
    &&& t[3] == 'p'
}

/// The bootstrap peer law: with `t` the input trimmed, white space alone
/// gives nothing; a `t` that already begins with `http` (as `http://...` or
/// `https://...` do) is stored unchanged; any other `t` gets `http://` in
/// front.
pub proof fn lemma_normalized_peer(input: Seq<char>)
    ensures
        trim(input).len() == 0 ==> normalized_peer(input) is None,
        begins_with_http(trim(input)) ==> normalized_peer(input) == Some(trim(input)),
        trim(input).len() > 0 && !begins_with_http(trim(input))
            ==> normalized_peer(input) == Some(seq!['h', 't', 't', 'p', ':', '/', '/'] + trim(input)),
{
    reveal_strlit("http");
    reveal_strlit("http://");
    let t = trim(input);
    if t.len() >= 4 {
        if begins_with_http(t) {
            assert(t.take(4) =~= "http"@);
        } else {
            assert(t.take(4) != "http"@) by {
                if t.take(4) == "http"@ {
                    assert(t.take(4)[0] == t[0] && t.take(4)[1] == t[1] && t.take(4)[2] == t[2] && t.take(4)[3] == t[3]);
                }
            }
        }
    }
    assert("http://"@ =~= seq!['h', 't', 't', 'p', ':', '/', '/']);
}

/// Normalises a bootstrap peer typed in by the user.
pub fn normalize_bootstrap_peer(input: &str) -> (r: Option<String>)
    ensures
        match normalized_peer(input@) {
            Some(p) => r matches Some(s) && s@ == p,
            None => r is None,
        },
        begins_with_http(trim(input@)) ==> (r matches Some(s) && s@ == trim(input@)),
{
    proof {
        lemma_normalized_peer(input@);
    }
    let t = trim_chars(&str_chars(input));
    if t.len() == 0 {
        return None;
    }
    if starts_with(&t, &str_chars("http")) {
        Some(string_from_chars(&t))
    } else {
        let mut out = str_chars("http://");
        push_chars(&mut out, &t);
        Some(string_from_chars(&out))
    }
}

/// Adds a bootstrap peer typed in by the user, normalised, unless it is
/// empty or already known. Returns whether the list changed.
pub fn add_bootstrap_peer(peers: &mut Vec<String>, input: &str) -> (added: bool)
    ensures
        match normalized_peer(input@) {
            Some(p) => if old(peers).deep_view().contains(p) {
                !added && final(peers)@ == old(peers)@
            } else {
                added && final(peers).deep_view() == old(peers).deep_view().push(p)
            },
            None => !added && final(peers)@ == old(peers)@,
        },
{
    let p = match normalize_bootstrap_peer(input) {
        Some(p) => p,
        None => {
            return false;
        },
    };
    let mut i: usize = 0;
    while i < peers.len()
        invariant
            i <= peers@.len(),
            peers@ == old(peers)@,
            normalized_peer(input@) == Some(p@),
            forall|k: int| 0 <= k < i ==> peers@[k]@ != p@,
        decreases peers.len() - i,
    {
        if peers[i] == p {
            assert(peers.deep_view()[i as int] == p@);
            assert(peers.deep_view().contains(p@));
            assert(old(peers).deep_view() =~= peers.deep_view());
            return false;
        }
        i += 1;
    }
    proof {
        assert forall|k: int| 0 <= k < peers.deep_view().len() implies peers.deep_view()[k] != p@ by {
            assert(peers.deep_view()[k] == peers@[k]@);
        }
    }
    let ghost before = peers.deep_view();
    peers.push(p);
    assert(peers.deep_view() =~= before.push(p@));
    true
}

/// The gossip address of a bootstrap peer: its URL without trailing slashes,
/// followed by `/network/gossip`.
pub fn gossip_url(target: &str) -> (s: String)
    ensures
        s@ == trim_end_by(target@, |c: char| c == '/' || c == '/') + "/network/gossip"@,
{
    let mut out = trim_end_of(&str_chars(target), '/', '/');
    push_chars(&mut out, &str_chars("/network/gossip"));
    string_from_chars(&out)
}

} // verus!

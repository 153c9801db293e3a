use vstd::prelude::*;

use crate::text::{contains_text, is_prefix_of, occurs_in, same_text, starts_with, texts};

verus! {

/// Whether a word of `ip route show default` is the gateway address: it has a dot
/// and is not a prefix with a length.
pub open spec fn is_gateway_word(w: Seq<char>) -> bool {
    occurs_in("."@, w) && !occurs_in("/"@, w)
}

/// The first gateway word of a route listing, split into words, if any.
pub fn gateway_from_words(words: &Vec<String>) -> (r: Option<String>)
    ensures
        r is None <==> forall|k: int| 0 <= k < words@.len() ==> !is_gateway_word(#[trigger] words@[k]@),
        r matches Some(g) ==> exists|k: int|
            0 <= k < words@.len() && g@ == (#[trigger] words@[k])@ && is_gateway_word(g@)
                && forall|j: int| 0 <= j < k ==> !is_gateway_word(#[trigger] words@[j]@),
{
    let mut i: usize = 0;
    while i < words.len()
        invariant
            i <= words@.len(),
            forall|j: int| 0 <= j < i ==> !is_gateway_word(#[trigger] words@[j]@),
        decreases words.len() - i,
    {
        let w = words[i].as_str();
        if contains_text(w, ".") && !contains_text(w, "/") {
            let g = words[i].clone();
            assert(g@ == words@[i as int]@);
            return Some(g);
        }
        i = i + 1;
    }
    None
}

/// Whether a word of `hostname -I` is a non-loopback IPv4 address.
pub open spec fn is_ipv4_word(w: Seq<char>) -> bool {
    occurs_in("."@, w) && !is_prefix_of("127."@, w)
}

pub open spec fn ipv4_sel() -> spec_fn(Seq<char>) -> bool {
    |w: Seq<char>| is_ipv4_word(w)
}

/// The non-loopback IPv4 addresses among the words of an address listing, in order.
pub fn ipv4_addresses(words: &Vec<String>) -> (r: Vec<String>)
    ensures
        texts(r@) == texts(words@).filter(ipv4_sel()),
{
    let mut out: Vec<String> = Vec::new();
    let mut i: usize = 0;
    while i < words.len()
        invariant
            i <= words@.len(),
            texts(out@) == texts(words@.subrange(0, i as int)).filter(ipv4_sel()),
        decreases words.len() - i,
    {
        let ghost pre = texts(words@.subrange(0, i as int));
        let ghost next = texts(words@.subrange(0, i + 1));
        assert(next.drop_last() =~= pre);
        assert(next.last() == words@[i as int]@);
        reveal(Seq::filter);
        let ghost before = out@;
        let w = words[i].as_str();
        if contains_text(w, ".") && !starts_with(w, "127.") {
            out.push(words[i].clone());
            assert(texts(out@) =~= texts(before).push(words@[i as int]@));
        }
        i = i + 1;
    }
    assert(words@.subrange(0, words@.len() as int) =~= words@);
    out
}

/// What `str::to_uppercase` makes of a text.
pub uninterp spec fn upper_of(s: Seq<char>) -> Seq<char>;

/// Relies on `str::to_uppercase`: its result depends on the characters alone.
#[verifier::external_body]
fn to_uppercase(s: &str) -> (r: String)
    ensures
        r@ == upper_of(s@),
{
    s.to_uppercase()
}

/// The MAC address of an interface from its uppercased address text: none when the
/// address is all zeros.
pub open spec fn mac_of(upper: Seq<char>) -> Option<Seq<char>> {
    if upper == "00:00:00:00:00:00"@ {
        None
    } else {
        Some(upper)
    }
}

/// `mac_of` on an address text and its uppercased form.
pub fn mac_from_upper(upper: String) -> (r: Option<String>)
    ensures
        r matches Some(m) ==> mac_of(upper@) == Some(m@),
        r is None ==> mac_of(upper@) is None,
{
    if same_text(upper.as_str(), "00:00:00:00:00:00") {
        None
    } else {
        Some(upper)
    }
}

/// The MAC address of an interface from the address text the system reports for it.
pub fn mac_address(address: &str) -> (r: Option<String>)
    ensures
        r matches Some(m) ==> mac_of(upper_of(address@)) == Some(m@),
        r is None ==> mac_of(upper_of(address@)) is None,
{
    mac_from_upper(to_uppercase(address))
}

/// Link speed in Mbit/s from the reported value; unknown when not positive.
pub fn link_speed(reported: i32) -> (r: Option<u32>)
    ensures
        reported > 0 ==> r == Some(reported as u32),
        reported <= 0 ==> r is None,
{
    if reported > 0 {
        Some(reported as u32)
    } else {
        None
    }
}

} // verus!

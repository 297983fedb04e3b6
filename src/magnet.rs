use vstd::prelude::*;
use vstd::utf8::encode_utf8;

use crate::text::{first_from, lower_of, lowercase};

verus! {

/// Number of characters of `magnet:?xt=urn:btih:` that come before the info hash.
pub const MAGNET_PREFIX_LEN: usize = 20;

/// The info hash as a magnet link writes it: what stands between the prefix
/// `magnet:?xt=urn:btih:` (its first twenty characters) and the next `&`. A
/// link too short, or with no `&` after the prefix, has none.
pub open spec fn info_hash_of(s: Seq<char>) -> Option<Seq<char>> {
    if s.len() < MAGNET_PREFIX_LEN {
        None
    } else {
        match first_from(s, '&', MAGNET_PREFIX_LEN as int) {
            Some(e) => Some(s.subrange(MAGNET_PREFIX_LEN as int, e)),
            None => None,
        }
    }
}

/// The info hash of a magnet link, as written in it.
pub fn info_hash_text(magnet: &str) -> (r: Option<&str>)
    ensures
        r.is_some() == info_hash_of(magnet@).is_some(),
        r.is_some() ==> r.unwrap()@ == info_hash_of(magnet@).unwrap(),
{
    let n = magnet.unicode_len();
    if n < MAGNET_PREFIX_LEN {
        return None;
    }
    let mut i: usize = MAGNET_PREFIX_LEN;
    while i < n
        invariant
            MAGNET_PREFIX_LEN <= i <= n,
            n == magnet@.len(),
            forall|k: int| MAGNET_PREFIX_LEN <= k < i ==> magnet@[k] != '&',
        decreases n - i,
    {
        if magnet.get_char(i) == '&' {
            proof {
                let e = first_from(magnet@, '&', MAGNET_PREFIX_LEN as int);
                assert(magnet@[i as int] == '&');
                assert(e.unwrap() == i);
            }
            return Some(magnet.substring_char(MAGNET_PREFIX_LEN, i));
        }
        i += 1;
    }
    None
}

/// The info hash of a magnet link, lowercased, by which backends and the
/// download store know the job.
pub fn magnet_hash(magnet: &str) -> (r: Option<String>)
    ensures
        r.is_some() == info_hash_of(magnet@).is_some(),
        r.is_some() ==> r.unwrap()@ == lower_of(info_hash_of(magnet@).unwrap()),
{
    match info_hash_text(magnet) {
        Some(h) => Some(lowercase(h)),
        None => None,
    }
}

/// `parts` joined with `sep` between each two.
pub open spec fn join_with(parts: Seq<Seq<char>>, sep: Seq<char>) -> Seq<char>
    decreases parts.len(),
{
    if parts.len() == 0 {
        Seq::empty()
    } else if parts.len() == 1 {
        parts[0]
    } else {
        join_with(parts.drop_last(), sep) + sep + parts.last()
    }
}

/// The magnet link for an info hash, an already encoded display name and
/// the announce trackers: `magnet:?xt=urn:btih:<hash>&dn=<name>&tr=<t1>&tr=<t2>...`.
pub open spec fn magnet_of(hash: Seq<char>, encoded_name: Seq<char>, trackers: Seq<Seq<char>>) -> Seq<char> {
    "magnet:?xt=urn:btih:"@ + hash + "&dn="@ + encoded_name + "&tr="@ + join_with(trackers, "&tr="@)
}

/// Builds a magnet link from its parts, the name already encoded for a URL.
pub fn magnet_from_parts(hash: &str, encoded_name: &str, trackers: &Vec<String>) -> (r: String)
    ensures
        r@ == magnet_of(hash@, encoded_name@, trackers@.map_values(|t: String| t@)),
{
    let ghost tv = trackers@.map_values(|t: String| t@);
    let mut joined = String::new();
    let mut i: usize = 0;
    while i < trackers.len()
        invariant
            i <= trackers.len(),
            tv == trackers@.map_values(|t: String| t@),
            joined@ == join_with(tv.take(i as int), "&tr="@),
        decreases trackers.len() - i,
    {
        proof {
            assert(tv.take(i + 1).drop_last() =~= tv.take(i as int));
            if i == 0 {
                assert(tv.take(0) =~= Seq::<Seq<char>>::empty());
            }
        }
        if i == 0 {
            joined = trackers[i].clone();
        } else {
            joined = joined.concat("&tr=");
            joined = joined.concat(trackers[i].as_str());
        }
        i += 1;
    }
    assert(tv.take(trackers.len() as int) =~= tv);
    let r = String::from_str("magnet:?xt=urn:btih:").concat(hash).concat("&dn=").concat(encoded_name).concat(
        "&tr=",
    ).concat(joined.as_str());
    r
}

/// A byte that URL encoding keeps as it is: an ASCII letter or digit, or one
/// of `-`, `.`, `_`, `~`.
pub open spec fn unreserved(b: u8) -> bool {
    (48 <= b <= 57) || (65 <= b <= 90) || (97 <= b <= 122) || b == 45 || b == 46 || b == 95 || b == 126
}

/// The uppercase hexadecimal digit for `d` (below 16).
pub open spec fn hex_digit(d: u8) -> char {
    if d < 10 {
        (48 + d) as char
    } else {
        (55 + d) as char
    }
}

/// URL encoding of one byte: itself when unreserved, else `%` and two
/// uppercase hexadecimal digits.
pub open spec fn byte_encoded(b: u8) -> Seq<char> {
    if unreserved(b) {
        seq![b as char]
    } else {
        seq!['%', hex_digit(b / 16), hex_digit(b % 16)]
    }
}

/// URL encoding of a byte sequence, byte by byte.
pub open spec fn bytes_encoded(bs: Seq<u8>) -> Seq<char>
    decreases bs.len(),
{
    if bs.len() == 0 {
        Seq::empty()
    } else {
        bytes_encoded(bs.drop_last()) + byte_encoded(bs.last())
    }
}

/// What `urlencoding::encode` makes of a text: the URL encoding of its UTF-8 bytes.
pub open spec fn url_encoded(s: Seq<char>) -> Seq<char> {
    bytes_encoded(encode_utf8(s))
}

/// Relies on `urlencoding::encode`: it keeps the UTF-8 bytes that are ASCII
/// letters, digits or `-`, `.`, `_`, `~`, and writes every other byte as `%`
/// and two uppercase hexadecimal digits.
#[verifier::external_body]
fn url_encode(s: &str) -> (r: String)
    ensures
        r@ == url_encoded(s@),
{
    urlencoding::encode(s).into_owned()
}

/// The magnet link of a film index's download: its info hash, its title made
/// safe for a URL, and the configured announce trackers.
pub fn build_magnet(hash: &str, title: &str, trackers: &Vec<String>) -> (r: String)
    ensures
        r@ == magnet_of(hash@, url_encoded(title@), trackers@.map_values(|t: String| t@)),
{
    let name = url_encode(title);
    magnet_from_parts(hash, name.as_str(), trackers)
}

} // verus!

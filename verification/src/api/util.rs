//! Password hashing and cookie-header parsing.

use vstd::prelude::*;
use sha2::{Digest, Sha256};
use crate::string_map::{text_map, StringMap};
use crate::text::{chars_of, lemma_split_concat, push_char, split_char, split_chars, string_from, views_of};

verus! {

/// The SHA-256 digest of the UTF-8 encoding of a string.
pub uninterp spec fn sha256_digest(s: Seq<char>) -> Seq<u8>;

/// Calls `sha2::Sha256` (`new`, `update` with the string's bytes, `finalize`).
/// Claimed: the 32-byte result is the digest named `sha256_digest` of the
/// string. The digest itself is not stated.
#[verifier::external_body]
fn sha256_of(raw: &str) -> (res: Vec<u8>)
    ensures
        res@ == sha256_digest(raw@),
        res@.len() == 32,
{
    let mut hasher = Sha256::new();
    hasher.update(raw);
    hasher.finalize().to_vec()
}

/// The lower-case hexadecimal digit of `d` (`0 <= d < 16`).
pub open spec fn hex_digit(d: u8) -> char {
    if d < 10 {
        ((48 + d) as u8) as char
    } else {
        ((87 + d) as u8) as char
    }
}

/// Two lower-case hexadecimal digits per byte, high nibble first, as
/// `format!("{:x}", ..)` prints a digest.
pub open spec fn hex_lower(bytes: Seq<u8>) -> Seq<char>
    decreases bytes.len(),
{
    if bytes.len() == 0 {
        Seq::<char>::empty()
    } else {
        hex_lower(bytes.drop_last()) + seq![hex_digit(bytes.last() / 16), hex_digit(bytes.last() % 16)]
    }
}

fn hex_digit_exec(d: u8) -> (c: char)
    requires
        d < 16,
    ensures
        c == hex_digit(d),
{
    if d < 10 {
        (48 + d) as char
    } else {
        (87 + d) as char
    }
}

/// The lower-case hexadecimal form of `bytes`.
pub fn to_hex_lower(bytes: &Vec<u8>) -> (res: String)
    ensures
        res@ == hex_lower(bytes@),
{
    let mut res = String::new();
    let n = bytes.len();
    let mut i: usize = 0;
    assert(bytes@.take(0) =~= Seq::<u8>::empty());
    while i < n
        invariant
            n == bytes@.len(),
            i <= n,
            res@ == hex_lower(bytes@.take(i as int)),
        decreases n - i,
    {
        let b = bytes[i];
        push_char(&mut res, hex_digit_exec(b / 16));
        push_char(&mut res, hex_digit_exec(b % 16));
        assert(bytes@.take(i + 1).drop_last() =~= bytes@.take(i as int));
        assert(res@ =~= hex_lower(bytes@.take(i + 1)));
        i = i + 1;
    }
    assert(bytes@.take(n as int) =~= bytes@);
    res
}

/// The hex-encoded SHA-256 digest of `raw`: the form in which the server
/// keeps its password.
pub fn encrypt(raw: &str) -> (res: String)
    ensures
        res@ == hex_lower(sha256_digest(raw@)),
        res@.len() == 64,
{
    let digest = sha256_of(raw);
    let res = to_hex_lower(&digest);
    proof {
        lemma_hex_lower_len(digest@);
    }
    res
}

/// Hex encoding doubles the length.
pub proof fn lemma_hex_lower_len(bytes: Seq<u8>)
    ensures
        hex_lower(bytes).len() == 2 * bytes.len(),
    decreases bytes.len(),
{
    if bytes.len() > 0 {
        lemma_hex_lower_len(bytes.drop_last());
    }
}

/// The (name, value) pair that one `;`-separated piece of a cookie header
/// denotes: the piece must hold exactly one `=`.
pub open spec fn cookie_pair(piece: Seq<char>) -> Option<(Seq<char>, Seq<char>)> {
    let kv = split_char(piece, '=');
    if kv.len() == 2 {
        Some((kv[0], kv[1]))
    } else {
        None
    }
}

/// The cookies that the pieces denote; a later cookie of the same name
/// replaces an earlier one.
pub open spec fn cookie_map(pieces: Seq<Seq<char>>) -> Map<Seq<char>, Seq<char>>
    decreases pieces.len(),
{
    if pieces.len() == 0 {
        Map::empty()
    } else {
        let m = cookie_map(pieces.drop_last());
        match cookie_pair(pieces.last()) {
            Some(kv) => m.insert(kv.0, kv.1),
            None => m,
        }
    }
}

/// The cookies of a `Cookie` header value.
pub open spec fn parsed_cookies(raw: Seq<char>) -> Map<Seq<char>, Seq<char>> {
    cookie_map(split_char(raw, ';'))
}

/// Parses a `Cookie` header: the value is split at each `;` and every piece
/// that splits at `=` into exactly two parts gives a cookie (name, value),
/// spaces kept; other pieces are ignored, and a later cookie of the same
/// name wins.
pub fn parse_cookies(raw: &str) -> (res: StringMap<String>)
    ensures
        text_map(&res) == parsed_cookies(raw@),
{
    let cs = chars_of(raw);
    let pieces = split_chars(&cs, ';');
    let ghost pv = views_of(pieces@);
    let mut res: StringMap<String> = StringMap::new();
    let n = pieces.len();
    let mut i: usize = 0;
    assert(text_map(&res) =~= cookie_map(pv.take(0)));
    while i < n
        invariant
            n == pieces@.len(),
            pv == views_of(pieces@),
            i <= n,
            text_map(&res) == cookie_map(pv.take(i as int)),
        decreases n - i,
    {
        let kv = split_chars(&pieces[i], '=');
        assert(pv.take(i + 1).drop_last() =~= pv.take(i as int));
        assert(pv.take(i + 1).last() == pieces@[i as int]@);
        if kv.len() == 2 {
            let name = string_from(&kv[0], 0, kv[0].len());
            let value = string_from(&kv[1], 0, kv[1].len());
            assert(kv@[0]@.subrange(0, kv@[0]@.len() as int) =~= kv@[0]@);
            assert(kv@[1]@.subrange(0, kv@[1]@.len() as int) =~= kv@[1]@);
            let ghost before = text_map(&res);
            res.insert(name, value);
            assert(text_map(&res) =~= before.insert(name@, value@));
        }
        i = i + 1;
    }
    assert(pv.take(n as int) =~= pv);
    res
}

/// The cookies of two runs of pieces: those of the second run override those
/// of the first.
pub proof fn lemma_cookie_map_concat(p: Seq<Seq<char>>, q: Seq<Seq<char>>)
    ensures
        cookie_map(p + q) == cookie_map(p).union_prefer_right(cookie_map(q)),
    decreases q.len(),
{
    if q.len() == 0 {
        assert(p + q =~= p);
        assert(cookie_map(p).union_prefer_right(cookie_map(q)) =~= cookie_map(p));
    } else {
        let init = q.drop_last();
        lemma_cookie_map_concat(p, init);
        assert((p + q).drop_last() =~= p + init);
        assert((p + q).last() == q.last());
        match cookie_pair(q.last()) {
            Some(kv) => {
                assert(cookie_map(p + q) =~= cookie_map(p).union_prefer_right(cookie_map(q)));
            },
            None => {},
        }
    }
}

/// Cookie parsing distributes over `;`: the cookies of `a;b` are those of
/// `a` overridden by those of `b`.
pub proof fn lemma_parsed_cookies_concat(a: Seq<char>, b: Seq<char>)
    ensures
        parsed_cookies(a + seq![';'] + b) == parsed_cookies(a).union_prefer_right(
            parsed_cookies(b),
        ),
{
    lemma_split_concat(a, b, ';');
    lemma_cookie_map_concat(split_char(a, ';'), split_char(b, ';'));
}

} // verus!

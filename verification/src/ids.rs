//! Identifiers, content hashes and timestamps.
//!
//! Ids are version 7 UUIDs, so they sort by creation time. Content hashes are
//! BLAKE3, shortened to sixteen hex characters where a person reads them.

use crate::lines::{pieces_hold_no_separator, split, split_on, splitting_undoes_joining};
use crate::text::{chars_of, join, joined, same, texts};
use vstd::prelude::*;
use vstd::string::*;

verus! {

/// The lowercase hex digit for a value below sixteen.
pub open spec fn hex_digit(d: int) -> char {
    if d < 10 {
        ('0' as int + d) as char
    } else {
        ('a' as int + (d - 10)) as char
    }
}

/// Whether `c` is a lowercase hex digit.
pub open spec fn is_hex(c: char) -> bool {
    '0' <= c <= '9' || 'a' <= c <= 'f'
}

/// Whether `s` is made of lowercase hex digits.
pub open spec fn all_hex(s: Seq<char>) -> bool {
    forall|i: int| 0 <= i < s.len() ==> is_hex(#[trigger] s[i])
}

/// Two lowercase hex digits per byte, high half first.
pub open spec fn hex_text(bytes: Seq<u8>) -> Seq<char> {
    Seq::new(
        2 * bytes.len(),
        |i: int|
            if i % 2 == 0 {
                hex_digit(bytes[i / 2] as int / 16)
            } else {
                hex_digit(bytes[i / 2] as int % 16)
            },
    )
}

/// The BLAKE3 digest of `input`: thirty-two bytes that depend on `input` alone.
pub uninterp spec fn blake3_digest(input: Seq<u8>) -> Seq<u8>;

/// Calls `blake3::hash` and takes the digest's bytes with `Hash::as_bytes`. The
/// contract says only that the digest is a function of the input.
#[verifier::external_body]
pub(crate) fn blake3_hash(input: &[u8]) -> (r: [u8; 32])
    ensures
        r@ == blake3_digest(input@),
{
    *blake3::hash(input).as_bytes()
}

/// Calls `blake3::Hash::to_hex`, which writes each byte as two lowercase hex digits.
#[verifier::external_body]
fn blake3_to_hex(digest: [u8; 32]) -> (r: String)
    ensures
        r@ == hex_text(digest@),
{
    blake3::Hash::from_bytes(digest).to_hex().to_string()
}

/// Calls `uuid::Uuid::now_v7` and takes its bytes. The value depends on the clock
/// and on chance; what always holds is the version and variant marking.
#[verifier::external_body]
fn uuid_now_v7() -> (r: [u8; 16])
    ensures
        r@[6] / 16 == 7,
        r@[8] / 64 == 2,
{
    uuid::Uuid::now_v7().into_bytes()
}

/// Calls `uuid::Uuid::simple` and renders it: the bytes in lowercase hex, nothing between.
#[verifier::external_body]
fn uuid_simple(bytes: [u8; 16]) -> (r: String)
    ensures
        r@ == hex_text(bytes@),
{
    uuid::Uuid::from_bytes(bytes).simple().to_string()
}

/// The five groups of a UUID joined by hyphens.
pub open spec fn hyphenated(hex: Seq<char>) -> Seq<char> {
    hex.subrange(0, 8) + seq!['-'] + hex.subrange(8, 12) + seq!['-'] + hex.subrange(12, 16) + seq![
        '-',
    ] + hex.subrange(16, 20) + seq!['-'] + hex.subrange(20, 32)
}

/// Renders a `uuid::Uuid` by its `Display`: lowercase hex in five hyphenated groups.
#[verifier::external_body]
fn uuid_hyphenated(bytes: [u8; 16]) -> (r: String)
    ensures
        r@ == hyphenated(hex_text(bytes@)),
{
    uuid::Uuid::from_bytes(bytes).to_string()
}

/// A readable prefix, an underscore and a unique part.
pub fn id_with(prefix: &str, unique: &str) -> (r: String)
    ensures
        r@ == prefix@.push('_') + unique@,
{
    let mut out = String::from_str(prefix);
    out.push('_');
    out.append(unique);
    out
}

/// A fresh time-ordered id with a readable prefix, such as `ep_018f...`.
pub fn new_id(prefix: &str) -> (r: String)
    ensures
        r@.len() == prefix@.len() + 33,
        r@.take(prefix@.len() as int) == prefix@,
        r@[prefix@.len() as int] == '_',
        exists|bytes: Seq<u8>|
            bytes.len() == 16 && bytes[6] / 16 == 7 && bytes[8] / 64 == 2 && r@.skip(
                prefix@.len() as int + 1,
            ) == #[trigger] hex_text(bytes),
{
    let bytes = uuid_now_v7();
    let unique = uuid_simple(bytes);
    let out = id_with(prefix, unique.as_str());
    assert(out@.skip(prefix@.len() as int + 1) =~= hex_text(bytes@));
    assert(out@.take(prefix@.len() as int) =~= prefix@);
    out
}

/// A raw UUID, for fields that carry no prefix.
pub fn uuid_v7() -> (r: String)
    ensures
        exists|bytes: Seq<u8>|
            bytes.len() == 16 && bytes[6] / 16 == 7 && bytes[8] / 64 == 2 && r@ == hyphenated(
                #[trigger] hex_text(bytes),
            ),
{
    let bytes = uuid_now_v7();
    let out = uuid_hyphenated(bytes);
    assert(out@ == hyphenated(hex_text(bytes@)));
    out
}

/// The first sixteen hex characters of a digest.
pub fn short_hex(digest: [u8; 32]) -> (r: String)
    ensures
        r@ == hex_text(digest@).take(16),
        r@.len() == 16,
        all_hex(r@),
{
    let full = blake3_to_hex(digest);
    let cs = chars_of(full.as_str());
    let out = crate::text::string_of(cs.as_slice(), 0, 16);
    assert(out@ =~= hex_text(digest@).take(16));
    assert forall|i: int| 0 <= i < 16 implies is_hex(#[trigger] out@[i]) by {
        let b = digest@[i / 2] as int;
        assert(out@[i] == hex_text(digest@)[i]);
        assert(0 <= b / 16 < 16 && 0 <= b % 16 < 16);
    }
    out
}

/// The shortened hash of `bytes`.
pub open spec fn short_hash_of(bytes: Seq<u8>) -> Seq<char> {
    hex_text(blake3_digest(bytes)).take(16)
}

/// The shortened hash of a text's UTF-8 bytes.
pub open spec fn short_hash_of_text(s: Seq<char>) -> Seq<char> {
    short_hash_of(vstd::utf8::encode_utf8(s))
}

/// BLAKE3 of `bytes`, shortened to sixteen hex characters.
pub fn short_hash(bytes: &[u8]) -> (r: String)
    ensures
        r@ == short_hash_of(bytes@),
        r@.len() == 16,
        all_hex(r@),
{
    short_hex(blake3_hash(bytes))
}

/// BLAKE3 of a string, shortened to sixteen hex characters.
pub fn short_hash_str(s: &str) -> (r: String)
    ensures
        r@ == short_hash_of_text(s@),
        r@.len() == 16,
        all_hex(r@),
{
    short_hash(s.as_bytes())
}

/// The whole digest of `bytes` in hex, for content addressing.
pub fn content_hash(bytes: &[u8]) -> (r: String)
    ensures
        r@ == hex_text(blake3_digest(bytes@)),
        r@.len() == 64,
{
    blake3_to_hex(blake3_hash(bytes))
}

/// The digest of `bytes` itself.
pub fn digest(bytes: &[u8]) -> (r: [u8; 32])
    ensures
        r@ == blake3_digest(bytes@),
{
    blake3_hash(bytes)
}

/// The current time in UTC as RFC 3339 with milliseconds, ending in `Z`.
///
/// Calls `chrono::Utc::now` and `DateTime::to_rfc3339_opts`. The text depends on
/// the clock; what always holds is its least length and the zone it ends in.
#[verifier::external_body]
pub fn now_rfc3339() -> (r: String)
    ensures
        r@.len() >= 24,
        r@.last() == 'Z',
{
    chrono::Utc::now().to_rfc3339_opts(chrono::SecondsFormat::Millis, true)
}

/// The instant an RFC 3339 text denotes: whole seconds since 1970 in UTC and the
/// nanoseconds on top. `None` where the text is no such timestamp.
pub uninterp spec fn rfc3339_instant(s: Seq<char>) -> Option<(i64, u32)>;

/// Calls `chrono::DateTime::parse_from_rfc3339` and reads the instant with
/// `timestamp` and `timestamp_subsec_nanos`. The result depends on the text alone.
#[verifier::external_body]
fn chrono_parse_rfc3339(s: &str) -> (r: Option<(i64, u32)>)
    ensures
        r == rfc3339_instant(s@),
{
    match chrono::DateTime::parse_from_rfc3339(s) {
        Ok(d) => Some((d.timestamp(), d.timestamp_subsec_nanos())),
        Err(_) => None,
    }
}

/// A point in time: seconds since 1970 in UTC, and nanoseconds on top.
#[derive(Debug, Clone, Copy, PartialEq, Eq, Structural)]
pub struct Instant {
    pub secs: i64,
    pub nanos: u32,
}

impl Instant {
    /// Whether this instant lies after `other`.
    pub open spec fn is_after(self, other: Instant) -> bool {
        self.secs > other.secs || (self.secs == other.secs && self.nanos > other.nanos)
    }

    /// Whether this instant lies after `other`.
    pub fn after(self, other: Instant) -> (r: bool)
        ensures
            r == self.is_after(other),
    {
        self.secs > other.secs || (self.secs == other.secs && self.nanos > other.nanos)
    }
}

/// Reads a stored RFC 3339 timestamp.
pub fn parse_rfc3339(s: &str) -> (r: Option<Instant>)
    ensures
        match rfc3339_instant(s@) {
            Some((secs, nanos)) => r == Some((Instant { secs, nanos })),
            None => r is None,
        },
{
    match chrono_parse_rfc3339(s) {
        Some((secs, nanos)) => Some(Instant { secs, nanos }),
        None => None,
    }
}

/// The named parts among the first `n` pieces of a path: neither empty nor a dot.
pub open spec fn named_parts(pieces: Seq<Seq<char>>, n: nat) -> Seq<Seq<char>>
    decreases n,
{
    if n == 0 {
        Seq::empty()
    } else {
        let so_far = named_parts(pieces, (n - 1) as nat);
        let piece = pieces[n - 1];
        if piece.len() == 0 || piece == seq!['.'] {
            so_far
        } else {
            so_far.push(piece)
        }
    }
}

/// A path relative to a repository's root: its named parts with a slash between.
pub open spec fn relative_path(path: Seq<char>) -> Seq<char> {
    let pieces = split_on(path, '/');
    joined(named_parts(pieces, pieces.len()), "/"@)
}

/// Normalises a slash-separated path relative to a repository's root. A leading slash, doubled
/// slashes and dots disappear; a step to the parent stays.
pub fn normalize_rel_path(path: &str) -> (r: String)
    ensures
        r@ == relative_path(path@),
{
    let pieces = split(path, '/');
    let ghost all = texts(pieces@);
    let mut kept: Vec<String> = Vec::new();
    assert(texts(kept@) =~= Seq::empty());
    for i in 0..pieces.len()
        invariant
            all == texts(pieces@),
            texts(kept@) == named_parts(all, i as nat),
    {
        let ghost before = texts(kept@);
        let piece = pieces[i].as_str();
        proof {
            reveal_strlit(".");
            assert("."@ =~= seq!['.']);
        }
        if !piece.is_empty() && !same(piece, ".") {
            let copy = piece.to_owned();
            kept.push(copy);
            assert(texts(kept@) =~= before.push(copy@));
        }
    }
    join(&kept, "/")
}

/// Normalising a normalised path changes nothing.
pub proof fn normalizing_twice_changes_nothing(path: Seq<char>)
    ensures
        relative_path(relative_path(path)) == relative_path(path),
{
    let pieces = split_on(path, '/');
    let parts = named_parts(pieces, pieces.len());
    reveal_strlit("/");
    assert("/"@ =~= seq!['/']);
    pieces_hold_no_separator(path, '/');
    named_parts_are_pieces(pieces, pieces.len());
    if parts.len() == 0 {
        let again = split_on(Seq::empty(), '/');
        assert(joined(parts, "/"@) =~= Seq::empty());
        assert(again =~= seq![Seq::empty()]);
        assert(named_parts(again, 0) =~= Seq::empty());
        assert(named_parts(again, 1) =~= Seq::empty());
    } else {
        splitting_undoes_joining(parts, '/');
        all_named(parts, parts.len());
        assert(parts.take(parts.len() as int) =~= parts);
    }
}

/// The named parts are pieces that are neither empty nor a dot.
proof fn named_parts_are_pieces(pieces: Seq<Seq<char>>, n: nat)
    requires
        n <= pieces.len(),
        forall|i: int| 0 <= i < pieces.len() ==> !(#[trigger] pieces[i]).contains('/'),
    ensures
        forall|i: int|
            0 <= i < named_parts(pieces, n).len() ==> (#[trigger] named_parts(pieces, n)[i]).len()
                > 0 && named_parts(pieces, n)[i] != seq!['.'] && !named_parts(
                pieces,
                n,
            )[i].contains('/'),
    decreases n,
{
    if n > 0 {
        named_parts_are_pieces(pieces, (n - 1) as nat);
        assert(!pieces[n - 1].contains('/'));
        let before = named_parts(pieces, (n - 1) as nat);
        let parts = named_parts(pieces, n);
        assert forall|i: int| 0 <= i < parts.len() implies (#[trigger] parts[i]).len() > 0
            && parts[i] != seq!['.'] && !parts[i].contains('/') by {
            if i < before.len() {
                assert(parts[i] == before[i]);
            }
        }
    }
}

proof fn all_named(parts: Seq<Seq<char>>, n: nat)
    requires
        n <= parts.len(),
        forall|i: int|
            0 <= i < parts.len() ==> (#[trigger] parts[i]).len() > 0 && parts[i] != seq!['.'],
    ensures
        named_parts(parts, n) == parts.take(n as int),
    decreases n,
{
    if n > 0 {
        all_named(parts, (n - 1) as nat);
        assert(parts[n - 1].len() > 0);
        assert(parts.take(n - 1).push(parts[n - 1]) =~= parts.take(n as int));
    } else {
        assert(parts.take(0) =~= Seq::empty());
    }
}

/// Splitting at a separator between two texts gives the pieces of the first and then those of
/// the second.
proof fn splitting_falls_apart(a: Seq<char>, b: Seq<char>, sep: char)
    ensures
        split_on(a.push(sep) + b, sep) == split_on(a, sep) + split_on(b, sep),
    decreases b.len(),
{
    let whole = a.push(sep) + b;
    pieces_hold_no_separator(a, sep);
    if b.len() == 0 {
        assert(whole =~= a.push(sep));
        assert(whole.drop_last() =~= a);
        assert(split_on(whole, sep) =~= split_on(a, sep) + split_on(b, sep));
    } else {
        let rest = b.drop_last();
        splitting_falls_apart(a, rest, sep);
        pieces_hold_no_separator(rest, sep);
        assert(whole.drop_last() =~= a.push(sep) + rest);
        assert(whole.last() == b.last());
        assert(split_on(whole, sep) =~= split_on(a, sep) + split_on(b, sep));
    }
}

proof fn named_parts_of_both(a: Seq<Seq<char>>, b: Seq<Seq<char>>, n: nat)
    requires
        n <= b.len(),
    ensures
        named_parts(a + b, a.len() + n) == named_parts(a, a.len()) + named_parts(b, n),
    decreases n,
{
    if n == 0 {
        named_parts_agree(a, a + b, a.len());
        assert(named_parts(a, a.len()) + named_parts(b, 0) =~= named_parts(a, a.len()));
    } else {
        named_parts_of_both(a, b, (n - 1) as nat);
        assert((a + b)[a.len() + n - 1] == b[n - 1]);
        assert(named_parts(a + b, a.len() + n) =~= named_parts(a, a.len()) + named_parts(b, n));
    }
}

proof fn named_parts_agree(a: Seq<Seq<char>>, b: Seq<Seq<char>>, n: nat)
    requires
        n <= a.len() <= b.len(),
        forall|i: int| 0 <= i < a.len() ==> a[i] == b[i],
    ensures
        named_parts(a, n) == named_parts(b, n),
    decreases n,
{
    if n > 0 {
        named_parts_agree(a, b, (n - 1) as nat);
        assert(a[n - 1] == b[n - 1]);
    }
}

proof fn joining_both(a: Seq<Seq<char>>, b: Seq<Seq<char>>, sep: Seq<char>)
    requires
        a.len() > 0,
        b.len() > 0,
    ensures
        joined(a + b, sep) == joined(a, sep) + sep + joined(b, sep),
    decreases b.len(),
{
    let rest = b.drop_last();
    assert((a + b).drop_last() =~= a + rest);
    assert((a + b).last() == b.last());
    if rest.len() == 0 {
        assert(a + rest =~= a);
        assert(joined(b, sep) == b[0]);
    } else {
        joining_both(a, rest, sep);
        assert(joined(a + b, sep) =~= joined(a, sep) + sep + joined(b, sep));
    }
}

proof fn joined_names_are_some(parts: Seq<Seq<char>>)
    requires
        parts.len() > 0,
        forall|i: int| 0 <= i < parts.len() ==> (#[trigger] parts[i]).len() > 0,
    ensures
        joined(parts, "/"@).len() > 0,
{
    assert(parts.last() == parts[parts.len() - 1]);
}

/// A path is normalised part by part: of two paths with a slash between, what is left is what
/// is left of each, with a slash between where something is left of both.
pub proof fn paths_are_normalised_part_by_part(
    first: &str,
    second: &str,
    whole: &str,
    a: String,
    b: String,
    r: String,
)
    requires
        call_ensures(normalize_rel_path, (first,), a),
        call_ensures(normalize_rel_path, (second,), b),
        call_ensures(normalize_rel_path, (whole,), r),
        whole@ == first@.push('/') + second@,
    ensures
        a@.len() == 0 ==> r@ == b@,
        b@.len() == 0 ==> r@ == a@,
        a@.len() > 0 && b@.len() > 0 ==> r@ == a@.push('/') + b@,
{
    let p = split_on(first@, '/');
    let q = split_on(second@, '/');
    splitting_falls_apart(first@, second@, '/');
    named_parts_of_both(p, q, q.len());
    pieces_hold_no_separator(first@, '/');
    pieces_hold_no_separator(second@, '/');
    named_parts_are_pieces(p, p.len());
    named_parts_are_pieces(q, q.len());
    let x = named_parts(p, p.len());
    let y = named_parts(q, q.len());
    reveal_strlit("/");
    assert("/"@ =~= seq!['/']);
    if x.len() > 0 {
        joined_names_are_some(x);
    }
    if y.len() > 0 {
        joined_names_are_some(y);
    }
    if x.len() == 0 {
        assert(x + y =~= y);
    } else if y.len() == 0 {
        assert(x + y =~= x);
    } else {
        joining_both(x, y, "/"@);
        assert(r@ =~= a@.push('/') + b@);
    }
}

/// A single name stays as it is, a step to the parent too; a single dot disappears.
pub proof fn a_single_name_stays(path: &str, r: String)
    requires
        call_ensures(normalize_rel_path, (path,), r),
        !path@.contains('/'),
    ensures
        path@ != seq!['.'] ==> r@ == path@,
        path@ == seq!['.'] ==> r@.len() == 0,
{
    let whole = seq![path@];
    assert forall|i: int| 0 <= i < whole.len() implies !(#[trigger] whole[i]).contains('/') by {}
    splitting_undoes_joining(whole, '/');
    assert(joined(whole, seq!['/']) == path@);
    assert(named_parts(whole, 0) =~= Seq::empty());
    if path@.len() > 0 && path@ != seq!['.'] {
        assert(named_parts(whole, 1) =~= whole);
    } else {
        assert(named_parts(whole, 1) =~= Seq::empty());
        assert(path@ != seq!['.'] ==> r@ =~= path@);
    }
}

/// Of two different instants one lies after the other, none lies after itself, and a later
/// second decides over the fraction.
pub proof fn instants_are_in_order(a: Instant, b: Instant, x: bool, y: bool)
    requires
        call_ensures(Instant::after, (a, b), x),
        call_ensures(Instant::after, (b, a), y),
    ensures
        a != b ==> x != y,
        a == b ==> !x && !y,
        a.secs > b.secs ==> x,
        a.secs == b.secs && a.nanos > b.nanos ==> x,
{
}

} // verus!

//! Character-level text handling with exact contracts.
//!
//! Every string is viewed as the sequence of its characters. The functions here
//! are the vocabulary that the rest of the crate states its contracts in: decimal
//! renderings, trimming, splitting, searching.

use vstd::prelude::*;
use vstd::string::*;

verus! {

/// `String::push` appends one character to the end of the string.
pub assume_specification[ String::push ](s: &mut String, c: char)
    ensures
        final(s)@ == old(s)@.push(c),
;

/// `str`'s `PartialEq::eq` holds exactly when the two strings have the same characters.
pub assume_specification[ <str as PartialEq<str>>::eq ](a: &str, b: &str) -> (r: bool)
    ensures
        r == (a@ == b@),
;

/// The characters of `s`, in order.
pub fn chars_of(s: &str) -> (r: Vec<char>)
    ensures
        r@ == s@,
{
    let mut out: Vec<char> = Vec::new();
    for c in it: s.chars()
        invariant
            it.seq() == s@,
            out@ == s@.take(it.index() as int),
    {
        out.push(c);
    }
    out
}

/// Whether two strings hold the same characters.
pub fn same(a: &str, b: &str) -> (r: bool)
    ensures
        r == (a@ == b@),
{
    a.eq(b)
}

/// The characters with Unicode's White_Space property.
pub open spec fn is_white(c: char) -> bool {
    ||| '\u{9}' <= c <= '\u{d}'
    ||| c == ' '
    ||| c == '\u{85}'
    ||| c == '\u{a0}'
    ||| c == '\u{1680}'
    ||| '\u{2000}' <= c <= '\u{200a}'
    ||| c == '\u{2028}'
    ||| c == '\u{2029}'
    ||| c == '\u{202f}'
    ||| c == '\u{205f}'
    ||| c == '\u{3000}'
}

/// Whether `c` is white space.
pub fn white(c: char) -> (r: bool)
    ensures
        r == is_white(c),
{
    ('\u{9}' <= c && c <= '\u{d}') || c == ' ' || c == '\u{85}' || c == '\u{a0}' || c == '\u{1680}'
        || ('\u{2000}' <= c && c <= '\u{200a}') || c == '\u{2028}' || c == '\u{2029}' || c
        == '\u{202f}' || c == '\u{205f}' || c == '\u{3000}'
}

/// Whether `s` holds nothing but white space.
pub open spec fn is_blank(s: Seq<char>) -> bool {
    forall|i: int| 0 <= i < s.len() ==> is_white(#[trigger] s[i])
}

/// Whether `s` holds nothing but white space.
pub fn blank(s: &str) -> (r: bool)
    ensures
        r == is_blank(s@),
{
    let cs = chars_of(s);
    for i in 0..cs.len()
        invariant
            cs@ == s@,
            forall|j: int| 0 <= j < i ==> is_white(#[trigger] s@[j]),
    {
        if !white(cs[i]) {
            assert(!is_white(s@[i as int]));
            return false;
        }
    }
    true
}

/// `s` without its leading white space.
pub open spec fn trim_front(s: Seq<char>) -> Seq<char>
    decreases s.len(),
{
    if s.len() > 0 && is_white(s[0]) {
        trim_front(s.drop_first())
    } else {
        s
    }
}

/// `s` without its trailing white space.
pub open spec fn trim_back(s: Seq<char>) -> Seq<char>
    decreases s.len(),
{
    if s.len() > 0 && is_white(s.last()) {
        trim_back(s.drop_last())
    } else {
        s
    }
}

/// `s` without leading and trailing white space.
pub open spec fn trimmed(s: Seq<char>) -> Seq<char> {
    trim_back(trim_front(s))
}

/// `s` without the trailing run of `c`.
pub open spec fn strip_back(s: Seq<char>, c: char) -> Seq<char>
    decreases s.len(),
{
    if s.len() > 0 && s.last() == c {
        strip_back(s.drop_last(), c)
    } else {
        s
    }
}

/// The characters of `cs` from `from` up to but excluding `to`.
pub fn string_of(cs: &[char], from: usize, to: usize) -> (r: String)
    requires
        from <= to <= cs@.len(),
    ensures
        r@ == cs@.subrange(from as int, to as int),
{
    let mut out = String::new();
    let mut i: usize = from;
    while i < to
        invariant
            from <= i <= to <= cs@.len(),
            out@ == cs@.subrange(from as int, i as int),
        decreases to - i,
    {
        out.push(cs[i]);
        i = i + 1;
    }
    out
}

/// Removes leading and trailing white space.
pub fn trim(s: &str) -> (r: String)
    ensures
        r@ == trimmed(s@),
{
    let cs = chars_of(s);
    let mut a: usize = 0;
    assert(s@.skip(0) =~= s@);
    while a < cs.len() && white(cs[a])
        invariant
            cs@ == s@,
            a <= cs@.len(),
            trim_front(s@) == trim_front(s@.skip(a as int)),
        decreases cs.len() - a,
    {
        assert(s@.skip(a as int).drop_first() =~= s@.skip(a + 1));
        a = a + 1;
    }
    assert(trim_front(s@) == s@.skip(a as int));
    let mut b: usize = cs.len();
    assert(s@.subrange(a as int, b as int) =~= s@.skip(a as int));
    while b > a && white(cs[b - 1])
        invariant
            cs@ == s@,
            a <= b <= cs@.len(),
            trim_back(s@.skip(a as int)) == trim_back(s@.subrange(a as int, b as int)),
        decreases b,
    {
        assert(s@.subrange(a as int, b as int).drop_last() =~= s@.subrange(a as int, b - 1));
        b = b - 1;
    }
    string_of(cs.as_slice(), a, b)
}

/// Removes the trailing run of `c`.
pub fn trim_end_char(s: &str, c: char) -> (r: String)
    ensures
        r@ == strip_back(s@, c),
{
    let cs = chars_of(s);
    let mut b: usize = cs.len();
    assert(s@.take(b as int) =~= s@);
    while b > 0 && cs[b - 1] == c
        invariant
            cs@ == s@,
            b <= cs@.len(),
            strip_back(s@, c) == strip_back(s@.take(b as int), c),
        decreases b,
    {
        assert(s@.take(b as int).drop_last() =~= s@.take(b - 1));
        b = b - 1;
    }
    string_of(cs.as_slice(), 0, b)
}

/// A string is blank exactly when nothing is left of it after trimming.
pub proof fn blank_trims_to_nothing(s: Seq<char>)
    ensures
        is_blank(s) <==> trimmed(s).len() == 0,
    decreases s.len(),
{
    if s.len() > 0 && is_white(s[0]) {
        let t = s.drop_first();
        blank_trims_to_nothing(t);
        assert forall|i: int| is_blank(t) && 0 <= i < s.len() implies is_white(#[trigger] s[i]) by {
            if i > 0 {
                assert(s[i] == t[i - 1]);
            }
        }
        assert forall|i: int| is_blank(s) && 0 <= i < t.len() implies is_white(#[trigger] t[i]) by {
            assert(t[i] == s[i + 1]);
        }
    } else if s.len() > 0 {
        trim_back_keeps_front(s);
    }
}

/// Trimming the back of a string that starts with a visible character leaves that character.
proof fn trim_back_keeps_front(s: Seq<char>)
    requires
        s.len() > 0,
        !is_white(s[0]),
    ensures
        trim_back(s).len() > 0,
    decreases s.len(),
{
    if is_white(s.last()) {
        trim_back_keeps_front(s.drop_last());
    }
}

/// Where `needle` first occurs as a character in `s`, if it does.
pub open spec fn first_at(s: Seq<char>, needle: char) -> Option<int>
    decreases s.len(),
{
    if s.len() == 0 {
        None
    } else if s[0] == needle {
        Some(0)
    } else {
        match first_at(s.drop_first(), needle) {
            Some(i) => Some(i + 1),
            None => None,
        }
    }
}

/// The first occurrence is an occurrence, and nothing before it is one.
pub proof fn first_at_is_first(s: Seq<char>, needle: char)
    ensures
        match first_at(s, needle) {
            Some(i) => {
                &&& 0 <= i < s.len()
                &&& s[i] == needle
                &&& forall|j: int| 0 <= j < i ==> s[j] != needle
            },
            None => forall|j: int| 0 <= j < s.len() ==> s[j] != needle,
        },
    decreases s.len(),
{
    if s.len() > 0 && s[0] != needle {
        let t = s.drop_first();
        first_at_is_first(t, needle);
        assert forall|j: int| 0 < j < s.len() implies s[j] == t[j - 1] by {}
    }
}

/// The index of the first occurrence of `needle`, if there is one.
pub fn find_char(cs: &[char], needle: char) -> (r: Option<usize>)
    ensures
        match r {
            Some(i) => first_at(cs@, needle) == Some(i as int) && i < cs@.len(),
            None => first_at(cs@, needle) is None,
        },
{
    proof {
        first_at_is_first(cs@, needle);
    }
    let mut i: usize = 0;
    while i < cs.len()
        invariant
            i <= cs@.len(),
            forall|j: int| 0 <= j < i ==> cs@[j] != needle,
            match first_at(cs@, needle) {
                Some(k) => 0 <= k < cs@.len() && cs@[k] == needle && forall|j: int|
                    0 <= j < k ==> cs@[j] != needle,
                None => forall|j: int| 0 <= j < cs@.len() ==> cs@[j] != needle,
            },
        decreases cs.len() - i,
    {
        if cs[i] == needle {
            return Some(i);
        }
        i = i + 1;
    }
    None
}

/// Splits at the first `sep`: what precedes it and what follows it.
pub fn split_once(s: &str, sep: char) -> (r: Option<(String, String)>)
    ensures
        match first_at(s@, sep) {
            Some(i) => r matches Some((a, b)) && a@ == s@.take(i) && b@ == s@.skip(i + 1),
            None => r is None,
        },
{
    let cs = chars_of(s);
    proof {
        first_at_is_first(s@, sep);
    }
    match find_char(cs.as_slice(), sep) {
        Some(i) => {
            let n: usize = cs.len();
            let a = string_of(cs.as_slice(), 0, i);
            let b = string_of(cs.as_slice(), i + 1, n);
            assert(a@ =~= s@.take(i as int));
            assert(b@ =~= s@.skip(i as int + 1));
            Some((a, b))
        },
        None => None,
    }
}

/// The first `n` characters, or all of them where there are fewer.
pub open spec fn first_chars(s: Seq<char>, n: nat) -> Seq<char> {
    if s.len() <= n {
        s
    } else {
        s.take(n as int)
    }
}

/// The first `n` characters, or all of them where there are fewer.
pub fn take_chars(s: &str, n: usize) -> (r: String)
    ensures
        r@ == first_chars(s@, n as nat),
{
    let cs = chars_of(s);
    if cs.len() <= n {
        let out = string_of(cs.as_slice(), 0, cs.len());
        assert(out@ =~= s@);
        out
    } else {
        string_of(cs.as_slice(), 0, n)
    }
}

/// How many characters a string holds.
pub fn char_count(s: &str) -> (r: usize)
    ensures
        r == s@.len(),
{
    chars_of(s).len()
}

/// A number that cannot be negative: zero for a negative one.
pub open spec fn at_least_zero(n: int) -> nat {
    if n < 0 {
        0
    } else if n > usize::MAX {
        usize::MAX as nat
    } else {
        n as nat
    }
}

/// Zero for a negative number, else the number.
pub fn nonnegative(n: i64) -> (r: usize)
    ensures
        r == at_least_zero(n as int),
{
    if n < 0 {
        0
    } else if n as u64 > usize::MAX as u64 {
        usize::MAX
    } else {
        n as usize
    }
}

/// The texts of a list of strings.
pub open spec fn texts(v: Seq<String>) -> Seq<Seq<char>> {
    Seq::new(v.len(), |i: int| v[i]@)
}

/// The parts in order with `sep` between neighbours.
pub open spec fn joined(parts: Seq<Seq<char>>, sep: Seq<char>) -> Seq<char>
    decreases parts.len(),
{
    if parts.len() == 0 {
        Seq::empty()
    } else if parts.len() == 1 {
        parts[0]
    } else {
        joined(parts.drop_last(), sep) + sep + parts.last()
    }
}

/// Joins the parts with `sep` between neighbours.
pub fn join(parts: &Vec<String>, sep: &str) -> (r: String)
    ensures
        r@ == joined(texts(parts@), sep@),
{
    let mut out = String::new();
    let ghost all = texts(parts@);
    for i in 0..parts.len()
        invariant
            all == texts(parts@),
            out@ == joined(all.take(i as int), sep@),
    {
        proof {
            let next = all.take(i as int + 1);
            assert(next.drop_last() =~= all.take(i as int));
            assert(next.last() == parts@[i as int]@);
        }
        if i > 0 {
            out.append(sep);
        }
        out.append(parts[i].as_str());
        assert(out@ =~= joined(all.take(i as int + 1), sep@));
    }
    assert(all.take(parts.len() as int) =~= all);
    out
}

/// The ASCII digit for a value below ten.
pub open spec fn digit_char(d: nat) -> char {
    (('0' as int) + d) as char
}

/// The decimal rendering of a natural number, without leading zeros.
pub open spec fn digits(n: nat) -> Seq<char>
    decreases n,
{
    if n < 10 {
        seq![digit_char(n)]
    } else {
        digits(n / 10).push(digit_char(n % 10))
    }
}

/// The decimal rendering of an integer, with a leading minus sign when negative.
pub open spec fn signed_digits(n: int) -> Seq<char> {
    if n < 0 {
        seq!['-'] + digits((-n) as nat)
    } else {
        digits(n as nat)
    }
}

/// Appends the decimal rendering of `n`.
pub fn push_nat(out: &mut String, n: u64)
    ensures
        final(out)@ == old(out)@ + digits(n as nat),
    decreases n,
{
    if n >= 10 {
        push_nat(out, n / 10);
    }
    let d: u8 = (n % 10) as u8;
    let c: char = (48u8 + d) as char;
    out.push(c);
}

/// Appends the decimal rendering of `n`.
pub fn push_int(out: &mut String, n: i64)
    ensures
        final(out)@ == old(out)@ + signed_digits(n as int),
{
    if n < 0 {
        out.push('-');
        let m: u64 = if n == i64::MIN {
            0x8000_0000_0000_0000u64
        } else {
            (-n) as u64
        };
        push_nat(out, m);
    } else {
        push_nat(out, n as u64);
    }
}

/// How many bytes a text takes in UTF-8.
pub open spec fn bytes_of(s: Seq<char>) -> nat {
    vstd::utf8::encode_utf8(s).len()
}

/// How many bytes a character takes in UTF-8.
pub open spec fn width_of(c: char) -> nat {
    if c as u32 <= 0x7f {
        1
    } else if c as u32 <= 0x7ff {
        2
    } else if c as u32 <= 0xffff {
        3
    } else {
        4
    }
}

/// How many bytes a character takes in UTF-8.
pub fn char_width(c: char) -> (r: usize)
    ensures
        r == width_of(c),
{
    let v: u32 = c as u32;
    if v <= 0x7f {
        1
    } else if v <= 0x7ff {
        2
    } else if v <= 0xffff {
        3
    } else {
        4
    }
}

/// How many bytes a string takes in UTF-8.
pub fn byte_count(s: &str) -> (r: usize)
    ensures
        r == bytes_of(s@),
{
    s.as_bytes().len()
}

/// The bytes of a text are those of its first character and those of the rest.
pub proof fn bytes_of_first(s: Seq<char>)
    requires
        s.len() > 0,
    ensures
        bytes_of(s) == width_of(s[0]) + bytes_of(s.drop_first()),
{
    vstd::utf8::char_is_scalar(s[0]);
    assert(vstd::utf8::encode_utf8(s) == vstd::utf8::encode_scalar(s[0] as u32)
        + vstd::utf8::encode_utf8(s.drop_first()));
}

/// The bytes of two texts in a row are the bytes of both.
pub proof fn bytes_add_up(a: Seq<char>, b: Seq<char>)
    ensures
        bytes_of(a + b) == bytes_of(a) + bytes_of(b),
    decreases a.len(),
{
    if a.len() == 0 {
        assert(a + b =~= b);
        assert(bytes_of(a) == 0);
    } else {
        bytes_of_first(a);
        bytes_of_first(a + b);
        assert((a + b).drop_first() =~= a.drop_first() + b);
        bytes_add_up(a.drop_first(), b);
    }
}

/// A text has no more characters than bytes.
pub proof fn no_more_characters_than_bytes(s: Seq<char>)
    ensures
        s.len() <= bytes_of(s),
    decreases s.len(),
{
    if s.len() > 0 {
        bytes_of_first(s);
        no_more_characters_than_bytes(s.drop_first());
    }
}

/// The longest run of leading characters that takes at most `limit` bytes.
pub open spec fn within_bytes(s: Seq<char>, limit: int) -> Seq<char>
    decreases s.len(),
{
    if s.len() > 0 && width_of(s[0]) <= limit {
        seq![s[0]] + within_bytes(s.drop_first(), limit - width_of(s[0]))
    } else {
        Seq::empty()
    }
}

/// What fits is a prefix of the text within the limit, and the next character, where there is
/// one, would not fit.
pub proof fn within_bytes_is_the_longest_prefix(s: Seq<char>, limit: int)
    requires
        limit >= 0,
    ensures
        ({
            let kept = within_bytes(s, limit);
            &&& kept.len() <= s.len()
            &&& kept == s.take(kept.len() as int)
            &&& bytes_of(kept) <= limit
            &&& kept.len() < s.len() ==> bytes_of(kept) + width_of(s[kept.len() as int]) > limit
        }),
    decreases s.len(),
{
    let kept = within_bytes(s, limit);
    if s.len() > 0 && width_of(s[0]) <= limit {
        let rest = s.drop_first();
        let tail = within_bytes(rest, limit - width_of(s[0]));
        within_bytes_is_the_longest_prefix(rest, limit - width_of(s[0]));
        assert(kept.drop_first() =~= tail);
        assert(kept =~= s.take(kept.len() as int));
        bytes_of_first(kept);
        if kept.len() < s.len() {
            assert(s[kept.len() as int] == rest[tail.len() as int]);
        }
    } else {
        assert(kept =~= s.take(0));
        assert(bytes_of(kept) == 0);
    }
}

/// What fits within a limit is a prefix of what fits within a larger one.
pub proof fn within_bytes_is_monotonic(s: Seq<char>, small: int, large: int)
    requires
        small <= large,
    ensures
        within_bytes(s, small).is_prefix_of(within_bytes(s, large)),
    decreases s.len(),
{
    if s.len() > 0 && width_of(s[0]) <= small {
        let w = width_of(s[0]) as int;
        within_bytes_is_monotonic(s.drop_first(), small - w, large - w);
        let less = within_bytes(s.drop_first(), small - w);
        let more = within_bytes(s.drop_first(), large - w);
        assert(less =~= more.subrange(0, less.len() as int));
        assert(within_bytes(s, small) =~= within_bytes(s, large).subrange(
            0,
            within_bytes(s, small).len() as int,
        ));
    }
}

/// The longest run of leading characters that takes at most `limit` bytes.
pub fn take_bytes(s: &str, limit: usize) -> (r: String)
    ensures
        r@ == within_bytes(s@, limit as int),
{
    let cs = chars_of(s);
    let mut left: usize = limit;
    let mut n: usize = 0;
    assert(s@.skip(0) =~= s@);
    assert(s@.take(0) + within_bytes(s@.skip(0), limit as int) =~= within_bytes(s@, limit as int));
    while n < cs.len() && char_width(cs[n]) <= left
        invariant
            cs@ == s@,
            n <= cs@.len(),
            left <= limit,
            within_bytes(s@, limit as int) == s@.take(n as int) + within_bytes(
                s@.skip(n as int),
                left as int,
            ),
        decreases cs.len() - n,
    {
        let w: usize = char_width(cs[n]);
        proof {
            let rest = s@.skip(n as int);
            assert(rest.drop_first() =~= s@.skip(n as int + 1));
            assert(within_bytes(s@, limit as int) =~= s@.take(n as int + 1) + within_bytes(
                s@.skip(n as int + 1),
                left - w,
            ));
        }
        left = left - w;
        n = n + 1;
    }
    let out = string_of(cs.as_slice(), 0, n);
    assert(out@ =~= within_bytes(s@, limit as int));
    out
}

/// Whether a string ends with `c`.
pub fn ends_with_char(s: &str, c: char) -> (r: bool)
    ensures
        r == (s@.len() > 0 && s@.last() == c),
{
    let cs = chars_of(s);
    let n: usize = cs.len();
    n > 0 && cs[n - 1] == c
}

/// The lowercase form of an ASCII letter; any other character as it is.
pub open spec fn lower_ascii(c: char) -> char {
    if 'A' <= c <= 'Z' {
        ((c as int) + 32) as char
    } else {
        c
    }
}

/// A text with its ASCII letters in lower case.
pub open spec fn lowered_ascii(s: Seq<char>) -> Seq<char> {
    Seq::new(s.len(), |i: int| lower_ascii(s[i]))
}

/// The characters of `s` with ASCII letters in lower case.
pub fn ascii_lower_chars(s: &str) -> (r: Vec<char>)
    ensures
        r@ == lowered_ascii(s@),
{
    let cs = chars_of(s);
    let mut out: Vec<char> = Vec::new();
    for i in 0..cs.len()
        invariant
            cs@ == s@,
            out@ == lowered_ascii(s@).take(i as int),
    {
        let c: char = cs[i];
        if 'A' <= c && c <= 'Z' {
            let b: u8 = c as u8;
            out.push((b + 32) as char);
        } else {
            out.push(c);
        }
        assert(out@ =~= lowered_ascii(s@).take(i as int + 1));
    }
    assert(lowered_ascii(s@).take(s@.len() as int) =~= lowered_ascii(s@));
    out
}

/// Whether `needle` stands in `s` at position `k`.
pub open spec fn stands_at(s: Seq<char>, needle: Seq<char>, k: int) -> bool {
    0 <= k && k + needle.len() <= s.len() && s.subrange(k, k + needle.len()) == needle
}

/// The first position at or after `k` where `needle` stands in `s`.
pub open spec fn match_from(s: Seq<char>, needle: Seq<char>, k: int) -> Option<int>
    decreases s.len() - k + 1,
{
    if k < 0 || k + needle.len() > s.len() {
        None
    } else if stands_at(s, needle, k) {
        Some(k)
    } else {
        match_from(s, needle, k + 1)
    }
}

/// The first position where `needle` stands in `s`.
pub open spec fn first_match(s: Seq<char>, needle: Seq<char>) -> Option<int> {
    match_from(s, needle, 0)
}

/// Whether `needle` stands somewhere in `s`.
pub open spec fn contains_text(s: Seq<char>, needle: Seq<char>) -> bool {
    exists|k: int| stands_at(s, needle, k)
}

/// The first match is a match, none comes before it, and there is one where the needle stands
/// anywhere.
pub proof fn match_from_is_first(s: Seq<char>, needle: Seq<char>, k: int)
    requires
        0 <= k,
    ensures
        match match_from(s, needle, k) {
            Some(m) => k <= m && stands_at(s, needle, m) && forall|j: int|
                k <= j < m ==> !#[trigger] stands_at(s, needle, j),
            None => forall|j: int| k <= j ==> !#[trigger] stands_at(s, needle, j),
        },
    decreases s.len() - k + 1,
{
    if k + needle.len() <= s.len() && !stands_at(s, needle, k) {
        match_from_is_first(s, needle, k + 1);
    }
}

/// Whether `needle` stands in `s` at position `k`.
fn check_at(s: &[char], needle: &[char], k: usize) -> (r: bool)
    requires
        k + needle@.len() <= s@.len(),
    ensures
        r == stands_at(s@, needle@, k as int),
{
    let n: usize = s.len();
    for i in 0..needle.len()
        invariant
            n == s@.len(),
            k + needle@.len() <= s@.len(),
            forall|j: int| 0 <= j < i ==> s@[k + j] == needle@[j],
    {
        if s[k + i] != needle[i] {
            assert(s@.subrange(k as int, k + needle@.len())[i as int] != needle@[i as int]);
            return false;
        }
    }
    assert(s@.subrange(k as int, k + needle@.len()) =~= needle@);
    true
}

/// The first position where `needle` stands in `s`.
pub fn find_text(s: &[char], needle: &[char]) -> (r: Option<usize>)
    ensures
        match r {
            Some(k) => first_match(s@, needle@) == Some(k as int) && k + needle@.len() <= s@.len(),
            None => first_match(s@, needle@) is None,
        },
{
    let n: usize = s.len();
    let m: usize = needle.len();
    if m > n {
        return None;
    }
    let mut k: usize = 0;
    while k <= n - m
        invariant
            n == s@.len(),
            m == needle@.len(),
            m <= n,
            k <= n - m + 1,
            first_match(s@, needle@) == match_from(s@, needle@, k as int),
        decreases n - m + 1 - k,
    {
        if check_at(s, needle, k) {
            return Some(k);
        }
        if k == n - m {
            assert(match_from(s@, needle@, k as int + 1) is None);
            return None;
        }
        k = k + 1;
    }
    None
}

/// Whether `needle` stands somewhere in `s`.
pub fn contains(s: &str, needle: &str) -> (r: bool)
    ensures
        r == contains_text(s@, needle@),
{
    proof {
        match_from_is_first(s@, needle@, 0);
    }
    let cs = chars_of(s);
    let ns = chars_of(needle);
    let found = find_text(cs.as_slice(), ns.as_slice());
    match found {
        Some(k) => {
            assert(stands_at(s@, needle@, k as int));
            true
        },
        None => {
            assert forall|k: int| !stands_at(s@, needle@, k) by {}
            false
        },
    }
}

/// Whether `a` comes before `b` in the order of their characters, the shorter first where one
/// is the beginning of the other.
pub open spec fn text_before(a: Seq<char>, b: Seq<char>) -> bool
    decreases a.len(),
{
    if b.len() == 0 {
        false
    } else if a.len() == 0 {
        true
    } else if a[0] != b[0] {
        a[0] < b[0]
    } else {
        text_before(a.drop_first(), b.drop_first())
    }
}

/// The order of texts is strict and total.
pub proof fn text_order(a: Seq<char>, b: Seq<char>, c: Seq<char>)
    ensures
        !text_before(a, a),
        text_before(a, b) ==> !text_before(b, a),
        text_before(a, b) && text_before(b, c) ==> text_before(a, c),
        a == b || text_before(a, b) || text_before(b, a),
    decreases a.len() + b.len() + c.len(),
{
    if a.len() > 0 && b.len() > 0 && c.len() > 0 {
        text_order(a.drop_first(), b.drop_first(), c.drop_first());
        if a[0] == b[0] && a.drop_first() == b.drop_first() {
            assert(a =~= seq![a[0]] + a.drop_first());
            assert(b =~= seq![b[0]] + b.drop_first());
        }
    } else if a.len() > 0 && b.len() > 0 {
        text_order(a.drop_first(), b.drop_first(), c);
        if a[0] == b[0] && a.drop_first() == b.drop_first() {
            assert(a =~= seq![a[0]] + a.drop_first());
            assert(b =~= seq![b[0]] + b.drop_first());
        }
    } else if a.len() > 0 {
        text_order(a.drop_first(), b, c);
    } else if b.len() == 0 {
        assert(a =~= b);
    }
}

/// Whether `a` comes before `b` in the order of their characters.
pub fn comes_before(a: &str, b: &str) -> (r: bool)
    ensures
        r == text_before(a@, b@),
{
    let x = chars_of(a);
    let y = chars_of(b);
    let mut i: usize = 0;
    assert(a@.skip(0) =~= a@);
    assert(b@.skip(0) =~= b@);
    while i < x.len() && i < y.len()
        invariant
            x@ == a@,
            y@ == b@,
            i <= x@.len(),
            i <= y@.len(),
            text_before(a@, b@) == text_before(a@.skip(i as int), b@.skip(i as int)),
        decreases x.len() - i,
    {
        if x[i] != y[i] {
            return x[i] < y[i];
        }
        assert(a@.skip(i as int).drop_first() =~= a@.skip(i as int + 1));
        assert(b@.skip(i as int).drop_first() =~= b@.skip(i as int + 1));
        i = i + 1;
    }
    i < y.len()
}

/// Trimming takes white space off both ends and nothing else: what is left is the part from
/// the first visible character to the last one.
pub proof fn trimming_leaves_the_visible_part(s: Seq<char>) -> (r: (int, int))
    ensures
        0 <= r.0 <= r.1 <= s.len(),
        trimmed(s) == s.subrange(r.0, r.1),
        forall|i: int| 0 <= i < r.0 || r.1 <= i < s.len() ==> is_white(#[trigger] s[i]),
        r.0 < r.1 ==> !is_white(s[r.0]) && !is_white(s[r.1 - 1]),
{
    let a = front_end(s);
    let rest = s.skip(a);
    let b = back_start(rest);
    assert(trimmed(s) =~= s.subrange(a, a + b));
    assert forall|i: int| 0 <= i < a || a + b <= i < s.len() implies is_white(#[trigger] s[i]) by {
        if i >= a {
            assert(rest[i - a] == s[i]);
        }
    }
    if b > 0 {
        assert(rest[0] == s[a]);
        assert(rest[b - 1] == s[a + b - 1]);
    }
    (a, a + b)
}

/// Where the visible part of a text begins.
proof fn front_end(s: Seq<char>) -> (a: int)
    ensures
        0 <= a <= s.len(),
        trim_front(s) == s.skip(a),
        forall|i: int| 0 <= i < a ==> is_white(#[trigger] s[i]),
        a < s.len() ==> !is_white(s[a]),
    decreases s.len(),
{
    if s.len() > 0 && is_white(s[0]) {
        let rest = s.drop_first();
        let a = front_end(rest);
        assert(rest.skip(a) =~= s.skip(a + 1));
        assert forall|i: int| 0 <= i < a + 1 implies is_white(#[trigger] s[i]) by {
            if i > 0 {
                assert(rest[i - 1] == s[i]);
            }
        }
        if a < rest.len() {
            assert(rest[a] == s[a + 1]);
        }
        a + 1
    } else {
        assert(s.skip(0) =~= s);
        0
    }
}

/// Where the white space at the end of a text begins.
pub proof fn back_start(s: Seq<char>) -> (b: int)
    ensures
        0 <= b <= s.len(),
        trim_back(s) == s.take(b),
        forall|i: int| b <= i < s.len() ==> is_white(#[trigger] s[i]),
        b > 0 ==> !is_white(s[b - 1]),
    decreases s.len(),
{
    if s.len() > 0 && is_white(s.last()) {
        let rest = s.drop_last();
        let b = back_start(rest);
        assert(rest.take(b) =~= s.take(b));
        assert forall|i: int| b <= i < s.len() implies is_white(#[trigger] s[i]) by {
            if i < rest.len() {
                assert(rest[i] == s[i]);
            }
        }
        if b > 0 {
            assert(rest[b - 1] == s[b - 1]);
        }
        b
    } else {
        assert(s.take(s.len() as int) =~= s);
        s.len() as int
    }
}

/// Texts are ordered by the first character in which they differ, and a text comes before its
/// continuations.
pub proof fn texts_differ_at_the_first_difference(a: Seq<char>, b: Seq<char>, i: int)
    requires
        0 <= i <= a.len(),
        i < b.len(),
        a.take(i) == b.take(i),
        i < a.len() ==> a[i] != b[i],
    ensures
        text_before(a, b) <==> i == a.len() || a[i] < b[i],
    decreases a.len(),
{
    if i > 0 {
        assert(a.take(i)[0] == a[0] && b.take(i)[0] == b[0]);
        assert(b.drop_first()[i - 1] == b[i]);
        if i < a.len() {
            assert(a.drop_first()[i - 1] == a[i]);
        }
        assert(a.drop_first().take(i - 1) =~= a.take(i).drop_first());
        assert(b.drop_first().take(i - 1) =~= b.take(i).drop_first());
        texts_differ_at_the_first_difference(a.drop_first(), b.drop_first(), i - 1);
    }
}

/// The rendering of a number has its last digit last and no leading zero.
pub proof fn digits_are_decimal(n: nat)
    ensures
        digits(n).len() > 0,
        digits(n).last() == (('0' as int) + n % 10) as char,
        n >= 10 ==> digits(n).drop_last() == digits(n / 10),
        n < 10 ==> digits(n).len() == 1,
        n > 0 ==> digits(n)[0] != '0',
    decreases n,
{
    if n >= 10 {
        digits_are_decimal(n / 10);
        assert(digits(n).drop_last() =~= digits(n / 10));
    }
}

/// Joining puts the parts one after the other with the separator between: a list joined is its
/// beginning joined, the separator, and its last part.
pub proof fn joining_adds_a_separator_and_a_part(
    parts: Seq<Seq<char>>,
    last: Seq<char>,
    sep: Seq<char>,
)
    ensures
        joined(Seq::empty(), sep) == Seq::<char>::empty(),
        joined(seq![last], sep) == last,
        parts.len() > 0 ==> joined(parts.push(last), sep) == joined(parts, sep) + sep + last,
{
    assert(parts.push(last).drop_last() =~= parts);
}

/// Lowering changes ASCII capitals to their small letters and leaves everything else.
pub proof fn lowering_changes_capitals_alone(s: Seq<char>, i: int)
    requires
        0 <= i < s.len(),
    ensures
        lowered_ascii(s).len() == s.len(),
        'A' <= s[i] <= 'Z' ==> lowered_ascii(s)[i] as int == s[i] as int + 32,
        !('A' <= s[i] <= 'Z') ==> lowered_ascii(s)[i] == s[i],
{
}

} // verus!

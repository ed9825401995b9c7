//! Splitting texts into lines and fields, taking affixes off, and reading numbers.

use crate::text::{
    chars_of, digit_char, digits, joined, lowered_ascii, stands_at, string_of, texts, trim_back,
    white,
};
use vstd::prelude::*;
use vstd::string::*;

verus! {

/// The pieces of `s` between the occurrences of `sep`. There is always at least one.
pub open spec fn split_on(s: Seq<char>, sep: char) -> Seq<Seq<char>>
    decreases s.len(),
{
    if s.len() == 0 {
        seq![Seq::empty()]
    } else {
        let before = split_on(s.drop_last(), sep);
        if s.last() == sep {
            before.push(Seq::empty())
        } else {
            before.drop_last().push(before.last().push(s.last()))
        }
    }
}

/// Joining the pieces with the separator gives the text back.
pub proof fn joining_undoes_splitting(s: Seq<char>, sep: char)
    ensures
        split_on(s, sep).len() > 0,
        joined(split_on(s, sep), seq![sep]) == s,
    decreases s.len(),
{
    let parts = split_on(s, sep);
    if s.len() > 0 {
        let t = s.drop_last();
        let before = split_on(t, sep);
        joining_undoes_splitting(t, sep);
        assert(s =~= t.push(s.last()));
        if s.last() == sep {
            assert(parts.drop_last() =~= before);
            assert(joined(parts, seq![sep]) =~= s);
        } else {
            assert(parts.drop_last() =~= before.drop_last());
            assert(joined(parts, seq![sep]) =~= s);
        }
    } else {
        assert(joined(parts, seq![sep]) =~= s);
    }
}

/// No piece holds the separator.
pub proof fn pieces_hold_no_separator(s: Seq<char>, sep: char)
    ensures
        split_on(s, sep).len() > 0,
        forall|i: int|
            0 <= i < split_on(s, sep).len() ==> !(#[trigger] split_on(s, sep)[i]).contains(sep),
    decreases s.len(),
{
    if s.len() > 0 {
        let before = split_on(s.drop_last(), sep);
        pieces_hold_no_separator(s.drop_last(), sep);
        let parts = split_on(s, sep);
        assert forall|i: int| 0 <= i < parts.len() implies !(#[trigger] parts[i]).contains(sep) by {
            if i < before.len() - 1 || (i < before.len() && s.last() == sep) {
                assert(parts[i] == before[i]);
            } else if s.last() != sep {
                assert(parts[i] == before.last().push(s.last()));
                assert(!before.last().contains(sep));
                if parts[i].contains(sep) {
                    let k = choose|k: int| 0 <= k < parts[i].len() && parts[i][k] == sep;
                    assert(before.last()[k] == sep);
                }
            }
        }
    }
}

/// The pieces of two texts with a separator between are the pieces of both.
proof fn splitting_distributes(a: Seq<char>, b: Seq<char>, sep: char)
    ensures
        split_on(a.push(sep) + b, sep) == split_on(a, sep) + split_on(b, sep),
    decreases b.len(),
{
    let whole = a.push(sep) + b;
    if b.len() == 0 {
        assert(whole =~= a.push(sep));
        assert(whole.drop_last() =~= a);
        assert(split_on(whole, sep) =~= split_on(a, sep) + split_on(b, sep));
    } else {
        joining_undoes_splitting(b.drop_last(), sep);
        splitting_distributes(a, b.drop_last(), sep);
        assert(whole.drop_last() =~= a.push(sep) + b.drop_last());
        assert(split_on(whole, sep) =~= split_on(a, sep) + split_on(b, sep));
    }
}

/// A text without the separator is one piece.
proof fn one_piece(s: Seq<char>, sep: char)
    requires
        !s.contains(sep),
    ensures
        split_on(s, sep) == seq![s],
    decreases s.len(),
{
    if s.len() > 0 {
        assert(s[s.len() - 1] == s.last());
        assert(!s.drop_last().contains(sep)) by {
            if s.drop_last().contains(sep) {
                let k = choose|k: int| 0 <= k < s.drop_last().len() && s.drop_last()[k] == sep;
                assert(s[k] == sep);
            }
        }
        one_piece(s.drop_last(), sep);
        assert(s.drop_last().push(s.last()) =~= s);
        assert(split_on(s, sep) =~= seq![s]);
    } else {
        assert(s =~= Seq::empty());
    }
}

/// Splitting a joined list gives the list back, where no part holds the separator.
pub proof fn splitting_undoes_joining(parts: Seq<Seq<char>>, sep: char)
    requires
        parts.len() > 0,
        forall|i: int| 0 <= i < parts.len() ==> !(#[trigger] parts[i]).contains(sep),
    ensures
        split_on(joined(parts, seq![sep]), sep) == parts,
    decreases parts.len(),
{
    if parts.len() == 1 {
        one_piece(parts[0], sep);
        assert(parts =~= seq![parts[0]]);
    } else {
        let init = parts.drop_last();
        assert forall|i: int| 0 <= i < init.len() implies !(#[trigger] init[i]).contains(sep) by {
            assert(init[i] == parts[i]);
        }
        splitting_undoes_joining(init, sep);
        assert(!parts[parts.len() - 1].contains(sep));
        one_piece(parts.last(), sep);
        splitting_distributes(joined(init, seq![sep]), parts.last(), sep);
        assert(joined(parts, seq![sep]) =~= joined(init, seq![sep]).push(sep) + parts.last());
        assert(init + seq![parts.last()] =~= parts);
    }
}

/// The pieces of `s` between the occurrences of `sep`.
pub fn split(s: &str, sep: char) -> (r: Vec<String>)
    ensures
        texts(r@) == split_on(s@, sep),
        r@.len() > 0,
{
    let cs = chars_of(s);
    let mut parts: Vec<String> = Vec::new();
    let mut piece = String::new();
    assert(texts(parts@).push(piece@) =~= split_on(s@.take(0), sep));
    for i in 0..cs.len()
        invariant
            cs@ == s@,
            texts(parts@).push(piece@) == split_on(s@.take(i as int), sep),
    {
        let ghost before = texts(parts@);
        let ghost current = piece@;
        let c: char = cs[i];
        proof {
            assert(s@.take(i as int + 1).drop_last() =~= s@.take(i as int));
            assert(before.push(current).drop_last() =~= before);
            assert(s@.take(i as int + 1).last() == c);
        }
        if c == sep {
            parts.push(piece);
            piece = String::new();
            assert(texts(parts@) =~= before.push(current));
            assert(piece@ =~= Seq::empty());
        } else {
            piece.push(c);
        }
        assert(texts(parts@).push(piece@) =~= split_on(s@.take(i as int + 1), sep));
    }
    let ghost before = texts(parts@);
    let ghost current = piece@;
    parts.push(piece);
    assert(texts(parts@) =~= before.push(current));
    assert(s@.take(s@.len() as int) =~= s@);
    parts
}

/// A line without the carriage return at its end.
pub open spec fn chomped(line: Seq<char>) -> Seq<char> {
    if line.len() > 0 && line.last() == '\r' {
        line.drop_last()
    } else {
        line
    }
}

/// The lines of `s`: each ends with a line feed, or with a carriage return and a line feed, and
/// the last one may lack its end.
pub open spec fn line_list(s: Seq<char>) -> Seq<Seq<char>> {
    let parts = split_on(s, '\n');
    let ended = Seq::new((parts.len() - 1) as nat, |i: int| chomped(parts[i]));
    if parts.last().len() == 0 {
        ended
    } else {
        ended.push(parts.last())
    }
}

/// The lines of `s`.
pub fn lines_of(s: &str) -> (r: Vec<String>)
    ensures
        texts(r@) == line_list(s@),
{
    let parts = split(s, '\n');
    let n: usize = parts.len();
    let ghost pieces = texts(parts@);
    let mut out: Vec<String> = Vec::new();
    for i in 0..n - 1
        invariant
            n == parts@.len(),
            n > 0,
            pieces == texts(parts@),
            texts(out@) == Seq::new(i as nat, |k: int| chomped(pieces[k])),
    {
        let ghost before = texts(out@);
        let line = chomp(parts[i].as_str());
        out.push(line);
        assert(texts(out@) =~= before.push(line@));
        assert(texts(out@) =~= Seq::new(i as nat + 1, |k: int| chomped(pieces[k])));
    }
    let ghost before = texts(out@);
    if !parts[n - 1].as_str().is_empty() {
        let line = parts[n - 1].clone();
        out.push(line);
        assert(texts(out@) =~= before.push(line@));
    }
    assert(texts(out@) =~= line_list(s@));
    out
}

/// A line without the carriage return at its end.
fn chomp(line: &str) -> (r: String)
    ensures
        r@ == chomped(line@),
{
    let cs = chars_of(line);
    let n: usize = cs.len();
    let to: usize = if n > 0 && cs[n - 1] == '\r' {
        n - 1
    } else {
        n
    };
    let out = string_of(cs.as_slice(), 0, to);
    assert(out@ =~= chomped(line@));
    out
}

/// Whether `s` begins with `prefix`.
pub open spec fn begins(s: Seq<char>, prefix: Seq<char>) -> bool {
    stands_at(s, prefix, 0)
}

/// Whether `s` ends with `suffix`.
pub open spec fn ends(s: Seq<char>, suffix: Seq<char>) -> bool {
    stands_at(s, suffix, s.len() - suffix.len())
}

/// Whether the characters from `at` on begin with `part`.
fn part_at(cs: &Vec<char>, part: &Vec<char>, at: usize) -> (r: bool)
    requires
        at + part@.len() <= cs@.len(),
    ensures
        r == stands_at(cs@, part@, at as int),
{
    let n: usize = cs.len();
    for i in 0..part.len()
        invariant
            n == cs@.len(),
            at + part@.len() <= cs@.len(),
            forall|j: int| 0 <= j < i ==> cs@[at + j] == part@[j],
    {
        if cs[at + i] != part[i] {
            assert(cs@.subrange(at as int, at + part@.len())[i as int] != part@[i as int]);
            return false;
        }
    }
    assert(cs@.subrange(at as int, at + part@.len()) =~= part@);
    true
}

/// What follows `prefix`, where the text begins with it.
pub fn strip_prefix(s: &str, prefix: &str) -> (r: Option<String>)
    ensures
        if begins(s@, prefix@) {
            r matches Some(rest) && rest@ == s@.skip(prefix@.len() as int)
        } else {
            r is None
        },
{
    let cs = chars_of(s);
    let ps = chars_of(prefix);
    let n: usize = cs.len();
    let m: usize = ps.len();
    if m > n || !part_at(&cs, &ps, 0) {
        return None;
    }
    let rest = string_of(cs.as_slice(), m, n);
    assert(rest@ =~= s@.skip(prefix@.len() as int));
    Some(rest)
}

/// Whether `s` begins with `prefix`.
pub fn starts_with(s: &str, prefix: &str) -> (r: bool)
    ensures
        r == begins(s@, prefix@),
{
    let cs = chars_of(s);
    let ps = chars_of(prefix);
    ps.len() <= cs.len() && part_at(&cs, &ps, 0)
}

/// `s` without any of the repetitions of `part` that it begins with.
pub open spec fn shed_front(s: Seq<char>, part: Seq<char>) -> Seq<char>
    decreases s.len(),
{
    if part.len() > 0 && begins(s, part) {
        shed_front(s.skip(part.len() as int), part)
    } else {
        s
    }
}

/// `s` without any of the repetitions of `part` that it ends with.
pub open spec fn shed_back(s: Seq<char>, part: Seq<char>) -> Seq<char>
    decreases s.len(),
{
    if part.len() > 0 && ends(s, part) {
        shed_back(s.take(s.len() - part.len()), part)
    } else {
        s
    }
}

/// `s` without any of the repetitions of `part` that it begins with.
pub fn trim_start_matches(s: &str, part: &str) -> (r: String)
    ensures
        r@ == shed_front(s@, part@),
{
    let cs = chars_of(s);
    let ps = chars_of(part);
    let n: usize = cs.len();
    let m: usize = ps.len();
    let mut a: usize = 0;
    assert(s@.skip(0) =~= s@);
    while m > 0 && m <= n - a && part_at(&cs, &ps, a)
        invariant
            cs@ == s@,
            ps@ == part@,
            n == cs@.len(),
            m == ps@.len(),
            a <= n,
            shed_front(s@, part@) == shed_front(s@.skip(a as int), part@),
        decreases n - a,
    {
        proof {
            let rest = s@.skip(a as int);
            assert(rest.subrange(0, m as int) =~= s@.subrange(a as int, a + m));
            assert(rest.skip(m as int) =~= s@.skip(a + m));
        }
        a = a + m;
    }
    let out = string_of(cs.as_slice(), a, n);
    proof {
        let rest = s@.skip(a as int);
        assert(out@ =~= rest);
        if m > 0 && m <= n - a {
            assert(rest.subrange(0, m as int) =~= s@.subrange(a as int, a + m));
        }
        assert(shed_front(rest, part@) == rest);
    }
    out
}

/// `s` without any of the repetitions of `part` that it ends with.
pub fn trim_end_matches(s: &str, part: &str) -> (r: String)
    ensures
        r@ == shed_back(s@, part@),
{
    let cs = chars_of(s);
    let ps = chars_of(part);
    let m: usize = ps.len();
    let mut b: usize = cs.len();
    assert(s@.take(b as int) =~= s@);
    while m > 0 && m <= b && part_at(&cs, &ps, b - m)
        invariant
            cs@ == s@,
            ps@ == part@,
            m == ps@.len(),
            b <= cs@.len(),
            shed_back(s@, part@) == shed_back(s@.take(b as int), part@),
        decreases b,
    {
        proof {
            let rest = s@.take(b as int);
            assert(rest.subrange(b - m, b as int) =~= s@.subrange(b - m, b as int));
            assert(rest.take(b - m) =~= s@.take(b - m));
        }
        b = b - m;
    }
    let out = string_of(cs.as_slice(), 0, b);
    proof {
        let rest = s@.take(b as int);
        assert(out@ =~= rest);
        if m > 0 && m <= b {
            assert(rest.subrange(b - m, b as int) =~= s@.subrange(b - m, b as int));
        }
        assert(shed_back(rest, part@) == rest);
    }
    out
}

/// Removes trailing white space.
pub fn trim_end(s: &str) -> (r: String)
    ensures
        r@ == trim_back(s@),
{
    let cs = chars_of(s);
    let mut b: usize = cs.len();
    assert(s@.take(b as int) =~= s@);
    while b > 0 && white(cs[b - 1])
        invariant
            cs@ == s@,
            b <= cs@.len(),
            trim_back(s@) == trim_back(s@.take(b as int)),
        decreases b,
    {
        assert(s@.take(b as int).drop_last() =~= s@.take(b - 1));
        b = b - 1;
    }
    string_of(cs.as_slice(), 0, b)
}

/// How often `c` occurs.
pub open spec fn occurrences(s: Seq<char>, c: char) -> nat
    decreases s.len(),
{
    if s.len() == 0 {
        0
    } else {
        occurrences(s.drop_last(), c) + (if s.last() == c {
            1nat
        } else {
            0
        })
    }
}

/// How often `c` occurs.
pub fn count_of(s: &str, c: char) -> (r: usize)
    ensures
        r == occurrences(s@, c),
        r <= s@.len(),
{
    let cs = chars_of(s);
    let mut n: usize = 0;
    for i in 0..cs.len()
        invariant
            cs@ == s@,
            n <= i,
            n == occurrences(s@.take(i as int), c),
    {
        assert(s@.take(i as int + 1).drop_last() =~= s@.take(i as int));
        if cs[i] == c {
            n = n + 1;
        }
    }
    assert(s@.take(s@.len() as int) =~= s@);
    n
}

/// Whether `c` is an ASCII digit.
pub open spec fn is_digit(c: char) -> bool {
    '0' <= c <= '9'
}

/// Whether `s` holds nothing but ASCII digits.
pub open spec fn all_digits(s: Seq<char>) -> bool {
    forall|i: int| 0 <= i < s.len() ==> is_digit(#[trigger] s[i])
}

/// The number that a row of digits denotes.
pub open spec fn number_of(s: Seq<char>) -> nat
    decreases s.len(),
{
    if s.len() == 0 {
        0
    } else {
        number_of(s.drop_last()) * 10 + (s.last() as int - '0' as int) as nat
    }
}

/// Reading a rendered number gives the number back.
pub proof fn reading_undoes_rendering(n: nat)
    ensures
        all_digits(digits(n)),
        number_of(digits(n)) == n,
        digits(n).len() > 0,
    decreases n,
{
    let s = digits(n);
    if n < 10 {
        assert(s.drop_last() =~= Seq::empty());
        assert(s.last() == digit_char(n));
        assert(number_of(s.drop_last()) == 0);
    } else {
        reading_undoes_rendering(n / 10);
        assert(s.drop_last() =~= digits(n / 10));
        assert(s.last() == digit_char(n % 10));
    }
}

/// More digits never denote a smaller number.
proof fn number_grows(s: Seq<char>, n: int)
    requires
        all_digits(s),
        0 <= n <= s.len(),
    ensures
        number_of(s.take(n)) <= number_of(s),
    decreases s.len() - n,
{
    if n < s.len() {
        let next = s.take(n + 1);
        assert(next.drop_last() =~= s.take(n));
        assert(is_digit(s[n]));
        number_grows(s, n + 1);
    } else {
        assert(s.take(n) =~= s);
    }
}

/// The number that a row of digits denotes, where it is at most `limit`.
pub fn read_digits(cs: &Vec<char>, limit: u64) -> (r: Option<u64>)
    requires
        all_digits(cs@),
    ensures
        match r {
            Some(n) => n == number_of(cs@) && n <= limit,
            None => number_of(cs@) > limit,
        },
{
    let mut n: u64 = 0;
    for i in 0..cs.len()
        invariant
            all_digits(cs@),
            n == number_of(cs@.take(i as int)),
            n <= limit,
    {
        proof {
            assert(is_digit(cs@[i as int]));
            assert(cs@.take(i as int + 1).drop_last() =~= cs@.take(i as int));
            number_grows(cs@, i as int + 1);
        }
        let d: u64 = cs[i] as u64 - '0' as u64;
        if d > limit || n > (limit - d) / 10 {
            assert(number_of(cs@.take(i as int + 1)) == n * 10 + d);
            assert(n * 10 + d > limit);
            return None;
        }
        n = n * 10 + d;
    }
    assert(cs@.take(cs@.len() as int) =~= cs@);
    Some(n)
}

/// The digits of `s` after an optional plus sign.
pub open spec fn unsigned_part(s: Seq<char>) -> Seq<char> {
    if s.len() > 0 && s[0] == '+' {
        s.skip(1)
    } else {
        s
    }
}

/// Whether `s` is written as an unsigned number: digits, at least one, after an optional plus
/// sign.
pub open spec fn is_unsigned(s: Seq<char>) -> bool {
    unsigned_part(s).len() > 0 && all_digits(unsigned_part(s))
}

/// Reads an unsigned number.
pub fn parse_unsigned(s: &str) -> (r: Option<u64>)
    ensures
        match r {
            Some(n) => is_unsigned(s@) && n == number_of(unsigned_part(s@)),
            None => !is_unsigned(s@) || number_of(unsigned_part(s@)) > u64::MAX,
        },
{
    let cs = chars_of(s);
    let n: usize = cs.len();
    let from: usize = if n > 0 && cs[0] == '+' {
        1
    } else {
        0
    };
    let mut ds: Vec<char> = Vec::new();
    let ghost part = unsigned_part(s@);
    assert(part =~= s@.skip(from as int));
    for i in from..n
        invariant
            cs@ == s@,
            n == cs@.len(),
            from <= n,
            part == s@.skip(from as int),
            part == unsigned_part(s@),
            ds@ == part.take(i - from),
            all_digits(ds@),
    {
        let c: char = cs[i];
        assert(part[i - from] == c);
        if !('0' <= c && c <= '9') {
            assert(!is_digit(part[i - from]));
            return None;
        }
        ds.push(c);
        assert(ds@ =~= part.take(i - from + 1));
    }
    assert(ds@ =~= part);
    if ds.len() == 0 {
        return None;
    }
    read_digits(&ds, u64::MAX)
}

/// What `str::to_lowercase` makes of a text.
pub uninterp spec fn lowercase(s: Seq<char>) -> Seq<char>;

/// Whether a character is one of the first 128.
pub open spec fn is_ascii_char(c: char) -> bool {
    c <= '\u{7f}'
}

/// Whether a text holds ASCII characters only.
pub open spec fn is_ascii_text(s: Seq<char>) -> bool {
    forall|i: int| 0 <= i < s.len() ==> is_ascii_char(#[trigger] s[i])
}

/// A text in lower case: letter by letter where it is ASCII, by Unicode's rules otherwise.
pub open spec fn lowered(s: Seq<char>) -> Seq<char> {
    if is_ascii_text(s) {
        lowered_ascii(s)
    } else {
        lowercase(s)
    }
}

/// `str::to_lowercase`: the lowercase form of the text by Unicode's rules, which depends on
/// the text alone. Of an ASCII text that is each letter from A to Z in lower case and
/// everything else as it stands.
#[verifier::external_body]
pub(crate) fn to_lowercase(s: &str) -> (r: String)
    ensures
        r@ == lowercase(s@),
        is_ascii_text(s@) ==> r@ == lowered_ascii(s@),
{
    s.to_lowercase()
}

/// Whether `char::is_alphanumeric` holds of a character.
pub uninterp spec fn is_alphanumeric(c: char) -> bool;

/// Whether a character is a letter or a number: told by its range where it is ASCII, by
/// Unicode's properties otherwise.
pub open spec fn is_letter_or_number(c: char) -> bool {
    if is_ascii_char(c) {
        '0' <= c <= '9' || 'A' <= c <= 'Z' || 'a' <= c <= 'z'
    } else {
        is_alphanumeric(c)
    }
}

/// `char::is_alphanumeric`: whether the character is a letter or a number by Unicode's
/// properties, which depends on the character alone. For an ASCII character that is a letter
/// from A to Z in either case or a digit.
#[verifier::external_body]
pub(crate) fn alphanumeric(c: char) -> (r: bool)
    ensures
        r == is_alphanumeric(c),
        is_ascii_char(c) ==> r == ('0' <= c <= '9' || 'A' <= c <= 'Z' || 'a' <= c <= 'z'),
{
    c.is_alphanumeric()
}

/// Each piece of a text stands in it.
proof fn a_piece_stands_in_the_text(s: Seq<char>, sep: char, i: int) -> (at: int)
    requires
        0 <= i < split_on(s, sep).len(),
    ensures
        stands_at(s, split_on(s, sep)[i], at),
        i == split_on(s, sep).len() - 1 ==> at + split_on(s, sep)[i].len() == s.len(),
    decreases s.len(),
{
    let parts = split_on(s, sep);
    if s.len() == 0 {
        assert(s.subrange(0, 0) =~= parts[i]);
        0
    } else {
        let rest = s.drop_last();
        let before = split_on(rest, sep);
        pieces_hold_no_separator(rest, sep);
        if s.last() == sep && i == before.len() {
            assert(s.subrange(s.len() as int, s.len() as int) =~= parts[i]);
            s.len() as int
        } else {
            let at = a_piece_stands_in_the_text(rest, sep, i);
            if s.last() != sep && i == before.len() - 1 {
                assert(parts[i] == before.last().push(s.last()));
                assert(before.last() == before[i]);
                assert(s.subrange(at, at + parts[i].len()) =~= parts[i]) by {
                    assert(rest.subrange(at, at + before[i].len()) == before[i]);
                    assert forall|k: int| 0 <= k < before[i].len() implies s[at + k]
                        == before[i][k] by {
                        assert(rest.subrange(at, at + before[i].len())[k] == rest[at + k]);
                    }
                }
            } else {
                assert(parts[i] == before[i]);
                assert(s.subrange(at, at + parts[i].len()) =~= rest.subrange(
                    at,
                    at + before[i].len(),
                ));
            }
            at
        }
    }
}

/// Each line of a text stands in it.
pub proof fn a_line_stands_in_the_text(s: Seq<char>, i: int) -> (at: int)
    requires
        0 <= i < line_list(s).len(),
    ensures
        stands_at(s, line_list(s)[i], at),
{
    let parts = split_on(s, '\n');
    pieces_hold_no_separator(s, '\n');
    let at = a_piece_stands_in_the_text(s, '\n', i);
    let line = line_list(s)[i];
    assert(line == parts[i] || line == chomped(parts[i]));
    assert(s.subrange(at, at + line.len()) =~= s.subrange(at, at + parts[i].len()).take(
        line.len() as int,
    ));
    assert(line =~= parts[i].take(line.len() as int));
    at
}

/// What stands in a line stands in the text.
pub proof fn what_a_line_begins_with_is_in_the_text(s: Seq<char>, i: int, needle: Seq<char>)
    requires
        0 <= i < line_list(s).len(),
        begins(line_list(s)[i], needle),
    ensures
        crate::text::contains_text(s, needle),
{
    let line = line_list(s)[i];
    let at = a_line_stands_in_the_text(s, i);
    assert(s.subrange(at, at + needle.len()) =~= s.subrange(at, at + line.len()).subrange(
        0,
        needle.len() as int,
    ));
    assert(stands_at(s, needle, at));
}

/// The lines of a text hold no line feed, and where it has no carriage returns they give it
/// back, each ended by a line feed but for a last one that was not.
pub proof fn lines_give_the_text_back(s: Seq<char>)
    ensures
        forall|i: int|
            0 <= i < line_list(s).len() ==> !(#[trigger] line_list(s)[i]).contains('\n'),
        !s.contains('\r') && s.len() > 0 ==> s == joined(line_list(s), seq!['\n']) || s == joined(
            line_list(s),
            seq!['\n'],
        ).push('\n'),
        s.len() == 0 ==> line_list(s).len() == 0,
{
    let parts = split_on(s, '\n');
    pieces_hold_no_separator(s, '\n');
    joining_undoes_splitting(s, '\n');
    let lines = line_list(s);
    assert forall|i: int| 0 <= i < lines.len() implies !(#[trigger] lines[i]).contains('\n') by {
        if lines[i].contains('\n') {
            let k = choose|k: int| 0 <= k < lines[i].len() && lines[i][k] == '\n';
            assert(parts[i][k] == '\n');
        }
    }
    if !s.contains('\r') && s.len() > 0 {
        assert forall|i: int| 0 <= i < parts.len() implies chomped(#[trigger] parts[i])
            == parts[i] by {
            if parts[i].len() > 0 && parts[i].last() == '\r' {
                let at = a_piece_stands_in_the_text(s, '\n', i);
                let n = parts[i].len() as int;
                assert(s.subrange(at, at + n)[n - 1] == s[at + n - 1]);
            }
        }
        let ended = Seq::new((parts.len() - 1) as nat, |i: int| chomped(parts[i]));
        assert(ended =~= parts.drop_last());
        if parts.last().len() == 0 {
            assert(parts.last() =~= Seq::empty());
            if parts.len() == 1 {
                assert(joined(parts, seq!['\n']) =~= Seq::empty());
            } else {
                assert(joined(parts, seq!['\n']) =~= joined(parts.drop_last(), seq!['\n']).push(
                    '\n',
                ));
            }
        } else {
            assert(lines =~= parts);
        }
    }
}

/// A separator that occurs `n` times parts a text into `n + 1` pieces.
pub proof fn each_separator_parts_once(s: Seq<char>, sep: char)
    ensures
        split_on(s, sep).len() == occurrences(s, sep) + 1,
    decreases s.len(),
{
    if s.len() > 0 {
        pieces_hold_no_separator(s.drop_last(), sep);
        each_separator_parts_once(s.drop_last(), sep);
    }
}

/// Shedding takes whole repetitions of the part off the front, and all of them: `n` of them
/// stand before what is left, which does not begin with another.
pub proof fn shedding_takes_all_repetitions_off_the_front(s: Seq<char>, part: Seq<char>) -> (n: nat)
    requires
        part.len() > 0,
    ensures
        n * part.len() <= s.len(),
        shed_front(s, part) == s.skip((n * part.len()) as int),
        !begins(shed_front(s, part), part),
        forall|k: nat| k < n ==> #[trigger] stands_at(s, part, (k * part.len()) as int),
    decreases s.len(),
{
    let m = part.len();
    if begins(s, part) {
        let rest = s.skip(m as int);
        let n = shedding_takes_all_repetitions_off_the_front(rest, part);
        assert((n + 1) * m == n * m + m) by (nonlinear_arith);
        assert(rest.skip((n * m) as int) =~= s.skip(((n + 1) * m) as int));
        assert forall|k: nat| k < n + 1 implies #[trigger] stands_at(s, part, (k * m) as int) by {
            if k == 0 {
                assert(0 * m == 0);
            } else {
                let j = (k - 1) as nat;
                assert(k * m == j * m + m) by (nonlinear_arith)
                    requires
                        k == j + 1,
                ;
                assert(stands_at(rest, part, (j * m) as int));
                assert(rest.subrange((j * m) as int, (j * m) as int + m) =~= s.subrange(
                    (k * m) as int,
                    (k * m) as int + m,
                ));
            }
        }
        n + 1
    } else {
        assert(s.skip(0) =~= s);
        assert(0 * m == 0);
        0
    }
}

/// Shedding takes whole repetitions of the part off the back, and all of them.
pub proof fn shedding_takes_all_repetitions_off_the_back(s: Seq<char>, part: Seq<char>) -> (n: nat)
    requires
        part.len() > 0,
    ensures
        n * part.len() <= s.len(),
        shed_back(s, part) == s.take(s.len() - n * part.len()),
        !ends(shed_back(s, part), part),
        forall|k: nat|
            1 <= k <= n ==> #[trigger] stands_at(s, part, s.len() - k * part.len()),
    decreases s.len(),
{
    let m = part.len();
    if ends(s, part) {
        let rest = s.take(s.len() - m);
        let n = shedding_takes_all_repetitions_off_the_back(rest, part);
        assert((n + 1) * m == n * m + m) by (nonlinear_arith);
        assert(rest.take(rest.len() - n * m) =~= s.take(s.len() - (n + 1) * m));
        assert forall|k: nat| 1 <= k <= n + 1 implies #[trigger] stands_at(
            s,
            part,
            s.len() - k * m,
        ) by {
            if k == 1 {
                assert(1 * m == m);
            } else {
                let j = (k - 1) as nat;
                assert(k * m == j * m + m) by (nonlinear_arith)
                    requires
                        k == j + 1,
                ;
                assert(stands_at(rest, part, rest.len() - j * m));
                assert(j * m >= m) by (nonlinear_arith)
                    requires
                        j >= 1,
                ;
                assert(rest.subrange(rest.len() - j * m, rest.len() - j * m + m) =~= s.subrange(
                    s.len() - k * m,
                    s.len() - k * m + m,
                ));
            }
        }
        n + 1
    } else {
        assert(s.take(s.len() as int) =~= s);
        assert(0 * m == 0);
        0
    }
}

} // verus!

//! The words of a query, and how many of them a text holds.

use crate::lines::{alphanumeric, is_letter_or_number, lowered, to_lowercase};
use crate::text::{byte_count, bytes_of, chars_of, contains, contains_text, texts};
use vstd::prelude::*;
use vstd::string::*;

verus! {

/// Whether a character belongs to a word.
pub open spec fn in_word(c: char) -> bool {
    is_letter_or_number(c) || c == '_'
}

/// The pieces of `s` between the characters that are marked, which are left out. There is
/// always at least one piece.
pub open spec fn cut(s: Seq<char>, marked: Seq<bool>) -> Seq<Seq<char>>
    decreases s.len(),
{
    if s.len() == 0 {
        seq![Seq::empty()]
    } else {
        let before = cut(s.drop_last(), marked);
        if marked[s.len() - 1] {
            before.push(Seq::empty())
        } else {
            before.drop_last().push(before.last().push(s.last()))
        }
    }
}

/// The pieces between the marked characters.
pub fn cut_at(s: &str, marked: &Vec<bool>) -> (r: Vec<String>)
    requires
        marked@.len() == s@.len(),
    ensures
        texts(r@) == cut(s@, marked@),
{
    let cs = chars_of(s);
    let mut parts: Vec<String> = Vec::new();
    let mut piece = String::new();
    assert(texts(parts@).push(piece@) =~= cut(s@.take(0), marked@));
    for i in 0..cs.len()
        invariant
            cs@ == s@,
            marked@.len() == s@.len(),
            texts(parts@).push(piece@) == cut(s@.take(i as int), marked@),
    {
        let ghost before = texts(parts@);
        let ghost current = piece@;
        proof {
            assert(s@.take(i as int + 1).drop_last() =~= s@.take(i as int));
            assert(before.push(current).drop_last() =~= before);
        }
        if marked[i] {
            parts.push(piece);
            piece = String::new();
            assert(texts(parts@) =~= before.push(current));
            assert(piece@ =~= Seq::empty());
        } else {
            piece.push(cs[i]);
        }
        assert(texts(parts@).push(piece@) =~= cut(s@.take(i as int + 1), marked@));
    }
    let ghost before = texts(parts@);
    let ghost current = piece@;
    parts.push(piece);
    assert(texts(parts@) =~= before.push(current));
    assert(s@.take(s@.len() as int) =~= s@);
    parts
}

/// Which characters of a text separate its words.
pub open spec fn separators(text: Seq<char>) -> Seq<bool> {
    Seq::new(text.len(), |i: int| !in_word(text[i]))
}

/// Marks the characters that separate the words of a text.
pub fn separators_of(text: &str) -> (r: Vec<bool>)
    ensures
        r@ == separators(text@),
{
    let cs = chars_of(text);
    let mut marked: Vec<bool> = Vec::new();
    for i in 0..cs.len()
        invariant
            cs@ == text@,
            marked@ == separators(text@).take(i as int),
    {
        let word: bool = alphanumeric(cs[i]) || cs[i] == '_';
        marked.push(!word);
        assert(marked@ =~= separators(text@).take(i as int + 1));
    }
    assert(marked@ =~= separators(text@));
    marked
}

/// The pieces of at least three bytes among the first `n`, in lowercase.
pub open spec fn long_words(pieces: Seq<Seq<char>>, n: int) -> Seq<Seq<char>>
    decreases n,
{
    if n <= 0 {
        Seq::empty()
    } else if bytes_of(pieces[n - 1]) >= 3 {
        long_words(pieces, n - 1).push(lowered(pieces[n - 1]))
    } else {
        long_words(pieces, n - 1)
    }
}

/// The words of a query: runs of letters, numbers and underscores, of at least three bytes, in
/// lowercase.
pub open spec fn words_of(query: Seq<char>) -> Seq<Seq<char>> {
    let pieces = cut(query, separators(query));
    long_words(pieces, pieces.len() as int)
}

/// The words of a query.
pub fn terms(query: &str) -> (r: Vec<String>)
    ensures
        texts(r@) == words_of(query@),
{
    let marked = separators_of(query);
    let parts = cut_at(query, &marked);
    let ghost pieces = texts(parts@);
    let mut out: Vec<String> = Vec::new();
    assert(texts(out@) =~= Seq::empty());
    for i in 0..parts.len()
        invariant
            pieces == texts(parts@),
            texts(out@) == long_words(pieces, i as int),
    {
        let ghost before = texts(out@);
        if byte_count(parts[i].as_str()) >= 3 {
            let word = to_lowercase(parts[i].as_str());
            out.push(word);
            assert(texts(out@) =~= before.push(word@));
        }
    }
    out
}

/// How many of the first `n` words stand in a text.
pub open spec fn present(words: Seq<Seq<char>>, body: Seq<char>, n: int) -> nat
    decreases n,
{
    if n <= 0 {
        0
    } else {
        present(words, body, n - 1) + (if contains_text(body, words[n - 1]) {
            1nat
        } else {
            0
        })
    }
}

/// How many of the words stand in a text.
pub fn terms_present(words: &Vec<String>, body: &str) -> (r: usize)
    ensures
        r == present(texts(words@), body@, words@.len() as int),
        r <= words@.len(),
{
    let mut count: usize = 0;
    for i in 0..words.len()
        invariant
            count <= i,
            count == present(texts(words@), body@, i as int),
    {
        assert(texts(words@)[i as int] == words@[i as int]@);
        if contains(body, words[i].as_str()) {
            count = count + 1;
        }
    }
    count
}

/// How many words of a query stand in a text, whatever its case.
pub fn overlap(words: &Vec<String>, rendered: &str) -> (r: usize)
    ensures
        r == present(texts(words@), lowered(rendered@), words@.len() as int),
        r <= words@.len(),
{
    let body = to_lowercase(rendered);
    terms_present(words, body.as_str())
}

/// A query without letters, numbers and underscores has no words.
pub proof fn nothing_asked_has_no_words(query: Seq<char>)
    requires
        forall|i: int| 0 <= i < query.len() ==> !in_word(#[trigger] query[i]),
    ensures
        words_of(query).len() == 0,
{
    let marked = separators(query);
    only_separators(query, marked);
    nothing_is_long(cut(query, marked), cut(query, marked).len() as int);
}

proof fn only_separators(s: Seq<char>, marked: Seq<bool>)
    requires
        s.len() <= marked.len(),
        forall|i: int| 0 <= i < s.len() ==> #[trigger] marked[i],
    ensures
        cut(s, marked).len() > 0,
        forall|i: int| 0 <= i < cut(s, marked).len() ==> (#[trigger] cut(s, marked)[i]).len() == 0,
    decreases s.len(),
{
    if s.len() > 0 {
        only_separators(s.drop_last(), marked);
        assert(marked[s.len() - 1]);
    }
}

proof fn nothing_is_long(pieces: Seq<Seq<char>>, n: int)
    requires
        0 <= n <= pieces.len(),
        forall|i: int| 0 <= i < pieces.len() ==> (#[trigger] pieces[i]).len() == 0,
    ensures
        long_words(pieces, n).len() == 0,
    decreases n,
{
    if n > 0 {
        nothing_is_long(pieces, n - 1);
        assert(pieces[n - 1] =~= Seq::empty());
        assert(bytes_of(pieces[n - 1]) == 0);
    }
}

/// The pieces between marked characters are the runs of unmarked ones: piece `k` is the part of
/// the text from `r[k].0` to `r[k].1`, no character in it is marked, one marked character lies
/// between a piece and the next, and the pieces reach from the start of the text to its end.
pub proof fn pieces_are_runs(s: Seq<char>, marked: Seq<bool>) -> (r: Seq<(int, int)>)
    requires
        s.len() <= marked.len(),
    ensures
        r.len() == cut(s, marked).len(),
        r.len() > 0,
        r[0].0 == 0,
        r.last().1 == s.len(),
        forall|k: int|
            0 <= k < r.len() ==> 0 <= (#[trigger] r[k]).0 <= r[k].1 <= s.len() && cut(s, marked)[k]
                == s.subrange(r[k].0, r[k].1),
        forall|k: int, i: int|
            #![trigger r[k], marked[i]]
            0 <= k < r.len() && r[k].0 <= i < r[k].1 ==> !marked[i],
        forall|k: int|
            0 <= k < r.len() - 1 ==> marked[(#[trigger] r[k]).1] && r[k + 1].0 == r[k].1 + 1,
    decreases s.len(),
{
    if s.len() == 0 {
        assert(s.subrange(0, 0) =~= Seq::empty());
        seq![(0int, 0int)]
    } else {
        let rest = s.drop_last();
        let before = pieces_are_runs(rest, marked);
        let old = cut(rest, marked);
        let new = cut(s, marked);
        let n = s.len() as int;
        let m = before.len() as int;
        let r = if marked[n - 1] {
            before.push((n, n))
        } else {
            before.update(m - 1, (before[m - 1].0, n))
        };
        assert forall|k: int| 0 <= k < r.len() implies 0 <= (#[trigger] r[k]).0 <= r[k].1 <= n
            && new[k] == s.subrange(r[k].0, r[k].1) by {
            if k < m {
                let a = before[k].0;
                let b = before[k].1;
                assert(0 <= a <= b <= n - 1 && old[k] == rest.subrange(a, b));
                assert(rest.subrange(a, b) =~= s.subrange(a, b));
                if k == m - 1 && !marked[n - 1] {
                    assert(b == n - 1);
                    assert(new[k] == old.last().push(s.last()));
                    assert(s.subrange(a, b).push(s.last()) =~= s.subrange(a, n));
                } else {
                    assert(new[k] == old[k]);
                }
            } else {
                assert(s.subrange(n, n) =~= new[k]);
            }
        }
        assert forall|k: int, i: int|
            #![trigger r[k], marked[i]]
            0 <= k < r.len() && r[k].0 <= i < r[k].1 implies !marked[i] by {
            if k < m && i < n - 1 {
                assert(before[k].0 == r[k].0);
                assert(before[k].0 <= i < before[k].1);
            }
        }
        assert forall|k: int| 0 <= k < r.len() - 1 implies marked[(#[trigger] r[k]).1] && r[k
            + 1].0 == r[k].1 + 1 by {
            if k < m - 1 {
                assert(before[k].1 == r[k].1);
                assert(before[k + 1].0 == before[k].1 + 1);
            }
        }
        r
    }
}

/// The words of a query are its runs of letters, numbers and underscores, in their order and in
/// lowercase: `runs` tells where each stands. Every run that takes at least three bytes is a
/// word, and no other is.
pub proof fn words_are_the_long_runs(query: &str, r: Vec<String>, from: int, to: int) -> (runs: Seq<
    (int, int),
>)
    requires
        call_ensures(terms, (query,), r),
    ensures
        runs.len() == r@.len(),
        forall|k: int|
            0 <= k < runs.len() ==> is_long_run(query@, (#[trigger] runs[k]).0, runs[k].1) && r@[k]@
                == lowered(query@.subrange(runs[k].0, runs[k].1)),
        forall|j: int, k: int|
            #![trigger runs[j], runs[k]]
            0 <= j < k < runs.len() ==> runs[j].1 <= runs[k].0,
        is_long_run(query@, from, to) ==> runs.contains((from, to)),
{
    let marked = separators(query@);
    let pieces = cut(query@, marked);
    let all = pieces_are_runs(query@, marked);
    assert forall|k: int| 0 <= k < all.len() implies is_run(
        query@,
        (#[trigger] all[k]).0,
        all[k].1,
    ) by {
        let a = all[k].0;
        let b = all[k].1;
        assert forall|i: int| a <= i < b implies in_word(#[trigger] query@[i]) by {
            assert(!marked[i]);
        }
        if k < all.len() - 1 {
            assert(marked[all[k].1]);
            assert(b < query@.len()) by {
                assert(all[k + 1].0 == b + 1);
            }
        }
        if k > 0 {
            assert(marked[all[k - 1].1]);
            assert(all[k].0 == all[k - 1].1 + 1);
        }
    }
    let runs = long_runs(query@, all, pieces.len() as int);
    assert forall|k: int| 0 <= k < runs.len() implies is_long_run(
        query@,
        (#[trigger] runs[k]).0,
        runs[k].1,
    ) && r@[k]@ == lowered(query@.subrange(runs[k].0, runs[k].1)) by {
        assert(texts(r@)[k] == r@[k]@);
    }
    if is_long_run(query@, from, to) {
        let k = the_run_at(query@, marked, all, from, 0);
        assert(is_run(query@, all[k].0, all[k].1));
        runs_agree(query@, from, to, all[k].0, all[k].1, from);
        assert(pieces[k] == query@.subrange(from, to));
        assert(runs.contains(all[k]));
    }
    runs
}

/// Whether the part of a text is a whole run of word characters: none is left out on either
/// side.
pub open spec fn is_run(s: Seq<char>, from: int, to: int) -> bool {
    &&& 0 <= from <= to <= s.len()
    &&& forall|i: int| from <= i < to ==> in_word(#[trigger] s[i])
    &&& from > 0 ==> !in_word(s[from - 1])
    &&& to < s.len() ==> !in_word(s[to])
}

/// Whether the part of a text is a run of at least three bytes.
pub open spec fn is_long_run(s: Seq<char>, from: int, to: int) -> bool {
    is_run(s, from, to) && from < to && bytes_of(s.subrange(from, to)) >= 3
}

/// Two runs with a character in common are the same.
proof fn runs_agree(s: Seq<char>, a: int, b: int, c: int, d: int, i: int)
    requires
        is_run(s, a, b),
        is_run(s, c, d),
        a <= i < b,
        c <= i < d,
    ensures
        a == c,
        b == d,
{
    if a < c {
        assert(in_word(s[c - 1]));
    } else if c < a {
        assert(in_word(s[a - 1]));
    }
    if b < d {
        assert(in_word(s[b]));
    } else if d < b {
        assert(in_word(s[d]));
    }
}

/// The piece that a word character lies in, from piece `k` on.
proof fn the_run_at(s: Seq<char>, marked: Seq<bool>, all: Seq<(int, int)>, i: int, k: int) -> (r:
    int)
    requires
        0 <= k < all.len(),
        marked == separators(s),
        0 <= i < s.len(),
        in_word(s[i]),
        all[k].0 <= i,
        all.last().1 == s.len(),
        forall|k: int|
            0 <= k < all.len() - 1 ==> marked[(#[trigger] all[k]).1] && all[k + 1].0 == all[k].1
                + 1,
    ensures
        0 <= r < all.len(),
        all[r].0 <= i < all[r].1,
    decreases all.len() - k,
{
    if i < all[k].1 {
        k
    } else {
        assert(k < all.len() - 1) by {
            if k == all.len() - 1 {
                assert(all[k] == all.last());
            }
        }
        assert(marked[all[k].1]);
        assert(i != all[k].1);
        assert(all[k + 1].0 == all[k].1 + 1);
        the_run_at(s, marked, all, i, k + 1)
    }
}

/// The long ones among the first `n` runs.
proof fn long_runs(s: Seq<char>, all: Seq<(int, int)>, n: int) -> (r: Seq<(int, int)>)
    requires
        0 <= n <= all.len(),
        all.len() == cut(s, separators(s)).len(),
        forall|k: int|
            0 <= k < all.len() ==> is_run(s, (#[trigger] all[k]).0, all[k].1) && cut(
                s,
                separators(s),
            )[k] == s.subrange(all[k].0, all[k].1),
        forall|k: int| 0 <= k < all.len() - 1 ==> all[k + 1].0 == (#[trigger] all[k]).1 + 1,
    ensures
        r.len() == long_words(cut(s, separators(s)), n).len(),
        forall|k: int|
            0 <= k < r.len() ==> is_long_run(s, (#[trigger] r[k]).0, r[k].1) && long_words(
                cut(s, separators(s)),
                n,
            )[k] == lowered(s.subrange(r[k].0, r[k].1)),
        forall|j: int, k: int|
            #![trigger r[j], r[k]]
            0 <= j < k < r.len() ==> r[j].1 <= r[k].0,
        forall|k: int|
            0 <= k < n && bytes_of(s.subrange((#[trigger] all[k]).0, all[k].1)) >= 3 ==> r.contains(
                all[k],
            ),
        r.len() > 0 ==> n > 0 && r.last().1 <= all[n - 1].1,
    decreases n,
{
    if n <= 0 {
        Seq::empty()
    } else {
        let before = long_runs(s, all, n - 1);
        let pieces = cut(s, separators(s));
        let last = all[n - 1];
        assert(is_run(s, last.0, last.1));
        assert(pieces[n - 1] == s.subrange(last.0, last.1));
        if n > 1 {
            assert(all[n - 2].1 + 1 == all[n - 1].0);
        }
        if bytes_of(pieces[n - 1]) >= 3 {
            let r = before.push(last);
            assert(last.0 < last.1) by {
                if last.0 == last.1 {
                    assert(s.subrange(last.0, last.1) =~= Seq::empty());
                    assert(bytes_of(Seq::empty()) == 0);
                }
            }
            assert(is_long_run(s, last.0, last.1));
            assert forall|k: int| 0 <= k < r.len() implies is_long_run(
                s,
                (#[trigger] r[k]).0,
                r[k].1,
            ) && long_words(pieces, n)[k] == lowered(s.subrange(r[k].0, r[k].1)) by {
                if k < before.len() {
                    assert(r[k] == before[k]);
                    assert(long_words(pieces, n)[k] == long_words(pieces, n - 1)[k]);
                }
            }
            assert forall|j: int, k: int|
                #![trigger r[j], r[k]]
                0 <= j < k < r.len() implies r[j].1 <= r[k].0 by {
                assert(r[j] == before[j]);
                if k < before.len() {
                    assert(r[k] == before[k]);
                } else {
                    if j < before.len() - 1 {
                        let l = before[before.len() - 1];
                        assert(before[j].1 <= l.0);
                        assert(is_long_run(s, l.0, l.1));
                    }
                }
            }
            assert forall|k: int|
                0 <= k < n && bytes_of(s.subrange((#[trigger] all[k]).0, all[k].1)) >= 3 implies
                r.contains(all[k]) by {
                if k < n - 1 {
                    let i = choose|i: int| 0 <= i < before.len() && before[i] == all[k];
                    assert(r[i] == all[k]);
                } else {
                    assert(r[r.len() - 1] == all[k]);
                }
            }
            r
        } else {
            before
        }
    }
}

/// The words of a query that stand in a text, whatever its case, are counted, each of them and
/// nothing else: `at` tells which.
pub proof fn overlap_counts_the_words_in_the_text(
    words: &Vec<String>,
    rendered: &str,
    r: usize,
) -> (at: Seq<int>)
    requires
        call_ensures(overlap, (words, rendered), r),
    ensures
        r == at.len(),
        at.no_duplicates(),
        forall|k: int|
            0 <= k < at.len() ==> 0 <= #[trigger] at[k] < words@.len() && contains_text(
                lowered(rendered@),
                words@[at[k]]@,
            ),
        forall|i: int|
            0 <= i < words@.len() && contains_text(lowered(rendered@), (#[trigger] words@[i])@)
                ==> at.contains(i),
{
    let at = present_ones(texts(words@), lowered(rendered@), words@.len() as int);
    assert forall|k: int| 0 <= k < at.len() implies 0 <= #[trigger] at[k] < words@.len()
        && contains_text(lowered(rendered@), words@[at[k]]@) by {
        assert(texts(words@)[at[k]] == words@[at[k]]@);
    }
    assert forall|i: int|
        0 <= i < words@.len() && contains_text(
            lowered(rendered@),
            (#[trigger] words@[i])@,
        ) implies at.contains(i) by {
        assert(texts(words@)[i] == words@[i]@);
    }
    at
}

proof fn present_ones(words: Seq<Seq<char>>, body: Seq<char>, n: int) -> (at: Seq<int>)
    requires
        0 <= n <= words.len(),
    ensures
        at.len() == present(words, body, n),
        forall|j: int, k: int|
            #![trigger at[j], at[k]]
            0 <= j < k < at.len() ==> at[j] < at[k],
        forall|k: int|
            0 <= k < at.len() ==> 0 <= #[trigger] at[k] < n && contains_text(body, words[at[k]]),
        forall|i: int|
            0 <= i < n && contains_text(body, #[trigger] words[i]) ==> at.contains(i),
    decreases n,
{
    if n <= 0 {
        Seq::empty()
    } else {
        let before = present_ones(words, body, n - 1);
        if contains_text(body, words[n - 1]) {
            let at = before.push(n - 1);
            assert forall|i: int| 0 <= i < n && contains_text(body, #[trigger] words[i]) implies
                at.contains(i) by {
                if i < n - 1 {
                    let k = choose|k: int| 0 <= k < before.len() && before[k] == i;
                    assert(at[k] == i);
                } else {
                    assert(at[at.len() - 1] == i);
                }
            }
            at
        } else {
            before
        }
    }
}

} // verus!

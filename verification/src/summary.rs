//! Extractive summaries: the most telling sentences of a text, in its own words.
//!
//! A summary made here selects text that was already written, so it cannot make up a name.

use crate::lines::{alphanumeric, is_ascii_char, is_letter_or_number, lowered, to_lowercase};
use crate::text::{
    byte_count, bytes_of, char_count, chars_of, comes_before, contains_text, is_white, join, joined, same,
    stands_at, string_of, text_before, text_order, texts, trim, trim_back, trimmed,
};
use vstd::prelude::*;
use vstd::string::*;

verus! {

/// Whether `char::is_uppercase` holds of a character.
pub uninterp spec fn is_uppercase(c: char) -> bool;

/// Whether a character is a capital letter: told by its range where it is ASCII, by Unicode's
/// Uppercase property otherwise.
pub open spec fn is_capital(c: char) -> bool {
    if is_ascii_char(c) {
        'A' <= c <= 'Z'
    } else {
        is_uppercase(c)
    }
}

/// `char::is_uppercase`: whether the character has Unicode's Uppercase property, which depends
/// on the character alone. For an ASCII character that is a letter from A to Z.
#[verifier::external_body]
fn uppercase(c: char) -> (r: bool)
    ensures
        r == is_uppercase(c),
        is_ascii_char(c) ==> r == ('A' <= c <= 'Z'),
{
    c.is_uppercase()
}

/// Whether a character ends a sentence.
pub open spec fn ends_sentence(c: char) -> bool {
    c == '.' || c == '!' || c == '?' || c == '\n'
}

/// The text cut after each character that ends a sentence. What follows the last one is the
/// last piece.
pub open spec fn pieces(s: Seq<char>) -> Seq<Seq<char>>
    decreases s.len(),
{
    if s.len() == 0 {
        seq![Seq::empty()]
    } else {
        let before = pieces(s.drop_last());
        let grown = before.drop_last().push(before.last().push(s.last()));
        if ends_sentence(s.last()) {
            grown.push(Seq::empty())
        } else {
            grown
        }
    }
}

/// The pieces among the first `n` that hold at least twelve characters, trimmed.
pub open spec fn long_pieces(list: Seq<Seq<char>>, n: nat) -> Seq<Seq<char>>
    decreases n,
{
    if n == 0 {
        Seq::empty()
    } else {
        let before = long_pieces(list, (n - 1) as nat);
        if trimmed(list[n - 1]).len() >= 12 {
            before.push(trimmed(list[n - 1]))
        } else {
            before
        }
    }
}

/// The sentences of a text that are worth quoting.
pub open spec fn sentences_of(s: Seq<char>) -> Seq<Seq<char>> {
    long_pieces(pieces(s), pieces(s).len())
}

/// Whether a character can stand in a word.
pub open spec fn in_word(c: char) -> bool {
    is_letter_or_number(c) || c == '_'
}

/// The runs of word characters, empty ones between neighbouring separators included.
pub open spec fn word_runs(s: Seq<char>) -> Seq<Seq<char>>
    decreases s.len(),
{
    if s.len() == 0 {
        seq![Seq::empty()]
    } else {
        let before = word_runs(s.drop_last());
        if in_word(s.last()) {
            before.drop_last().push(before.last().push(s.last()))
        } else {
            before.push(Seq::empty())
        }
    }
}

/// Whether a word tells something: it takes at least five bytes and looks like an identifier.
pub open spec fn is_telling(word: Seq<char>) -> bool {
    &&& bytes_of(word) >= 5
    &&& word.contains('_') || exists|i: int| 0 <= i < word.len() && is_capital(#[trigger] word[i])
}

/// The telling words among the first `n` runs, as they stand.
pub open spec fn telling_words(runs: Seq<Seq<char>>, n: nat) -> Seq<Seq<char>>
    decreases n,
{
    if n == 0 {
        Seq::empty()
    } else {
        let before = telling_words(runs, (n - 1) as nat);
        if is_telling(runs[n - 1]) {
            before.push(runs[n - 1])
        } else {
            before
        }
    }
}

/// The telling words of a sentence, as they stand.
pub open spec fn words_of(sentence: Seq<char>) -> Seq<Seq<char>> {
    telling_words(word_runs(sentence), word_runs(sentence).len())
}

/// How many of the first `n` sentences come before sentence `i`: those with more telling
/// words, and the earlier among equals.
pub open spec fn better_than(counts: Seq<nat>, i: int, n: int) -> nat
    decreases n,
{
    if n <= 0 {
        0
    } else {
        better_than(counts, i, n - 1) + (if counts[n - 1] > counts[i] || (counts[n - 1] == counts[i]
            && n - 1 < i) {
            1nat
        } else {
            0
        })
    }
}

/// Whether sentence `i` is among the `k` best.
pub open spec fn is_chosen(counts: Seq<nat>, i: int, k: nat) -> bool {
    better_than(counts, i, counts.len() as int) < k
}

/// The best sentences among the first `n`, in their order.
pub open spec fn chosen_sentences(
    units: Seq<Seq<char>>,
    counts: Seq<nat>,
    k: nat,
    n: int,
) -> Seq<Seq<char>>
    decreases n,
{
    if n <= 0 {
        Seq::empty()
    } else {
        let before = chosen_sentences(units, counts, k, n - 1);
        if is_chosen(counts, n - 1, k) {
            before.push(units[n - 1])
        } else {
            before
        }
    }
}

/// A list in order with a word put in its place, unless it is there. Words are compared in
/// lower case and listed as they stand.
pub open spec fn with_word(list: Seq<Seq<char>>, word: Seq<char>) -> Seq<Seq<char>>
    decreases list.len(),
{
    if list.len() == 0 {
        seq![word]
    } else if lowered(list[0]) == lowered(word) {
        list
    } else if text_before(lowered(word), lowered(list[0])) {
        seq![word] + list
    } else {
        seq![list[0]] + with_word(list.drop_first(), word)
    }
}

/// A list in order with each of a row of words put in its place.
pub open spec fn with_words(list: Seq<Seq<char>>, words: Seq<Seq<char>>, n: int) -> Seq<Seq<char>>
    decreases n,
{
    if n <= 0 {
        list
    } else {
        with_word(with_words(list, words, n - 1), words[n - 1])
    }
}

/// The telling words of the first `n` sentences, each once, in order. Of words that differ in
/// case only, the first one stands for all.
pub open spec fn vocabulary(units: Seq<Seq<char>>, n: int) -> Seq<Seq<char>>
    decreases n,
{
    if n <= 0 {
        Seq::empty()
    } else {
        let words = words_of(units[n - 1]);
        with_words(vocabulary(units, n - 1), words, words.len() as int)
    }
}

/// The last space in a text.
pub open spec fn last_space(s: Seq<char>) -> Option<int>
    decreases s.len(),
{
    if s.len() == 0 {
        None
    } else if s.last() == ' ' {
        Some(s.len() - 1)
    } else {
        last_space(s.drop_last())
    }
}

/// A text cut to a number of characters, at a space where there is one, with a mark that it
/// was cut.
pub open spec fn cut_at_words(s: Seq<char>, max_chars: nat) -> Seq<char> {
    if s.len() <= max_chars {
        s
    } else {
        let head = s.take(max_chars as int);
        (match last_space(head) {
            Some(i) => head.take(i),
            None => head,
        }).push('…')
    }
}

/// The extractive summary of a text: the best sentences in their order, after the first six of
/// the identifiers mentioned.
pub open spec fn summary_of(text: Seq<char>, sentences: nat, max_chars: nat) -> Seq<char> {
    let s = trimmed(text);
    let units = sentences_of(s);
    let counts = Seq::new(units.len(), |i: int| words_of(units[i]).len());
    let k = if sentences > 1 {
        sentences
    } else {
        1
    };
    let quoted = joined(chosen_sentences(units, counts, k, units.len() as int), " "@);
    let names = vocabulary(units, units.len() as int);
    let mentioned = if names.len() > 6 {
        names.take(6)
    } else {
        names
    };
    if s.len() == 0 {
        Seq::empty()
    } else if units.len() == 0 {
        cut_at_words(s, max_chars)
    } else if mentioned.len() == 0 {
        cut_at_words(quoted, max_chars)
    } else {
        cut_at_words(
            "[mentions: "@ + joined(mentioned, ", "@) + "] "@ + quoted,
            max_chars,
        )
    }
}

/// The pieces of a text are never none.
proof fn pieces_exist(s: Seq<char>)
    ensures
        pieces(s).len() > 0,
    decreases s.len(),
{
    if s.len() > 0 {
        pieces_exist(s.drop_last());
    }
}

/// The sentences of a text that are worth quoting.
fn split_sentences(s: &str) -> (r: Vec<String>)
    ensures
        texts(r@) == sentences_of(s@),
{
    let cs = chars_of(s);
    let mut units: Vec<String> = Vec::new();
    let mut piece = String::new();
    proof {
        assert(pieces(s@.take(0)) =~= seq![Seq::<char>::empty()]);
        assert(pieces(s@.take(0)).drop_last() =~= Seq::empty());
        assert(texts(units@) =~= Seq::empty());
    }
    let ghost mut done = Seq::<Seq<char>>::empty();
    for i in 0..cs.len()
        invariant
            cs@ == s@,
            done.push(piece@) == pieces(s@.take(i as int)),
            texts(units@) == long_pieces(done, done.len()),
    {
        let c: char = cs[i];
        let ghost current = piece@;
        proof {
            assert(s@.take(i as int + 1).drop_last() =~= s@.take(i as int));
            assert(done.push(current).drop_last() =~= done);
        }
        piece.push(c);
        if c == '.' || c == '!' || c == '?' || c == '\n' {
            let ghost whole = piece@;
            let ghost before = texts(units@);
            let unit = trim(piece.as_str());
            if char_count(unit.as_str()) >= 12 {
                units.push(unit);
                assert(texts(units@) =~= before.push(unit@));
            }
            proof {
                long_pieces_agree(done, done.push(whole), done.len());
                done = done.push(whole);
            }
            piece = String::new();
            assert(piece@ =~= Seq::empty());
        }
    }
    let ghost whole = piece@;
    let ghost before = texts(units@);
    let unit = trim(piece.as_str());
    if char_count(unit.as_str()) >= 12 {
        units.push(unit);
        assert(texts(units@) =~= before.push(unit@));
    }
    proof {
        assert(s@.take(s@.len() as int) =~= s@);
        long_pieces_agree(done, done.push(whole), done.len());
    }
    units
}

/// The long pieces among the first ones depend on those alone.
proof fn long_pieces_agree(a: Seq<Seq<char>>, b: Seq<Seq<char>>, n: nat)
    requires
        n <= a.len(),
        n <= b.len(),
        forall|i: int| 0 <= i < n ==> a[i] == b[i],
    ensures
        long_pieces(a, n) == long_pieces(b, n),
    decreases n,
{
    if n > 0 {
        long_pieces_agree(a, b, (n - 1) as nat);
    }
}

/// The telling words among the first runs depend on those alone.
proof fn telling_words_agree(a: Seq<Seq<char>>, b: Seq<Seq<char>>, n: nat)
    requires
        n <= a.len(),
        n <= b.len(),
        forall|i: int| 0 <= i < n ==> a[i] == b[i],
    ensures
        telling_words(a, n) == telling_words(b, n),
    decreases n,
{
    if n > 0 {
        telling_words_agree(a, b, (n - 1) as nat);
    }
}

/// Whether a word tells something.
fn telling(word: &str) -> (r: bool)
    ensures
        r == is_telling(word@),
{
    if byte_count(word) < 5 {
        return false;
    }
    let cs = chars_of(word);
    for i in 0..cs.len()
        invariant
            cs@ == word@,
            bytes_of(word@) >= 5,
            forall|k: int| 0 <= k < i ==> word@[k] != '_' && !is_capital(#[trigger] word@[k]),
    {
        if cs[i] == '_' {
            assert(word@[i as int] == '_');
            return true;
        }
        if uppercase(cs[i]) {
            assert(is_capital(word@[i as int]));
            return true;
        }
    }
    assert(!word@.contains('_'));
    false
}

/// The telling words of a sentence, as they stand.
fn find_words(sentence: &str) -> (r: Vec<String>)
    ensures
        texts(r@) == words_of(sentence@),
{
    let cs = chars_of(sentence);
    let mut out: Vec<String> = Vec::new();
    let mut run = String::new();
    proof {
        assert(word_runs(sentence@.take(0)) =~= seq![Seq::<char>::empty()]);
        assert(texts(out@) =~= Seq::empty());
    }
    let ghost mut done = Seq::<Seq<char>>::empty();
    assert(done.push(run@) =~= word_runs(sentence@.take(0)));
    for i in 0..cs.len()
        invariant
            cs@ == sentence@,
            done.push(run@) == word_runs(sentence@.take(i as int)),
            texts(out@) == telling_words(done, done.len()),
    {
        let c: char = cs[i];
        let ghost current = run@;
        proof {
            assert(sentence@.take(i as int + 1).drop_last() =~= sentence@.take(i as int));
            assert(done.push(current).drop_last() =~= done);
        }
        if c == '_' || alphanumeric(c) {
            run.push(c);
        } else {
            let ghost before = texts(out@);
            if telling(run.as_str()) {
                let word = run.clone();
                out.push(word);
                assert(texts(out@) =~= before.push(word@));
            }
            proof {
                telling_words_agree(done, done.push(current), done.len());
                done = done.push(current);
            }
            run = String::new();
            assert(run@ =~= Seq::empty());
        }
    }
    let ghost current = run@;
    let ghost before = texts(out@);
    if telling(run.as_str()) {
        let word = run.clone();
        out.push(word);
        assert(texts(out@) =~= before.push(word@));
    }
    proof {
        assert(sentence@.take(sentence@.len() as int) =~= sentence@);
        telling_words_agree(done, done.push(current), done.len());
    }
    out
}

/// Puts a word in its place in a list in order, unless it is there.
fn add_word(list: &mut Vec<String>, word: &str)
    ensures
        texts(final(list)@) == with_word(texts(old(list)@), word@),
{
    let key = to_lowercase(word);
    let ghost all = texts(list@);
    let mut at: usize = 0;
    assert(all.skip(0) =~= all);
    assert(all.take(0) + with_word(all.skip(0), word@) =~= with_word(all, word@));
    while at < list.len() && key_before(list[at].as_str(), key.as_str())
        invariant
            key@ == lowered(word@),
            all == texts(list@),
            at <= list@.len(),
            with_word(all, word@) == all.take(at as int) + with_word(all.skip(at as int), word@),
        decreases list.len() - at,
    {
        proof {
            let rest = all.skip(at as int);
            assert(rest[0] == list@[at as int]@);
            assert(rest.drop_first() =~= all.skip(at as int + 1));
            text_order(lowered(rest[0]), key@, lowered(rest[0]));
            assert(with_word(all, word@) =~= all.take(at as int + 1) + with_word(
                all.skip(at as int + 1),
                word@,
            ));
        }
        at = at + 1;
    }
    if at < list.len() && key_same(list[at].as_str(), key.as_str()) {
        assert(lowered(all.skip(at as int)[0]) == lowered(word@));
        assert(all.take(at as int) + all.skip(at as int) =~= all);
        return;
    }
    let ghost before = list@;
    let copy = word.to_owned();
    list.insert(at, copy);
    proof {
        let rest = all.skip(at as int);
        if at < before.len() {
            assert(rest[0] == before[at as int]@);
            text_order(lowered(rest[0]), key@, lowered(rest[0]));
        }
        assert(texts(list@) =~= all.take(at as int) + (seq![word@] + rest));
        if rest.len() == 0 {
            assert(seq![word@] + rest =~= seq![word@]);
        }
    }
}

/// Whether a listed word stands before a word in lower case.
fn key_before(listed: &str, key: &str) -> (r: bool)
    ensures
        r == text_before(lowered(listed@), key@),
{
    let own = to_lowercase(listed);
    comes_before(own.as_str(), key)
}

/// Whether a listed word is a word in lower case but for its case.
fn key_same(listed: &str, key: &str) -> (r: bool)
    ensures
        r == (lowered(listed@) == key@),
{
    let own = to_lowercase(listed);
    same(own.as_str(), key)
}

/// How many sentences come before sentence `i`.
fn count_better(counts: &Vec<usize>, i: usize, Ghost(list): Ghost<Seq<nat>>) -> (r: usize)
    requires
        i < counts@.len(),
        list.len() == counts@.len(),
        forall|k: int| 0 <= k < counts@.len() ==> #[trigger] counts@[k] == list[k],
    ensures
        r == better_than(list, i as int, list.len() as int),
        r <= counts@.len(),
{
    let mut n: usize = 0;
    for k in 0..counts.len()
        invariant
            i < counts@.len(),
            list.len() == counts@.len(),
            forall|k: int| 0 <= k < counts@.len() ==> #[trigger] counts@[k] == list[k],
            n == better_than(list, i as int, k as int),
            n <= k,
    {
        assert(counts@[k as int] == list[k as int]);
        assert(counts@[i as int] == list[i as int]);
        if counts[k] > counts[i] || (counts[k] == counts[i] && k < i) {
            n = n + 1;
        }
    }
    n
}

/// The last space is a space, and none comes after it.
proof fn last_space_is_last(s: Seq<char>)
    ensures
        match last_space(s) {
            Some(i) => 0 <= i < s.len() && s[i] == ' ',
            None => true,
        },
    decreases s.len(),
{
    if s.len() > 0 && s.last() != ' ' {
        last_space_is_last(s.drop_last());
    }
}

/// Cuts a text to a number of characters, at a space where there is one.
pub fn truncate_words(text: &str, max_chars: usize) -> (r: String)
    ensures
        r@ == cut_at_words(text@, max_chars as nat),
{
    let cs = chars_of(text);
    let n: usize = cs.len();
    if n <= max_chars {
        return text.to_owned();
    }
    let ghost head = text@.take(max_chars as int);
    let mut b: usize = max_chars;
    assert(head.take(b as int) =~= head);
    while b > 0 && cs[b - 1] != ' '
        invariant
            cs@ == text@,
            n == cs@.len(),
            b <= max_chars < n,
            head == text@.take(max_chars as int),
            last_space(head) == last_space(head.take(b as int)),
        decreases b,
    {
        assert(head.take(b as int).drop_last() =~= head.take(b - 1));
        b = b - 1;
    }
    let to: usize = if b > 0 {
        b - 1
    } else {
        max_chars
    };
    let mut out = string_of(cs.as_slice(), 0, to);
    proof {
        if b > 0 {
            assert(head.take(b as int).last() == ' ');
            assert(out@ =~= head.take(b - 1));
        } else {
            assert(head.take(0) =~= Seq::empty());
            assert(out@ =~= head);
        }
    }
    out.push('…');
    out
}

/// The extractive summary of a text.
pub fn extractive_summary(text: &str, sentences: usize, max_chars: usize) -> (r: String)
    ensures
        r@ == summary_of(text@, sentences as nat, max_chars as nat),
{
    let s = trim(text);
    if s.as_str().is_empty() {
        return String::new();
    }
    let units = split_sentences(s.as_str());
    let ghost list = texts(units@);
    if units.len() == 0 {
        return truncate_words(s.as_str(), max_chars);
    }
    let n: usize = units.len();
    let ghost counts_spec = Seq::new(list.len(), |i: int| words_of(list[i]).len());
    let mut counts: Vec<usize> = Vec::new();
    let mut names: Vec<String> = Vec::new();
    assert(texts(names@) =~= Seq::empty());
    for i in 0..n
        invariant
            n == units@.len(),
            list == texts(units@),
            counts@.len() == i,
            forall|k: int| 0 <= k < i ==> #[trigger] counts@[k] == words_of(list[k]).len(),
            texts(names@) == vocabulary(list, i as int),
    {
        let words = find_words(units[i].as_str());
        let ghost found = texts(words@);
        assert(found == words_of(list[i as int]));
        let ghost start = texts(names@);
        for k in 0..words.len()
            invariant
                found == texts(words@),
                texts(names@) == with_words(start, found, k as int),
        {
            add_word(&mut names, words[k].as_str());
        }
        counts.push(words.len());
    }
    let k: usize = if sentences > 1 {
        sentences
    } else {
        1
    };
    let mut quoted: Vec<String> = Vec::new();
    assert(texts(quoted@) =~= Seq::empty());
    for i in 0..n
        invariant
            n == units@.len(),
            list == texts(units@),
            counts_spec == Seq::new(list.len(), |i: int| words_of(list[i]).len()),
            counts@.len() == n,
            forall|j: int| 0 <= j < n ==> #[trigger] counts@[j] == counts_spec[j],
            texts(quoted@) == chosen_sentences(list, counts_spec, k as nat, i as int),
    {
        let ghost before = texts(quoted@);
        if count_better(&counts, i, Ghost(counts_spec)) < k {
            let unit = units[i].clone();
            quoted.push(unit);
            assert(texts(quoted@) =~= before.push(unit@));
        }
    }
    let body = join(&quoted, " ");
    let ghost all_names = texts(names@);
    while names.len() > 6
        invariant
            texts(names@) == all_names.take(names@.len() as int),
            names@.len() <= all_names.len(),
            all_names.len() > 6 ==> names@.len() >= 6,
            all_names.len() <= 6 ==> names@.len() == all_names.len(),
        decreases names.len(),
    {
        let ghost before = texts(names@);
        let _ = names.pop();
        assert(texts(names@) =~= before.drop_last());
        assert(texts(names@) =~= all_names.take(names@.len() as int));
    }
    assert(texts(names@) =~= (if all_names.len() > 6 {
        all_names.take(6)
    } else {
        all_names
    }));
    if names.len() == 0 {
        return truncate_words(body.as_str(), max_chars);
    }
    let mentioned = join(&names, ", ");
    let mut out = String::from_str("[mentions: ");
    out.append(mentioned.as_str());
    out.append("] ");
    out.append(body.as_str());
    truncate_words(out.as_str(), max_chars)
}

/// A summary is at most one character longer than asked for: the mark that it was cut.
pub proof fn summaries_respect_the_cap(text: Seq<char>, sentences: nat, max_chars: nat)
    ensures
        summary_of(text, sentences, max_chars).len() <= max_chars + 1,
{
    let s = trimmed(text);
    let units = sentences_of(s);
    let counts = Seq::new(units.len(), |i: int| words_of(units[i]).len());
    let k = if sentences > 1 {
        sentences
    } else {
        1
    };
    let quoted = joined(chosen_sentences(units, counts, k, units.len() as int), " "@);
    let names = vocabulary(units, units.len() as int);
    let mentioned = if names.len() > 6 {
        names.take(6)
    } else {
        names
    };
    cuts_are_short(s, max_chars);
    cuts_are_short(quoted, max_chars);
    cuts_are_short("[mentions: "@ + joined(mentioned, ", "@) + "] "@ + quoted, max_chars);
}

proof fn cuts_are_short(s: Seq<char>, max_chars: nat)
    ensures
        cut_at_words(s, max_chars).len() <= max_chars + 1,
{
    if s.len() > max_chars {
        last_space_is_last(s.take(max_chars as int));
    }
}

/// A piece of a text stands in it, and the last one at its end.
proof fn pieces_stand_in_the_text(s: Seq<char>, i: int) -> (k: int)
    requires
        0 <= i < pieces(s).len(),
    ensures
        stands_at(s, pieces(s)[i], k),
        i == pieces(s).len() - 1 ==> k + pieces(s)[i].len() == s.len(),
    decreases s.len(),
{
    let list = pieces(s);
    if s.len() == 0 {
        assert(s.subrange(0, 0) =~= list[i]);
        0
    } else {
        let t = s.drop_last();
        let before = pieces(t);
        pieces_exist(t);
        if i < before.len() - 1 {
            let k = pieces_stand_in_the_text(t, i);
            assert(list[i] == before[i]);
            assert(s.subrange(k, k + before[i].len()) =~= t.subrange(k, k + before[i].len()));
            k
        } else if i == before.len() - 1 {
            let k = pieces_stand_in_the_text(t, i);
            assert(list[i] == before.last().push(s.last()));
            assert(s.subrange(k, s.len() as int) =~= t.subrange(k, t.len() as int).push(s.last()));
            k
        } else {
            assert(list[i] =~= Seq::empty());
            assert(s.subrange(s.len() as int, s.len() as int) =~= list[i]);
            s.len() as int
        }
    }
}

/// A trimmed text stands in the text.
proof fn trimmed_text_stands_inside(s: Seq<char>) -> (k: int)
    ensures
        stands_at(s, trimmed(s), k),
    decreases s.len(),
{
    if s.len() > 0 && is_white(s[0]) {
        let rest = s.drop_first();
        let k = trimmed_text_stands_inside(rest);
        let n = trimmed(s).len() as int;
        assert(s.subrange(k + 1, k + 1 + n) =~= rest.subrange(k, k + n));
        k + 1
    } else {
        trim_back_is_a_prefix(s);
        assert(s.subrange(0, trimmed(s).len() as int) =~= trimmed(s));
        0
    }
}

proof fn trim_back_is_a_prefix(s: Seq<char>)
    ensures
        trim_back(s).len() <= s.len(),
        trim_back(s) == s.take(trim_back(s).len() as int),
    decreases s.len(),
{
    if s.len() > 0 && is_white(s.last()) {
        trim_back_is_a_prefix(s.drop_last());
        assert(trim_back(s) =~= s.take(trim_back(s).len() as int));
    } else {
        assert(s.take(s.len() as int) =~= s);
    }
}

/// Every sentence that can be quoted stands word for word in the text, so a summary quotes
/// nothing that was not written.
pub proof fn quoted_sentences_stand_in_the_text(s: Seq<char>, i: int) -> (k: int)
    requires
        0 <= i < sentences_of(s).len(),
    ensures
        stands_at(s, sentences_of(s)[i], k),
{
    let list = pieces(s);
    let p = long_piece_origin(list, list.len(), i);
    let a = pieces_stand_in_the_text(s, p);
    let b = trimmed_text_stands_inside(list[p]);
    let n = trimmed(list[p]).len() as int;
    let piece = s.subrange(a, a + list[p].len());
    assert(s.subrange(a + b, a + b + n) =~= piece.subrange(b, b + n));
    a + b
}

proof fn long_piece_origin(list: Seq<Seq<char>>, n: nat, i: int) -> (p: int)
    requires
        n <= list.len(),
        0 <= i < long_pieces(list, n).len(),
    ensures
        0 <= p < n,
        long_pieces(list, n)[i] == trimmed(list[p]),
    decreases n,
{
    let before = long_pieces(list, (n - 1) as nat);
    if i < before.len() {
        long_piece_origin(list, (n - 1) as nat, i)
    } else {
        n - 1
    }
}

/// What is quoted are sentences of the text, each in its place.
pub proof fn quotes_are_sentences(units: Seq<Seq<char>>, counts: Seq<nat>, k: nat, n: int, i: int) -> (p:
    int)
    requires
        0 <= n <= units.len(),
        0 <= i < chosen_sentences(units, counts, k, n).len(),
    ensures
        0 <= p < n,
        chosen_sentences(units, counts, k, n)[i] == units[p],
    decreases n,
{
    let before = chosen_sentences(units, counts, k, n - 1);
    if i < before.len() {
        quotes_are_sentences(units, counts, k, n - 1, i)
    } else {
        n - 1
    }
}

/// Whether a list is in order with no word twice, whatever the case of its letters.
pub open spec fn in_order(list: Seq<Seq<char>>) -> bool {
    forall|i: int, j: int|
        #![trigger list[i], list[j]]
        0 <= i < j < list.len() ==> text_before(lowered(list[i]), lowered(list[j]))
}

/// Whether a list holds a word but for the case of its letters.
pub open spec fn lists(list: Seq<Seq<char>>, word: Seq<char>) -> bool {
    exists|i: int| 0 <= i < list.len() && lowered(#[trigger] list[i]) == lowered(word)
}

/// Putting a word into a list keeps it in order and keeps what it holds; afterwards the word is
/// listed, and nothing else has come in.
pub proof fn words_find_their_place(list: Seq<Seq<char>>, word: Seq<char>)
    requires
        in_order(list),
    ensures
        in_order(with_word(list, word)),
        lists(with_word(list, word), word),
        forall|w: Seq<char>| list.contains(w) ==> #[trigger] with_word(list, word).contains(w),
        forall|w: Seq<char>| #[trigger]
            with_word(list, word).contains(w) ==> list.contains(w) || w == word,
    decreases list.len(),
{
    let out = with_word(list, word);
    if list.len() == 0 {
        assert(lowered(out[0]) == lowered(word));
    } else if lowered(list[0]) == lowered(word) {
        assert(lowered(out[0]) == lowered(word));
    } else if text_before(lowered(word), lowered(list[0])) {
        assert(lowered(out[0]) == lowered(word));
        assert forall|i: int, j: int|
            #![trigger out[i], out[j]]
            0 <= i < j < out.len() implies text_before(lowered(out[i]), lowered(out[j])) by {
            if i == 0 {
                if j > 1 {
                    text_order(lowered(word), lowered(list[0]), lowered(list[j - 1]));
                }
            } else {
                assert(out[i] == list[i - 1] && out[j] == list[j - 1]);
            }
        }
        assert forall|w: Seq<char>| list.contains(w) implies #[trigger] out.contains(w) by {
            let k = choose|k: int| 0 <= k < list.len() && list[k] == w;
            assert(out[k + 1] == w);
        }
        assert forall|w: Seq<char>| #[trigger] out.contains(w) implies list.contains(w) || w
            == word by {
            let k = choose|k: int| 0 <= k < out.len() && out[k] == w;
            if k > 0 {
                assert(list[k - 1] == w);
            }
        }
    } else {
        let rest = list.drop_first();
        let tail = with_word(rest, word);
        assert(in_order(rest)) by {
            assert forall|i: int, j: int|
                #![trigger rest[i], rest[j]]
                0 <= i < j < rest.len() implies text_before(
                lowered(rest[i]),
                lowered(rest[j]),
            ) by {
                assert(rest[i] == list[i + 1] && rest[j] == list[j + 1]);
            }
        }
        words_find_their_place(rest, word);
        let m = choose|m: int| 0 <= m < tail.len() && lowered(#[trigger] tail[m]) == lowered(word);
        assert(out[m + 1] == tail[m]);
        assert forall|i: int, j: int|
            #![trigger out[i], out[j]]
            0 <= i < j < out.len() implies text_before(lowered(out[i]), lowered(out[j])) by {
            assert(out[j] == tail[j - 1]);
            if i == 0 {
                assert(tail.contains(tail[j - 1]));
                if rest.contains(tail[j - 1]) {
                    let k = choose|k: int| 0 <= k < rest.len() && rest[k] == tail[j - 1];
                    assert(list[k + 1] == tail[j - 1]);
                    assert(text_before(lowered(list[0]), lowered(list[k + 1])));
                } else {
                    text_order(lowered(list[0]), lowered(word), lowered(list[0]));
                }
            } else {
                assert(out[i] == tail[i - 1]);
            }
        }
        assert forall|w: Seq<char>| list.contains(w) implies #[trigger] out.contains(w) by {
            let k = choose|k: int| 0 <= k < list.len() && list[k] == w;
            if k == 0 {
                assert(out[0] == w);
            } else {
                assert(rest[k - 1] == w);
                assert(tail.contains(w));
                let n = choose|n: int| 0 <= n < tail.len() && tail[n] == w;
                assert(out[n + 1] == w);
            }
        }
        assert forall|w: Seq<char>| #[trigger] out.contains(w) implies list.contains(w) || w
            == word by {
            let k = choose|k: int| 0 <= k < out.len() && out[k] == w;
            if k == 0 {
                assert(list[0] == w);
            } else {
                assert(tail[k - 1] == w);
                assert(tail.contains(w));
                if rest.contains(w) {
                    let n = choose|n: int| 0 <= n < rest.len() && rest[n] == w;
                    assert(list[n + 1] == w);
                }
            }
        }
    }
}

/// Whether a word is a telling word of one of the first `n` sentences.
pub open spec fn is_mentioned(units: Seq<Seq<char>>, word: Seq<char>, n: int) -> bool {
    exists|i: int| 0 <= i < n && (#[trigger] words_of(units[i])).contains(word)
}

/// The identifiers listed in a summary are those of the text: in order and none twice, each as
/// it stands in a sentence, and none left out but for the case of its letters.
pub proof fn mentions_are_of_the_text(units: Seq<Seq<char>>, n: int)
    requires
        0 <= n <= units.len(),
    ensures
        in_order(vocabulary(units, n)),
        forall|w: Seq<char>| #[trigger]
            vocabulary(units, n).contains(w) ==> is_mentioned(units, w, n),
        forall|w: Seq<char>|
            is_mentioned(units, w, n) ==> #[trigger] lists(vocabulary(units, n), w),
    decreases n,
{
    if n > 0 {
        mentions_are_of_the_text(units, n - 1);
        let before = vocabulary(units, n - 1);
        let after = vocabulary(units, n);
        let words = words_of(units[n - 1]);
        rows_of_words_find_their_place(before, words, words.len() as int);
        assert forall|w: Seq<char>| #[trigger] after.contains(w) implies is_mentioned(
            units,
            w,
            n,
        ) by {
            if words.contains(w) {
                assert(words_of(units[n - 1]).contains(w));
            } else {
                let i = choose|i: int|
                    0 <= i < n - 1 && (#[trigger] words_of(units[i])).contains(w);
                assert(words_of(units[i]).contains(w));
            }
        }
        assert forall|w: Seq<char>| is_mentioned(units, w, n) implies #[trigger] lists(
            after,
            w,
        ) by {
            let i = choose|i: int| 0 <= i < n && (#[trigger] words_of(units[i])).contains(w);
            if i < n - 1 {
                assert(is_mentioned(units, w, n - 1));
                assert(lists(before, w));
                let k = choose|k: int|
                    0 <= k < before.len() && lowered(#[trigger] before[k]) == lowered(w);
                assert(before.contains(before[k]));
                assert(after.contains(before[k]));
                let m = choose|m: int| 0 <= m < after.len() && after[m] == before[k];
                assert(lowered(after[m]) == lowered(w));
            }
        }
    }
}

proof fn rows_of_words_find_their_place(list: Seq<Seq<char>>, words: Seq<Seq<char>>, n: int)
    requires
        in_order(list),
        0 <= n <= words.len(),
    ensures
        in_order(with_words(list, words, n)),
        forall|w: Seq<char>|
            list.contains(w) ==> #[trigger] with_words(list, words, n).contains(w),
        forall|w: Seq<char>| #[trigger]
            with_words(list, words, n).contains(w) ==> list.contains(w) || words.contains(w),
        forall|i: int| 0 <= i < n ==> lists(with_words(list, words, n), #[trigger] words[i]),
    decreases n,
{
    if n > 0 {
        rows_of_words_find_their_place(list, words, n - 1);
        let before = with_words(list, words, n - 1);
        let after = with_words(list, words, n);
        words_find_their_place(before, words[n - 1]);
        assert(words.contains(words[n - 1]));
        assert forall|i: int| 0 <= i < n implies lists(after, #[trigger] words[i]) by {
            if i < n - 1 {
                let k = choose|k: int|
                    0 <= k < before.len() && lowered(#[trigger] before[k]) == lowered(words[i]);
                assert(before.contains(before[k]));
                assert(after.contains(before[k]));
                let m = choose|m: int| 0 <= m < after.len() && after[m] == before[k];
                assert(lowered(after[m]) == lowered(words[i]));
            }
        }
    }
}

/// A run of word characters stands in the text, and the last one at its end.
proof fn runs_stand_in_the_text(s: Seq<char>, i: int) -> (k: int)
    requires
        0 <= i < word_runs(s).len(),
    ensures
        stands_at(s, word_runs(s)[i], k),
        i == word_runs(s).len() - 1 ==> k + word_runs(s)[i].len() == s.len(),
    decreases s.len(),
{
    let list = word_runs(s);
    if s.len() == 0 {
        assert(s.subrange(0, 0) =~= list[i]);
        0
    } else {
        let t = s.drop_last();
        let before = word_runs(t);
        runs_exist(t);
        if in_word(s.last()) && i == before.len() - 1 {
            let k = runs_stand_in_the_text(t, i);
            assert(list[i] == before.last().push(s.last()));
            assert(s.subrange(k, s.len() as int) =~= t.subrange(k, t.len() as int).push(s.last()));
            k
        } else if i < before.len() {
            let k = runs_stand_in_the_text(t, i);
            assert(list[i] == before[i]);
            assert(s.subrange(k, k + before[i].len()) =~= t.subrange(k, k + before[i].len()));
            k
        } else {
            assert(s.subrange(s.len() as int, s.len() as int) =~= list[i]);
            s.len() as int
        }
    }
}

proof fn runs_exist(s: Seq<char>)
    ensures
        word_runs(s).len() > 0,
    decreases s.len(),
{
    if s.len() > 0 {
        runs_exist(s.drop_last());
    }
}

proof fn telling_word_origin(runs: Seq<Seq<char>>, n: nat, i: int) -> (p: int)
    requires
        n <= runs.len(),
        0 <= i < telling_words(runs, n).len(),
    ensures
        0 <= p < n,
        telling_words(runs, n)[i] == runs[p],
    decreases n,
{
    let before = telling_words(runs, (n - 1) as nat);
    if i < before.len() {
        telling_word_origin(runs, (n - 1) as nat, i)
    } else {
        n - 1
    }
}

/// What stands in a text that stands in another stands in that one.
proof fn parts_of_parts(s: Seq<char>, t: Seq<char>, w: Seq<char>)
    requires
        contains_text(s, t),
        contains_text(t, w),
    ensures
        contains_text(s, w),
{
    let a = choose|a: int| stands_at(s, t, a);
    let b = choose|b: int| stands_at(t, w, b);
    assert(s.subrange(a + b, a + b + w.len()) =~= s.subrange(a, a + t.len()).subrange(
        b,
        b + w.len(),
    ));
    assert(stands_at(s, w, a + b));
}

/// Whether all characters can stand in a word.
pub open spec fn is_run(w: Seq<char>) -> bool {
    forall|i: int| 0 <= i < w.len() ==> in_word(#[trigger] w[i])
}

/// A run does not reach over a place where a word ends.
proof fn runs_keep_to_one_side(x: Seq<char>, y: Seq<char>, w: Seq<char>)
    requires
        is_run(w),
        contains_text(x + y, w),
        x.len() == 0 || y.len() == 0 || !in_word(x.last()) || !in_word(y[0]),
    ensures
        contains_text(x, w) || contains_text(y, w),
{
    let s = x + y;
    let n = x.len() as int;
    let a = choose|a: int| stands_at(s, w, a);
    let b = a + w.len();
    if b <= n {
        assert(x.subrange(a, b) =~= s.subrange(a, b));
        assert(stands_at(x, w, a));
    } else if a >= n {
        assert(y.subrange(a - n, b - n) =~= s.subrange(a, b));
        assert(stands_at(y, w, a - n));
    } else {
        assert(w[n - 1 - a] == s[n - 1] && s[n - 1] == x.last());
        assert(w[n - a] == s[n] && s[n] == y[0]);
        assert(in_word(w[n - 1 - a]) && in_word(w[n - a]));
    }
}

/// What holds nothing that can stand in a word holds no run but the empty one.
proof fn gaps_hold_no_run(gap: Seq<char>, other: Seq<char>, w: Seq<char>)
    requires
        is_run(w),
        contains_text(gap, w),
        forall|i: int| 0 <= i < gap.len() ==> !in_word(#[trigger] gap[i]),
    ensures
        contains_text(other, w),
{
    let a = choose|a: int| stands_at(gap, w, a);
    if w.len() > 0 {
        assert(w[0] == gap[a]);
        assert(in_word(w[0]));
    }
    assert(other.subrange(0, 0) =~= w);
    assert(stands_at(other, w, 0));
}

/// A run of a joined list stands in one of its members.
proof fn runs_of_a_joined_list(list: Seq<Seq<char>>, sep: Seq<char>, w: Seq<char>) -> (i: int)
    requires
        list.len() > 0,
        sep.len() > 0,
        is_run(w),
        forall|i: int| 0 <= i < sep.len() ==> !in_word(#[trigger] sep[i]),
        contains_text(joined(list, sep), w),
    ensures
        0 <= i < list.len(),
        contains_text(list[i], w),
    decreases list.len(),
{
    if list.len() == 1 {
        assert(joined(list, sep) =~= list[0]);
        0
    } else {
        let rest = list.drop_last();
        let before = joined(rest, sep);
        let last = list.last();
        assert(joined(list, sep) =~= (before + sep) + last);
        assert((before + sep).last() == sep.last());
        assert(!in_word(sep[sep.len() - 1]));
        runs_keep_to_one_side(before + sep, last, w);
        if contains_text(last, w) {
            list.len() - 1
        } else {
            assert(!in_word(sep[0]));
            runs_keep_to_one_side(before, sep, w);
            if !contains_text(before, w) {
                gaps_hold_no_run(sep, before, w);
            }
            let i = runs_of_a_joined_list(rest, sep, w);
            assert(list[i] == rest[i]);
            i
        }
    }
}

/// Cutting a text adds nothing to it but the mark.
proof fn cuts_add_nothing(s: Seq<char>, max_chars: nat, w: Seq<char>)
    requires
        contains_text(cut_at_words(s, max_chars), w),
        !w.contains('…'),
    ensures
        contains_text(s, w),
{
    let cut = cut_at_words(s, max_chars);
    if s.len() > max_chars {
        last_space_is_last(s.take(max_chars as int));
        let a = choose|a: int| stands_at(cut, w, a);
        let b = a + w.len();
        if w.len() > 0 && b == cut.len() {
            assert(w[w.len() - 1] == cut.last());
            assert(w.contains('…'));
        }
        if w.len() == 0 {
            assert(s.subrange(0, 0) =~= w);
            assert(stands_at(s, w, 0));
        } else {
            assert(s.subrange(a, b) =~= cut.subrange(a, b));
            assert(stands_at(s, w, a));
        }
    }
}

/// The heading of the mentions holds one word.
proof fn the_heading_is_one_word(w: Seq<char>)
    requires
        is_run(w),
        contains_text("[mentions: "@, w),
    ensures
        contains_text("mentions"@, w),
{
    reveal_strlit("[mentions: ");
    reveal_strlit("mentions");
    let head = "[mentions: "@;
    let a = choose|a: int| stands_at(head, w, a);
    let b = a + w.len();
    if w.len() == 0 {
        assert("mentions"@.subrange(0, 0) =~= w);
        assert(stands_at("mentions"@, w, 0));
    } else {
        assert(w[0] == head[a] && w[w.len() - 1] == head[b - 1]);
        assert(in_word(w[0]) && in_word(w[w.len() - 1]));
        assert(!in_word(head[0]) && !in_word(head[9]) && !in_word(head[10]));
        if b > 9 && a <= 9 {
            assert(w[9 - a] == head[9]);
            assert(in_word(w[9 - a]));
        }
        assert(head.subrange(1, 9) =~= "mentions"@);
        assert("mentions"@.subrange(a - 1, b - 1) =~= head.subrange(a, b));
        assert(stands_at("mentions"@, w, a - 1));
    }
}

/// A summary makes up no word: every run of word characters in it stands in the text, but for
/// the heading of the mentions and the mark of a cut.
pub proof fn summaries_make_up_no_word(
    text: Seq<char>,
    sentences: nat,
    max_chars: nat,
    w: Seq<char>,
)
    requires
        contains_text(summary_of(text, sentences, max_chars), w),
        is_run(w),
        !w.contains('…'),
    ensures
        contains_text(text, w) || contains_text("mentions"@, w),
        is_telling(w) ==> contains_text(text, w),
{
    let s = trimmed(text);
    let units = sentences_of(s);
    let n = units.len() as int;
    let counts = Seq::new(units.len(), |i: int| words_of(units[i]).len());
    let k = if sentences > 1 {
        sentences
    } else {
        1
    };
    let chosen = chosen_sentences(units, counts, k, n);
    let quoted = joined(chosen, " "@);
    let names = vocabulary(units, n);
    let mentioned = if names.len() > 6 {
        names.take(6)
    } else {
        names
    };
    let head = "[mentions: "@;
    let list = joined(mentioned, ", "@);
    let whole = head + list + "] "@ + quoted;
    let inside = trimmed_text_stands_inside(text);
    assert(contains_text(text, s));
    reveal_strlit(" ");
    reveal_strlit(", ");
    reveal_strlit("] ");
    reveal_strlit("[mentions: ");
    if s.len() == 0 {
        assert(text.subrange(0, 0) =~= w);
        assert(stands_at(text, w, 0));
    } else if n == 0 {
        cuts_add_nothing(s, max_chars, w);
        parts_of_parts(text, s, w);
    } else if mentioned.len() == 0 {
        cuts_add_nothing(quoted, max_chars, w);
        quoted_runs_stand_in_the_text(text, chosen, counts, k, w);
    } else {
        cuts_add_nothing(whole, max_chars, w);
        assert((head + list + "] "@).last() == ' ');
        runs_keep_to_one_side(head + list + "] "@, quoted, w);
        if contains_text(quoted, w) {
            quoted_runs_stand_in_the_text(text, chosen, counts, k, w);
        } else {
            runs_keep_to_one_side(head + list, "] "@, w);
            if !contains_text(head + list, w) {
                gaps_hold_no_run("] "@, head + list, w);
            }
            assert(head.last() == ' ');
            runs_keep_to_one_side(head, list, w);
            if contains_text(list, w) {
                let i = runs_of_a_joined_list(mentioned, ", "@, w);
                assert(names[i] == mentioned[i]);
                assert(names.contains(names[i]));
                mentions_are_of_the_text(units, n);
                let u = choose|u: int|
                    0 <= u < n && (#[trigger] words_of(units[u])).contains(names[i]);
                let words = words_of(units[u]);
                let j = choose|j: int| 0 <= j < words.len() && words[j] == names[i];
                let runs = word_runs(units[u]);
                let p = telling_word_origin(runs, runs.len(), j);
                let at = runs_stand_in_the_text(units[u], p);
                assert(contains_text(units[u], names[i]));
                let there = quoted_sentences_stand_in_the_text(s, u);
                assert(contains_text(s, units[u]));
                parts_of_parts(units[u], names[i], w);
                parts_of_parts(s, units[u], w);
                parts_of_parts(text, s, w);
            } else {
                the_heading_is_one_word(w);
            }
        }
    }
    if is_telling(w) && contains_text("mentions"@, w) {
        reveal_strlit("mentions");
        let a = choose|a: int| stands_at("mentions"@, w, a);
        assert forall|i: int| 0 <= i < w.len() implies w[i] != '_' && !is_capital(
            #[trigger] w[i],
        ) by {
            assert(w[i] == "mentions"@[a + i]);
        }
        assert(!w.contains('_'));
    }
}

proof fn quoted_runs_stand_in_the_text(
    text: Seq<char>,
    chosen: Seq<Seq<char>>,
    counts: Seq<nat>,
    k: nat,
    w: Seq<char>,
)
    requires
        is_run(w),
        chosen == chosen_sentences(
            sentences_of(trimmed(text)),
            counts,
            k,
            sentences_of(trimmed(text)).len() as int,
        ),
        contains_text(joined(chosen, " "@), w),
    ensures
        contains_text(text, w),
{
    let s = trimmed(text);
    let units = sentences_of(s);
    let inside = trimmed_text_stands_inside(text);
    assert(contains_text(text, s));
    reveal_strlit(" ");
    if chosen.len() == 0 {
        let a = choose|a: int| stands_at(joined(chosen, " "@), w, a);
        assert(text.subrange(0, 0) =~= w);
        assert(stands_at(text, w, 0));
    } else {
        let i = runs_of_a_joined_list(chosen, " "@, w);
        let p = quotes_are_sentences(units, counts, k, units.len() as int, i);
        let there = quoted_sentences_stand_in_the_text(s, p);
        assert(contains_text(s, units[p]));
        parts_of_parts(s, units[p], w);
        parts_of_parts(text, s, w);
    }
}

/// Whether sentence `i` is better than sentence `j`: it has more telling words, or as many and
/// comes earlier.
pub open spec fn is_better(counts: Seq<nat>, i: int, j: int) -> bool {
    counts[i] > counts[j] || (counts[i] == counts[j] && i < j)
}

/// A better sentence has fewer that are better still.
proof fn better_ranks_lower(counts: Seq<nat>, i: int, j: int, n: int)
    requires
        0 <= i < counts.len(),
        0 <= j < counts.len(),
        0 <= n <= counts.len(),
        is_better(counts, i, j),
    ensures
        better_than(counts, i, n) + (if i < n {
            1nat
        } else {
            0
        }) <= better_than(counts, j, n),
    decreases n,
{
    if n > 0 {
        better_ranks_lower(counts, i, j, n - 1);
    }
}

/// Which sentences are chosen among the first `n`.
proof fn chosen_places(units: Seq<Seq<char>>, counts: Seq<nat>, k: nat, n: int) -> (at: Seq<int>)
    requires
        0 <= n <= units.len() == counts.len(),
    ensures
        at.len() == chosen_sentences(units, counts, k, n).len(),
        forall|m: int|
            0 <= m < at.len() ==> 0 <= #[trigger] at[m] < n && is_chosen(counts, at[m], k)
                && chosen_sentences(units, counts, k, n)[m] == units[at[m]],
        forall|l: int, m: int| 0 <= l < m < at.len() ==> #[trigger] at[l] < #[trigger] at[m],
        forall|i: int| 0 <= i < n && #[trigger] is_chosen(counts, i, k) ==> at.contains(i),
        (forall|i: int| 0 <= i < n ==> #[trigger] is_chosen(counts, i, k)) ==> at.len() == n,
    decreases n,
{
    if n == 0 {
        Seq::empty()
    } else {
        let before = chosen_places(units, counts, k, n - 1);
        if is_chosen(counts, n - 1, k) {
            let at = before.push(n - 1);
            assert forall|i: int| 0 <= i < n && #[trigger] is_chosen(
                counts,
                i,
                k,
            ) implies at.contains(i) by {
                if i == n - 1 {
                    assert(at[at.len() - 1] == i);
                } else {
                    let m = choose|m: int| 0 <= m < before.len() && before[m] == i;
                    assert(at[m] == i);
                }
            }
            assert forall|m: int| 0 <= m < at.len() implies 0 <= #[trigger] at[m] < n && is_chosen(
                counts,
                at[m],
                k,
            ) && chosen_sentences(units, counts, k, n)[m] == units[at[m]] by {
                if m < before.len() {
                    assert(at[m] == before[m]);
                }
            }
            at
        } else {
            before
        }
    }
}

/// Distinct numbers below a bound are no more than the bound.
proof fn distinct_and_below(list: Seq<int>, bound: nat)
    requires
        list.no_duplicates(),
        forall|i: int| 0 <= i < list.len() ==> 0 <= #[trigger] list[i] < bound,
    ensures
        list.len() <= bound,
{
    list.unique_seq_to_set();
    vstd::set_lib::lemma_int_range(0, bound as int);
    vstd::set_lib::lemma_len_subset(
        list.to_set(),
        vstd::set_lib::set_int_range(0, bound as int),
    );
}

/// The best of the sentences that are not chosen.
proof fn best_left_out(counts: Seq<nat>, k: nat, j: int) -> (r: int)
    requires
        0 <= j < counts.len(),
        !is_chosen(counts, j, k),
    ensures
        0 <= r < counts.len(),
        !is_chosen(counts, r, k),
        forall|i: int|
            0 <= i < counts.len() && #[trigger] is_better(counts, i, r) ==> is_chosen(counts, i, k),
    decreases better_than(counts, j, counts.len() as int),
{
    if exists|i: int|
        0 <= i < counts.len() && #[trigger] is_better(counts, i, j) && !is_chosen(counts, i, k) {
        let i = choose|i: int|
            0 <= i < counts.len() && #[trigger] is_better(counts, i, j) && !is_chosen(counts, i, k);
        better_ranks_lower(counts, i, j, counts.len() as int);
        best_left_out(counts, k, i)
    } else {
        j
    }
}

/// Those better than a sentence are no more than those chosen, where all of them are chosen.
proof fn the_better_are_chosen(
    units: Seq<Seq<char>>,
    counts: Seq<nat>,
    k: nat,
    j: int,
    n: int,
)
    requires
        0 <= n <= units.len() == counts.len(),
        0 <= j < counts.len(),
        forall|i: int|
            0 <= i < counts.len() && #[trigger] is_better(counts, i, j) ==> is_chosen(counts, i, k),
    ensures
        better_than(counts, j, n) <= chosen_sentences(units, counts, k, n).len(),
    decreases n,
{
    if n > 0 {
        the_better_are_chosen(units, counts, k, j, n - 1);
        if is_better(counts, n - 1, j) {
            assert(is_chosen(counts, n - 1, k));
        }
    }
}

/// A summary quotes as many sentences as it is asked for, one at least, or all there are; in
/// the order of the text; and none is left out for one with fewer telling words, nor for a
/// later one with as many. The places of the sentences that are quoted are returned.
pub proof fn a_summary_quotes_the_most_telling_sentences(
    text: &str,
    sentences: usize,
    max_chars: usize,
    r: String,
) -> (picked: Seq<int>)
    requires
        call_ensures(extractive_summary, (text, sentences, max_chars), r),
        sentences_of(trimmed(text@)).len() > 0,
    ensures
        ({
            let units = sentences_of(trimmed(text@));
            let wanted = if sentences > 1 {
                sentences as int
            } else {
                1
            };
            &&& picked.len() == (if wanted < units.len() {
                wanted
            } else {
                units.len() as int
            })
            &&& forall|m: int| 0 <= m < picked.len() ==> 0 <= #[trigger] picked[m] < units.len()
            &&& forall|l: int, m: int|
                0 <= l < m < picked.len() ==> #[trigger] picked[l] < #[trigger] picked[m]
            &&& forall|m: int, j: int|
                #![trigger picked[m], units[j]]
                0 <= m < picked.len() && 0 <= j < units.len() && !picked.contains(j) ==> words_of(
                    units[picked[m]],
                ).len() > words_of(units[j]).len() || (words_of(units[picked[m]]).len() == words_of(
                    units[j],
                ).len() && picked[m] < j)
        }),
        ({
            let units = sentences_of(trimmed(text@));
            let quoted = joined(Seq::new(picked.len(), |m: int| units[picked[m]]), " "@);
            let names = vocabulary(units, units.len() as int);
            &&& names.len() == 0 ==> r@ == cut_at_words(quoted, max_chars as nat)
            &&& 0 < names.len() <= 6 ==> r@ == cut_at_words(
                "[mentions: "@ + joined(names, ", "@) + "] "@ + quoted,
                max_chars as nat,
            )
            &&& names.len() > 6 ==> r@ == cut_at_words(
                "[mentions: "@ + joined(names.take(6), ", "@) + "] "@ + quoted,
                max_chars as nat,
            )
        }),
{
    let s = trimmed(text@);
    let units = sentences_of(s);
    let n = units.len() as int;
    let counts = Seq::new(units.len(), |i: int| words_of(units[i]).len());
    let k: nat = if sentences > 1 {
        sentences as nat
    } else {
        1
    };
    let at = chosen_places(units, counts, k, n);
    let there = quoted_sentences_stand_in_the_text(s, 0);
    let origin = long_piece_origin(pieces(s), pieces(s).len(), 0);
    long_pieces_are_long(pieces(s), pieces(s).len());
    assert(units[0].len() >= 12);
    assert(s.len() > 0);
    distinct_and_below(at, n as nat);
    let ranks = Seq::new(at.len(), |m: int| better_than(counts, at[m], n) as int);
    assert forall|l: int, m: int| 0 <= l < m < ranks.len() implies ranks[l] != ranks[m] by {
        assert(at[l] < at[m]);
        if is_better(counts, at[l], at[m]) {
            better_ranks_lower(counts, at[l], at[m], n);
        } else {
            better_ranks_lower(counts, at[m], at[l], n);
        }
    }
    assert forall|m: int| 0 <= m < ranks.len() implies 0 <= #[trigger] ranks[m] < k by {
        assert(is_chosen(counts, at[m], k));
    }
    distinct_and_below(ranks, k);
    if exists|j: int| 0 <= j < n && !#[trigger] is_chosen(counts, j, k) {
        let j = choose|j: int| 0 <= j < n && !#[trigger] is_chosen(counts, j, k);
        let best = best_left_out(counts, k, j);
        the_better_are_chosen(units, counts, k, best, n);
    }
    assert forall|m: int, j: int|
        #![trigger at[m], units[j]]
        0 <= m < at.len() && 0 <= j < n && !at.contains(j) implies words_of(units[at[m]]).len()
        > words_of(units[j]).len() || (words_of(units[at[m]]).len() == words_of(units[j]).len()
        && at[m] < j) by {
        assert(is_chosen(counts, at[m], k) && !is_chosen(counts, j, k));
        assert(counts[j] == words_of(units[j]).len());
        assert(counts[at[m]] == words_of(units[at[m]]).len());
        if !is_better(counts, at[m], j) {
            assert(at[m] != j);
            better_ranks_lower(counts, j, at[m], n);
        }
    }
    assert(Seq::new(at.len(), |m: int| units[at[m]]) =~= chosen_sentences(units, counts, k, n));
    at
}

proof fn long_pieces_are_long(list: Seq<Seq<char>>, n: nat)
    requires
        n <= list.len(),
    ensures
        forall|i: int|
            0 <= i < long_pieces(list, n).len() ==> (#[trigger] long_pieces(list, n)[i]).len()
                >= 12,
    decreases n,
{
    if n > 0 {
        long_pieces_are_long(list, (n - 1) as nat);
        let before = long_pieces(list, (n - 1) as nat);
        assert forall|i: int| 0 <= i < long_pieces(list, n).len() implies (#[trigger] long_pieces(
            list,
            n,
        )[i]).len() >= 12 by {
            if i < before.len() {
                assert(long_pieces(list, n)[i] == before[i]);
            }
        }
    }
}

proof fn long_pieces_are_kept(list: Seq<Seq<char>>, n: nat, p: int) -> (i: int)
    requires
        0 <= p < n <= list.len(),
        trimmed(list[p]).len() >= 12,
    ensures
        0 <= i < long_pieces(list, n).len(),
        long_pieces(list, n)[i] == trimmed(list[p]),
    decreases n,
{
    let before = long_pieces(list, (n - 1) as nat);
    if p == n - 1 {
        before.len() as int
    } else {
        let i = long_pieces_are_kept(list, (n - 1) as nat, p);
        assert(long_pieces(list, n)[i] == before[i]);
        i
    }
}

/// The piece that a stretch of the text is: from after a sentence end to the next.
proof fn the_piece_at(s: Seq<char>, a: int, b: int) -> (p: int)
    requires
        0 <= a <= b <= s.len(),
        a == 0 || ends_sentence(s[a - 1]),
        forall|i: int| a <= i < b - 1 ==> !ends_sentence(#[trigger] s[i]),
        b == s.len() || (a < b && ends_sentence(s[b - 1])),
    ensures
        0 <= p < pieces(s).len(),
        pieces(s)[p] == s.subrange(a, b),
        p == pieces(s).len() - 1 <==> b == s.len() && (a == b || !ends_sentence(s[b - 1])),
    decreases s.len(),
{
    if s.len() == 0 {
        assert(s.subrange(0, 0) =~= Seq::empty());
        0
    } else {
        let t = s.drop_last();
        let before = pieces(t);
        pieces_exist(t);
        if b == s.len() && a == b {
            assert(s.subrange(a, b) =~= Seq::empty());
            pieces(s).len() - 1
        } else if b == s.len() {
            if a < b - 1 {
                assert(!ends_sentence(s[b - 2]));
                assert(t[b - 2] == s[b - 2]);
            }
            assert forall|i: int| a <= i < b - 2 implies !ends_sentence(#[trigger] t[i]) by {
                assert(t[i] == s[i]);
            }
            let q = the_piece_at(t, a, b - 1);
            assert(s.subrange(a, b) =~= t.subrange(a, b - 1).push(s.last()));
            before.len() - 1
        } else {
            assert forall|i: int| a <= i < b - 1 implies !ends_sentence(#[trigger] t[i]) by {
                assert(t[i] == s[i]);
            }
            assert(t[b - 1] == s[b - 1]);
            let q = the_piece_at(t, a, b);
            assert(s.subrange(a, b) =~= t.subrange(a, b));
            q
        }
    }
}

/// A sentence ends with a period, an exclamation mark, a question mark or a line end, or with
/// the text. It can be quoted where twelve characters of it are left once trimmed, and nothing
/// shorter can.
pub proof fn sentences_of_twelve_characters_can_be_quoted(s: Seq<char>, a: int, b: int, i: int)
    requires
        0 <= a < b <= s.len(),
        a == 0 || s[a - 1] == '.' || s[a - 1] == '!' || s[a - 1] == '?' || s[a - 1] == '\n',
        forall|j: int|
            a <= j < b - 1 ==> #[trigger] s[j] != '.' && s[j] != '!' && s[j] != '?' && s[j]
                != '\n',
        b == s.len() || s[b - 1] == '.' || s[b - 1] == '!' || s[b - 1] == '?' || s[b - 1] == '\n',
        0 <= i < sentences_of(s).len(),
    ensures
        trimmed(s.subrange(a, b)).len() >= 12 ==> sentences_of(s).contains(
            trimmed(s.subrange(a, b)),
        ),
        sentences_of(s)[i].len() >= 12,
{
    let p = the_piece_at(s, a, b);
    let list = pieces(s);
    long_pieces_are_long(list, list.len());
    if trimmed(list[p]).len() >= 12 {
        let k = long_pieces_are_kept(list, list.len(), p);
        assert(sentences_of(s)[k] == trimmed(list[p]));
    }
}

/// The run that a stretch of word characters is.
proof fn the_word_run_at(s: Seq<char>, a: int, b: int) -> (p: int)
    requires
        0 <= a <= b <= s.len(),
        a == 0 || !in_word(s[a - 1]),
        forall|i: int| a <= i < b ==> in_word(#[trigger] s[i]),
        b == s.len() || !in_word(s[b]),
    ensures
        0 <= p < word_runs(s).len(),
        word_runs(s)[p] == s.subrange(a, b),
        p == word_runs(s).len() - 1 <==> b == s.len(),
    decreases s.len(),
{
    if s.len() == 0 {
        assert(s.subrange(0, 0) =~= Seq::empty());
        0
    } else {
        let t = s.drop_last();
        let before = word_runs(t);
        assert(before.len() > 0) by {
            runs_exist(t);
        }
        if b == s.len() && a == b {
            assert(s.subrange(a, b) =~= Seq::empty());
            word_runs(s).len() - 1
        } else {
            assert forall|i: int| a <= i < b && i < t.len() implies in_word(#[trigger] t[i]) by {
                assert(t[i] == s[i]);
            }
            if b == s.len() {
                assert(in_word(s[b - 1]));
                let q = the_word_run_at(t, a, b - 1);
                assert(s.subrange(a, b) =~= t.subrange(a, b - 1).push(s.last()));
                before.len() - 1
            } else {
                if b < t.len() {
                    assert(t[b] == s[b]);
                }
                let q = the_word_run_at(t, a, b);
                assert(s.subrange(a, b) =~= t.subrange(a, b));
                q
            }
        }
    }
}

proof fn telling_words_are_kept(runs: Seq<Seq<char>>, n: nat, p: int) -> (i: int)
    requires
        0 <= p < n <= runs.len(),
        is_telling(runs[p]),
    ensures
        0 <= i < telling_words(runs, n).len(),
        telling_words(runs, n)[i] == runs[p],
    decreases n,
{
    let before = telling_words(runs, (n - 1) as nat);
    if p == n - 1 {
        before.len() as int
    } else {
        let i = telling_words_are_kept(runs, (n - 1) as nat, p);
        assert(telling_words(runs, n)[i] == before[i]);
        i
    }
}

proof fn telling_words_are_telling(runs: Seq<Seq<char>>, n: nat)
    requires
        n <= runs.len(),
    ensures
        forall|i: int|
            0 <= i < telling_words(runs, n).len() ==> is_telling(
                #[trigger] telling_words(runs, n)[i],
            ),
    decreases n,
{
    if n > 0 {
        telling_words_are_telling(runs, (n - 1) as nat);
        let before = telling_words(runs, (n - 1) as nat);
        assert forall|i: int| 0 <= i < telling_words(runs, n).len() implies is_telling(
            #[trigger] telling_words(runs, n)[i],
        ) by {
            if i < before.len() {
                assert(telling_words(runs, n)[i] == before[i]);
            }
        }
    }
}

/// A whole word of at least five bytes with an underscore or a capital in it tells something;
/// and every word that does is one of those.
pub proof fn identifiers_tell_something(s: Seq<char>, a: int, b: int, i: int)
    requires
        0 <= a < b <= s.len(),
        a == 0 || !in_word(s[a - 1]),
        forall|j: int| a <= j < b ==> in_word(#[trigger] s[j]),
        b == s.len() || !in_word(s[b]),
        0 <= i < words_of(s).len(),
    ensures
        bytes_of(s.subrange(a, b)) >= 5 && (exists|j: int|
            a <= j < b && (#[trigger] s[j] == '_' || is_capital(s[j]))) ==> words_of(s).contains(
            s.subrange(a, b),
        ),
        bytes_of(words_of(s)[i]) >= 5,
        exists|j: int|
            0 <= j < words_of(s)[i].len() && (#[trigger] words_of(s)[i][j] == '_' || is_capital(
                words_of(s)[i][j],
            )),
{
    let runs = word_runs(s);
    let p = the_word_run_at(s, a, b);
    let w = s.subrange(a, b);
    telling_words_are_telling(runs, runs.len());
    if bytes_of(w) >= 5 && (exists|j: int|
        a <= j < b && (#[trigger] s[j] == '_' || is_capital(s[j]))) {
        let j = choose|j: int| a <= j < b && (#[trigger] s[j] == '_' || is_capital(s[j]));
        assert(w[j - a] == s[j]);
        assert(is_telling(w));
        let k = telling_words_are_kept(runs, runs.len(), p);
        assert(words_of(s)[k] == w);
    }
    let word = words_of(s)[i];
    assert(is_telling(word));
    if word.contains('_') {
        let j = choose|j: int| 0 <= j < word.len() && word[j] == '_';
        assert(word[j] == '_');
    }
}

/// A text that is short enough stays as it is. A longer one ends with the mark of a cut after
/// its beginning: up to the last space within the limit, or up to the limit without one.
pub proof fn a_cut_falls_on_the_last_space(text: &str, max_chars: usize, r: String)
    requires
        call_ensures(truncate_words, (text, max_chars), r),
    ensures
        text@.len() <= max_chars ==> r@ == text@,
        text@.len() > max_chars ==> {
            let kept = r@.len() - 1;
            &&& 0 <= kept <= max_chars && r@[kept] == '…'
            &&& r@.take(kept) == text@.take(kept)
            &&& kept < max_chars ==> text@[kept] == ' '
            &&& forall|i: int| kept < i < max_chars ==> #[trigger] text@[i] != ' '
            &&& kept == max_chars ==> forall|i: int|
                0 <= i < max_chars ==> #[trigger] text@[i] != ' '
        },
{
    if text@.len() > max_chars {
        let head = text@.take(max_chars as int);
        last_space_is_last(head);
        none_after_the_last_space(head);
        let kept = r@.len() - 1;
        assert(r@.take(kept) =~= text@.take(kept));
        assert forall|i: int| 0 <= i < max_chars implies head[i] == #[trigger] text@[i] by {}
    }
}

proof fn none_after_the_last_space(s: Seq<char>)
    ensures
        match last_space(s) {
            Some(k) => forall|i: int| k < i < s.len() ==> #[trigger] s[i] != ' ',
            None => forall|i: int| 0 <= i < s.len() ==> #[trigger] s[i] != ' ',
        },
    decreases s.len(),
{
    if s.len() > 0 && s.last() != ' ' {
        let t = s.drop_last();
        none_after_the_last_space(t);
        last_space_is_last(t);
        assert forall|i: int| 0 <= i < t.len() implies t[i] == #[trigger] s[i] by {}
    }
}

} // verus!

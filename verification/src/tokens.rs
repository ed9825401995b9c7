//! Token accounting.
//!
//! Counts are estimated from the number of characters, rounded up, so that a
//! non-empty text never counts as free.

use crate::text::chars_of;
use vstd::prelude::*;

verus! {

/// How a count was obtained.
#[derive(Debug, Clone, Copy, PartialEq, Eq, Structural)]
pub enum TokenizerKind {
    /// A fixed number of characters per token, chosen by the caller.
    Chars,
    /// The default estimate, when nothing is known about the model.
    Heuristic,
}

impl TokenizerKind {
    /// The name shown in receipts.
    pub open spec fn name(self) -> Seq<char> {
        match self {
            TokenizerKind::Chars => "chars"@,
            TokenizerKind::Heuristic => "heuristic"@,
        }
    }

    /// The name shown in receipts.
    pub fn as_str(self) -> (r: &'static str)
        ensures
            r@ == self.name(),
    {
        match self {
            TokenizerKind::Chars => "chars",
            TokenizerKind::Heuristic => "heuristic",
        }
    }
}

/// Counts one token per `chars_per_token` characters.
#[derive(Debug, Clone, Copy)]
pub struct CharTokenizer {
    pub chars_per_token: usize,
}

impl Default for CharTokenizer {
    fn default() -> (r: Self)
        ensures
            r.chars_per_token == 4,
    {
        CharTokenizer { chars_per_token: 4 }
    }
}

/// A number of tokens.
#[derive(Debug, Clone, Copy, PartialEq, Eq, Structural)]
pub struct TokenCount(pub usize);

impl TokenCount {
    /// The number itself.
    pub fn get(self) -> (r: usize)
        ensures
            r == self.0,
    {
        self.0
    }
}

/// How many groups of `per` are needed for `n` characters; a group of zero counts as one.
pub open spec fn tokens_for(n: nat, per: nat) -> nat {
    let size = if per == 0 {
        1
    } else {
        per
    };
    ((n + size - 1) / (size as int)) as nat
}

/// The counter a session measures with.
#[derive(Debug, Clone, Copy)]
pub struct TokenCounter {
    kind: TokenizerKind,
    chars_per_token: usize,
}

impl TokenCounter {
    /// How the counter works.
    pub closed spec fn spec_kind(self) -> TokenizerKind {
        self.kind
    }

    /// Characters per token.
    pub closed spec fn per(self) -> nat {
        self.chars_per_token as nat
    }

    /// The tokens a text counts for.
    pub open spec fn of(self, text: Seq<char>) -> nat {
        tokens_for(text.len(), self.per())
    }

    /// A counter that uses the given tokenizer.
    pub fn new(tokenizer: CharTokenizer) -> (r: Self)
        ensures
            r.per() == tokenizer.chars_per_token,
            r.spec_kind() == TokenizerKind::Chars,
    {
        TokenCounter { kind: TokenizerKind::Chars, chars_per_token: tokenizer.chars_per_token }
    }

    /// The counter to use when nothing is known about the model: four characters a token.
    pub fn heuristic() -> (r: Self)
        ensures
            r.per() == 4,
            r.spec_kind() == TokenizerKind::Heuristic,
    {
        TokenCounter { kind: TokenizerKind::Heuristic, chars_per_token: 4 }
    }

    /// How the counter works.
    pub fn kind(&self) -> (r: TokenizerKind)
        ensures
            r == self.spec_kind(),
    {
        self.kind
    }

    /// The tokens `text` counts for.
    pub fn count(&self, text: &str) -> (r: TokenCount)
        ensures
            r.0 == self.of(text@),
    {
        let n: usize = chars_of(text).len();
        self.count_chars(n)
    }

    /// The tokens that `n` characters count for.
    pub fn count_chars(&self, n: usize) -> (r: TokenCount)
        ensures
            r.0 == tokens_for(n as nat, self.per()),
    {
        let size: usize = if self.chars_per_token == 0 {
            1
        } else {
            self.chars_per_token
        };
        let whole: usize = n / size;
        let rest: usize = n % size;
        proof {
            ceiling_by_parts(n as int, size as int);
        }
        if rest == 0 {
            TokenCount(whole)
        } else {
            TokenCount(whole + 1)
        }
    }
}

/// Rounding a quotient up adds one exactly when there is a remainder.
proof fn ceiling_by_parts(n: int, size: int)
    by (nonlinear_arith)
    requires
        0 <= n,
        0 < size,
    ensures
        (n + size - 1) / size == n / size + (if n % size == 0 {
            0int
        } else {
            1int
        }),
        n % size != 0 ==> n / size < n,
{
    let q = n / size;
    let r = n % size;
    assert(n == q * size + r);
    if r == 0 {
        assert((q * size + (size - 1)) / size == q);
    } else {
        assert((q + 1) * size + (r - 1) == n + size - 1);
        assert(((q + 1) * size + (r - 1)) / size == q + 1);
    }
}

/// A longer text never counts for fewer tokens.
pub proof fn count_is_monotonic(counter: TokenCounter, a: Seq<char>, b: Seq<char>)
    requires
        a.len() <= b.len(),
    ensures
        counter.of(a) <= counter.of(b),
{
    let size: int = if counter.per() == 0 {
        1
    } else {
        counter.per() as int
    };
    let x = a.len() + size - 1;
    let y = b.len() + size - 1;
    vstd::arithmetic::div_mod::lemma_div_is_ordered(x, y, size);
}

/// Only the empty text is free.
pub proof fn only_nothing_is_free(counter: TokenCounter, a: Seq<char>)
    ensures
        counter.of(a) == 0 <==> a.len() == 0,
{
    let size: int = if counter.per() == 0 {
        1
    } else {
        counter.per() as int
    };
    let n = a.len() as int;
    assert(n > 0 ==> (n + size - 1) / size >= 1) by (nonlinear_arith)
        requires
            size >= 1,
    ;
    assert(n == 0 ==> (n + size - 1) / size == 0) by (nonlinear_arith)
        requires
            size >= 1,
    ;
}

/// A text counts for the fewest tokens that hold all of its characters, so many to each, where
/// no token holds less than one.
pub proof fn a_count_holds_every_character(counter: &TokenCounter, text: &str, r: TokenCount)
    requires
        call_ensures(TokenCounter::count, (counter, text), r),
    ensures
        ({
            let size: int = if counter.per() >= 1 {
                counter.per() as int
            } else {
                1
            };
            &&& text@.len() <= r.0 * size
            &&& r.0 > 0 ==> (r.0 - 1) * size < text@.len()
        }),
{
    let size: int = if counter.per() >= 1 {
        counter.per() as int
    } else {
        1
    };
    let n = text@.len() as int;
    let q = (n + size - 1) / size;
    assert(q * size <= n + size - 1 < q * size + size) by (nonlinear_arith)
        requires
            size >= 1,
            n >= 0,
            q == (n + size - 1) / size,
    ;
    assert((q - 1) * size == q * size - size) by (nonlinear_arith);
    assert(q >= 0) by (nonlinear_arith)
        requires
            size >= 1,
            n >= 0,
            q == (n + size - 1) / size,
    ;
}

/// Texts of the same length count for the same, and counting characters is counting the text.
pub proof fn only_the_length_counts(
    counter: &TokenCounter,
    a: &str,
    b: usize,
    x: TokenCount,
    y: TokenCount,
)
    requires
        call_ensures(TokenCounter::count, (counter, a), x),
        call_ensures(TokenCounter::count_chars, (counter, b), y),
        a@.len() == b,
    ensures
        x.0 == y.0,
{
}

} // verus!

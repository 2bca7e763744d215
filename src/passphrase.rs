//! Word lists and the assembly of a passphrase from chosen words.

use vstd::prelude::*;
use crate::encoding::pow256;
use crate::primitives::{
    chars_of,
    is_ascii_lower,
    is_ascii_upper,
    lower_chars,
    lower_of,
    string_of,
    upper_chars,
    upper_of,
};

verus! {

/// Why a word list was refused.
#[derive(Clone, Copy, Debug, PartialEq, Eq, Structural)]
pub enum WordListError {
    /// The list does not have the length it was pinned to.
    LengthMismatch,
    /// The list has no words.
    Empty,
    /// A word of the list has no characters.
    EmptyWord,
}

/// A non-empty ordered list of non-empty words.
pub struct WordList {
    words: Vec<Vec<char>>,
}

impl View for WordList {
    type V = Seq<Seq<char>>;

    closed spec fn view(&self) -> Seq<Seq<char>> {
        Seq::new(self.words@.len(), |i: int| self.words@[i]@)
    }
}

pub open spec fn valid_words(ws: Seq<Seq<char>>) -> bool {
    &&& 1 <= ws.len() <= u64::MAX
    &&& forall|i: int| 0 <= i < ws.len() ==> #[trigger] ws[i].len() >= 1
}

impl WordList {
    #[verifier::type_invariant]
    spec fn inv(&self) -> bool {
        valid_words(self@)
    }

    /// Builds a word list from `words`, whose length must be `expected_len`.
    pub fn new(words: &Vec<String>, expected_len: usize) -> (r: Result<WordList, WordListError>)
        ensures
            r matches Ok(l) ==> l@.len() == words@.len() && forall|i: int|
                0 <= i < words@.len() ==> l@[i] == #[trigger] words@[i]@,
            r == Err::<WordList, WordListError>(WordListError::LengthMismatch) <==> words@.len()
                != expected_len,
            r == Err::<WordList, WordListError>(WordListError::Empty) <==> (words@.len()
                == expected_len && expected_len == 0),
            r == Err::<WordList, WordListError>(WordListError::EmptyWord) <==> (words@.len()
                == expected_len && expected_len > 0 && exists|i: int|
                0 <= i < words@.len() && #[trigger] words@[i]@.len() == 0),
    {
        if words.len() != expected_len {
            return Err(WordListError::LengthMismatch);
        }
        if words.len() == 0 {
            return Err(WordListError::Empty);
        }
        let mut out: Vec<Vec<char>> = Vec::new();
        let mut i: usize = 0;
        while i < words.len()
            invariant
                i <= words@.len(),
                words@.len() == expected_len,
                expected_len > 0,
                out@.len() == i,
                forall|k: int| 0 <= k < i ==> out@[k]@ == #[trigger] words@[k]@,
                forall|k: int| 0 <= k < i ==> (#[trigger] words@[k])@.len() >= 1,
            decreases words@.len() - i,
        {
            let w = chars_of(words[i].as_str());
            if w.len() == 0 {
                assert(words@[i as int]@.len() == 0);
                return Err(WordListError::EmptyWord);
            }
            out.push(w);
            i = i + 1;
        }
        let ghost v = Seq::new(out@.len(), |k: int| out@[k]@);
        assert forall|k: int| 0 <= k < v.len() implies #[trigger] v[k].len() >= 1 by {
            assert(v[k] == words@[k]@);
        }
        assert(valid_words(v));
        let l = WordList { words: out };
        assert(l@ == v);
        assert(l@.len() == words@.len());
        assert(forall|k: int| 0 <= k < words@.len() ==> l@[k] == #[trigger] words@[k]@);
        Ok(l)
    }

    /// Number of words.
    pub fn len(&self) -> (r: u64)
        ensures
            r == self@.len(),
            r >= 1,
            self@.len() <= usize::MAX,
    {
        proof {
            use_type_invariant(self);
        }
        self.words.len() as u64
    }

    /// The word at `i`.
    pub fn word(&self, i: usize) -> (r: &Vec<char>)
        requires
            i < self@.len(),
        ensures
            r@ == self@[i as int],
            r@.len() >= 1,
    {
        proof {
            use_type_invariant(self);
            assert(self@[i as int] == self.words@[i as int]@);
            assert(self@[i as int].len() >= 1);
        }
        &self.words[i]
    }
}

/// Number of bytes in the big-endian text of `m` without leading zeros.
pub open spec fn byte_length(m: nat) -> nat
    decreases m,
{
    if m == 0 {
        0
    } else {
        1 + byte_length(m / 256)
    }
}

pub proof fn lemma_byte_length_bound(m: nat, k: nat)
    requires
        m < pow256(k),
    ensures
        byte_length(m) <= k,
    decreases k,
{
    if m > 0 && k > 0 {
        let p = pow256((k - 1) as nat);
        assert(m / 256 < p) by (nonlinear_arith)
            requires
                m < 256 * p,
        ;
        lemma_byte_length_bound(m / 256, (k - 1) as nat);
    }
}

pub proof fn lemma_byte_length_fits(m: nat)
    ensures
        m < pow256(byte_length(m)),
    decreases m,
{
    if m > 0 {
        lemma_byte_length_fits(m / 256);
        let p = pow256(byte_length(m / 256));
        assert(m < 256 * p) by (nonlinear_arith)
            requires
                m / 256 < p,
        ;
    }
}

/// Bytes needed to address `n` words: the length of `n - 1` in bytes.
pub open spec fn bytes_needed(n: nat) -> nat {
    byte_length((n - 1) as nat)
}

/// Number of key bytes that choose one word of a list of `list_len` words.
pub fn needed_bytes_per_word(list_len: u64) -> (r: usize)
    requires
        list_len >= 1,
    ensures
        r == bytes_needed(list_len as nat),
        r <= 8,
        (list_len as nat) <= pow256(r as nat),
{
    proof {
        reveal_with_fuel(pow256, 9);
        lemma_byte_length_bound((list_len - 1) as nat, 8);
        lemma_byte_length_fits((list_len - 1) as nat);
    }
    let mut m: u64 = list_len - 1;
    let mut b: usize = 0;
    while m > 0
        invariant
            b + byte_length(m as nat) == bytes_needed(list_len as nat),
            bytes_needed(list_len as nat) <= 8,
        decreases m,
    {
        m = m / 256;
        b = b + 1;
    }
    b
}

/// Lowercase mapping of each character, concatenated.
pub open spec fn lowered(s: Seq<char>) -> Seq<char>
    decreases s.len(),
{
    if s.len() == 0 {
        seq![]
    } else {
        lowered(s.drop_last()) + lower_of(s.last())
    }
}

/// The word with its first character uppercased and the rest lowercased.
pub open spec fn capitalized(w: Seq<char>) -> Seq<char> {
    if w.len() == 0 {
        seq![]
    } else {
        upper_of(w[0]) + lowered(w.drop_first())
    }
}

pub open spec fn is_ascii_letter(c: char) -> bool {
    is_ascii_lower(c) || is_ascii_upper(c)
}

/// Appends `src` to `dst`.
pub fn append_chars(dst: &mut Vec<char>, src: &Vec<char>)
    ensures
        final(dst)@ == old(dst)@ + src@,
{
    let ghost start = dst@;
    let mut i: usize = 0;
    while i < src.len()
        invariant
            i <= src@.len(),
            dst@ == start + src@.subrange(0, i as int),
        decreases src@.len() - i,
    {
        dst.push(src[i]);
        i = i + 1;
        assert(dst@ =~= start + src@.subrange(0, i as int));
    }
    assert(src@.subrange(0, i as int) =~= src@);
}

/// Capitalizes a word: its first character uppercased, the others
/// lowercased. On a word of ASCII letters, in whatever case, exactly the
/// first character of the result is uppercase and the others lowercase.
pub fn capitalize(word: &Vec<char>) -> (r: Vec<char>)
    requires
        word@.len() >= 1,
    ensures
        r@ == capitalized(word@),
        (forall|i: int| 0 <= i < word@.len() ==> is_ascii_letter(#[trigger] word@[i])) ==> {
            &&& r@.len() == word@.len()
            &&& is_ascii_upper(r@[0])
            &&& forall|i: int| 1 <= i < r@.len() ==> is_ascii_lower(#[trigger] r@[i])
        },
{
    let ghost ascii = forall|i: int| 0 <= i < word@.len() ==> is_ascii_letter(#[trigger] word@[i]);
    let mut out = upper_chars(word[0]);
    let mut i: usize = 1;
    proof {
        assert(word@.subrange(1, 1) =~= Seq::<char>::empty());
        assert(out@ =~= upper_of(word@[0]) + lowered(word@.subrange(1, 1)));
        if ascii {
            assert(is_ascii_letter(word@[0]));
        }
    }
    while i < word.len()
        invariant
            1 <= i <= word@.len(),
            out@ == upper_of(word@[0]) + lowered(word@.subrange(1, i as int)),
            ascii == forall|k: int| 0 <= k < word@.len() ==> is_ascii_letter(#[trigger] word@[k]),
            ascii ==> out@.len() == i && is_ascii_upper(out@[0]) && forall|k: int|
                1 <= k < out@.len() ==> is_ascii_lower(#[trigger] out@[k]),
        decreases word@.len() - i,
    {
        let low = lower_chars(word[i]);
        let ghost before = out@;
        append_chars(&mut out, &low);
        proof {
            assert(word@.subrange(1, i + 1).drop_last() =~= word@.subrange(1, i as int));
            assert(out@ =~= upper_of(word@[0]) + lowered(word@.subrange(1, i + 1)));
            if ascii {
                assert(is_ascii_letter(word@[i as int]));
                assert forall|k: int| 1 <= k < out@.len() implies is_ascii_lower(#[trigger] out@[k]) by {
                    if k < before.len() {
                        assert(out@[k] == before[k]);
                    }
                }
            }
        }
        i = i + 1;
    }
    assert(word@.subrange(1, i as int) =~= word@.drop_first());
    out
}

/// Capitalized words concatenated, in order.
pub open spec fn joined(ws: Seq<Seq<char>>) -> Seq<char>
    decreases ws.len(),
{
    if ws.len() == 0 {
        seq![]
    } else {
        joined(ws.drop_last()) + capitalized(ws.last())
    }
}

/// The passphrase for the chosen words: capitalized, concatenated, and
/// followed by the format suffix `_1`.
pub open spec fn assembled(ws: Seq<Seq<char>>) -> Seq<char> {
    joined(ws) + seq!['_', '1']
}

/// Assembles the passphrase from the chosen words, in slot order.
pub fn assemble(words: &Vec<Vec<char>>) -> (r: String)
    requires
        forall|i: int| 0 <= i < words@.len() ==> (#[trigger] words@[i])@.len() >= 1,
    ensures
        r@ == assembled(Seq::new(words@.len(), |i: int| words@[i]@)),
{
    let ghost ws = Seq::new(words@.len(), |i: int| words@[i]@);
    let mut out: Vec<char> = Vec::new();
    let mut i: usize = 0;
    while i < words.len()
        invariant
            i <= words@.len(),
            ws == Seq::new(words@.len(), |k: int| words@[k]@),
            forall|k: int| 0 <= k < words@.len() ==> (#[trigger] words@[k])@.len() >= 1,
            out@ == joined(ws.subrange(0, i as int)),
        decreases words@.len() - i,
    {
        let cap = capitalize(&words[i]);
        append_chars(&mut out, &cap);
        assert(ws.subrange(0, i + 1).drop_last() =~= ws.subrange(0, i as int));
        i = i + 1;
    }
    assert(ws.subrange(0, i as int) =~= ws);
    out.push('_');
    out.push('1');
    assert(out@ =~= assembled(ws));
    string_of(&out)
}

} // verus!

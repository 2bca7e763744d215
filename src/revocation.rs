//! The set of fingerprints of retired keys, and its text format: one
//! fingerprint per whitespace-separated token.

use vstd::prelude::*;
use crate::primitives::chars_of;

verus! {

/// The characters that `char::is_whitespace` accepts (Unicode `White_Space`).
pub open spec fn is_white_space(c: char) -> bool {
    let u = c as u32;
    (9 <= u && u <= 13) || u == 32 || u == 0x85 || u == 0xA0 || u == 0x1680 || (0x2000 <= u && u
        <= 0x200A) || u == 0x2028 || u == 0x2029 || u == 0x202F || u == 0x205F || u == 0x3000
}

/// Tokens completed so far, and the token still open, after reading `s`.
pub open spec fn scan_tokens(s: Seq<char>) -> (Seq<Seq<char>>, Seq<char>)
    decreases s.len(),
{
    if s.len() == 0 {
        (seq![], seq![])
    } else {
        let (done, open) = scan_tokens(s.drop_last());
        if is_white_space(s.last()) {
            if open.len() > 0 {
                (done.push(open), seq![])
            } else {
                (done, seq![])
            }
        } else {
            (done, open.push(s.last()))
        }
    }
}

/// The maximal runs of non-whitespace characters of `s`, in order.
pub open spec fn tokens(s: Seq<char>) -> Seq<Seq<char>> {
    let (done, open) = scan_tokens(s);
    if open.len() > 0 {
        done.push(open)
    } else {
        done
    }
}

pub fn is_white_space_char(c: char) -> (r: bool)
    ensures
        r == is_white_space(c),
{
    let u = c as u32;
    (9 <= u && u <= 13) || u == 32 || u == 0x85 || u == 0xA0 || u == 0x1680 || (0x2000 <= u && u
        <= 0x200A) || u == 0x2028 || u == 0x2029 || u == 0x202F || u == 0x205F || u == 0x3000
}

pub fn same_chars(a: &Vec<char>, b: &Vec<char>) -> (r: bool)
    ensures
        r == (a@ == b@),
{
    if a.len() != b.len() {
        return false;
    }
    let mut i: usize = 0;
    while i < a.len()
        invariant
            a@.len() == b@.len(),
            i <= a@.len(),
            a@.subrange(0, i as int) == b@.subrange(0, i as int),
        decreases a@.len() - i,
    {
        if a[i] != b[i] {
            assert(a@[i as int] == a@.subrange(0, i + 1)[i as int]);
            assert(b@[i as int] == b@.subrange(0, i + 1)[i as int]);
            return false;
        }
        assert(a@.subrange(0, i + 1) =~= a@.subrange(0, i as int).push(a@[i as int]));
        assert(b@.subrange(0, i + 1) =~= b@.subrange(0, i as int).push(b@[i as int]));
        i = i + 1;
    }
    assert(a@ =~= a@.subrange(0, i as int));
    assert(b@ =~= b@.subrange(0, i as int));
    true
}

/// Fingerprints of revoked keys. Duplicates may occur and change nothing.
pub struct RevocationSet {
    pub entries: Vec<Vec<char>>,
}

impl View for RevocationSet {
    type V = Set<Seq<char>>;

    open spec fn view(&self) -> Set<Seq<char>> {
        Set::new(|fp: Seq<char>| exists|i: int| 0 <= i < self.entries@.len() && self.entries@[i]@ == fp)
    }
}

impl RevocationSet {
    /// The empty set: what a missing revocation file stands for.
    pub fn new() -> (r: RevocationSet)
        ensures
            r@ == Set::<Seq<char>>::empty(),
    {
        let r = RevocationSet { entries: Vec::new() };
        assert(r@ =~= Set::<Seq<char>>::empty());
        r
    }

    /// Reads the revocation file's text: each whitespace-separated token is
    /// one fingerprint.
    pub fn parse(content: &str) -> (r: RevocationSet)
        ensures
            r.entries@.len() == tokens(content@).len(),
            forall|i: int| 0 <= i < r.entries@.len() ==> r.entries@[i]@ == tokens(content@)[i],
    {
        let text = chars_of(content);
        let mut entries: Vec<Vec<char>> = Vec::new();
        let mut open: Vec<char> = Vec::new();
        let mut i: usize = 0;
        while i < text.len()
            invariant
                i <= text@.len(),
                text@ == content@,
                scan_tokens(text@.subrange(0, i as int)).0.len() == entries@.len(),
                forall|k: int| 0 <= k < entries@.len() ==> entries@[k]@ == scan_tokens(text@.subrange(0, i as int)).0[k],
                scan_tokens(text@.subrange(0, i as int)).1 == open@,
            decreases text@.len() - i,
        {
            let c = text[i];
            assert(text@.subrange(0, i + 1).drop_last() =~= text@.subrange(0, i as int));
            if is_white_space_char(c) {
                if open.len() > 0 {
                    entries.push(open);
                    open = Vec::new();
                }
            } else {
                open.push(c);
            }
            i = i + 1;
        }
        assert(text@.subrange(0, i as int) =~= content@);
        if open.len() > 0 {
            entries.push(open);
        }
        RevocationSet { entries }
    }

    /// Whether `fingerprint` is among the revoked ones.
    pub fn contains(&self, fingerprint: &str) -> (r: bool)
        ensures
            r == self@.contains(fingerprint@),
    {
        let fp = chars_of(fingerprint);
        let mut i: usize = 0;
        while i < self.entries.len()
            invariant
                i <= self.entries@.len(),
                fp@ == fingerprint@,
                forall|k: int| 0 <= k < i ==> self.entries@[k]@ != fp@,
            decreases self.entries@.len() - i,
        {
            if same_chars(&self.entries[i], &fp) {
                return true;
            }
            i = i + 1;
        }
        false
    }

    /// Adds a fingerprint, as the revoke operation appends one to the file.
    pub fn insert(&mut self, fingerprint: &str)
        ensures
            final(self)@ == old(self)@.insert(fingerprint@),
    {
        let fp = chars_of(fingerprint);
        self.entries.push(fp);
        let ghost pre = old(self)@;
        assert(self@ =~= pre.insert(fingerprint@)) by {
            assert forall|x: Seq<char>| self@.contains(x) <==> pre.insert(fingerprint@).contains(x) by {
                if pre.contains(x) {
                    let k = choose|k: int| 0 <= k < old(self).entries@.len() && old(self).entries@[k]@ == x;
                    assert(self.entries@[k]@ == x);
                }
                if x == fingerprint@ {
                    assert(self.entries@[self.entries@.len() - 1]@ == x);
                }
                if self@.contains(x) {
                    let k = choose|k: int| 0 <= k < self.entries@.len() && self.entries@[k]@ == x;
                    if k < old(self).entries@.len() {
                        assert(pre.contains(x));
                    }
                }
            }
        }
    }

    /// Number of entries, duplicates included.
    pub fn len(&self) -> (r: usize)
        ensures
            r == self.entries@.len(),
    {
        self.entries.len()
    }
}

} // verus!

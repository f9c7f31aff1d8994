//! String objects: hashing and order.

use vstd::prelude::*;
use std::cmp::Ordering;

verus! {

/// The longest string, in bytes, that is interned.
pub const MAX_SHORT_LEN: usize = 40;

/// A string object: any bytes, with their hash.
pub struct LuaString {
    pub bytes: Vec<u8>,
    pub hash: u32,
}

impl View for LuaString {
    type V = Seq<u8>;

    open spec fn view(&self) -> Seq<u8> {
        self.bytes@
    }
}

impl LuaString {
    /// The hash belongs to the bytes.
    pub open spec fn wf(self) -> bool {
        self.hash == spec_hash(self.bytes@, 0)
    }

    /// Makes a string object of some bytes.
    pub fn from_slice(bytes: &[u8]) -> (r: LuaString)
        ensures
            r.wf(),
            r@ == bytes@,
    {
        let mut v: Vec<u8> = Vec::new();
        v.extend_from_slice(bytes);
        LuaString { hash: hash_bytes(bytes, 0), bytes: v }
    }

    /// Whether the string is short, and so interned.
    pub fn is_short(&self) -> (r: bool)
        ensures
            r == (self@.len() <= MAX_SHORT_LEN),
    {
        self.bytes.len() <= MAX_SHORT_LEN
    }
}

/// One byte mixed into a hash.
pub open spec fn hash_step(h: u32, b: u8) -> u32 {
    h ^ (h << 5u32).wrapping_add(h >> 2u32).wrapping_add(b as u32)
}

/// The bytes from the last down to number `i`, mixed into a hash in that order.
pub open spec fn hash_down(s: Seq<u8>, i: int, h: u32) -> u32
    decreases s.len() - i,
{
    if i >= s.len() {
        h
    } else {
        hash_step(hash_down(s, i + 1, h), s[i])
    }
}

/// The hash of a byte string under a seed.
pub open spec fn spec_hash(s: Seq<u8>, seed: u32) -> u32 {
    hash_down(s, 0, seed ^ (s.len() as u32))
}

/// Hashes a byte string: starting from the seed exclusive-or the length, the
/// bytes are mixed in from the last to the first.
pub fn hash_bytes(bytes: &[u8], seed: u32) -> (r: u32)
    ensures
        r == spec_hash(bytes@, seed),
{
    let h0: u32 = seed ^ (bytes.len() as u32);
    let mut h: u32 = h0;
    let mut l: usize = bytes.len();
    while l > 0
        invariant
            l <= bytes@.len(),
            h == hash_down(bytes@, l as int, h0),
        decreases l,
    {
        l = l - 1;
        h = h ^ (h << 5u32).wrapping_add(h >> 2u32).wrapping_add(bytes[l] as u32);
    }
    h
}

/// Whether two byte strings are the same.
pub fn bytes_eq(a: &[u8], b: &[u8]) -> (r: bool)
    ensures
        r == (a@ == b@),
{
    if a.len() != b.len() {
        return false;
    }
    let mut i: usize = 0;
    while i < a.len()
        invariant
            i <= a@.len(),
            a@.len() == b@.len(),
            forall|j: int| 0 <= j < i ==> a@[j] == b@[j],
        decreases a@.len() - i,
    {
        if a[i] != b[i] {
            return false;
        }
        i = i + 1;
    }
    assert(a@ =~= b@);
    true
}

/// The order of two byte strings from byte `i` on, byte by byte, a proper
/// prefix coming first.
pub open spec fn lex_from(a: Seq<u8>, b: Seq<u8>, i: int) -> Ordering
    decreases a.len() - i,
{
    if i >= a.len() {
        if i >= b.len() {
            Ordering::Equal
        } else {
            Ordering::Less
        }
    } else if i >= b.len() {
        Ordering::Greater
    } else if a[i] < b[i] {
        Ordering::Less
    } else if a[i] > b[i] {
        Ordering::Greater
    } else {
        lex_from(a, b, i + 1)
    }
}

/// The lexicographic order of byte strings.
pub open spec fn lex_order(a: Seq<u8>, b: Seq<u8>) -> Ordering {
    lex_from(a, b, 0)
}

/// Compares two byte strings lexicographically. A zero byte is a byte like any
/// other.
pub fn str_cmp(s1: &[u8], s2: &[u8]) -> (r: Ordering)
    ensures
        r == lex_order(s1@, s2@),
{
    let mut i: usize = 0;
    let ghost mut at: int = 0;
    while i < s1.len() && i < s2.len()
        invariant
            at == i,
            i <= s1@.len(),
            i <= s2@.len(),
            lex_order(s1@, s2@) == lex_from(s1@, s2@, at),
        decreases s1@.len() - i,
    {
        if s1[i] < s2[i] {
            return Ordering::Less;
        }
        if s1[i] > s2[i] {
            return Ordering::Greater;
        }
        i = i + 1;
        proof {
            at = at + 1;
        }
    }
    if i < s1.len() {
        Ordering::Greater
    } else if i < s2.len() {
        Ordering::Less
    } else {
        Ordering::Equal
    }
}

proof fn lemma_lex_antisymmetric(a: Seq<u8>, b: Seq<u8>, i: int)
    requires
        0 <= i,
    ensures
        lex_from(a, b, i) is Less <==> lex_from(b, a, i) is Greater,
        lex_from(a, b, i) is Equal <==> lex_from(b, a, i) is Equal,
    decreases a.len() - i,
{
    if i < a.len() && i < b.len() {
        lemma_lex_antisymmetric(a, b, i + 1);
    }
}

proof fn lemma_lex_transitive(a: Seq<u8>, b: Seq<u8>, c: Seq<u8>, i: int)
    requires
        0 <= i,
        !(lex_from(a, b, i) is Greater),
        !(lex_from(b, c, i) is Greater),
    ensures
        !(lex_from(a, c, i) is Greater),
        lex_from(a, c, i) is Equal ==> lex_from(a, b, i) is Equal && lex_from(b, c, i) is Equal,
    decreases a.len() - i,
{
    if i < a.len() && i < b.len() && i < c.len() && a[i] == b[i] && b[i] == c[i] {
        lemma_lex_transitive(a, b, c, i + 1);
    }
}

proof fn lemma_lex_equal(a: Seq<u8>, b: Seq<u8>, i: int)
    requires
        0 <= i,
        forall|j: int| 0 <= j < i && j < a.len() && j < b.len() ==> a[j] == b[j],
        i <= a.len() && i <= b.len(),
    ensures
        lex_from(a, b, i) is Equal <==> a == b,
    decreases a.len() - i,
{
    if i < a.len() && i < b.len() {
        if a[i] == b[i] {
            lemma_lex_equal(a, b, i + 1);
        }
    } else if a.len() == b.len() {
        assert(a =~= b);
    }
}

/// Strings are totally ordered: comparing the other way round gives the
/// opposite answer, only equal strings compare equal, and the order is
/// transitive.
pub proof fn law_string_order(a: Seq<u8>, b: Seq<u8>, c: Seq<u8>)
    ensures
        lex_order(a, b) is Less <==> lex_order(b, a) is Greater,
        lex_order(a, b) is Equal <==> a == b,
        !(lex_order(a, b) is Greater) && !(lex_order(b, c) is Greater) ==> !(lex_order(a, c) is Greater),
        lex_order(a, b) is Less && lex_order(b, c) is Less ==> lex_order(a, c) is Less,
{
    lemma_lex_antisymmetric(a, b, 0);
    lemma_lex_equal(a, b, 0);
    if !(lex_order(a, b) is Greater) && !(lex_order(b, c) is Greater) {
        lemma_lex_transitive(a, b, c, 0);
    }
}

/// Whether a byte is ASCII white space: a space, tab, line feed, form feed or
/// carriage return.
pub open spec fn is_blank(b: u8) -> bool {
    b == 0x20 || b == 0x09 || b == 0x0a || b == 0x0c || b == 0x0d
}

fn is_space(b: u8) -> (r: bool)
    ensures
        r == is_blank(b),
{
    b == 0x20 || b == 0x09 || b == 0x0a || b == 0x0c || b == 0x0d
}

/// What is left of a string without the white space at both ends: its longest
/// part that neither starts nor ends with white space.
pub fn trim_whitespace(s: &[u8]) -> (r: Vec<u8>)
    ensures
        exists|i: int, j: int|
            #![trigger s@.subrange(i, j)]
            0 <= i <= j <= s@.len() && r@ == s@.subrange(i, j) && (forall|k: int|
                0 <= k < i || j <= k < s@.len() ==> is_blank(#[trigger] s@[k])) && (i < j ==> !is_blank(
                s@[i],
            ) && !is_blank(s@[j - 1])),
{
    let mut i: usize = 0;
    while i < s.len() && is_space(s[i])
        invariant
            i <= s@.len(),
            forall|k: int| 0 <= k < i ==> is_blank(#[trigger] s@[k]),
        decreases s@.len() - i,
    {
        i = i + 1;
    }
    let mut j: usize = s.len();
    while j > i && is_space(s[j - 1])
        invariant
            i <= j <= s@.len(),
            forall|k: int| 0 <= k < i || j <= k < s@.len() ==> is_blank(#[trigger] s@[k]),
        decreases j,
    {
        j = j - 1;
    }
    let mut v: Vec<u8> = Vec::new();
    let mut k: usize = i;
    while k < j
        invariant
            i <= k <= j <= s@.len(),
            v@ == s@.subrange(i as int, k as int),
        decreases j - k,
    {
        v.push(s[k]);
        k = k + 1;
        assert(v@ =~= s@.subrange(i as int, k as int));
    }
    assert(v@ == s@.subrange(i as int, j as int));
    v
}

} // verus!

//! Byte-level text helpers over the UTF-8 encoding of `str`.

use vstd::prelude::*;
use vstd::string::*;
use vstd::utf8::*;
use vstd::std_specs::iter::IteratorSpec;

verus! {

broadcast use group_utf8_lib;

/// `i` is the position of the first `b` in `s`.
pub open spec fn is_first_index_of(s: Seq<u8>, b: u8, i: int) -> bool {
    &&& 0 <= i < s.len()
    &&& s[i] == b
    &&& forall|j: int| 0 <= j < i ==> s[j] != b
}

/// Position of the first `b` in `s`, if `s` holds one.
pub open spec fn first_index_of(s: Seq<u8>, b: u8) -> Option<int> {
    if exists|i: int| is_first_index_of(s, b, i) {
        Some(choose|i: int| is_first_index_of(s, b, i))
    } else {
        None
    }
}

/// `pat` occurs in `s` at position `i`.
pub open spec fn occurs_at(s: Seq<u8>, pat: Seq<u8>, i: int) -> bool {
    &&& 0 <= i
    &&& i + pat.len() <= s.len()
    &&& s.subrange(i, i + pat.len()) == pat
}

/// `i` is the position of the first occurrence of `pat` in `s`.
pub open spec fn is_first_occurrence(s: Seq<u8>, pat: Seq<u8>, i: int) -> bool {
    &&& occurs_at(s, pat, i)
    &&& forall|j: int| 0 <= j < i ==> !occurs_at(s, pat, j)
}

/// Position of the first occurrence of `pat` in `s`, if there is one.
pub open spec fn first_occurrence(s: Seq<u8>, pat: Seq<u8>) -> Option<int> {
    if exists|i: int| is_first_occurrence(s, pat, i) {
        Some(choose|i: int| is_first_occurrence(s, pat, i))
    } else {
        None
    }
}

/// The UTF-8 encoding of a character sequence.
pub open spec fn utf8_of(s: Seq<char>) -> Seq<u8> {
    encode_utf8(s)
}

pub proof fn lemma_first_index_of(s: Seq<u8>, b: u8, i: int)
    requires
        is_first_index_of(s, b, i),
    ensures
        first_index_of(s, b) == Some(i),
{
    let k = choose|k: int| is_first_index_of(s, b, k);
    assert(is_first_index_of(s, b, k));
    assert(!(k < i));
    assert(!(i < k));
}

pub proof fn lemma_no_index_of(s: Seq<u8>, b: u8)
    requires
        forall|j: int| 0 <= j < s.len() ==> s[j] != b,
    ensures
        first_index_of(s, b) == None::<int>,
{
}

pub proof fn lemma_first_occurrence(s: Seq<u8>, pat: Seq<u8>, i: int)
    requires
        is_first_occurrence(s, pat, i),
    ensures
        first_occurrence(s, pat) == Some(i),
{
    let k = choose|k: int| is_first_occurrence(s, pat, k);
    assert(is_first_occurrence(s, pat, k));
    assert(!(k < i));
    assert(!(i < k));
}

pub proof fn lemma_no_occurrence(s: Seq<u8>, pat: Seq<u8>)
    requires
        forall|j: int| 0 <= j ==> !occurs_at(s, pat, j),
    ensures
        first_occurrence(s, pat) == None::<int>,
{
}

/// In valid UTF-8, the byte after an ASCII byte starts a character (or ends the text).
proof fn lemma_boundary_after_ascii(bytes: Seq<u8>, i: int)
    requires
        valid_utf8(bytes),
        0 <= i < bytes.len(),
        bytes[i] <= 0x7f,
    ensures
        is_char_boundary(bytes, i + 1),
{
    if i + 1 == bytes.len() {
        is_char_boundary_start_end_of_seq(bytes);
    } else {
        is_char_boundary_iff_is_leading_byte(bytes, i);
        valid_utf8_split(bytes, i);
        let t = bytes.subrange(i, bytes.len() as int);
        let u = bytes.subrange(i + 1, bytes.len() as int);
        assert(t[0] == bytes[i]);
        assert(valid_utf8(t));
        assert(length_of_first_scalar(t) == 1);
        assert(pop_first_scalar(t) =~= u);
        assert(valid_utf8(u));
        assert(u[0] == bytes[i + 1]);
        assert(valid_first_scalar(u));
        is_char_boundary_iff_is_leading_byte(bytes, i + 1);
    }
}

/// First position of byte `b` in `s`.
pub fn find_byte(s: &[u8], b: u8) -> (r: Option<usize>)
    ensures
        match r {
            Some(i) => is_first_index_of(s@, b, i as int),
            None => forall|j: int| 0 <= j < s@.len() ==> s@[j] != b,
        },
{
    let mut i: usize = 0;
    while i < s.len()
        invariant
            i <= s@.len(),
            forall|j: int| 0 <= j < i ==> s@[j] != b,
        decreases s@.len() - i,
    {
        if s[i] == b {
            return Some(i);
        }
        i = i + 1;
    }
    None
}

/// Whether `pat` occurs in `s` at position `at`.
pub fn matches_at(s: &[u8], pat: &[u8], at: usize) -> (r: bool)
    ensures
        r == occurs_at(s@, pat@, at as int),
{
    if at > s.len() || pat.len() > s.len() - at {
        return false;
    }
    let mut k: usize = 0;
    while k < pat.len()
        invariant
            at + pat@.len() <= s@.len() <= usize::MAX,
            k <= pat@.len(),
            forall|m: int| 0 <= m < k ==> s@[at + m] == pat@[m],
        decreases pat@.len() - k,
    {
        assert(at + k < s@.len());
        if s[at + k] != pat[k] {
            assert(s@.subrange(at as int, at + pat@.len())[k as int] != pat@[k as int]);
            return false;
        }
        k = k + 1;
    }
    assert(s@.subrange(at as int, at + pat@.len()) =~= pat@);
    true
}

/// First position at which `pat` occurs in `s`.
pub fn find_bytes(s: &[u8], pat: &[u8]) -> (r: Option<usize>)
    ensures
        match r {
            Some(i) => is_first_occurrence(s@, pat@, i as int),
            None => forall|j: int| 0 <= j ==> !occurs_at(s@, pat@, j),
        },
{
    let mut i: usize = 0;
    while i <= s.len()
        invariant
            i <= s@.len() + 1,
            forall|j: int| 0 <= j < i ==> !occurs_at(s@, pat@, j),
        decreases s@.len() + 1 - i,
    {
        if matches_at(s, pat, i) {
            return Some(i);
        }
        if i == s.len() {
            assert forall|j: int| 0 <= j implies !occurs_at(s@, pat@, j) by {
                if j < i {
                } else if j > i {
                    assert(j + pat@.len() > s@.len());
                }
            }
            return None;
        }
        i = i + 1;
    }
    None
}

/// Whether two byte strings are equal.
pub fn bytes_equal(a: &[u8], b: &[u8]) -> (r: bool)
    ensures
        r == (a@ == b@),
{
    if a.len() != b.len() {
        return false;
    }
    let mut k: usize = 0;
    while k < a.len()
        invariant
            a@.len() == b@.len(),
            k <= a@.len(),
            forall|m: int| 0 <= m < k ==> a@[m] == b@[m],
        decreases a@.len() - k,
    {
        if a[k] != b[k] {
            return false;
        }
        k = k + 1;
    }
    assert(a@ =~= b@);
    true
}

/// The number of characters of `s`, or `cap` where it has more.
pub fn char_count_upto(s: &str, cap: usize) -> (r: usize)
    ensures
        r == if s@.len() < cap { s@.len() } else { cap as nat },
{
    let mut it = s.chars();
    proof {
        axiom_spec_iter(s);
    }
    let mut n: usize = 0;
    while n < cap
        invariant
            n <= cap,
            n + it.remaining().len() == s@.len(),
            it.obeys_prophetic_iter_laws(),
        decreases cap - n,
    {
        match it.next() {
            Some(_) => {
                n = n + 1;
            },
            None => {
                return n;
            },
        }
    }
    n
}

/// Splits `s` before the ASCII byte at position `i`, or at its end.
pub fn split_before_ascii(s: &str, i: usize) -> (r: (&str, &str))
    requires
        i <= s.spec_bytes().len(),
        i < s.spec_bytes().len() ==> s.spec_bytes()[i as int] <= 0x7f,
    ensures
        r.0.spec_bytes() == s.spec_bytes().subrange(0, i as int),
        r.1.spec_bytes() == s.spec_bytes().subrange(i as int, s.spec_bytes().len() as int),
{
    proof {
        let bytes = s.spec_bytes();
        if i < bytes.len() {
            is_char_boundary_iff_is_leading_byte(bytes, i as int);
        } else {
            is_char_boundary_start_end_of_seq(bytes);
        }
    }
    s.split_at(i)
}

/// Splits `s` after the ASCII byte at position `i`.
pub fn split_after_ascii(s: &str, i: usize) -> (r: (&str, &str))
    requires
        i < s.spec_bytes().len(),
        s.spec_bytes()[i as int] <= 0x7f,
    ensures
        r.0.spec_bytes() == s.spec_bytes().subrange(0, i + 1),
        r.1.spec_bytes() == s.spec_bytes().subrange(i + 1, s.spec_bytes().len() as int),
{
    let n = s.as_bytes().len();
    proof {
        lemma_boundary_after_ascii(s.spec_bytes(), i as int);
    }
    s.split_at(i + 1)
}

} // verus!

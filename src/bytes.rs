//! Searching byte strings: prefixes, leftmost and rightmost occurrences.
use vstd::prelude::*;

verus! {

/// The bytes of an ASCII text, one per character.
pub open spec fn ascii(s: Seq<char>) -> Seq<u8> {
    Seq::new(s.len(), |i: int| s[i] as u8)
}

/// An optional index, as an integer.
pub open spec fn opt_int(o: Option<usize>) -> Option<int> {
    match o {
        Some(i) => Some(i as int),
        None => None,
    }
}

/// `needle` occurs in `s` starting at index `i`.
pub open spec fn occurs_at(s: Seq<u8>, needle: Seq<u8>, i: int) -> bool {
    &&& 0 <= i
    &&& i + needle.len() <= s.len()
    &&& s.subrange(i, i + needle.len()) == needle
}

/// `s` begins with `prefix`.
pub open spec fn has_prefix(s: Seq<u8>, prefix: Seq<u8>) -> bool {
    occurs_at(s, prefix, 0)
}

/// The leftmost index at or after `from` at which `needle` occurs in `s`.
pub open spec fn find_from(s: Seq<u8>, needle: Seq<u8>, from: int) -> Option<int>
    decreases s.len() + 1 - from,
{
    if from < 0 || from + needle.len() > s.len() {
        None
    } else if occurs_at(s, needle, from) {
        Some(from)
    } else {
        find_from(s, needle, from + 1)
    }
}

/// The rightmost index below `end` that holds the byte `b`.
pub open spec fn rfind_byte(s: Seq<u8>, b: u8, end: int) -> Option<int>
    decreases end,
{
    if end <= 0 || end > s.len() {
        None
    } else if s[end - 1] == b {
        Some(end - 1)
    } else {
        rfind_byte(s, b, end - 1)
    }
}

/// The leftmost occurrence found from `from` is an occurrence, and no earlier
/// index from `from` on holds one; where none is found, no index from `from` on
/// holds one.
pub proof fn lemma_find_from_leftmost(s: Seq<u8>, needle: Seq<u8>, from: int)
    requires
        0 <= from,
    ensures
        match find_from(s, needle, from) {
            Some(i) => from <= i && occurs_at(s, needle, i) && forall|j: int|
                from <= j < i ==> !occurs_at(s, needle, j),
            None => forall|j: int| from <= j ==> !occurs_at(s, needle, j),
        },
    decreases s.len() + 1 - from,
{
    if from + needle.len() > s.len() {
    } else if occurs_at(s, needle, from) {
    } else {
        lemma_find_from_leftmost(s, needle, from + 1);
    }
}

/// The rightmost byte `b` found below `end` is a `b`, and no later index below
/// `end` holds one.
pub proof fn lemma_rfind_byte_rightmost(s: Seq<u8>, b: u8, end: int)
    requires
        end <= s.len(),
    ensures
        match rfind_byte(s, b, end) {
            Some(i) => 0 <= i < end && s[i] == b && forall|j: int| i < j < end ==> s[j] != b,
            None => forall|j: int| 0 <= j < end ==> s[j] != b,
        },
    decreases end,
{
    if end <= 0 {
    } else if s[end - 1] == b {
    } else {
        lemma_rfind_byte_rightmost(s, b, end - 1);
    }
}

/// An occurrence at `j` with none between `from` and `j` is the one found.
pub proof fn lemma_find_first(s: Seq<u8>, needle: Seq<u8>, from: int, j: int)
    requires
        0 <= from <= j,
        occurs_at(s, needle, j),
        forall|k: int| from <= k < j ==> !occurs_at(s, needle, k),
    ensures
        find_from(s, needle, from) == Some(j),
    decreases j - from,
{
    if from < j {
        lemma_find_first(s, needle, from + 1, j);
    }
}

/// The bytes of an ASCII string.
pub fn ascii_bytes(t: &str) -> (r: &[u8])
    requires
        vstd::string::is_ascii(t),
    ensures
        r@ == ascii(t@),
{
    proof {
        broadcast use vstd::string::is_ascii_spec_bytes;
    }
    let b = t.as_bytes();
    assert(b@ =~= ascii(t@));
    b
}

/// Whether `needle` occurs in `s` at index `at`.
pub fn matches_at(s: &[u8], needle: &[u8], at: usize) -> (r: bool)
    ensures
        r == occurs_at(s@, needle@, at as int),
{
    if at > s.len() || needle.len() > s.len() - at {
        return false;
    }
    let mut k: usize = 0;
    while k < needle.len()
        invariant
            at + needle.len() <= s.len(),
            k <= needle@.len(),
            forall|j: int| 0 <= j < k ==> s@[at + j] == needle@[j],
        decreases needle@.len() - k,
    {
        if s[at + k] != needle[k] {
            assert(s@.subrange(at as int, at + needle@.len())[k as int] != needle@[k as int]);
            return false;
        }
        k += 1;
    }
    assert(s@.subrange(at as int, at + needle@.len()) =~= needle@);
    true
}

/// Whether `s` begins with `prefix`.
pub fn starts_with(s: &[u8], prefix: &[u8]) -> (r: bool)
    ensures
        r == has_prefix(s@, prefix@),
{
    matches_at(s, prefix, 0)
}

/// The leftmost index at or after `from` at which `needle` occurs.
pub fn find(s: &[u8], needle: &[u8], from: usize) -> (r: Option<usize>)
    ensures
        match r {
            Some(i) => find_from(s@, needle@, from as int) == Some(i as int),
            None => find_from(s@, needle@, from as int) is None,
        },
{
    if needle.len() > s.len() {
        return None;
    }
    let last = s.len() - needle.len();
    if from > last {
        return None;
    }
    let mut i = from;
    loop
        invariant
            last + needle.len() == s.len(),
            from <= i <= last,
            find_from(s@, needle@, from as int) == find_from(s@, needle@, i as int),
        decreases last - i,
    {
        if matches_at(s, needle, i) {
            return Some(i);
        }
        if i == last {
            assert(find_from(s@, needle@, i + 1) is None);
            return None;
        }
        i += 1;
    }
}

/// The rightmost index that holds the byte `b`.
pub fn rfind(s: &[u8], b: u8) -> (r: Option<usize>)
    ensures
        match r {
            Some(i) => rfind_byte(s@, b, s@.len() as int) == Some(i as int),
            None => rfind_byte(s@, b, s@.len() as int) is None,
        },
{
    let mut end = s.len();
    while end > 0
        invariant
            end <= s@.len(),
            rfind_byte(s@, b, s@.len() as int) == rfind_byte(s@, b, end as int),
        decreases end,
    {
        if s[end - 1] == b {
            return Some(end - 1);
        }
        end -= 1;
    }
    None
}

} // verus!

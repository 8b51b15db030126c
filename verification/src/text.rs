//! Character-sequence helpers shared by the matching rules.

use vstd::prelude::*;

verus! {

broadcast use vstd::string::group_string_axioms;

/// The characters of `s`, in order.
pub fn chars_of(s: &str) -> (v: Vec<char>)
    ensures
        v@ == s@,
{
    let mut v: Vec<char> = Vec::new();
    for c in it: s.chars()
        invariant
            it.seq() == s@,
            v@ == it.seq().take(it.index()),
    {
        v.push(c);
    }
    v
}


/// `needle` occurs in `haystack` as a contiguous run starting at index `i`.
pub open spec fn occurs_at(haystack: Seq<char>, needle: Seq<char>, i: int) -> bool {
    &&& 0 <= i
    &&& i + needle.len() <= haystack.len()
    &&& haystack.subrange(i, i + needle.len()) == needle
}

/// `needle` is a substring of `haystack` (the empty sequence is a substring
/// of every sequence).
pub open spec fn is_substring(haystack: Seq<char>, needle: Seq<char>) -> bool {
    exists|i: int| occurs_at(haystack, needle, i)
}

/// The code of `c` with ASCII upper-case letters folded to lower case;
/// every other character keeps its code.
pub open spec fn ascii_fold(c: char) -> u32 {
    if 65 <= (c as u32) && (c as u32) <= 90 {
        (c as u32 + 32) as u32
    } else {
        c as u32
    }
}

/// The two sequences are equal once ASCII letters are case-folded.
pub open spec fn eq_ignore_ascii_case(a: Seq<char>, b: Seq<char>) -> bool {
    &&& a.len() == b.len()
    &&& forall|i: int| 0 <= i < a.len() ==> #[trigger] ascii_fold(a[i]) == ascii_fold(b[i])
}

pub fn fold_char(c: char) -> (r: u32)
    ensures
        r == ascii_fold(c),
{
    let u: u32 = c as u32;
    if 65 <= u && u <= 90 {
        u + 32
    } else {
        u
    }
}

/// Whether `needle` matches `haystack` at position `i`.
fn matches_at(haystack: &Vec<char>, needle: &Vec<char>, i: usize) -> (r: bool)
    requires
        i + needle.len() <= haystack.len(),
    ensures
        r == occurs_at(haystack@, needle@, i as int),
{
    let mut j: usize = 0;
    while j < needle.len()
        invariant
            j <= needle.len(),
            i + needle.len() <= haystack.len(),
            forall|k: int| 0 <= k < j ==> haystack@[i + k] == needle@[k],
        decreases needle.len() - j,
    {
        if haystack[i + j] != needle[j] {
            assert(haystack@.subrange(i as int, i + needle.len())[j as int] != needle@[j as int]);
            return false;
        }
        j += 1;
    }
    assert(haystack@.subrange(i as int, i + needle.len()) =~= needle@);
    true
}

/// Whether `needle` occurs in `haystack` (as `str::contains` with a string
/// pattern).
pub fn contains_str(haystack: &str, needle: &str) -> (r: bool)
    ensures
        r == is_substring(haystack@, needle@),
{
    let h = chars_of(haystack);
    let n = chars_of(needle);
    if n.len() > h.len() {
        return false;
    }
    let last: usize = h.len() - n.len();
    let mut i: usize = 0;
    loop
        invariant
            h@ == haystack@,
            n@ == needle@,
            last == h.len() - n.len(),
            i <= last,
            forall|k: int| 0 <= k < i ==> !occurs_at(h@, n@, k),
        decreases last - i,
    {
        if matches_at(&h, &n, i) {
            return true;
        }
        if i == last {
            return false;
        }
        i += 1;
    }
}

} // verus!

use vstd::prelude::*;

verus! {

/// `needle` stands in `hay` at position `at`.
pub open spec fn occurs_at(hay: Seq<char>, needle: Seq<char>, at: int) -> bool {
    &&& 0 <= at
    &&& at + needle.len() <= hay.len()
    &&& hay.subrange(at, at + needle.len()) == needle
}

/// `needle` stands somewhere in `hay` as a run of consecutive characters.
pub open spec fn is_substring(hay: Seq<char>, needle: Seq<char>) -> bool {
    exists|at: int| occurs_at(hay, needle, at)
}

/// Tells whether `needle` stands in `hay` at position `at`.
pub fn matches_at(hay: &[char], needle: &[char], at: usize) -> (m: bool)
    requires
        at + needle@.len() <= hay@.len(),
    ensures
        m == occurs_at(hay@, needle@, at as int),
{
    let n: usize = needle.len();
    let h: usize = hay.len();
    let mut k: usize = 0;
    while k < n
        invariant
            n == needle@.len(),
            h == hay@.len(),
            at + n <= hay@.len(),
            k <= n,
            forall|j: int| 0 <= j < k ==> hay@[at + j] == needle@[j],
        decreases n - k,
    {
        if hay[at + k] != needle[k] {
            proof {
                let window = hay@.subrange(at as int, at + n);
                assert(window[k as int] == hay@[at + k]);
            }
            return false;
        }
        k += 1;
    }
    proof {
        assert(hay@.subrange(at as int, at + n) =~= needle@);
    }
    true
}

/// Tells whether `needle` is a substring of `hay`. The empty needle is a
/// substring of every text.
pub fn contains(hay: &[char], needle: &[char]) -> (found: bool)
    ensures
        found == is_substring(hay@, needle@),
{
    if needle.len() > hay.len() {
        return false;
    }
    let last: usize = hay.len() - needle.len();
    let mut at: usize = 0;
    loop
        invariant
            last == hay@.len() - needle@.len(),
            at <= last,
            forall|j: int| 0 <= j < at ==> !occurs_at(hay@, needle@, j),
        decreases last - at,
    {
        if matches_at(hay, needle, at) {
            return true;
        }
        if at == last {
            return false;
        }
        at += 1;
    }
}

/// The lower-case form of a text, as the standard library's
/// `str::to_lowercase` defines it over all of Unicode.
pub uninterp spec fn lowercase(text: Seq<char>) -> Seq<char>;

/// Lower-cases a text with `str::to_lowercase` and hands the characters
/// back one by one. Trusted: the result is taken to be `lowercase` of the
/// argument, which only names what the standard library computes.
#[verifier::external_body]
pub(crate) fn to_lowercase(text: &str) -> (lower: Vec<char>)
    ensures
        lower@ == lowercase(text@),
{
    text.to_lowercase().chars().collect()
}

} // verus!

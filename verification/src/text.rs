//! Character and string utilities: ASCII case folding and substring
//! search, the basis of the case-insensitive entry filter.

use vstd::prelude::*;

verus! {

/// ASCII case folding of one character: `'A'..='Z'` map to their
/// lower-case counterparts, every other character is unchanged.
pub open spec fn lower_char(c: char) -> char {
    if 'A' as u32 <= c as u32 && c as u32 <= 'Z' as u32 {
        ((c as u32) + 32) as char
    } else {
        c
    }
}

/// Pointwise ASCII case folding of a character sequence.
pub open spec fn lower_seq(s: Seq<char>) -> Seq<char> {
    s.map_values(|c: char| lower_char(c))
}

/// `needle` occurs in `hay` starting at position `i`.
pub open spec fn match_at(hay: Seq<char>, needle: Seq<char>, i: int) -> bool {
    &&& 0 <= i
    &&& i + needle.len() <= hay.len()
    &&& forall|j: int| 0 <= j < needle.len() ==> hay[i + j] == needle[j]
}

/// `needle` occurs somewhere in `hay` as a contiguous substring.
pub open spec fn contains_seq(hay: Seq<char>, needle: Seq<char>) -> bool {
    exists|i: int| match_at(hay, needle, i)
}

/// `needle` occurs in `hay` up to ASCII case.
pub open spec fn contains_insensitive(hay: Seq<char>, needle: Seq<char>) -> bool {
    contains_seq(lower_seq(hay), lower_seq(needle))
}

/// Executable ASCII case folding of one character.
pub fn to_lower_char(c: char) -> (r: char)
    ensures
        r == lower_char(c),
{
    match c {
        'A' => 'a',
        'B' => 'b',
        'C' => 'c',
        'D' => 'd',
        'E' => 'e',
        'F' => 'f',
        'G' => 'g',
        'H' => 'h',
        'I' => 'i',
        'J' => 'j',
        'K' => 'k',
        'L' => 'l',
        'M' => 'm',
        'N' => 'n',
        'O' => 'o',
        'P' => 'p',
        'Q' => 'q',
        'R' => 'r',
        'S' => 's',
        'T' => 't',
        'U' => 'u',
        'V' => 'v',
        'W' => 'w',
        'X' => 'x',
        'Y' => 'y',
        'Z' => 'z',
        _ => c,
    }
}

/// The characters of `s`, folded to lower case.
pub fn lower_chars(s: &str) -> (r: Vec<char>)
    ensures
        r@ == lower_seq(s@),
{
    let n = s.unicode_len();
    let mut r: Vec<char> = Vec::new();
    let mut i: usize = 0;
    while i < n
        invariant
            n == s@.len(),
            i <= n,
            r@ == lower_seq(s@.take(i as int)),
        decreases n - i,
    {
        let c = s.get_char(i);
        r.push(to_lower_char(c));
        proof {
            assert(s@.take(i + 1) =~= s@.take(i as int).push(s@[i as int]));
            assert(lower_seq(s@.take(i + 1)) =~= lower_seq(s@.take(i as int)).push(
                lower_char(s@[i as int]),
            ));
        }
        i = i + 1;
    }
    proof {
        assert(s@.take(n as int) =~= s@);
    }
    r
}

/// `needle` occurs at `i`, and nowhere earlier.
pub open spec fn first_match_at(hay: Seq<char>, needle: Seq<char>, i: int) -> bool {
    &&& match_at(hay, needle, i)
    &&& forall|k: int| 0 <= k < i ==> !match_at(hay, needle, k)
}

/// The position where `first_match_at` holds is unique.
pub proof fn lemma_first_match_unique(hay: Seq<char>, needle: Seq<char>, i: int, j: int)
    requires
        first_match_at(hay, needle, i),
        first_match_at(hay, needle, j),
    ensures
        i == j,
{
    if i < j {
        assert(!match_at(hay, needle, i));
    }
    if j < i {
        assert(!match_at(hay, needle, j));
    }
}

/// The position of the first occurrence of `needle` in `hay`, by direct
/// scan.
pub fn find_first(hay: &Vec<char>, needle: &Vec<char>) -> (r: Option<usize>)
    ensures
        match r {
            Some(i) => first_match_at(hay@, needle@, i as int),
            None => !contains_seq(hay@, needle@),
        },
{
    let m = needle.len();
    let n = hay.len();
    if m > n {
        proof {
            assert(forall|i: int| !match_at(hay@, needle@, i));
        }
        return None;
    }
    let mut i: usize = 0;
    while i <= n - m
        invariant
            m == needle@.len(),
            n == hay@.len(),
            m <= n,
            i <= n - m + 1,
            forall|k: int| 0 <= k < i ==> !match_at(hay@, needle@, k),
        decreases n - m + 1 - i,
    {
        let mut j: usize = 0;
        let mut all_eq: bool = true;
        while j < m
            invariant
                m == needle@.len(),
                n == hay@.len(),
                i + m <= n,
                j <= m,
                all_eq == (forall|k: int| 0 <= k < j ==> hay@[i + k] == needle@[k]),
            decreases m - j,
        {
            if hay[i + j] != needle[j] {
                all_eq = false;
                proof {
                    assert(!(forall|k: int| 0 <= k < j + 1 ==> hay@[i as int + k] == needle@[k]))
                        by {
                        assert(hay@[i + j as int] != needle@[j as int]);
                    }
                }
            } else {
                proof {
                    if all_eq {
                        assert(forall|k: int| 0 <= k < j + 1 ==> hay@[i as int + k] == needle@[k])
                            by {
                            assert(hay@[i + j as int] == needle@[j as int]);
                        }
                    }
                }
            }
            j = j + 1;
        }
        if all_eq {
            proof {
                assert(match_at(hay@, needle@, i as int));
            }
            return Some(i);
        }
        proof {
            assert(!match_at(hay@, needle@, i as int));
        }
        i = i + 1;
    }
    proof {
        assert(forall|k: int| !match_at(hay@, needle@, k)) by {
            assert(forall|k: int| k > n - m ==> !match_at(hay@, needle@, k));
            assert(forall|k: int| 0 <= k <= n - m ==> !match_at(hay@, needle@, k));
        }
    }
    None
}

/// Whether `needle` occurs in `hay` as a contiguous run.
pub fn contains_chars(hay: &Vec<char>, needle: &Vec<char>) -> (r: bool)
    ensures
        r == contains_seq(hay@, needle@),
{
    match find_first(hay, needle) {
        Some(_) => true,
        None => false,
    }
}

/// Whether `needle` occurs in `hay` up to ASCII case.
pub fn contains_insens(hay: &str, needle: &str) -> (r: bool)
    ensures
        r == contains_insensitive(hay@, needle@),
{
    let h = lower_chars(hay);
    let n = lower_chars(needle);
    contains_chars(&h, &n)
}

/// The characters of `s`, unchanged.
pub fn chars_of(s: &str) -> (r: Vec<char>)
    ensures
        r@ == s@,
{
    let n = s.unicode_len();
    let mut r: Vec<char> = Vec::new();
    let mut i: usize = 0;
    while i < n
        invariant
            n == s@.len(),
            i <= n,
            r@ == s@.take(i as int),
        decreases n - i,
    {
        r.push(s.get_char(i));
        proof {
            assert(r@ =~= s@.take(i + 1));
        }
        i = i + 1;
    }
    proof {
        assert(s@.take(n as int) =~= s@);
    }
    r
}

/// Relies on std's `FromIterator` implementation for `String`: collecting
/// an iterator of characters yields the string of exactly those
/// characters, in order.
#[verifier::external_body]
pub fn string_from_chars(v: &Vec<char>) -> (r: String)
    ensures
        r@ == v@,
{
    v.iter().collect()
}

/// Appends the characters of `s` to `dst`.
pub fn append_str_chars(dst: &mut Vec<char>, s: &str)
    ensures
        final(dst)@ == old(dst)@ + s@,
{
    let n = s.unicode_len();
    let mut i: usize = 0;
    while i < n
        invariant
            n == s@.len(),
            i <= n,
            dst@ == old(dst)@ + s@.take(i as int),
        decreases n - i,
    {
        let c = s.get_char(i);
        dst.push(c);
        proof {
            assert(old(dst)@ + s@.take(i + 1) =~= (old(dst)@ + s@.take(i as int)).push(
                s@[i as int],
            ));
        }
        i = i + 1;
    }
    proof {
        assert(old(dst)@ + s@.take(n as int) =~= old(dst)@ + s@);
    }
}

} // verus!

//! Normalized interval content.
//!
//! Activity grouping and phrase counting treat two content strings as the
//! same activity when they agree after normalization: surrounding
//! whitespace removed and ASCII letters lower-cased. The whole normalized
//! string is one phrase; it is never split into words.
//!
//! The folding is deliberately ASCII-only: exactly the letters 'A'..'Z'
//! fold, exactly space, tab, line feed and carriage return trim, and any
//! other character passes through unchanged. This keeps the normalization
//! a closed, fully stated function — [`spec_normalize`] is the whole
//! definition — at the cost of not folding letters outside ASCII.

use vstd::prelude::*;

verus! {

/// The lower-case form of one character: ASCII letters are folded, every
/// other character is kept.
pub open spec fn spec_lower_char(c: char) -> char {
    match c {
        'A' => 'a',
        'B' => 'b',
        'C' => 'c',
        'D' => 'd',
        'E' => 'e',
        'F' => 'f',
        'G' => 'g',
        'H' => 'h',
        'I' => 'i',
        'J' => 'j',
        'K' => 'k',
        'L' => 'l',
        'M' => 'm',
        'N' => 'n',
        'O' => 'o',
        'P' => 'p',
        'Q' => 'q',
        'R' => 'r',
        'S' => 's',
        'T' => 't',
        'U' => 'u',
        'V' => 'v',
        'W' => 'w',
        'X' => 'x',
        'Y' => 'y',
        'Z' => 'z',
        _ => c,
    }
}

/// Whitespace that trimming removes.
pub open spec fn spec_is_space(c: char) -> bool {
    c == ' ' || c == '\t' || c == '\n' || c == '\r'
}

/// The sequence with its leading whitespace removed.
pub open spec fn spec_trim_start(s: Seq<char>) -> Seq<char>
    decreases s.len(),
{
    if s.len() > 0 && spec_is_space(s.first()) {
        spec_trim_start(s.drop_first())
    } else {
        s
    }
}

/// The sequence with its trailing whitespace removed.
pub open spec fn spec_trim_end(s: Seq<char>) -> Seq<char>
    decreases s.len(),
{
    if s.len() > 0 && spec_is_space(s.last()) {
        spec_trim_end(s.drop_last())
    } else {
        s
    }
}

/// The sequence with every character lower-cased.
pub open spec fn spec_lower(s: Seq<char>) -> Seq<char> {
    s.map_values(|c: char| spec_lower_char(c))
}

/// The normalized form of a content string: lower-cased, then stripped of
/// surrounding whitespace.
pub open spec fn spec_normalize(s: Seq<char>) -> Seq<char> {
    spec_trim_end(spec_trim_start(spec_lower(s)))
}

/// Trimming the front removes exactly the leading run of whitespace.
proof fn lemma_trim_start_at(s: Seq<char>, a: int)
    requires
        0 <= a <= s.len(),
        forall|i: int| 0 <= i < a ==> spec_is_space(#[trigger] s[i]),
        a < s.len() ==> !spec_is_space(s[a]),
    ensures
        spec_trim_start(s) =~= s.subrange(a, s.len() as int),
    decreases a,
{
    if a == 0 {
    } else {
        lemma_trim_start_at(s.drop_first(), a - 1);
        assert(s.drop_first().subrange(a - 1, s.drop_first().len() as int) =~= s.subrange(
            a,
            s.len() as int,
        ));
    }
}

/// Trimming the back removes exactly the trailing run of whitespace.
proof fn lemma_trim_end_at(s: Seq<char>, b: int)
    requires
        -1 <= b < s.len(),
        forall|i: int| b < i < s.len() ==> spec_is_space(#[trigger] s[i]),
        b >= 0 ==> !spec_is_space(s[b]),
    ensures
        spec_trim_end(s) =~= s.subrange(0, b + 1),
    decreases s.len(),
{
    if b + 1 < s.len() {
        lemma_trim_end_at(s.drop_last(), b);
        assert(s.drop_last().subrange(0, b + 1) =~= s.subrange(0, b + 1));
    }
}

/// Whether the two strings have the same characters.
pub fn str_eq(a: &str, b: &str) -> (r: bool)
    ensures
        r == (a@ == b@),
{
    let la = a.unicode_len();
    let lb = b.unicode_len();
    if la != lb {
        return false;
    }
    let mut i: usize = 0;
    while i < la
        invariant
            la == a@.len(),
            la == b@.len(),
            i <= la,
            forall|j: int| 0 <= j < i ==> a@[j] == b@[j],
        decreases la - i,
    {
        if a.get_char(i) != b.get_char(i) {
            return false;
        }
        i += 1;
    }
    proof {
        assert(a@ =~= b@);
    }
    true
}

/// The lower-case form of one character.
pub fn lower_char(c: char) -> (r: char)
    ensures
        r == spec_lower_char(c),
{
    match c {
        'A' => 'a',
        'B' => 'b',
        'C' => 'c',
        'D' => 'd',
        'E' => 'e',
        'F' => 'f',
        'G' => 'g',
        'H' => 'h',
        'I' => 'i',
        'J' => 'j',
        'K' => 'k',
        'L' => 'l',
        'M' => 'm',
        'N' => 'n',
        'O' => 'o',
        'P' => 'p',
        'Q' => 'q',
        'R' => 'r',
        'S' => 's',
        'T' => 't',
        'U' => 'u',
        'V' => 'v',
        'W' => 'w',
        'X' => 'x',
        'Y' => 'y',
        'Z' => 'z',
        _ => c,
    }
}

/// Whether trimming removes this character.
pub fn is_space(c: char) -> (r: bool)
    ensures
        r == spec_is_space(c),
{
    c == ' ' || c == '\t' || c == '\n' || c == '\r'
}

/// Relies on `String::push`: appends exactly the given character.
#[verifier::external_body]
fn push_char(s: &mut String, c: char)
    ensures
        final(s)@ == old(s)@.push(c),
{
    s.push(c);
}

/// The normalized form of a content string: ASCII letters lower-cased,
/// surrounding ASCII whitespace removed, all other characters kept.
pub fn normalize(s: &str) -> (r: String)
    ensures
        r@ == spec_normalize(s@),
{
    let n = s.unicode_len();
    let ghost low = spec_lower(s@);
    let mut a: usize = 0;
    while a < n && is_space(s.get_char(a))
        invariant
            n == s@.len(),
            a <= n,
            forall|i: int| 0 <= i < a ==> spec_is_space(#[trigger] s@[i]),
        decreases n - a,
    {
        a += 1;
    }
    proof {
        assert(forall|i: int| 0 <= i < s@.len() ==> low[i] == spec_lower_char(#[trigger] s@[i]));
        assert(forall|c: char| spec_is_space(spec_lower_char(c)) == spec_is_space(c));
        lemma_trim_start_at(low, a as int);
    }
    if a == n {
        let r = String::new();
        proof {
            assert(spec_trim_start(low) =~= Seq::<char>::empty());
            assert(spec_normalize(s@) =~= Seq::<char>::empty());
        }
        return r;
    }
    let mut b: usize = n - 1;
    while is_space(s.get_char(b))
        invariant
            n == s@.len(),
            a <= b < n,
            !spec_is_space(s@[a as int]),
            forall|i: int| b < i < n ==> spec_is_space(#[trigger] s@[i]),
        decreases b,
    {
        b -= 1;
    }
    proof {
        let trimmed = low.subrange(a as int, n as int);
        lemma_trim_end_at(trimmed, b as int - a as int);
        assert(trimmed.subrange(0, b - a + 1) =~= low.subrange(a as int, b as int + 1));
        assert(spec_normalize(s@) =~= low.subrange(a as int, b as int + 1));
    }
    let mut r = String::new();
    let mut i: usize = a;
    while i <= b
        invariant
            n == s@.len(),
            a <= i <= b + 1,
            b < n,
            r@.len() == i - a,
            forall|j: int| 0 <= j < i - a ==> r@[j] == spec_lower_char(#[trigger] s@[a + j]),
        decreases b + 1 - i,
    {
        let c = lower_char(s.get_char(i));
        push_char(&mut r, c);
        i += 1;
    }
    proof {
        assert(forall|i: int| 0 <= i < s@.len() ==> low[i] == spec_lower_char(#[trigger] s@[i]));
        assert forall|j: int| 0 <= j < r@.len() implies r@[j] == low.subrange(
            a as int,
            b as int + 1,
        )[j] by {
            assert(r@[j] == spec_lower_char(s@[a + j]));
            assert(low[a + j] == spec_lower_char(s@[a + j]));
        }
        assert(r@ =~= low.subrange(a as int, b as int + 1));
    }
    r
}

} // verus!

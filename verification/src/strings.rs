//! Small string helpers: borrowing-friendly length, in-place append,
//! first-word slicing and longest-of-two selection.

use vstd::prelude::*;
use vstd::string::StringSliceAdditionalSpecFns;
use vstd::string::StrSliceExecFns;
use vstd::string::StringExecFns;

verus! {

/// Byte length of a string slice, taken through a shared borrow.
pub fn calculate_length(s: &str) -> (len: usize)
    ensures
        len == s.spec_bytes().len() as usize,
{
    s.len()
}

/// Appends ", world" to the string behind a mutable borrow.
pub fn change(s: &mut String)
    ensures
        final(s)@ == old(s)@ + ", world"@,
{
    s.append(", world");
}

/// Hands out an owned greeting rather than a reference to a local.
pub fn dangle() -> (r: String)
    ensures
        r@ == "hello"@,
{
    String::from_str("hello")
}

/// Binds the owned value returned by `dangle`.
pub fn exercise_6_dangling_reference() {
    let _owned: String = dangle();
}

/// Index of the first space in `s` at or after `i`, or the length of `s`
/// when no space follows.
pub open spec fn word_end(s: Seq<char>, i: int) -> int
    recommends
        0 <= i <= s.len(),
    decreases s.len() - i when 0 <= i <= s.len()
{
    if i >= s.len() || s[i] == ' ' {
        i
    } else {
        word_end(s, i + 1)
    }
}

proof fn lemma_word_end_skip(s: Seq<char>, i: int)
    requires
        0 <= i <= s.len(),
        forall|j: int| 0 <= j < i ==> s[j] != ' ',
    ensures
        word_end(s, 0) == word_end(s, i),
    decreases i,
{
    if i > 0 {
        lemma_word_end_skip(s, i - 1);
        assert(word_end(s, i - 1) == word_end(s, i));
    }
}

/// The prefix of `s` before its first space; all of `s` when it has none.
pub fn first_word(s: &str) -> (w: &str)
    ensures
        w@ == s@.subrange(0, word_end(s@, 0)),
{
    let n: usize = s.unicode_len();
    let mut i: usize = 0;
    while i < n
        invariant
            n == s@.len(),
            0 <= i <= n,
            forall|j: int| 0 <= j < i ==> s@[j] != ' ',
        decreases n - i,
    {
        if s.get_char(i) == ' ' {
            proof {
                lemma_word_end_skip(s@, i as int);
            }
            return s.substring_char(0, i);
        }
        i = i + 1;
    }
    proof {
        lemma_word_end_skip(s@, n as int);
        assert(s@.subrange(0, s@.len() as int) =~= s@);
    }
    s
}

/// The byte-longer of two string slices; the first when their lengths tie.
pub fn longest<'a>(x: &'a str, y: &'a str) -> (r: &'a str)
    ensures
        (x.spec_bytes().len() as usize) >= (y.spec_bytes().len() as usize) ==> r@ == x@,
        (x.spec_bytes().len() as usize) < (y.spec_bytes().len() as usize) ==> r@ == y@,
{
    if x.len() >= y.len() {
        x
    } else {
        y
    }
}

} // verus!

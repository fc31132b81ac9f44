//! Strings as sequences of characters.

use vstd::prelude::*;

verus! {

/// `text` in lower case, as `str::to_lowercase` gives it: by the Unicode
/// tables, with no regard to a locale.
pub uninterp spec fn lowercase(text: Seq<char>) -> Seq<char>;

/// Calls `str::to_lowercase`. Claims only that the result depends on the
/// text alone.
#[verifier::external_body]
pub(crate) fn to_lowercase(text: &str) -> (lowered: String)
    ensures
        lowered@ == lowercase(text@),
{
    text.to_lowercase()
}

/// The characters of `s`, in order.
pub fn chars_of(s: &str) -> (chars: Vec<char>)
    ensures
        chars@ == s@,
{
    let mut chars: Vec<char> = Vec::new();
    for c in it: s.chars()
        invariant
            it.seq() == s@,
            chars@ == it.seq().take(it.index() as int),
    {
        chars.push(c);
    }
    chars
}

/// Whether `chars` spell `word`.
pub fn spells(chars: &Vec<char>, word: &str) -> (same: bool)
    ensures
        same == (chars@ == word@),
{
    let mut same = true;
    let mut i: usize = 0;
    for c in it: word.chars()
        invariant
            it.seq() == word@,
            same ==> i == it.index() && i <= chars.len() && chars@.take(i as int) == word@.take(
                i as int,
            ),
            !same ==> chars@ != word@,
    {
        if same {
            if i < chars.len() && chars[i] == c {
                assert(chars@.take(i as int + 1) == chars@.take(i as int).push(c));
                assert(word@.take(i as int + 1) == word@.take(i as int).push(c));
                i += 1;
            } else {
                same = false;
            }
        }
    }
    proof {
        if same {
            assert(word@.take(i as int) == word@);
            if i == chars.len() {
                assert(chars@.take(i as int) == chars@);
            }
        }
    }
    same && i == chars.len()
}

} // verus!

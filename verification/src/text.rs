//! Character-level access to strings.

use vstd::prelude::*;
use vstd::std_specs::iter::IteratorSpec;

verus! {

/// Append one character (`String::push`).
#[verifier::external_body]
pub fn push_char(text: &mut String, ch: char)
    ensures
        final(text)@ == old(text)@.push(ch),
{
    text.push(ch);
}

/// The characters of `text`, in order.
pub fn chars_of(text: &str) -> (chars: Vec<char>)
    ensures
        chars@ == text@,
{
    broadcast use vstd::string::axiom_spec_iter, vstd::string::next_postcondition;

    let mut iter = text.chars();
    let mut chars: Vec<char> = Vec::new();
    loop
        invariant
            chars@ + iter.remaining() == text@,
            iter.obeys_prophetic_iter_laws(),
            iter.decrease() is Some,
        ensures
            chars@ == text@,
        decreases iter.decrease().unwrap(),
    {
        let ghost before = iter.remaining();
        match iter.next() {
            Some(ch) => {
                proof {
                    assert(chars@.push(ch) + iter.remaining() =~= chars@ + before);
                }
                chars.push(ch);
            },
            None => {
                proof {
                    assert(chars@ =~= text@);
                }
                break;
            },
        }
    }
    chars
}

/// A string holding `chars`.
pub fn string_from_chars(chars: &[char]) -> (text: String)
    ensures
        text@ == chars@,
{
    let mut text = String::new();
    let mut i: usize = 0;
    while i < chars.len()
        invariant
            i <= chars@.len(),
            text@ == chars@.subrange(0, i as int),
        decreases chars@.len() - i,
    {
        push_char(&mut text, chars[i]);
        i = i + 1;
        proof {
            assert(text@ =~= chars@.subrange(0, i as int));
        }
    }
    proof {
        assert(chars@.subrange(0, chars@.len() as int) =~= chars@);
    }
    text
}

/// Whether `prefix` is a prefix of `text`.
pub open spec fn has_prefix(text: Seq<char>, prefix: Seq<char>) -> bool {
    prefix.len() <= text.len() && text.subrange(0, prefix.len() as int) == prefix
}

/// `text` without `prefix`, when it starts with it (`str::strip_prefix`).
pub fn strip_prefix(text: &str, prefix: &str) -> (rest: Option<String>)
    ensures
        rest is Some <==> has_prefix(text@, prefix@),
        rest matches Some(r) ==> r@ == text@.subrange(prefix@.len() as int, text@.len() as int),
{
    let text_chars = chars_of(text);
    let prefix_chars = chars_of(prefix);
    if prefix_chars.len() > text_chars.len() {
        return None;
    }
    let mut i: usize = 0;
    while i < prefix_chars.len()
        invariant
            text_chars@ == text@,
            prefix_chars@ == prefix@,
            prefix_chars@.len() <= text_chars@.len(),
            i <= prefix_chars@.len(),
            forall|j: int| 0 <= j < i ==> text_chars@[j] == prefix_chars@[j],
        decreases prefix_chars@.len() - i,
    {
        if text_chars[i] != prefix_chars[i] {
            proof {
                assert(text@.subrange(0, prefix@.len() as int)[i as int] != prefix@[i as int]);
            }
            return None;
        }
        i = i + 1;
    }
    proof {
        assert(text@.subrange(0, prefix@.len() as int) =~= prefix@);
    }
    let mut rest = String::new();
    let mut k = prefix_chars.len();
    while k < text_chars.len()
        invariant
            text_chars@ == text@,
            prefix_chars@ == prefix@,
            prefix_chars@.len() <= k <= text_chars@.len(),
            rest@ == text@.subrange(prefix@.len() as int, k as int),
        decreases text_chars@.len() - k,
    {
        push_char(&mut rest, text_chars[k]);
        k = k + 1;
        proof {
            assert(rest@ =~= text@.subrange(prefix@.len() as int, k as int));
        }
    }
    Some(rest)
}

} // verus!

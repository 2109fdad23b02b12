//! Small operations on text that the rest of the library shares.

use vstd::prelude::*;

verus! {

/// Trusted, of `String::push`: it appends the character to the end of the
/// string and changes nothing else.
pub assume_specification[ String::push ](s: &mut String, ch: char)
    ensures
        final(s)@ == old(s)@.push(ch),
;

/// Trusted, of `String::pop`: it takes the last character off the string
/// and returns it, and returns nothing and leaves the string where the
/// string has no character.
pub assume_specification[ String::pop ](s: &mut String) -> (last: Option<char>)
    ensures
        (match last {
            Some(ch) => old(s)@.len() > 0 && ch == old(s)@.last()
                && final(s)@ == old(s)@.drop_last(),
            None => old(s)@.len() == 0 && final(s)@ == old(s)@,
        }),
;

/// Whether `ch` is a control code, as `char::is_control` tells.
pub uninterp spec fn control_code(ch: char) -> bool;

/// Trusted, of `char::is_control`: it tells whether the character has the
/// general category of control codes, which is a property of the character
/// alone, and it is that property which `control_code` names.
pub assume_specification[ char::is_control ](ch: char) -> (b: bool)
    ensures
        b == control_code(ch),
;

/// Whether `ch` is white space, as `char::is_whitespace` tells.
pub uninterp spec fn white_space(ch: char) -> bool;

/// Trusted, of `char::is_whitespace`: it tells whether the character has
/// the property of white space, which is a property of the character alone,
/// and it is that property which `white_space` names.
pub assume_specification[ char::is_whitespace ](ch: char) -> (b: bool)
    ensures
        b == white_space(ch),
;

/// `text` without its characters of white space.
pub open spec fn without_white_space(text: Seq<char>) -> Seq<char>
    decreases text.len(),
{
    if text.len() == 0 {
        Seq::empty()
    } else if white_space(text.last()) {
        without_white_space(text.drop_last())
    } else {
        without_white_space(text.drop_last()).push(text.last())
    }
}

/// `text` without its characters of white space, wherever they stand.
pub fn strip_white_space(text: &str) -> (stripped: String)
    ensures
        stripped@ == without_white_space(text@),
{
    broadcast use vstd::string::group_string_axioms;

    let mut stripped = String::new();
    for c in it: text.chars()
        invariant
            it.seq() == text@,
            stripped@ == without_white_space(text@.take(it.index() as int)),
    {
        assert(text@.take(it.index() + 1).drop_last() =~= text@.take(it.index() as int));
        if !c.is_whitespace() {
            stripped.push(c);
        }
    }
    assert(text@.take(text@.len() as int) =~= text@);
    stripped
}

/// The characters of `text`, one by one.
pub fn to_chars(text: &str) -> (chars: Vec<char>)
    ensures
        chars@ == text@,
{
    broadcast use vstd::string::group_string_axioms;

    let mut chars: Vec<char> = Vec::new();
    for c in it: text.chars()
        invariant
            it.seq() == text@,
            chars@ == text@.take(it.index() as int),
    {
        chars.push(c);
        assert(text@.take(it.index() + 1) =~= text@.take(it.index() as int).push(c));
    }
    assert(text@.take(text@.len() as int) =~= text@);
    chars
}

/// The text made of the characters `chars[from..to]`.
pub fn string_from(chars: &Vec<char>, from: usize, to: usize) -> (text: String)
    requires
        from <= to <= chars@.len(),
    ensures
        text@ == chars@.subrange(from as int, to as int),
{
    let mut text = String::new();
    for i in from..to
        invariant
            from <= to <= chars@.len(),
            text@ == chars@.subrange(from as int, i as int),
    {
        text.push(chars[i]);
        assert(chars@.subrange(from as int, i + 1) =~= chars@.subrange(from as int, i as int).push(
            chars@[i as int],
        ));
    }
    text
}

/// `suffix` ends `text`.
pub open spec fn is_suffix(suffix: Seq<char>, text: Seq<char>) -> bool {
    suffix.len() <= text.len() && text.skip(text.len() - suffix.len()) == suffix
}

/// Whether the characters `text` end in the characters `suffix`.
pub fn ends_with(text: &Vec<char>, suffix: &Vec<char>) -> (b: bool)
    ensures
        b == is_suffix(suffix@, text@),
{
    let n = text.len();
    let m = suffix.len();
    if m > n {
        return false;
    }
    let base = n - m;
    for i in 0..m
        invariant
            n == text@.len(),
            m == suffix@.len(),
            base == n - m,
            forall|j: int| 0 <= j < i ==> text@[base + j] == suffix@[j],
    {
        if text[base + i] != suffix[i] {
            assert(text@.skip(base as int)[i as int] != suffix@[i as int]);
            return false;
        }
    }
    assert(text@.skip(base as int) =~= suffix@);
    true
}

} // verus!

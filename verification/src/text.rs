use vstd::prelude::*;

verus! {

/// Whether `c` separates lexemes: the characters that Unicode lists as white space.
pub open spec fn is_space(c: char) -> bool {
    let code = c as u32;
    ||| 0x09 <= code <= 0x0D
    ||| code == 0x20
    ||| code == 0x85
    ||| code == 0xA0
    ||| code == 0x1680
    ||| 0x2000 <= code <= 0x200A
    ||| code == 0x2028
    ||| code == 0x2029
    ||| code == 0x202F
    ||| code == 0x205F
    ||| code == 0x3000
}

pub fn is_whitespace(c: char) -> (space: bool)
    ensures
        space == is_space(c),
{
    let code: u32 = c as u32;
    (0x09 <= code && code <= 0x0D) || code == 0x20 || code == 0x85 || code == 0xA0 || code
        == 0x1680 || (0x2000 <= code && code <= 0x200A) || code == 0x2028 || code == 0x2029 || code
        == 0x202F || code == 0x205F || code == 0x3000
}

/// The characters of `source`, in order.
pub fn chars_of(source: &str) -> (chars: Vec<char>)
    ensures
        chars@ == source@,
{
    let mut chars: Vec<char> = Vec::new();
    for c in rest: source.chars()
        invariant
            rest.seq() == source@,
            chars@ == source@.take(rest.index() as int),
    {
        chars.push(c);
    }
    chars
}

/// Appends the characters of `word` to `buffer`.
pub fn push_word(buffer: &mut Vec<char>, word: &str)
    ensures
        final(buffer)@ == old(buffer)@ + word@,
{
    let ghost before = buffer@;
    for c in rest: word.chars()
        invariant
            rest.seq() == word@,
            buffer@ == before + word@.take(rest.index() as int),
    {
        buffer.push(c);
    }
}

/// Appends the characters of `text` to `buffer`.
pub fn push_text(buffer: &mut Vec<char>, text: &Vec<char>)
    ensures
        final(buffer)@ == old(buffer)@ + text@,
{
    let ghost before = buffer@;
    let mut i: usize = 0;
    while i < text.len()
        invariant
            i <= text.len(),
            buffer@ == before + text@.take(i as int),
        decreases text.len() - i,
    {
        buffer.push(text[i]);
        i += 1;
    }
}

/// A copy of `text`.
pub fn copy_text(text: &Vec<char>) -> (copy: Vec<char>)
    ensures
        copy@ == text@,
{
    let mut copy: Vec<char> = Vec::new();
    push_text(&mut copy, text);
    copy
}

/// Whether two texts hold the same characters.
pub fn same_text(a: &Vec<char>, b: &Vec<char>) -> (same: bool)
    ensures
        same == (a@ == b@),
{
    if a.len() != b.len() {
        return false;
    }
    let mut i: usize = 0;
    while i < a.len()
        invariant
            i <= a.len(),
            a.len() == b.len(),
            a@.take(i as int) == b@.take(i as int),
        decreases a.len() - i,
    {
        if a[i] != b[i] {
            return false;
        }
        assert(a@.take(i + 1) == a@.take(i as int).push(a@[i as int]));
        assert(b@.take(i + 1) == b@.take(i as int).push(b@[i as int]));
        i += 1;
    }
    assert(a@.take(a.len() as int) == a@);
    assert(b@.take(b.len() as int) == b@);
    true
}

/// Whether `text` spells `word`.
pub fn is_word(text: &Vec<char>, word: &str) -> (same: bool)
    ensures
        same == (text@ == word@),
{
    let mut i: usize = 0;
    for c in rest: word.chars()
        invariant
            rest.seq() == word@,
            i == rest.index(),
            i <= text.len(),
            text@.take(i as int) == word@.take(i as int),
    {
        if i >= text.len() || text[i] != c {
            return false;
        }
        assert(text@.take(i + 1) == text@.take(i as int).push(text@[i as int]));
        assert(word@.take(i + 1) == word@.take(i as int).push(word@[i as int]));
        i += 1;
    }
    assert(word@.take(i as int) == word@);
    assert(i == text.len() ==> text@.take(i as int) == text@);
    i == text.len()
}

/// Calls `String::from_iter`, which makes a string of the given characters
/// in their order.
#[verifier::external_body]
pub(crate) fn string_of(chars: &Vec<char>) -> (text: String)
    ensures
        text@ == chars@,
{
    String::from_iter(chars)
}

} // verus!

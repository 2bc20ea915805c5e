//! Text: what the library takes from the standard library on trust, and
//! two conversions between text and sequences of characters.

use vstd::prelude::*;

verus! {

/// `String::push` appends one character to the string.
pub assume_specification[ std::string::String::push ](s: &mut std::string::String, ch: char)
    ensures
        final(s)@ == old(s)@.push(ch),
;

/// Whether `c` is white space: whether it has the Unicode property
/// White_Space, by which `str::trim_end` and `str::trim` go.
pub uninterp spec fn is_white_space(c: char) -> bool;

/// The text without the white space at its end.
pub open spec fn trimmed_end(text: Seq<char>) -> Seq<char>
    decreases text.len(),
{
    if text.len() > 0 && is_white_space(text.last()) {
        trimmed_end(text.drop_last())
    } else {
        text
    }
}

/// The text without the white space at its start.
pub open spec fn trimmed_start(text: Seq<char>) -> Seq<char>
    decreases text.len(),
{
    if text.len() > 0 && is_white_space(text.first()) {
        trimmed_start(text.drop_first())
    } else {
        text
    }
}

/// The text without the white space at its ends.
pub open spec fn trimmed(text: Seq<char>) -> Seq<char> {
    trimmed_start(trimmed_end(text))
}

/// `str::trim_end` returns the text without the white space at its end:
/// what is left does not end with white space.
pub assume_specification[ str::trim_end ](text: &str) -> (out: &str)
    ensures
        out@ == trimmed_end(text@),
        out@.len() > 0 ==> !is_white_space(out@.last()),
;

/// `str::trim` returns the text without the white space at its ends: what
/// is left neither starts nor ends with white space.
pub assume_specification[ str::trim ](text: &str) -> (out: &str)
    ensures
        out@ == trimmed(text@),
        out@.len() > 0 ==> !is_white_space(out@.first()) && !is_white_space(out@.last()),
;

/// What is left of a text without the white space at its end is its
/// longest part from the start that does not end with white space.
pub proof fn lemma_trimmed_end(text: Seq<char>)
    ensures
        trimmed_end(text).is_prefix_of(text),
        trimmed_end(text).len() > 0 ==> !is_white_space(trimmed_end(text).last()),
        forall|i: int|
            trimmed_end(text).len() <= i < text.len() ==> is_white_space(#[trigger] text[i]),
    decreases text.len(),
{
    if text.len() > 0 && is_white_space(text.last()) {
        let rest = text.drop_last();
        lemma_trimmed_end(rest);
        assert forall|i: int| trimmed_end(text).len() <= i < text.len() implies is_white_space(
            #[trigger] text[i],
        ) by {
            if i < rest.len() {
                assert(text[i] == rest[i]);
            }
        }
    }
}

/// What is left of a text without the white space at its start is its
/// longest part up to the end that does not start with white space.
pub proof fn lemma_trimmed_start(text: Seq<char>)
    ensures
        trimmed_start(text).is_suffix_of(text),
        trimmed_start(text).len() > 0 ==> !is_white_space(trimmed_start(text).first()),
        forall|i: int|
            0 <= i < text.len() - trimmed_start(text).len() ==> is_white_space(#[trigger] text[i]),
        trimmed_start(text).len() > 0 ==> trimmed_start(text).last() == text.last(),
    decreases text.len(),
{
    if text.len() > 0 && is_white_space(text.first()) {
        let rest = text.drop_first();
        lemma_trimmed_start(rest);
        let kept = trimmed_start(rest);
        assert(kept.is_suffix_of(text)) by {
            assert(rest.subrange(rest.len() - kept.len(), rest.len() as int) == kept);
            assert(text.subrange(text.len() - kept.len(), text.len() as int) =~= rest.subrange(
                rest.len() - kept.len(),
                rest.len() as int,
            ));
        }
        assert forall|i: int| 0 <= i < text.len() - kept.len() implies is_white_space(
            #[trigger] text[i],
        ) by {
            if i > 0 {
                assert(text[i] == rest[i - 1]);
            }
        }
    } else {
        assert(text.subrange(0, text.len() as int) =~= text);
    }
}

/// What is left of a text without the white space at its ends neither
/// starts nor ends with white space.
pub proof fn lemma_trimmed(text: Seq<char>)
    ensures
        trimmed(text).len() > 0 ==> !is_white_space(trimmed(text).first()) && !is_white_space(
            trimmed(text).last(),
        ),
{
    lemma_trimmed_end(text);
    lemma_trimmed_start(trimmed_end(text));
}

/// The characters of `text`, in order.
pub fn chars_of(text: &str) -> (chars: Vec<char>)
    ensures
        chars@ == text@,
{
    let mut chars: Vec<char> = Vec::new();
    for c in it: text.chars()
        invariant
            chars@ == it.seq().take(it.index() as int),
            it.seq() == text@,
    {
        chars.push(c);
    }
    chars
}

/// The text that the characters `chars[from..to]` spell.
pub fn text_of(chars: &Vec<char>, from: usize, to: usize) -> (text: String)
    requires
        from <= to <= chars.len(),
    ensures
        text@ == chars@.subrange(from as int, to as int),
{
    let mut text = String::new();
    let mut i: usize = from;
    while i < to
        invariant
            from <= i <= to <= chars.len(),
            text@ == chars@.subrange(from as int, i as int),
        decreases to - i,
    {
        text.push(chars[i]);
        i += 1;
    }
    text
}

} // verus!

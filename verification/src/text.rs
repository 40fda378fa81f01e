//! Words of a string: the first word by its bytes, and a pig-latin
//! rendering of all words.

use vstd::prelude::*;
use vstd::string::*;
use vstd::utf8::*;

verus! {

/// Whether `at` is where the first word of `bytes` ends: at the first
/// space, or at the end if there is none.
pub open spec fn is_first_space(bytes: Seq<u8>, at: int) -> bool {
    &&& 0 <= at <= bytes.len()
    &&& forall|i: int| 0 <= i < at ==> bytes[i] != 0x20
    &&& at < bytes.len() ==> bytes[at] == 0x20
}

/// The number of bytes of `s` before its first space; its length in bytes
/// if it holds no space.
pub fn first_word(s: &String) -> (at: usize)
    ensures
        is_first_space(encode_utf8(s@), at as int),
{
    let bytes = s.as_str().as_bytes();
    let mut i: usize = 0;
    while i < bytes.len()
        invariant
            i <= bytes@.len(),
            bytes@ == encode_utf8(s@),
            forall|k: int| 0 <= k < i ==> bytes@[k] != 0x20,
        decreases bytes@.len() - i,
    {
        if bytes[i] == 0x20 {
            return i;
        }
        i = i + 1;
    }
    i
}

/// The first word of `s`: what stands before its first space, and all of
/// `s` if it holds no space. The word is a prefix of `s`, byte for byte and
/// character for character.
pub fn first_word2(s: &String) -> (word: &str)
    ensures
        is_first_space(encode_utf8(s@), encode_utf8(word@).len() as int),
        encode_utf8(word@) == encode_utf8(s@).take(encode_utf8(word@).len() as int),
        word@.is_prefix_of(s@),
{
    let at = first_word(s);
    let whole = s.as_str();
    proof {
        let bytes = encode_utf8(s@);
        encode_utf8_valid_utf8(s@);
        if at < bytes.len() {
            assert(!is_continuation_byte(bytes[at as int]));
            is_char_boundary_iff_not_is_continuation_byte(bytes, at as int);
        } else {
            is_char_boundary_start_end_of_seq(bytes);
        }
    }
    let (word, rest) = whole.split_at(at);
    proof {
        let bytes = encode_utf8(s@);
        decode_utf8_split(bytes, at as int);
        encode_utf8_decode_utf8(s@);
        encode_utf8_decode_utf8(word@);
        encode_utf8_decode_utf8(rest@);
        assert(s@ =~= word@ + rest@);
    }
    word
}

/// Whether `c` is one of the ten vowels `aeiouAEIOU`.
pub open spec fn is_vowel(c: char) -> bool {
    c == 'a' || c == 'e' || c == 'i' || c == 'o' || c == 'u' || c == 'A' || c == 'E' || c == 'I'
        || c == 'O' || c == 'U'
}

/// One word in pig latin, with the space that follows it: a word that
/// begins with a vowel gets `-hay`; any other word loses its first
/// character, which comes back after a hyphen and before `ay`.
pub open spec fn piglatin_word(word: Seq<char>) -> Seq<char>
    recommends
        word.len() > 0,
{
    if is_vowel(word[0]) {
        word + seq!['-', 'h', 'a', 'y', ' ']
    } else {
        word.skip(1) + seq!['-', word[0], 'a', 'y', ' ']
    }
}

/// The words in pig latin, one after another.
pub open spec fn piglatin_of(words: Seq<Seq<char>>) -> Seq<char>
    decreases words.len(),
{
    if words.len() == 0 {
        Seq::empty()
    } else {
        piglatin_of(words.drop_last()) + piglatin_word(words.last())
    }
}

/// Whether `c` is white space: one of the characters with the Unicode
/// property `White_Space`.
pub open spec fn is_white_space(c: char) -> bool {
    let u = c as u32;
    ||| 0x09 <= u <= 0x0d
    ||| u == 0x20
    ||| u == 0x85
    ||| u == 0xa0
    ||| u == 0x1680
    ||| 0x2000 <= u <= 0x200a
    ||| u == 0x2028
    ||| u == 0x2029
    ||| u == 0x202f
    ||| u == 0x205f
    ||| u == 0x3000
}

/// Whether `c` is white space.
pub fn white_space(c: char) -> (r: bool)
    ensures
        r == is_white_space(c),
{
    let u = c as u32;
    (0x09 <= u && u <= 0x0d) || u == 0x20 || u == 0x85 || u == 0xa0 || u == 0x1680 || (0x2000 <= u
        && u <= 0x200a) || u == 0x2028 || u == 0x2029 || u == 0x202f || u == 0x205f || u
        == 0x3000
}

/// The words of a string: its maximal runs of characters that are not
/// white space, in order. A character that is white space ends the word
/// before it; any other character goes on with the word that the character
/// before it belongs to, or begins a new word after white space and at the
/// beginning.
pub open spec fn words_of(s: Seq<char>) -> Seq<Seq<char>>
    decreases s.len(),
{
    if s.len() == 0 {
        Seq::empty()
    } else if is_white_space(s.last()) {
        words_of(s.drop_last())
    } else if s.len() >= 2 && !is_white_space(s[s.len() - 2]) {
        let before = words_of(s.drop_last());
        before.drop_last().push(before.last().push(s.last()))
    } else {
        words_of(s.drop_last()).push(seq![s.last()])
    }
}

/// Whether the slices hold exactly the character sequences of `words`.
pub open spec fn spells(strings: Seq<&str>, words: Seq<Seq<char>>) -> bool {
    &&& strings.len() == words.len()
    &&& forall|i: int| 0 <= i < strings.len() ==> (#[trigger] strings[i])@ == words[i]
}

/// No word is empty, and a string that ends in a character that is not
/// white space has a last word.
pub proof fn lemma_words_not_empty(s: Seq<char>)
    ensures
        forall|i: int| 0 <= i < words_of(s).len() ==> (#[trigger] words_of(s)[i]).len() > 0,
        s.len() > 0 && !is_white_space(s.last()) ==> words_of(s).len() > 0,
    decreases s.len(),
{
    if s.len() > 0 {
        lemma_words_not_empty(s.drop_last());
        if !is_white_space(s.last()) && s.len() >= 2 && !is_white_space(s[s.len() - 2]) {
            assert(s.drop_last().last() == s[s.len() - 2]);
        }
    }
}

/// Calls `str::split_whitespace` and collects what it yields. Trusted: the
/// slices that it yields are the words of the string, its maximal runs of
/// characters without the property `White_Space`, in their order.
#[verifier::external_body]
fn split_words(s: &str) -> (words: Vec<&str>)
    ensures
        spells(words@, words_of(s@)),
{
    s.split_whitespace().collect()
}

/// Whether `c` is one of the ten vowels.
fn vowel(c: char) -> (r: bool)
    ensures
        r == is_vowel(c),
{
    c == 'a' || c == 'e' || c == 'i' || c == 'o' || c == 'u' || c == 'A' || c == 'E' || c == 'I'
        || c == 'O' || c == 'U'
}

/// Renders words, none of them empty, in pig latin.
pub fn piglatin_words(words: &Vec<&str>) -> (r: String)
    requires
        forall|i: int| 0 <= i < words@.len() ==> (#[trigger] words@[i])@.len() > 0,
    ensures
        r@ == piglatin_of(Seq::new(words@.len(), |i: int| words@[i]@)),
{
    let ghost all = Seq::new(words@.len(), |i: int| words@[i]@);
    let mut result = String::new();
    let mut i: usize = 0;
    while i < words.len()
        invariant
            i <= words@.len(),
            all == Seq::new(words@.len(), |i: int| words@[i]@),
            forall|k: int| 0 <= k < words@.len() ==> (#[trigger] words@[k])@.len() > 0,
            result@ == piglatin_of(all.take(i as int)),
        decreases words@.len() - i,
    {
        let word = words[i];
        let ghost before = result@;
        let len = word.unicode_len();
        let first = word.get_char(0);
        proof {
            reveal_strlit("-hay ");
            reveal_strlit("-");
            reveal_strlit("ay ");
            assert(all.take(i + 1).drop_last() =~= all.take(i as int));
            assert(all.take(i + 1).last() == word@);
        }
        if vowel(first) {
            result.append(word);
            result.append("-hay ");
            assert(result@ =~= before + piglatin_word(word@));
        } else {
            result.append(word.substring_char(1, len));
            result.append("-");
            result.append(word.substring_char(0, 1));
            result.append("ay ");
            assert(result@ =~= before + piglatin_word(word@));
        }
        i = i + 1;
    }
    assert(all.take(i as int) =~= all);
    result
}

/// Renders each word of `s` in pig latin, a space after each.
pub fn piglatin(s: &str) -> (r: String)
    ensures
        r@ == piglatin_of(words_of(s@)),
{
    let words = split_words(s);
    proof {
        lemma_words_not_empty(s@);
        assert(Seq::new(words@.len(), |i: int| words@[i]@) =~= words_of(s@));
    }
    piglatin_words(&words)
}

} // verus!

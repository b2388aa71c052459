//! Byte strings written in hexadecimal.

use vstd::prelude::*;

use crate::text;

verus! {

/// The runs of characters of a text that are no white space.
pub open spec fn words(text: Seq<char>) -> Seq<Seq<char>>
    decreases text.len(),
{
    if text.len() == 0 {
        seq![]
    } else {
        let before = words(text.drop_last());
        let c = text.last();
        if text::white_space(c) {
            before
        } else if text.len() >= 2 && !text::white_space(text[text.len() - 2]) {
            before.drop_last().push(before.last().push(c))
        } else {
            before.push(seq![c])
        }
    }
}

/// A word without the `0x` at its start, however often it stands there.
pub open spec fn without_mark(word: Seq<char>) -> Seq<char>
    decreases word.len(),
{
    if word.len() >= 2 && word[0] == '0' && word[1] == 'x' {
        without_mark(word.skip(2))
    } else {
        word
    }
}

/// The value of a hexadecimal digit, in either case.
pub open spec fn hex_digit(c: char) -> Option<int> {
    if '0' <= c <= '9' {
        Some(c as int - '0' as int)
    } else if 'a' <= c <= 'f' {
        Some(c as int - 'a' as int + 10)
    } else if 'A' <= c <= 'F' {
        Some(c as int - 'A' as int + 10)
    } else {
        None
    }
}

/// The number that a run of hexadecimal digits stands for.
pub open spec fn hex_number(digits: Seq<char>) -> Option<int>
    decreases digits.len(),
{
    if digits.len() == 0 {
        Some(0)
    } else {
        match (hex_number(digits.drop_last()), hex_digit(digits.last())) {
            (Some(high), Some(low)) => Some(16 * high + low),
            _ => None,
        }
    }
}

/// The byte that a word stands for: hexadecimal digits, a plus sign before them
/// or none, and a number that fits.
pub open spec fn hex_byte(word: Seq<char>) -> Option<u8> {
    let digits = if word.len() > 0 && word[0] == '+' {
        word.skip(1)
    } else {
        word
    };
    match hex_number(digits) {
        Some(n) if digits.len() > 0 && n <= 255 => Some(n as u8),
        _ => None,
    }
}

/// What is said of a word that stands for no byte.
pub uninterp spec fn radix_fault(word: Seq<char>) -> Seq<char>;

/// `u8::from_str_radix` with radix 16. Digits in either case, an optional plus
/// sign before them, and nothing else give their number if it fits a byte. The
/// text of the error is named, and otherwise left open.
#[verifier::external_body]
fn byte_from_hex(word: &str) -> (byte: Result<u8, String>)
    ensures
        match (byte, hex_byte(word@)) {
            (Ok(value), Some(expected)) => value == expected,
            (Err(fault), None) => fault@ == radix_fault(word@),
            _ => false,
        },
{
    u8::from_str_radix(word, 16).map_err(|e| e.to_string())
}

/// The bytes that the words stand for, or the fault of the first that stands
/// for none.
pub open spec fn bytes_of_words(words: Seq<Seq<char>>) -> Result<Seq<u8>, Seq<char>>
    decreases words.len(),
{
    if words.len() == 0 {
        Ok(seq![])
    } else {
        match bytes_of_words(words.drop_last()) {
            Err(fault) => Err(fault),
            Ok(bytes) => match hex_byte(without_mark(words.last())) {
                Some(byte) => Ok(bytes.push(byte)),
                None => Err(radix_fault(without_mark(words.last()))),
            },
        }
    }
}

/// Reads a byte string written as words of hexadecimal digits.
pub fn parse_hex(s: &str) -> (result: Result<Vec<u8>, String>)
    ensures
        match (result, bytes_of_words(words(s@))) {
            (Ok(bytes), Ok(expected)) => bytes@ == expected,
            (Err(fault), Err(expected)) => fault@ == expected,
            _ => false,
        },
{
    let list = split_words(s);
    let mut bytes: Vec<u8> = Vec::new();
    let ghost all = text::char_views(list@);
    for i in 0..list.len()
        invariant
            all == text::char_views(list@),
            all == words(s@),
            bytes_of_words(all.take(i as int)) == Ok::<Seq<u8>, Seq<char>>(bytes@),
    {
        let digits = trim_mark(&list[i]);
        proof {
            assert(all.take(i + 1).drop_last() =~= all.take(i as int));
            assert(all.take(i + 1).last() == list@[i as int]@);
        }
        match byte_from_hex(digits.as_str()) {
            Ok(byte) => {
                bytes.push(byte);
            },
            Err(fault) => {
                proof {
                    lemma_first_fault_stands(all, i + 1);
                }
                return Err(fault);
            },
        }
    }
    assert(all.take(all.len() as int) =~= all);
    Ok(bytes)
}

/// Words after one that stands for no byte change nothing.
proof fn lemma_first_fault_stands(words: Seq<Seq<char>>, n: int)
    requires
        0 <= n <= words.len(),
        bytes_of_words(words.take(n)) is Err,
    ensures
        bytes_of_words(words) == bytes_of_words(words.take(n)),
    decreases words.len() - n,
{
    if n < words.len() {
        assert(words.take(n + 1).drop_last() =~= words.take(n));
        lemma_first_fault_stands(words, n + 1);
    } else {
        assert(words.take(n) =~= words);
    }
}

/// The words of a text.
fn split_words(s: &str) -> (list: Vec<Vec<char>>)
    ensures
        text::char_views(list@) == words(s@),
{
    let chars = text::chars_of(s);
    let mut list: Vec<Vec<char>> = Vec::new();
    let mut open = false;
    assert(text::char_views(list@) =~= words(s@.take(0)));
    for i in 0..chars.len()
        invariant
            chars@ == s@,
            text::char_views(list@) == words(s@.take(i as int)),
            open == (i > 0 && !text::white_space(s@[i - 1])),
            open ==> list@.len() > 0,
    {
        let c = chars[i];
        let ghost before = list@;
        proof {
            assert(s@.take(i + 1).drop_last() =~= s@.take(i as int));
        }
        if text::is_white_space(c) {
            open = false;
        } else {
            if open {
                let last: usize = list.len() - 1;
                list[last].push(c);
                assert(text::char_views(list@) =~= text::char_views(before).drop_last().push(
                    text::char_views(before).last().push(c),
                ));
            } else {
                let mut word: Vec<char> = Vec::new();
                word.push(c);
                list.push(word);
                assert(word@ =~= seq![c]);
                assert(text::char_views(list@) =~= text::char_views(before).push(seq![c]));
            }
            open = true;
        }
    }
    assert(s@.take(s@.len() as int) =~= s@);
    list
}

/// A word without the `0x` at its start.
fn trim_mark(word: &Vec<char>) -> (digits: String)
    ensures
        digits@ == without_mark(word@),
{
    let mut at: usize = 0;
    assert(word@.skip(0) =~= word@);
    while word.len() - at >= 2 && word[at] == '0' && word[at + 1] == 'x'
        invariant
            at <= word@.len(),
            without_mark(word@.skip(at as int)) == without_mark(word@),
        decreases word@.len() - at,
    {
        assert(word@.skip(at as int).skip(2) =~= word@.skip(at + 2));
        at = at + 2;
    }
    let mut digits = String::new();
    text::push_chars(&mut digits, word, at, word.len());
    assert(digits@ =~= word@.skip(at as int));
    digits
}

// -- Laws -------------------------------------------------------------------

/// The sixteen digits in lower case.
pub open spec fn small_digits() -> Seq<char> {
    seq!['0', '1', '2', '3', '4', '5', '6', '7', '8', '9', 'a', 'b', 'c', 'd', 'e', 'f']
}

/// The sixteen digits in upper case.
pub open spec fn capital_digits() -> Seq<char> {
    seq!['0', '1', '2', '3', '4', '5', '6', '7', '8', '9', 'A', 'B', 'C', 'D', 'E', 'F']
}

/// The value of a hexadecimal digit is its place among them, and no other character has
/// one.
pub proof fn law_hex_digits(n: int, c: char)
    ensures
        0 <= n < 16 ==> hex_digit(small_digits()[n]) == Some(n),
        0 <= n < 16 ==> hex_digit(capital_digits()[n]) == Some(n),
        hex_digit(c) matches Some(value) ==> 0 <= value < 16 && (c == small_digits()[value] || c
            == capital_digits()[value]),
{
}

/// Two hexadecimal digits stand for the byte of which they are the high and the low half,
/// and one for itself.
pub proof fn law_two_digits_are_a_byte(high: char, low: char)
    ensures
        hex_digit(low) matches Some(l) ==> hex_byte(seq![low]) == Some(l as u8),
        hex_digit(high) is Some && hex_digit(low) is Some ==> hex_byte(seq![high, low]) == Some(
            (16 * hex_digit(high).unwrap() + hex_digit(low).unwrap()) as u8,
        ),
        hex_digit(high) is None && high != '+' || hex_digit(low) is None ==> hex_byte(
            seq![high, low],
        ) is None,
{
    let one = seq![low];
    let two = seq![high, low];
    assert(one.drop_last() =~= Seq::<char>::empty());
    assert(hex_number(one.drop_last()) == Some(0int));
    assert(two.drop_last() =~= seq![high]);
    assert(seq![high].drop_last() =~= Seq::<char>::empty());
    assert(hex_number(seq![high].drop_last()) == Some(0int));
    assert(hex_number(seq![high]) == hex_digit(high));
    assert(two.skip(1) =~= seq![low]);
}

/// A word of three digits is a byte only if the first is zero, and a word without digits is
/// none.
pub proof fn law_other_words_are_no_byte(a: char, b: char, c: char)
    ensures
        hex_digit(a) is Some && hex_digit(b) is Some && hex_digit(c) is Some ==> hex_byte(
            seq![a, b, c],
        ) == if hex_digit(a) == Some(0int) {
            hex_byte(seq![b, c])
        } else {
            None
        },
        hex_byte(seq![]) is None,
        hex_byte(seq!['+']) is None,
{
    law_two_digits_are_a_byte(b, c);
    law_two_digits_are_a_byte(a, b);
    let three = seq![a, b, c];
    assert(three.drop_last() =~= seq![a, b]);
    assert(seq![a, b].drop_last() =~= seq![a]);
    assert(seq![a].drop_last() =~= Seq::<char>::empty());
    assert(hex_number(seq![a].drop_last()) == Some(0int));
    assert(hex_number(seq![a]) == hex_digit(a));
    assert(seq!['+'].skip(1) =~= Seq::<char>::empty());
}

/// A mark at the start of a word changes nothing, and a word that has none is itself.
pub proof fn law_marks_change_nothing(word: Seq<char>)
    ensures
        without_mark(seq!['0', 'x'] + word) == without_mark(word),
        word.len() < 2 || word[0] != '0' || word[1] != 'x' ==> without_mark(word) == word,
{
    assert((seq!['0', 'x'] + word).skip(2) =~= word);
}

/// A text without white space is one word, and the words on both sides of white space are
/// the words of the two sides.
pub proof fn law_words_lie_between_white_space(a: Seq<char>, space: char, b: Seq<char>)
    requires
        text::white_space(space),
    ensures
        a.len() > 0 && (forall|i: int| 0 <= i < a.len() ==> !text::white_space(#[trigger] a[i]))
            ==> words(a) == seq![a],
        words(a + seq![space] + b) == words(a) + words(b),
        words(seq![]) == Seq::<Seq<char>>::empty(),
    decreases a.len() + b.len(),
{
    if a.len() > 0 && (forall|i: int| 0 <= i < a.len() ==> !text::white_space(#[trigger] a[i])) {
        let rest = a.drop_last();
        assert(!text::white_space(a[a.len() - 1]));
        if rest.len() > 0 {
            assert forall|i: int| 0 <= i < rest.len() implies !text::white_space(
                #[trigger] rest[i],
            ) by {
                assert(!text::white_space(a[i]));
            }
            law_words_lie_between_white_space(rest, space, seq![]);
            assert(!text::white_space(a[a.len() - 2]));
            assert(rest.push(a.last()) =~= a);
            assert(words(a) =~= seq![a]);
        } else {
            assert(rest =~= Seq::<char>::empty());
            assert(words(rest) =~= Seq::<Seq<char>>::empty());
            assert(seq![a.last()] =~= a);
            assert(words(a) =~= seq![a]);
        }
    }
    let whole = a + seq![space] + b;
    if b.len() == 0 {
        assert(whole.drop_last() =~= a);
        assert(whole.last() == space);
        assert(words(whole) =~= words(a) + words(b));
    } else {
        let rest = b.drop_last();
        law_words_lie_between_white_space(a, space, rest);
        lemma_open_word(rest);
        assert(whole.drop_last() =~= a + seq![space] + rest);
        assert(whole.last() == b.last());
        if b.len() >= 2 {
            assert(whole[whole.len() - 2] == b[b.len() - 2]);
            assert(b[b.len() - 2] == rest.last());
        } else {
            assert(whole[whole.len() - 2] == space);
        }
        assert(words(whole) =~= words(a) + words(b));
    }
}

/// A text that does not end in white space has a word.
proof fn lemma_open_word(text: Seq<char>)
    ensures
        text.len() > 0 && !text::white_space(text.last()) ==> words(text).len() > 0,
{
}

/// Words are read one for one, in their order, each without its mark. If one stands for no
/// byte then nothing is read, and the fault is that of the first such word.
pub proof fn law_words_are_read_one_for_one(words: Seq<Seq<char>>, i: int)
    ensures
        bytes_of_words(words) matches Ok(bytes) ==> {
            &&& bytes.len() == words.len()
            &&& 0 <= i < words.len() ==> hex_byte(without_mark(words[i])) == Some(bytes[i])
        },
        bytes_of_words(words) is Ok <==> forall|k: int|
            0 <= k < words.len() ==> hex_byte(without_mark(#[trigger] words[k])) is Some,
        0 <= i < words.len() && hex_byte(without_mark(words[i])) is None && (forall|k: int|
            0 <= k < i ==> hex_byte(without_mark(#[trigger] words[k])) is Some) ==> bytes_of_words(
            words,
        ) == Err::<Seq<u8>, Seq<char>>(radix_fault(without_mark(words[i]))),
    decreases words.len(),
{
    if words.len() > 0 {
        let rest = words.drop_last();
        law_words_are_read_one_for_one(rest, i);
        assert(words[words.len() - 1] == words.last());
        assert(forall|k: int| 0 <= k < rest.len() ==> rest[k] == words[k]);
        if bytes_of_words(words) is Ok {
            assert forall|k: int| 0 <= k < words.len() implies hex_byte(
                without_mark(#[trigger] words[k]),
            ) is Some by {
                if k < rest.len() {
                    assert(hex_byte(without_mark(rest[k])) is Some);
                }
            }
        }
        if 0 <= i < words.len() && (forall|k: int|
            0 <= k < i ==> hex_byte(without_mark(#[trigger] words[k])) is Some) {
            assert forall|k: int| 0 <= k < i && k < rest.len() implies hex_byte(
                without_mark(#[trigger] rest[k]),
            ) is Some by {
                assert(hex_byte(without_mark(words[k])) is Some);
            }
        }
    }
}

} // verus!

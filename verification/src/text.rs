//! Small pieces of text: numbers written out, characters classed, strings
//! searched, trimmed and put in order.

use vstd::prelude::*;

verus! {

/// `String::push`: the character is appended to the end of the string.
pub assume_specification[ String::push ](s: &mut String, c: char)
    ensures
        final(s)@ == old(s)@.push(c),
;

/// The digit character of a number below sixteen, letters in lower case.
pub open spec fn digit(n: int) -> char {
    if n < 10 {
        ('0' as int + n) as char
    } else {
        ('a' as int + n - 10) as char
    }
}

/// A number in decimal, without leading zeros.
pub open spec fn decimal(n: nat) -> Seq<char>
    decreases n,
{
    if n < 10 {
        seq![digit(n as int)]
    } else {
        decimal(n / 10).push(digit((n % 10) as int))
    }
}

/// A number in lower-case hexadecimal, without leading zeros.
pub open spec fn hexadecimal(n: nat) -> Seq<char>
    decreases n,
{
    if n < 16 {
        seq![digit(n as int)]
    } else {
        hexadecimal(n / 16).push(digit((n % 16) as int))
    }
}

/// The last `width` hexadecimal digits of a number, with leading zeros.
pub open spec fn padded_hexadecimal(n: nat, width: nat) -> Seq<char>
    decreases width,
{
    if width == 0 {
        seq![]
    } else {
        padded_hexadecimal(n / 16, (width - 1) as nat).push(digit((n % 16) as int))
    }
}

/// Two numbers that are written alike are the same.
pub proof fn lemma_decimal_is_injective(a: nat, b: nat)
    requires
        decimal(a) == decimal(b),
    ensures
        a == b,
    decreases a,
{
    lemma_decimal_len(a);
    lemma_decimal_len(b);
    assert(decimal(a).last() == digit((a % 10) as int));
    assert(decimal(b).last() == digit((b % 10) as int));
    if a >= 10 && b >= 10 {
        assert(decimal(a).drop_last() =~= decimal(a / 10));
        assert(decimal(b).drop_last() =~= decimal(b / 10));
        lemma_decimal_is_injective(a / 10, b / 10);
    } else if a >= 10 {
        lemma_decimal_len(a / 10);
    } else if b >= 10 {
        lemma_decimal_len(b / 10);
    }
}

pub proof fn lemma_decimal_len(n: nat)
    ensures
        decimal(n).len() > 0,
        n < 10 ==> decimal(n).len() == 1,
    decreases n,
{
    if n >= 10 {
        lemma_decimal_len(n / 10);
    }
}

/// Writes one digit.
pub fn push_digit(out: &mut String, n: u8)
    requires
        n < 16,
    ensures
        final(out)@ == old(out)@.push(digit(n as int)),
{
    let c = if n < 10 {
        (48 + n) as char
    } else {
        (87 + n) as char
    };
    out.push(c);
}

/// Writes a number in decimal.
pub fn push_decimal(out: &mut String, n: u64)
    ensures
        final(out)@ == old(out)@ + decimal(n as nat),
    decreases n,
{
    if n >= 10 {
        push_decimal(out, n / 10);
    }
    push_digit(out, (n % 10) as u8);
    assert(out@ =~= old(out)@ + decimal(n as nat));
}

/// Writes a number in lower-case hexadecimal.
pub fn push_hexadecimal(out: &mut String, n: u64)
    ensures
        final(out)@ == old(out)@ + hexadecimal(n as nat),
    decreases n,
{
    if n >= 16 {
        push_hexadecimal(out, n / 16);
    }
    push_digit(out, (n % 16) as u8);
    assert(out@ =~= old(out)@ + hexadecimal(n as nat));
}

/// Writes the last `width` hexadecimal digits of a number.
pub fn push_padded_hexadecimal(out: &mut String, n: u64, width: usize)
    ensures
        final(out)@ == old(out)@ + padded_hexadecimal(n as nat, width as nat),
    decreases width,
{
    if width > 0 {
        push_padded_hexadecimal(out, n / 16, width - 1);
        push_digit(out, (n % 16) as u8);
    }
    assert(out@ =~= old(out)@ + padded_hexadecimal(n as nat, width as nat));
}

/// Writes a run of characters.
pub fn push_chars(out: &mut String, chars: &Vec<char>, from: usize, to: usize)
    requires
        from <= to <= chars@.len(),
    ensures
        final(out)@ == old(out)@ + chars@.subrange(from as int, to as int),
{
    let ghost before = out@;
    assert(out@ =~= before + chars@.subrange(from as int, from as int));
    for i in from..to
        invariant
            from <= to <= chars@.len(),
            out@ == before + chars@.subrange(from as int, i as int),
    {
        out.push(chars[i]);
        assert(out@ =~= before + chars@.subrange(from as int, i + 1));
    }
}

/// The characters of a string.
pub fn chars_of(s: &str) -> (chars: Vec<char>)
    ensures
        chars@ == s@,
{
    let mut chars: Vec<char> = Vec::new();
    for c in it: s.chars()
        invariant
            chars@ == s@.take(it.index() as int),
            it.seq() == s@,
    {
        chars.push(c);
        assert(chars@ =~= s@.take(it.index() + 1));
    }
    assert(s@.take(s@.len() as int) =~= s@);
    chars
}

/// True if two strings hold the same characters.
pub fn same_text(a: &str, b: &str) -> (same: bool)
    ensures
        same == (a@ == b@),
{
    a.to_owned() == b.to_owned()
}

/// True if `needle` occurs in `haystack` at character `at`.
pub open spec fn occurs_at(haystack: Seq<char>, needle: Seq<char>, at: int) -> bool {
    &&& 0 <= at
    &&& at + needle.len() <= haystack.len()
    &&& haystack.subrange(at, at + needle.len()) == needle
}

/// True if `needle` occurs somewhere in `haystack`.
pub open spec fn occurs(haystack: Seq<char>, needle: Seq<char>) -> bool {
    exists|at: int| occurs_at(haystack, needle, at)
}

/// Decides [`occurs`].
pub fn contains(haystack: &str, needle: &str) -> (found: bool)
    ensures
        found == occurs(haystack@, needle@),
{
    let hay = chars_of(haystack);
    let pin = chars_of(needle);
    if pin.len() > hay.len() {
        return false;
    }
    let last: usize = hay.len() - pin.len();
    let mut at: usize = 0;
    while at <= last
        invariant
            hay@ == haystack@,
            pin@ == needle@,
            last == hay@.len() - pin@.len(),
            hay@.len() <= usize::MAX,
            at <= last + 1,
            forall|k: int| 0 <= k < at ==> !occurs_at(haystack@, needle@, k),
        decreases last + 1 - at,
    {
        let mut j: usize = 0;
        while j < pin.len() && hay[at + j] == pin[j]
            invariant
                at <= last,
                last == hay@.len() - pin@.len(),
                hay@.len() <= usize::MAX,
                j <= pin@.len(),
                forall|k: int| 0 <= k < j ==> hay@[at + k] == pin@[k],
            decreases pin@.len() - j,
        {
            j = j + 1;
        }
        if j == pin.len() {
            assert(hay@.subrange(at as int, at + pin@.len()) =~= pin@);
            assert(occurs_at(haystack@, needle@, at as int));
            return true;
        }
        assert(!occurs_at(haystack@, needle@, at as int)) by {
            if occurs_at(haystack@, needle@, at as int) {
                assert(hay@.subrange(at as int, at + pin@.len())[j as int] == pin@[j as int]);
            }
        }
        if at == last {
            return false;
        }
        at = at + 1;
    }
    false
}

/// Unicode's White_Space characters.
pub open spec fn white_space(c: char) -> bool {
    let n = c as int;
    ||| 0x09 <= n <= 0x0D
    ||| n == 0x20
    ||| n == 0x85
    ||| n == 0xA0
    ||| n == 0x1680
    ||| 0x2000 <= n <= 0x200A
    ||| n == 0x2028
    ||| n == 0x2029
    ||| n == 0x202F
    ||| n == 0x205F
    ||| n == 0x3000
}

/// Decides [`white_space`].
pub fn is_white_space(c: char) -> (yes: bool)
    ensures
        yes == white_space(c),
{
    let n = c as u32;
    (0x09 <= n && n <= 0x0D) || n == 0x20 || n == 0x85 || n == 0xA0 || n == 0x1680 || (0x2000 <= n
        && n <= 0x200A) || n == 0x2028 || n == 0x2029 || n == 0x202F || n == 0x205F || n == 0x3000
}

/// The values of a list of strings.
pub open spec fn views(list: Seq<String>) -> Seq<Seq<char>> {
    list.map_values(|s: String| s@)
}

// -- Order ------------------------------------------------------------------

/// Whether one text comes before another: at the first character that differs
/// it has the smaller one, or it is a proper beginning of the other.
pub open spec fn before(a: Seq<char>, b: Seq<char>) -> bool
    decreases a.len(),
{
    if b.len() == 0 {
        false
    } else if a.len() == 0 {
        true
    } else if a[0] != b[0] {
        a[0] < b[0]
    } else {
        before(a.skip(1), b.skip(1))
    }
}

/// Decides [`before`].
pub fn comes_before(a: &str, b: &str) -> (yes: bool)
    ensures
        yes == before(a@, b@),
{
    let left = chars_of(a);
    let right = chars_of(b);
    let mut i: usize = 0;
    assert(left@.skip(0) =~= left@);
    assert(right@.skip(0) =~= right@);
    while i < left.len() && i < right.len() && left[i] == right[i]
        invariant
            left@ == a@,
            right@ == b@,
            i <= left@.len(),
            i <= right@.len(),
            before(left@.skip(i as int), right@.skip(i as int)) == before(a@, b@),
        decreases left@.len() - i,
    {
        proof {
            assert(left@.skip(i as int).skip(1) =~= left@.skip(i + 1));
            assert(right@.skip(i as int).skip(1) =~= right@.skip(i + 1));
        }
        i = i + 1;
    }
    proof {
        assert(i < left@.len() ==> left@.skip(i as int)[0] == left@[i as int]);
        assert(i < right@.len() ==> right@.skip(i as int)[0] == right@[i as int]);
    }
    if i >= right.len() {
        false
    } else if i >= left.len() {
        true
    } else {
        left[i] < right[i]
    }
}

pub proof fn lemma_before_is_transitive(a: Seq<char>, b: Seq<char>, c: Seq<char>)
    requires
        before(a, b),
        before(b, c),
    ensures
        before(a, c),
    decreases a.len(),
{
    if a.len() > 0 && b.len() > 0 && c.len() > 0 && a[0] == b[0] && b[0] == c[0] {
        lemma_before_is_transitive(a.skip(1), b.skip(1), c.skip(1));
    }
}

pub proof fn lemma_before_is_total(a: Seq<char>, b: Seq<char>)
    ensures
        before(a, b) || before(b, a) || a == b,
    decreases a.len(),
{
    if a.len() > 0 && b.len() > 0 && a[0] == b[0] {
        lemma_before_is_total(a.skip(1), b.skip(1));
        if a.skip(1) == b.skip(1) {
            assert(a =~= seq![a[0]] + a.skip(1));
            assert(b =~= seq![b[0]] + b.skip(1));
        }
    } else if a.len() == 0 && b.len() == 0 {
        assert(a =~= b);
    }
}

/// Whether every text of a list comes before the texts after it. No text occurs
/// twice in such a list.
pub open spec fn ascending(list: Seq<Seq<char>>) -> bool {
    forall|i: int, j: int|
        #![trigger list[i], list[j]]
        0 <= i < j < list.len() ==> before(list[i], list[j])
}

/// Whether a list holds the text.
pub open spec fn holds(list: Seq<Seq<char>>, text: Seq<char>) -> bool {
    list.contains(text)
}

/// Decides [`holds`].
pub fn is_held(list: &Vec<String>, text: &str) -> (yes: bool)
    ensures
        yes == holds(views(list@), text@),
{
    for i in 0..list.len()
        invariant
            forall|k: int| 0 <= k < i ==> (#[trigger] list@[k])@ != text@,
    {
        if same_text(list[i].as_str(), text) {
            assert(views(list@)[i as int] == text@);
            return true;
        }
    }
    proof {
        if views(list@).contains(text@) {
            let k = choose|k: int| 0 <= k < list@.len() && views(list@)[k] == text@;
            assert(list@[k]@ == text@);
        }
    }
    false
}

/// The texts of a list in ascending order, each of them once.
pub fn sorted_set(list: &Vec<String>) -> (sorted: Vec<String>)
    ensures
        ascending(views(sorted@)),
        forall|text: Seq<char>|
            #[trigger] holds(views(sorted@), text) == holds(views(list@), text),
{
    let mut sorted: Vec<String> = Vec::new();
    for i in 0..list.len()
        invariant
            ascending(views(sorted@)),
            forall|text: Seq<char>|
                #[trigger] holds(views(sorted@), text) == holds(
                    views(list@).take(i as int),
                    text,
                ),
    {
        let ghost done = views(sorted@);
        insert_sorted(&mut sorted, list[i].as_str());
        proof {
            let added = list@[i as int]@;
            assert forall|text: Seq<char>| #[trigger] holds(views(sorted@), text) == holds(
                views(list@).take(i + 1),
                text,
            ) by {
                assert(holds(done, text) == holds(views(list@).take(i as int), text));
                lemma_holds_one_more(views(list@), i as int, text);
            }
        }
    }
    assert(views(list@).take(list@.len() as int) =~= views(list@));
    sorted
}

pub proof fn lemma_holds_one_more(list: Seq<Seq<char>>, n: int, text: Seq<char>)
    requires
        0 <= n < list.len(),
    ensures
        holds(list.take(n + 1), text) == (holds(list.take(n), text) || text == list[n]),
{
    let head = list.take(n);
    let more = list.take(n + 1);
    if more.contains(text) {
        let k = choose|k: int| 0 <= k < more.len() && more[k] == text;
        if k < n {
            assert(head[k] == text);
        }
    }
    if head.contains(text) {
        let k = choose|k: int| 0 <= k < head.len() && head[k] == text;
        assert(more[k] == text);
    }
    assert(more[n] == list[n]);
}

pub proof fn lemma_holds_after_push(list: Seq<Seq<char>>, added: Seq<char>, text: Seq<char>)
    ensures
        holds(list.push(added), text) == (holds(list, text) || text == added),
{
    let grown = list.push(added);
    lemma_holds_one_more(grown, list.len() as int, text);
    assert(grown.take(list.len() as int) =~= list);
    assert(grown.take(grown.len() as int) =~= grown);
}

/// Adds a text to an ascending list, unless it is there.
fn insert_sorted(sorted: &mut Vec<String>, text: &str)
    requires
        ascending(views(old(sorted)@)),
    ensures
        ascending(views(final(sorted)@)),
        forall|other: Seq<char>|
            #[trigger] holds(views(final(sorted)@), other) == (holds(views(old(sorted)@), other)
                || other == text@),
{
    let ghost list = views(sorted@);
    let mut at: usize = 0;
    while at < sorted.len() && comes_before(sorted[at].as_str(), text)
        invariant
            list == views(sorted@),
            at <= sorted@.len(),
            forall|k: int| 0 <= k < at ==> before(#[trigger] list[k], text@),
        decreases sorted@.len() - at,
    {
        assert(list[at as int] == sorted@[at as int]@);
        at = at + 1;
    }
    if at < sorted.len() && same_text(sorted[at].as_str(), text) {
        proof {
            assert(list[at as int] == text@);
            assert(list.contains(text@));
        }
        return ;
    }
    proof {
        if at < list.len() {
            assert(list[at as int] == sorted@[at as int]@);
            lemma_before_is_total(list[at as int], text@);
        }
    }
    sorted.insert(at, text.to_owned());
    proof {
        let grown = views(sorted@);
        assert(grown =~= list.insert(at as int, text@));
        assert forall|i: int, j: int|
            #![trigger grown[i], grown[j]]
            0 <= i < j < grown.len() implies before(grown[i], grown[j]) by {
            let a = at as int;
            if j < a {
                assert(before(list[i], list[j]));
            } else if j == a {
                assert(before(list[i], text@));
            } else if i > a {
                assert(before(list[i - 1], list[j - 1]));
            } else {
                // The new text comes before the one that stood here, and so
                // before all that follow it.
                assert(before(text@, list[a]));
                if j - 1 > a {
                    assert(before(list[a], list[j - 1]));
                    lemma_before_is_transitive(text@, list[a], list[j - 1]);
                }
                if i < a {
                    assert(before(list[i], list[j - 1]));
                }
            }
        }
        assert forall|other: Seq<char>| #[trigger] holds(grown, other) == (holds(list, other)
            || other == text@) by {
            if list.contains(other) {
                let k = choose|k: int| 0 <= k < list.len() && list[k] == other;
                if k < at {
                    assert(grown[k] == other);
                } else {
                    assert(grown[k + 1] == other);
                }
            }
            assert(grown[at as int] == text@);
            if grown.contains(other) {
                let k = choose|k: int| 0 <= k < grown.len() && grown[k] == other;
                if k < at {
                    assert(list[k] == other);
                } else if k > at {
                    assert(list[k - 1] == other);
                }
            }
        }
    }
}

// -- Cutting and trimming ---------------------------------------------------

/// The pieces of a text between the places where a character stands. There is
/// one more of them than there are such places.
pub open spec fn pieces(text: Seq<char>, at: char) -> Seq<Seq<char>>
    decreases text.len(),
{
    if text.len() == 0 {
        seq![seq![]]
    } else {
        let before = pieces(text.drop_last(), at);
        if text.last() == at {
            before.push(seq![])
        } else {
            before.drop_last().push(before.last().push(text.last()))
        }
    }
}

/// The values of a list of texts held as characters.
pub open spec fn char_views(list: Seq<Vec<char>>) -> Seq<Seq<char>> {
    list.map_values(|piece: Vec<char>| piece@)
}

/// Cuts a text at every place where a character stands.
pub fn split_at_each(text: &Vec<char>, at: char) -> (list: Vec<Vec<char>>)
    ensures
        char_views(list@) == pieces(text@, at),
        list@.len() > 0,
{
    let mut list: Vec<Vec<char>> = Vec::new();
    list.push(Vec::new());
    assert(char_views(list@) =~= pieces(text@.take(0), at));
    for i in 0..text.len()
        invariant
            list@.len() > 0,
            char_views(list@) == pieces(text@.take(i as int), at),
    {
        let ghost before = list@;
        proof {
            assert(text@.take(i + 1).drop_last() =~= text@.take(i as int));
        }
        if text[i] == at {
            list.push(Vec::new());
            assert(char_views(list@) =~= char_views(before).push(seq![]));
        } else {
            let last: usize = list.len() - 1;
            list[last].push(text[i]);
            assert(char_views(list@) =~= char_views(before).drop_last().push(
                char_views(before).last().push(text@[i as int]),
            ));
        }
    }
    assert(text@.take(text@.len() as int) =~= text@);
    list
}

/// A text without the characters at its two ends that a test picks out.
pub open spec fn stripped(text: Seq<char>, picked: spec_fn(char) -> bool) -> Seq<char>
    decreases text.len(),
{
    if text.len() == 0 {
        text
    } else if picked(text[0]) {
        stripped(text.skip(1), picked)
    } else if picked(text.last()) {
        stripped(text.drop_last(), picked)
    } else {
        text
    }
}

/// A text without the white space at its two ends.
pub open spec fn trimmed(text: Seq<char>) -> Seq<char> {
    stripped(text, |c: char| white_space(c))
}

/// A text without the double quotes at its two ends.
pub open spec fn unquoted(text: Seq<char>) -> Seq<char> {
    stripped(text, |c: char| c == '"')
}

/// Decides which characters are stripped: white space, or double quotes.
fn is_stripped(c: char, quotes: bool) -> (yes: bool)
    ensures
        yes == (if quotes {
            c == '"'
        } else {
            white_space(c)
        }),
{
    if quotes {
        c == '"'
    } else {
        is_white_space(c)
    }
}

/// Strips white space, or double quotes, from the two ends of a text.
fn strip(text: &Vec<char>, quotes: bool) -> (inner: Vec<char>)
    ensures
        inner@ == (if quotes {
            unquoted(text@)
        } else {
            trimmed(text@)
        }),
{
    let ghost picked = if quotes {
        |c: char| c == '"'
    } else {
        |c: char| white_space(c)
    };
    let mut from: usize = 0;
    let mut to: usize = text.len();
    assert(text@.subrange(0, to as int) =~= text@);
    while from < to && is_stripped(text[from], quotes)
        invariant
            from <= to,
            to == text@.len(),
            picked == (if quotes {
                |c: char| c == '"'
            } else {
                |c: char| white_space(c)
            }),
            stripped(text@.subrange(from as int, to as int), picked) == stripped(text@, picked),
        decreases to - from,
    {
        proof {
            let rest = text@.subrange(from as int, to as int);
            assert(rest.skip(1) =~= text@.subrange(from + 1, to as int));
        }
        from = from + 1;
    }
    while from < to && is_stripped(text[to - 1], quotes)
        invariant
            from <= to,
            to <= text@.len(),
            picked == (if quotes {
                |c: char| c == '"'
            } else {
                |c: char| white_space(c)
            }),
            from < to ==> !picked(text@[from as int]),
            stripped(text@.subrange(from as int, to as int), picked) == stripped(text@, picked),
        decreases to - from,
    {
        proof {
            let rest = text@.subrange(from as int, to as int);
            assert(rest[0] == text@[from as int]);
            assert(rest.last() == text@[to - 1]);
            assert(rest.drop_last() =~= text@.subrange(from as int, to - 1));
        }
        to = to - 1;
    }
    let mut inner: Vec<char> = Vec::new();
    for i in from..to
        invariant
            from <= to <= text@.len(),
            inner@ == text@.subrange(from as int, i as int),
    {
        inner.push(text[i]);
        assert(inner@ =~= text@.subrange(from as int, i + 1));
    }
    proof {
        let rest = text@.subrange(from as int, to as int);
        if from < to {
            assert(rest[0] == text@[from as int]);
            assert(rest.last() == text@[to - 1]);
        }
        assert(inner@ =~= rest);
    }
    inner
}

/// A text without the white space at its two ends.
pub fn trim(text: &Vec<char>) -> (inner: Vec<char>)
    ensures
        inner@ == trimmed(text@),
{
    strip(text, false)
}

/// A text without the double quotes at its two ends.
pub fn trim_quotes(text: &Vec<char>) -> (inner: Vec<char>)
    ensures
        inner@ == unquoted(text@),
{
    strip(text, true)
}

// -- Reading numbers --------------------------------------------------------

/// The number that a run of decimal digits stands for.
pub open spec fn decimal_number(digits: Seq<char>) -> Option<int>
    decreases digits.len(),
{
    if digits.len() == 0 {
        Some(0)
    } else {
        match decimal_number(digits.drop_last()) {
            Some(high) if '0' <= digits.last() <= '9' => Some(
                10 * high + (digits.last() as int - '0' as int),
            ),
            _ => None,
        }
    }
}

/// The number that a text stands for: decimal digits, a plus sign before them
/// or none, and a number that fits.
pub open spec fn number(text: Seq<char>) -> Option<u32> {
    let digits = if text.len() > 0 && text[0] == '+' {
        text.skip(1)
    } else {
        text
    };
    match decimal_number(digits) {
        Some(n) if digits.len() > 0 && n <= u32::MAX => Some(n as u32),
        _ => None,
    }
}

/// More digits do not make up for a character that is none, nor a number smaller.
proof fn lemma_decimal_number_grows(digits: Seq<char>, n: int)
    requires
        0 <= n <= digits.len(),
    ensures
        decimal_number(digits.take(n)) is None ==> decimal_number(digits) is None,
        (decimal_number(digits.take(n)) matches Some(head) && decimal_number(digits) matches Some(
            all,
        )) ==> decimal_number(digits.take(n)).unwrap() <= decimal_number(digits).unwrap(),
        decimal_number(digits) matches Some(all) ==> all >= 0,
    decreases digits.len(),
{
    if n == digits.len() {
        assert(digits.take(n) =~= digits);
        if digits.len() > 0 {
            lemma_decimal_number_grows(digits.drop_last(), digits.len() - 1);
        }
    } else {
        lemma_decimal_number_grows(digits.drop_last(), n);
        assert(digits.drop_last().take(n) =~= digits.take(n));
    }
}

/// Reads a number.
pub fn parse_number(text: &Vec<char>) -> (parsed: Option<u32>)
    ensures
        parsed == number(text@),
{
    let from: usize = if text.len() > 0 && text[0] == '+' {
        1
    } else {
        0
    };
    let ghost digits = text@.skip(from as int);
    assert(from == 0 ==> digits =~= text@);
    if text.len() == from {
        return None;
    }
    let mut value: u64 = 0;
    for i in from..text.len()
        invariant
            from <= i,
            digits == text@.skip(from as int),
            from == 0 ==> digits == text@,
            from == 1 <==> (text@.len() > 0 && text@[0] == '+'),
            from <= 1,
            digits.len() > 0,
            value <= u32::MAX,
            decimal_number(digits.take(i - from)) == Some(value as int),
    {
        let c = text[i];
        proof {
            assert(digits.take(i + 1 - from).drop_last() =~= digits.take(i - from));
            assert(digits.take(i + 1 - from).last() == c);
            lemma_decimal_number_grows(digits, i + 1 - from);
        }
        if c < '0' || c > '9' {
            return None;
        }
        value = value * 10 + (c as u64 - 48);
        if value > u32::MAX as u64 {
            return None;
        }
    }
    assert(digits.take(digits.len() as int) =~= digits);
    Some(value as u32)
}

// -- Laws -------------------------------------------------------------------

/// The sixteen digits.
pub proof fn law_digits(n: int)
    requires
        0 <= n < 16,
    ensures
        digit(n) == seq![
            '0',
            '1',
            '2',
            '3',
            '4',
            '5',
            '6',
            '7',
            '8',
            '9',
            'a',
            'b',
            'c',
            'd',
            'e',
            'f',
        ][n],
{
}

/// A number written in decimal reads as that number, is made of decimal digits alone and
/// has no leading zero.
pub proof fn law_decimal_is_read_back(n: nat)
    ensures
        decimal_number(decimal(n)) == Some(n as int),
        decimal(n).len() > 0,
        decimal(n)[0] == '0' ==> n == 0,
        n == 0 ==> decimal(n) == seq!['0'],
        forall|i: int| 0 <= i < decimal(n).len() ==> '0' <= #[trigger] decimal(n)[i] <= '9',
    decreases n,
{
    let digits = decimal(n);
    if n < 10 {
        assert(digits.drop_last() =~= Seq::<char>::empty());
        assert(decimal_number(digits.drop_last()) == Some(0int));
    } else {
        law_decimal_is_read_back(n / 10);
        assert(digits.drop_last() =~= decimal(n / 10));
        assert(digits[0] == decimal(n / 10)[0]);
        assert forall|i: int| 0 <= i < digits.len() implies '0' <= #[trigger] digits[i]
            <= '9' by {
            if i < digits.len() - 1 {
                assert(digits[i] == decimal(n / 10)[i]);
            }
        }
    }
}

/// A text with a character that is no decimal digit is no run of digits, and any other
/// text is one.
pub proof fn law_only_digits_are_numbers(text: Seq<char>)
    ensures
        decimal_number(text) is Some <==> forall|i: int|
            0 <= i < text.len() ==> '0' <= #[trigger] text[i] <= '9',
    decreases text.len(),
{
    if text.len() > 0 {
        let rest = text.drop_last();
        law_only_digits_are_numbers(rest);
        if decimal_number(text) is Some {
            assert forall|i: int| 0 <= i < text.len() implies '0' <= #[trigger] text[i]
                <= '9' by {
                if i < rest.len() {
                    assert('0' <= rest[i] <= '9');
                }
            }
        }
        if forall|i: int| 0 <= i < text.len() ==> '0' <= #[trigger] text[i] <= '9' {
            assert forall|i: int| 0 <= i < rest.len() implies '0' <= #[trigger] rest[i]
                <= '9' by {
                assert('0' <= text[i] <= '9');
            }
            assert('0' <= text[text.len() - 1] <= '9');
        }
    }
}

/// Leading zeros change nothing.
pub proof fn law_leading_zeros_change_nothing(text: Seq<char>)
    ensures
        decimal_number(seq!['0'] + text) == decimal_number(text),
    decreases text.len(),
{
    let more = seq!['0'] + text;
    if text.len() == 0 {
        assert(more =~= seq!['0']);
        assert(more.drop_last() =~= Seq::<char>::empty());
        assert(decimal_number(more.drop_last()) == Some(0int));
    } else {
        law_leading_zeros_change_nothing(text.drop_last());
        assert(more.drop_last() =~= seq!['0'] + text.drop_last());
        assert(more.last() == text.last());
    }
}

/// A number is read if it fits, with or without a plus sign before it. Nothing, a sign
/// alone, or anything that is no digit is no number.
pub proof fn law_numbers_are_read(n: nat, text: Seq<char>, i: int)
    ensures
        n <= u32::MAX ==> number(decimal(n)) == Some(n as u32),
        n <= u32::MAX ==> number(seq!['+'] + decimal(n)) == Some(n as u32),
        n > u32::MAX ==> number(decimal(n)) is None,
        number(seq![]) is None,
        number(seq!['+']) is None,
        0 <= i < text.len() && !('0' <= text[i] <= '9') && !(i == 0 && text[i] == '+') ==> number(
            text,
        ) is None,
{
    law_decimal_is_read_back(n);
    let signed = seq!['+'] + decimal(n);
    assert(decimal(n)[0] != '+');
    assert(signed.skip(1) =~= decimal(n));
    assert(seq!['+'].skip(1) =~= Seq::<char>::empty());
    if 0 <= i < text.len() && !('0' <= text[i] <= '9') && !(i == 0 && text[i] == '+') {
        law_only_digits_are_numbers(text);
        law_only_digits_are_numbers(text.skip(1));
        if text[0] == '+' {
            assert(text.skip(1)[i - 1] == text[i]);
        }
    }
}

/// The number that a run of hexadecimal digits in lower case stands for.
pub open spec fn value_of_hexadecimal(digits: Seq<char>) -> int
    decreases digits.len(),
{
    if digits.len() == 0 {
        0
    } else {
        let c = digits.last() as int;
        16 * value_of_hexadecimal(digits.drop_last()) + if c <= 57 {
            c - 48
        } else {
            c - 87
        }
    }
}

/// A number written in hexadecimal reads as that number and has no leading zero.
pub proof fn law_hexadecimal_is_read_back(n: nat)
    ensures
        value_of_hexadecimal(hexadecimal(n)) == n,
        hexadecimal(n).len() > 0,
        hexadecimal(n)[0] == '0' ==> n == 0,
        n == 0 ==> hexadecimal(n) == seq!['0'],
        forall|i: int|
            0 <= i < hexadecimal(n).len() ==> '0' <= #[trigger] hexadecimal(n)[i] <= '9' || 'a'
                <= hexadecimal(n)[i] <= 'f',
    decreases n,
{
    let digits = hexadecimal(n);
    if n < 16 {
        assert(digits.drop_last() =~= Seq::<char>::empty());
        assert(value_of_hexadecimal(digits.drop_last()) == 0);
    } else {
        law_hexadecimal_is_read_back(n / 16);
        assert(digits.drop_last() =~= hexadecimal(n / 16));
        assert(digits[0] == hexadecimal(n / 16)[0]);
        assert forall|i: int| 0 <= i < digits.len() implies '0' <= #[trigger] digits[i] <= '9'
            || 'a' <= digits[i] <= 'f' by {
            if i < digits.len() - 1 {
                assert(digits[i] == hexadecimal(n / 16)[i]);
            }
        }
    }
}

/// Digits of a fixed width are as many as that, and read as the number if it has no more.
pub proof fn law_padded_hexadecimal_is_read_back(n: nat, width: nat)
    ensures
        padded_hexadecimal(n, width).len() == width,
        n < vstd::arithmetic::power::pow(16, width) ==> value_of_hexadecimal(
            padded_hexadecimal(n, width),
        ) == n,
        forall|i: int|
            0 <= i < width ==> '0' <= #[trigger] padded_hexadecimal(n, width)[i] <= '9' || 'a'
                <= padded_hexadecimal(n, width)[i] <= 'f',
    decreases width,
{
    let digits = padded_hexadecimal(n, width);
    vstd::arithmetic::power::lemma_pow0(16);
    if width > 0 {
        law_padded_hexadecimal_is_read_back(n / 16, (width - 1) as nat);
        vstd::arithmetic::power::lemma_pow_adds(16, (width - 1) as nat, 1);
        vstd::arithmetic::power::lemma_pow1(16);
        assert(digits.drop_last() =~= padded_hexadecimal(n / 16, (width - 1) as nat));
        assert forall|i: int| 0 <= i < width implies '0' <= #[trigger] digits[i] <= '9' || 'a'
            <= digits[i] <= 'f' by {
            if i < width - 1 {
                assert(digits[i] == padded_hexadecimal(n / 16, (width - 1) as nat)[i]);
            }
        }
    }
}

/// A text occurs in another exactly if that is it with something before and after it.
pub proof fn law_occurring_is_standing_between(
    haystack: Seq<char>,
    needle: Seq<char>,
    start: Seq<char>,
    end: Seq<char>,
)
    ensures
        occurs(start + needle + end, needle),
        occurs(haystack, needle) ==> exists|a: Seq<char>, b: Seq<char>|
            #![trigger a + needle + b]
            haystack == a + needle + b,
{
    let whole = start + needle + end;
    let at = start.len() as int;
    assert(whole.subrange(at, at + needle.len()) =~= needle);
    assert(occurs_at(whole, needle, at));
    if occurs(haystack, needle) {
        let at = choose|at: int| occurs_at(haystack, needle, at);
        let a = haystack.take(at);
        let b = haystack.skip(at + needle.len());
        assert(haystack =~= a + haystack.subrange(at, at + needle.len()) + b);
        assert(haystack == a + needle + b);
    }
}

/// Of two texts with the same start, the one with the smaller next character comes first;
/// and a text comes before any that goes on after it.
pub proof fn law_the_first_difference_decides(
    start: Seq<char>,
    c: char,
    d: char,
    x: Seq<char>,
    y: Seq<char>,
)
    ensures
        c != d ==> before(start + seq![c] + x, start + seq![d] + y) == (c < d),
        before(start, start + seq![c] + x),
        !before(start + x, start),
    decreases start.len(),
{
    let left = start + seq![c] + x;
    let right = start + seq![d] + y;
    let longer = start + x;
    if start.len() == 0 {
        assert(left[0] == c && right[0] == d);
    } else {
        let rest = start.skip(1);
        law_the_first_difference_decides(rest, c, d, x, y);
        assert(left.skip(1) =~= rest + seq![c] + x);
        assert(right.skip(1) =~= rest + seq![d] + y);
        assert(longer.skip(1) =~= rest + x);
        assert(left[0] == start[0] && right[0] == start[0] && longer[0] == start[0]);
    }
}

/// Cutting a text at a character: without it there is one piece, the text itself; and the
/// pieces on both sides of one such character are the pieces of the two sides.
pub proof fn law_pieces_lie_between_cuts(a: Seq<char>, at: char, b: Seq<char>)
    ensures
        !a.contains(at) ==> pieces(a, at) == seq![a],
        pieces(a + seq![at] + b, at) == pieces(a, at) + pieces(b, at),
        pieces(a, at).len() > 0,
    decreases a.len() + b.len(),
{
    if a.len() > 0 {
        let rest = a.drop_last();
        law_pieces_lie_between_cuts(rest, at, seq![]);
        if !a.contains(at) {
            assert(!rest.contains(at)) by {
                if rest.contains(at) {
                    let k = choose|k: int| 0 <= k < rest.len() && rest[k] == at;
                    assert(a[k] == at);
                }
            }
            assert(a[a.len() - 1] != at);
            assert(pieces(a, at) =~= seq![rest.push(a.last())]);
            assert(rest.push(a.last()) =~= a);
        }
    } else {
        assert(a =~= seq![]);
    }
    let whole = a + seq![at] + b;
    if b.len() == 0 {
        assert(whole.drop_last() =~= a);
        assert(whole.last() == at);
        assert(pieces(b, at) =~= seq![seq![]]);
        assert(pieces(whole, at) =~= pieces(a, at) + pieces(b, at));
    } else {
        let rest = b.drop_last();
        law_pieces_lie_between_cuts(a, at, rest);
        law_pieces_lie_between_cuts(rest, at, seq![]);
        assert(whole.drop_last() =~= a + seq![at] + rest);
        assert(whole.last() == b.last());
        assert(pieces(whole, at) =~= pieces(a, at) + pieces(b, at));
    }
}

/// Every character of a text is picked out.
pub open spec fn all_picked(text: Seq<char>, picked: spec_fn(char) -> bool) -> bool {
    forall|i: int| 0 <= i < text.len() ==> picked(#[trigger] text[i])
}

/// Stripping takes away what is picked at the two ends, all of it and nothing between.
pub proof fn law_stripping_leaves_what_is_between(
    start: Seq<char>,
    inner: Seq<char>,
    end: Seq<char>,
    picked: spec_fn(char) -> bool,
)
    requires
        all_picked(start, picked),
        all_picked(end, picked),
        inner.len() > 0 ==> !picked(inner[0]) && !picked(inner.last()),
    ensures
        stripped(start + inner + end, picked) == inner,
    decreases start.len() + end.len(),
{
    let whole = start + inner + end;
    if start.len() > 0 {
        assert(whole[0] == start[0]);
        assert(picked(start[0]));
        assert forall|i: int| 0 <= i < start.skip(1).len() implies picked(
            #[trigger] start.skip(1)[i],
        ) by {
            assert(picked(start[i + 1]));
        }
        law_stripping_leaves_what_is_between(start.skip(1), inner, end, picked);
        assert(whole.skip(1) =~= start.skip(1) + inner + end);
    } else if end.len() > 0 {
        if inner.len() > 0 {
            assert(whole[0] == inner[0]);
            assert(whole.last() == end.last());
            assert(picked(end[end.len() - 1]));
            assert forall|i: int| 0 <= i < end.drop_last().len() implies picked(
                #[trigger] end.drop_last()[i],
            ) by {
                assert(picked(end[i]));
            }
            law_stripping_leaves_what_is_between(start, inner, end.drop_last(), picked);
            assert(whole.drop_last() =~= start + inner + end.drop_last());
        } else {
            assert(whole[0] == end[0]);
            assert(picked(end[0]));
            assert forall|i: int| 0 <= i < end.skip(1).len() implies picked(
                #[trigger] end.skip(1)[i],
            ) by {
                assert(picked(end[i + 1]));
            }
            law_stripping_leaves_what_is_between(start, inner, end.skip(1), picked);
            assert(whole.skip(1) =~= start + inner + end.skip(1));
        }
    } else {
        assert(whole =~= inner);
    }
}

/// White space and double quotes are what is stripped.
pub proof fn law_what_is_stripped(start: Seq<char>, inner: Seq<char>, end: Seq<char>)
    ensures
        all_picked(start, |c: char| white_space(c)) && all_picked(end, |c: char| white_space(c))
            && (inner.len() > 0 ==> !white_space(inner[0]) && !white_space(inner.last()))
            ==> trimmed(start + inner + end) == inner,
        all_picked(start, |c: char| c as int == 34) && all_picked(end, |c: char| c as int == 34)
            && (inner.len() > 0 ==> inner[0] as int != 34 && inner.last() as int != 34)
            ==> unquoted(start + inner + end) == inner,
{
    let space = |c: char| white_space(c);
    let quote = |c: char| c == '"';
    let mark = |c: char| c as int == 34;
    if all_picked(start, space) && all_picked(end, space) && (inner.len() > 0 ==> !white_space(
        inner[0],
    ) && !white_space(inner.last())) {
        law_stripping_leaves_what_is_between(start, inner, end, space);
    }
    assert(mark =~= quote);
    if all_picked(start, mark) && all_picked(end, mark) && (inner.len() > 0 ==> inner[0] as int
        != 34 && inner.last() as int != 34) {
        law_stripping_leaves_what_is_between(start, inner, end, quote);
    }
}

/// The white space of ASCII: tab, line feed, vertical tab, form feed, carriage return and
/// space. Of Latin-1 also next line and no-break space.
pub proof fn law_white_space_of_latin_1(c: char)
    requires
        (c as int) < 256,
    ensures
        white_space(c) <==> seq![9int, 10, 11, 12, 13, 32, 133, 160].contains(c as int),
{
    let list = seq![9int, 10, 11, 12, 13, 32, 133, 160];
    assert(list[0] == 9 && list[1] == 10 && list[2] == 11 && list[3] == 12 && list[4] == 13
        && list[5] == 32 && list[6] == 133 && list[7] == 160);
}

} // verus!

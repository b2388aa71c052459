//! Names: the ports that a device goes by, and the ports that the proxy makes.

use vstd::prelude::*;
use vstd::string::StringExecFns;
use vstd::utf8;

use crate::config::{DeviceConfig, PortMatch};
use crate::text;

verus! {

impl PortMatch {
    /// What the name of the input port has in it.
    pub open spec fn input_text(self) -> Seq<char> {
        match self {
            PortMatch::Simple(text) => text@,
            PortMatch::Split { input, .. } => input@,
        }
    }

    /// What the name of the output port has in it.
    pub open spec fn output_text(self) -> Seq<char> {
        match self {
            PortMatch::Simple(text) => text@,
            PortMatch::Split { output, .. } => output@,
        }
    }

    pub fn input(&self) -> (text: &str)
        ensures
            text@ == self.input_text(),
    {
        match self {
            PortMatch::Simple(text) => text.as_str(),
            PortMatch::Split { input, .. } => input.as_str(),
        }
    }

    pub fn output(&self) -> (text: &str)
        ensures
            text@ == self.output_text(),
    {
        match self {
            PortMatch::Simple(text) => text.as_str(),
            PortMatch::Split { output, .. } => output.as_str(),
        }
    }

    /// The text that stands for the match in messages: the one substring as it
    /// is, or both in quotes.
    pub fn describe(&self) -> (text: String)
        ensures
            text@ == match *self {
                PortMatch::Simple(text) => text@,
                PortMatch::Split { input, output } => split_description(
                    quoted(input@),
                    quoted(output@),
                ),
            },
    {
        match self {
            PortMatch::Simple(text) => text.clone(),
            PortMatch::Split { input, output } => describe_split(
                quote(input).as_str(),
                quote(output).as_str(),
            ),
        }
    }
}

/// How `Debug` writes a string: in double quotes, with escapes.
pub uninterp spec fn quoted(text: Seq<char>) -> Seq<char>;

/// The `Debug` output of `str`, by `format!`. The result is named; nothing is
/// said of which characters are escaped.
#[verifier::external_body]
fn quote(text: &str) -> (quote: String)
    ensures
        quote@ == quoted(text@),
{
    format!("{text:?}")
}

/// Both substrings of a split match, each in the quotes given.
pub open spec fn split_description(input: Seq<char>, output: Seq<char>) -> Seq<char> {
    "in="@ + input + ", out="@ + output
}

/// Writes out a split match, with its substrings quoted already.
pub fn describe_split(input: &str, output: &str) -> (text: String)
    ensures
        text@ == split_description(input@, output@),
{
    let mut out = "in=".to_owned();
    out.append(input);
    out.append(", out=");
    out.append(output);
    out
}

// -- Slugs ------------------------------------------------------------------

/// A letter or a digit of ASCII.
pub open spec fn alphanumeric(c: char) -> bool {
    ('0' <= c <= '9') || ('a' <= c <= 'z') || ('A' <= c <= 'Z')
}

/// The letter in lower case, any other character as it is.
pub open spec fn lower(c: char) -> char {
    if 'A' <= c <= 'Z' {
        (c as int - 'A' as int + 'a' as int) as char
    } else {
        c
    }
}

/// The runs of letters and digits of a text, in lower case, with one hyphen
/// between each two runs.
pub open spec fn slug(text: Seq<char>) -> Seq<char>
    decreases text.len(),
{
    if text.len() == 0 {
        seq![]
    } else {
        let before = slug(text.drop_last());
        let c = text.last();
        if !alphanumeric(c) {
            before
        } else if before.len() > 0 && !alphanumeric(text[text.len() - 2]) {
            before.push('-').push(lower(c))
        } else {
            before.push(lower(c))
        }
    }
}

fn is_alphanumeric(c: char) -> (yes: bool)
    ensures
        yes == alphanumeric(c),
{
    ('0' <= c && c <= '9') || ('a' <= c && c <= 'z') || ('A' <= c && c <= 'Z')
}

fn to_lower(c: char) -> (lowered: char)
    ensures
        lowered == lower(c),
{
    if 'A' <= c && c <= 'Z' {
        (c as u8 + 32) as char
    } else {
        c
    }
}

/// A name made fit for a port: see [`slug`].
pub fn slugify(s: &str) -> (name: String)
    ensures
        name@ == slug(s@),
{
    let chars = text::chars_of(s);
    let mut name = String::new();
    let mut empty = true;
    let mut gap = false;
    for i in 0..chars.len()
        invariant
            chars@ == s@,
            name@ == slug(s@.take(i as int)),
            empty == (name@.len() == 0),
            gap == (i > 0 && !alphanumeric(s@[i - 1])),
    {
        let c = chars[i];
        proof {
            assert(s@.take(i + 1).drop_last() =~= s@.take(i as int));
        }
        if is_alphanumeric(c) {
            if gap && !empty {
                name.push('-');
            }
            name.push(to_lower(c));
            empty = false;
            gap = false;
        } else {
            gap = true;
        }
    }
    assert(s@.take(s@.len() as int) =~= s@);
    name
}

// -- Page ports -------------------------------------------------------------

/// The prefix of a device's page ports.
pub open spec fn prefix_of(cfg: DeviceConfig) -> Seq<char> {
    match cfg.page_port_prefix {
        Some(prefix) => prefix@,
        None => slug(cfg.name@),
    }
}

/// The name of a page's port. Pages are counted from one here.
pub open spec fn page_port_name(prefix: Seq<char>, page: nat) -> Seq<char> {
    prefix + "-page"@ + text::decimal(page)
}

/// The name of a page's port.
pub fn port_name_of_page(prefix: &str, page: u8) -> (name: String)
    ensures
        name@ == page_port_name(prefix@, page as nat),
{
    let mut name = prefix.to_owned();
    name.append("-page");
    text::push_decimal(&mut name, page as u64);
    name
}

/// How many bytes a text has.
pub open spec fn byte_len(text: Seq<char>) -> nat {
    utf8::encode_utf8(text).len()
}

/// How many bytes a text has.
pub fn byte_count(text: &str) -> (count: usize)
    ensures
        count == byte_len(text@),
{
    text.as_bytes().len()
}

impl DeviceConfig {
    /// Effective per-page port prefix (auto-derived from `name` if not set).
    /// Kept short because Windows' WinMM MIDI device names are capped at
    /// 31 characters (`MIDIINCAPSW.szPname[32]`), so the full
    /// `<prefix>-page<N>` must fit. With the longest suffix `-page99` (7 chars)
    /// the prefix can be at most 24 chars.
    pub fn effective_prefix(&self) -> (prefix: String)
        ensures
            prefix@ == prefix_of(*self),
    {
        match &self.page_port_prefix {
            Some(prefix) => prefix.clone(),
            None => slugify(self.name.as_str()),
        }
    }

    /// Names of the N host-facing ports the proxy creates in per-port mode.
    /// Each name is one MIDI endpoint visible to the DAW.
    pub fn page_port_names(&self) -> (names: Vec<String>)
        ensures
            names@.len() == self.pages,
            forall|i: int|
                0 <= i < self.pages ==> (#[trigger] names@[i])@ == page_port_name(
                    prefix_of(*self),
                    (i + 1) as nat,
                ),
    {
        let prefix = self.effective_prefix();
        let mut names: Vec<String> = Vec::new();
        for i in 0..self.pages
            invariant
                prefix@ == prefix_of(*self),
                names@.len() == i,
                forall|k: int|
                    0 <= k < i ==> (#[trigger] names@[k])@ == page_port_name(
                        prefix_of(*self),
                        (k + 1) as nat,
                    ),
        {
            names.push(port_name_of_page(prefix.as_str(), i + 1));
        }
        names
    }
}

// -- Laws -------------------------------------------------------------------

/// A text as `slug` makes it: lower-case letters, digits and single hyphens, none
/// of them at an end.
pub open spec fn is_slug(text: Seq<char>) -> bool {
    &&& forall|i: int|
        0 <= i < text.len() ==> #[trigger] text[i] == '-' || (alphanumeric(text[i]) && lower(text[i])
            == text[i])
    &&& text.len() > 0 ==> text[0] != '-' && text.last() != '-'
    &&& forall|i: int, j: int|
        #![trigger text[i], text[j]]
        0 <= i < text.len() && j == i + 1 && j < text.len() && text[i] == '-' ==> text[j] != '-'
}

/// What a slug is made of.
pub proof fn law_slugs_are_plain(text: Seq<char>)
    ensures
        is_slug(slug(text)),
    decreases text.len(),
{
    if text.len() > 0 {
        law_slugs_are_plain(text.drop_last());
    }
}

/// The slug of a slug is the slug itself.
pub proof fn law_slug_is_idempotent(text: Seq<char>)
    ensures
        slug(slug(text)) == slug(text),
{
    let made = slug(text);
    law_slugs_are_plain(text);
    lemma_slug_of_prefix(made, made.len() as int);
    assert(made.take(made.len() as int) =~= made);
}

/// The slug of the first characters of a slug, without a hyphen at the end.
proof fn lemma_slug_of_prefix(made: Seq<char>, n: int)
    requires
        is_slug(made),
        0 <= n <= made.len(),
    ensures
        slug(made.take(n)) == if n > 0 && made[n - 1] == '-' {
            made.take(n - 1)
        } else {
            made.take(n)
        },
    decreases n,
{
    if n > 0 {
        lemma_slug_of_prefix(made, n - 1);
        let head = made.take(n);
        assert(head.drop_last() =~= made.take(n - 1));
        assert(head.last() == made[n - 1]);
        if n > 1 {
            assert(head[n - 2] == made[n - 2]);
            if made[n - 2] == '-' {
                assert(made.take(n - 2).push('-').push(made[n - 1]) =~= head);
            } else if made[n - 1] != '-' {
                assert(made.take(n - 1).push(made[n - 1]) =~= head);
            }
        } else {
            assert(made.take(0).push(made[0]) =~= head);
        }
    } else {
        assert(made.take(0) =~= Seq::<char>::empty());
    }
}

/// No two pages of a device have ports of the same name.
pub proof fn law_page_ports_are_distinct(prefix: Seq<char>, a: nat, b: nat)
    requires
        a != b,
    ensures
        page_port_name(prefix, a) != page_port_name(prefix, b),
{
    if page_port_name(prefix, a) == page_port_name(prefix, b) {
        let start = prefix + "-page"@;
        assert(page_port_name(prefix, a).skip(start.len() as int) =~= text::decimal(a));
        assert(page_port_name(prefix, b).skip(start.len() as int) =~= text::decimal(b));
        text::lemma_decimal_is_injective(a, b);
    }
}

proof fn lemma_byte_len_adds_up(a: Seq<char>, b: Seq<char>)
    ensures
        byte_len(a + b) == byte_len(a) + byte_len(b),
    decreases a.len(),
{
    if a.len() == 0 {
        assert(a + b =~= b);
    } else {
        lemma_byte_len_adds_up(a.drop_first(), b);
        assert((a + b).drop_first() =~= a.drop_first() + b);
    }
}

/// A number in decimal has a byte for each digit.
proof fn lemma_decimal_is_ascii(n: nat)
    ensures
        utf8::is_ascii_chars(text::decimal(n)),
        byte_len(text::decimal(n)) == text::decimal(n).len(),
    decreases n,
{
    if n >= 10 {
        lemma_decimal_is_ascii(n / 10);
    }
    utf8::is_ascii_chars_encode_utf8(text::decimal(n));
}

proof fn lemma_decimal_len_grows(a: nat, b: nat)
    requires
        a <= b,
    ensures
        text::decimal(a).len() <= text::decimal(b).len(),
    decreases b,
{
    text::lemma_decimal_len(a);
    text::lemma_decimal_len(b);
    if a >= 10 {
        lemma_decimal_len_grows(a / 10, b / 10);
    }
}

/// The port of the last page has the longest name.
pub proof fn law_last_page_port_is_longest(prefix: Seq<char>, page: nat, pages: nat)
    requires
        page <= pages,
    ensures
        byte_len(page_port_name(prefix, page)) <= byte_len(page_port_name(prefix, pages)),
{
    let start = prefix + "-page"@;
    lemma_byte_len_adds_up(start, text::decimal(page));
    lemma_byte_len_adds_up(start, text::decimal(pages));
    lemma_decimal_is_ascii(page);
    lemma_decimal_is_ascii(pages);
    lemma_decimal_len_grows(page, pages);
}

/// The letters and digits of ASCII, by their codes.
pub open spec fn is_letter_or_digit(c: char) -> bool {
    48 <= c as int <= 57 || 65 <= c as int <= 90 || 97 <= c as int <= 122
}

/// A text of letters and digits only.
pub open spec fn is_run(text: Seq<char>) -> bool {
    forall|i: int| 0 <= i < text.len() ==> is_letter_or_digit(#[trigger] text[i])
}

/// A text without letters and digits.
pub open spec fn is_gap(text: Seq<char>) -> bool {
    forall|i: int| 0 <= i < text.len() ==> !is_letter_or_digit(#[trigger] text[i])
}

/// The slug of letters and digits is each of them, capitals in lower case.
pub proof fn law_slug_of_a_run(text: Seq<char>)
    requires
        is_run(text),
    ensures
        slug(text).len() == text.len(),
        forall|i: int|
            0 <= i < text.len() ==> (#[trigger] slug(text)[i]) as int == (if 65 <= text[i] as int
                <= 90 {
                text[i] as int + 32
            } else {
                text[i] as int
            }),
    decreases text.len(),
{
    if text.len() > 0 {
        let rest = text.drop_last();
        assert forall|i: int| 0 <= i < rest.len() implies is_letter_or_digit(
            #[trigger] rest[i],
        ) by {
            assert(is_letter_or_digit(text[i]));
        }
        law_slug_of_a_run(rest);
        assert(is_letter_or_digit(text[text.len() - 1]));
        if text.len() >= 2 {
            assert(is_letter_or_digit(text[text.len() - 2]));
        }
        assert(slug(text) == slug(rest).push(lower(text.last())));
        assert forall|i: int| 0 <= i < text.len() implies (#[trigger] slug(text)[i]) as int == (
        if 65 <= text[i] as int <= 90 {
            text[i] as int + 32
        } else {
            text[i] as int
        }) by {
            if i < rest.len() {
                assert(slug(text)[i] == slug(rest)[i]);
                assert(rest[i] == text[i]);
            }
        }
    }
}

/// Characters that are neither letters nor digits leave nothing at an end of a slug.
pub proof fn law_slug_drops_gaps_at_the_ends(text: Seq<char>, gap: Seq<char>)
    requires
        is_gap(gap),
    ensures
        slug(text + gap) == slug(text),
        slug(gap + text) == slug(text),
    decreases gap.len() + text.len(),
{
    if gap.len() > 0 {
        let rest = gap.drop_last();
        assert forall|i: int| 0 <= i < rest.len() implies !is_letter_or_digit(
            #[trigger] rest[i],
        ) by {
            assert(!is_letter_or_digit(gap[i]));
        }
        assert(!is_letter_or_digit(gap[gap.len() - 1]));
        law_slug_drops_gaps_at_the_ends(text, rest);
        assert((text + gap).drop_last() =~= text + rest);
        assert((text + gap).last() == gap.last());
        assert(slug(text + gap) == slug(text));
    } else {
        assert(text + gap =~= text);
        assert(gap + text =~= text);
    }
    if text.len() == 0 {
        assert(gap + text =~= gap);
        assert(text + gap =~= gap);
    } else if gap.len() > 0 {
        let rest = text.drop_last();
        law_slug_drops_gaps_at_the_ends(rest, gap);
        let whole = gap + text;
        assert(whole.drop_last() =~= gap + rest);
        assert(whole.last() == text.last());
        if text.len() >= 2 {
            assert(whole[whole.len() - 2] == text[text.len() - 2]);
        } else {
            assert(rest =~= Seq::<char>::empty());
            assert(slug(rest).len() == 0);
        }
    }
}

/// Between two parts of a text that have a slug each, anything that is neither letters
/// nor digits comes to one hyphen.
pub proof fn law_slug_joins_parts_by_one_hyphen(a: Seq<char>, gap: Seq<char>, b: Seq<char>)
    requires
        is_gap(gap),
        gap.len() > 0,
        slug(a).len() > 0,
        slug(b).len() > 0,
    ensures
        slug(a + gap + b) == slug(a).push('-') + slug(b),
    decreases b.len(),
{
    let rest = b.drop_last();
    let whole = a + gap + b;
    assert(whole.drop_last() =~= a + gap + rest);
    assert(whole.last() == b.last());
    if slug(rest).len() > 0 {
        law_slug_joins_parts_by_one_hyphen(a, gap, rest);
        assert(b.len() >= 2);
        assert(whole[whole.len() - 2] == b[b.len() - 2]);
        assert(slug(whole) =~= slug(a).push('-') + slug(b));
    } else {
        lemma_nothing_to_slug(rest);
        let wide = gap + rest;
        assert(a + gap + rest =~= a + wide);
        assert forall|i: int| 0 <= i < wide.len() implies !is_letter_or_digit(
            #[trigger] wide[i],
        ) by {
            if i < gap.len() {
                assert(!is_letter_or_digit(gap[i]));
            } else {
                assert(!is_letter_or_digit(rest[i - gap.len()]));
            }
        }
        law_slug_drops_gaps_at_the_ends(a, wide);
        assert(whole[whole.len() - 2] == wide[wide.len() - 1]);
        assert(!is_letter_or_digit(wide[wide.len() - 1]));
        assert(slug(whole) =~= slug(a).push('-') + slug(b));
    }
}

proof fn lemma_nothing_to_slug(text: Seq<char>)
    requires
        slug(text).len() == 0,
    ensures
        is_gap(text),
    decreases text.len(),
{
    if text.len() > 0 {
        lemma_nothing_to_slug(text.drop_last());
        assert forall|i: int| 0 <= i < text.len() implies !is_letter_or_digit(
            #[trigger] text[i],
        ) by {
            if i < text.len() - 1 {
                assert(!is_letter_or_digit(text.drop_last()[i]));
            }
        }
    }
}

/// The ports of a device are named by the prefix that is set, or else by the slug of its
/// name, and the number of the page in decimal.
pub proof fn law_page_ports_are_named_by_prefix_and_number(cfg: DeviceConfig, page: nat)
    ensures
        page_port_name(prefix_of(cfg), page) == (match cfg.page_port_prefix {
            Some(prefix) => prefix@,
            None => slug(cfg.name@),
        }) + seq!['-', 'p', 'a', 'g', 'e'] + text::decimal(page),
{
    reveal_strlit("-page");
    assert("-page"@ =~= seq!['-', 'p', 'a', 'g', 'e']);
}

/// A split match is described by both of its substrings, the input first.
pub proof fn law_split_matches_are_described(input: Seq<char>, output: Seq<char>)
    ensures
        split_description(input, output) == seq!['i', 'n', '='] + input + seq![
            ',',
            ' ',
            'o',
            'u',
            't',
            '=',
        ] + output,
{
    reveal_strlit("in=");
    reveal_strlit(", out=");
    assert("in="@ =~= seq!['i', 'n', '=']);
    assert(", out="@ =~= seq![',', ' ', 'o', 'u', 't', '=']);
}

/// There is a port for each page, in the order of the pages, and no two have one name.
pub proof fn law_every_page_has_a_port(cfg: &DeviceConfig, names: Vec<String>, i: int, j: int)
    requires
        call_ensures(DeviceConfig::page_port_names, (cfg,), names),
    ensures
        names@.len() == cfg.pages,
        0 <= i < cfg.pages ==> names@[i]@ == (match cfg.page_port_prefix {
            Some(prefix) => prefix@,
            None => slug(cfg.name@),
        }) + seq!['-', 'p', 'a', 'g', 'e'] + text::decimal((i + 1) as nat),
        0 <= i < j < cfg.pages ==> names@[i]@ != names@[j]@,
{
    if 0 <= i < cfg.pages {
        law_page_ports_are_named_by_prefix_and_number(*cfg, (i + 1) as nat);
    }
    if 0 <= i < j < cfg.pages {
        law_page_ports_are_distinct(prefix_of(*cfg), (i + 1) as nat, (j + 1) as nat);
    }
}

} // verus!

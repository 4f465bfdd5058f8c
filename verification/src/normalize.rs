//! Normalization of scraped values: price text to integer cents, listing URL
//! to canonical form, title white space.
use crate::text::{
    all_digits, chars_of, contains_text, digit, digits_value, fold, has_char, has_prefix, has_text,
    is_alphanumeric, is_digit, is_white, join, joined, lemma_filter_push, lemma_split_nonempty,
    lemma_split_push, lemma_up_to, parse_i64, parsed_i64, same_text, split, to_upper, up_to,
    uppercase, words, words_of,
};
use vstd::prelude::*;
use vstd::string::StringExecFns;
use vstd::utf8::encode_utf8;

verus! {

// ---------------------------------------------------------------------------
// Patterns

/// A number with optional thousands separators and an optional decimal part.
/// The plain run of digits comes first: alternation takes the first branch that
/// matches, and the separator branch would cut "7000.00" down to "700".
pub const PRICE_PATTERN: &'static str = r"(\d{4,}|\d{1,3}(?:[ \u{a0}\u{202f},.]\d{3})*)(?:[.,](\d{1,2}))?";

/// Buy requests, French marketplace style: the intent word leads the title.
pub const WANTED_PATTERN: &'static str = r"(?i)^\W*(je\s+)?(recherche|cherche|rech\.?|achat|ach[eè]te)\b";

pub uninterp spec fn regex_is_match(pattern: Seq<char>, text: Seq<char>) -> bool;

pub uninterp spec fn regex_captures(
    pattern: Seq<char>,
    text: Seq<char>,
) -> Option<Seq<Option<Seq<char>>>>;

/// A decimal digit as the pattern class `\d` has it: `0` to `9`, and the digits
/// of other scripts.
pub open spec fn pattern_digit(c: char) -> bool {
    is_digit(c) || (c > '\u{7f}' && regex_is_match(r"\d"@, seq![c]))
}

/// A word character as the pattern class `\w` has it: ASCII letters, digits and
/// the underscore, and the word characters of other scripts.
pub open spec fn word_char(c: char) -> bool {
    is_alphanumeric(c) || c == '_' || (c > '\u{7f}' && regex_is_match(r"\w"@, seq![c]))
}

/// The position of the first digit from `i` on, or the length of the text.
pub open spec fn next_digit(s: Seq<char>, i: int) -> int
    decreases s.len() - i,
{
    if 0 <= i < s.len() && !pattern_digit(s[i]) {
        next_digit(s, i + 1)
    } else {
        i
    }
}

/// Where the run of digits at `i` ends.
pub open spec fn digits_end(s: Seq<char>, i: int) -> int
    decreases s.len() - i,
{
    if 0 <= i < s.len() && pattern_digit(s[i]) {
        digits_end(s, i + 1)
    } else {
        i
    }
}

/// Where the groups of a separator and three digits at `i` end.
pub open spec fn groups_end(s: Seq<char>, i: int) -> int
    decreases s.len() - i,
{
    if 0 <= i && i + 3 < s.len() && seq![' ', '\u{a0}', '\u{202f}', ',', '.'].contains(s[i])
        && pattern_digit(s[i + 1]) && pattern_digit(s[i + 2]) && pattern_digit(s[i + 3]) {
        groups_end(s, i + 4)
    } else {
        i
    }
}

/// The decimals behind position `i`: one or two digits after a point or comma.
pub open spec fn decimals_at(s: Seq<char>, i: int) -> Option<Seq<char>> {
    if 0 <= i && i + 1 < s.len() && (s[i] == '.' || s[i] == ',') && pattern_digit(s[i + 1]) {
        if i + 2 < s.len() && pattern_digit(s[i + 2]) {
            Some(s.subrange(i + 1, i + 3))
        } else {
            Some(s.subrange(i + 1, i + 2))
        }
    } else {
        None
    }
}

/// The first number of a text: its whole part, thousands separators included,
/// and its decimals. Four digits or more in a row take no separators.
pub open spec fn first_number(s: Seq<char>) -> Option<(Seq<char>, Option<Seq<char>>)> {
    let start = next_digit(s, 0);
    if start >= s.len() {
        None
    } else {
        let run = digits_end(s, start);
        let end = if run - start >= 4 {
            run
        } else {
            groups_end(s, run)
        };
        Some((s.subrange(start, end), decimals_at(s, end)))
    }
}

/// Letters in lower case, as far as the intent words need it.
pub open spec fn lower_letter(c: char) -> char {
    if c == '\u{c8}' {
        '\u{e8}'
    } else {
        fold(c)
    }
}

/// The position of the first word character from `i` on.
pub open spec fn next_word(s: Seq<char>, i: int) -> int
    decreases s.len() - i,
{
    if 0 <= i < s.len() && !word_char(s[i]) {
        next_word(s, i + 1)
    } else {
        i
    }
}

/// The position of the first character from `i` on that is no white space.
pub open spec fn next_black(s: Seq<char>, i: int) -> int
    decreases s.len() - i,
{
    if 0 <= i < s.len() && is_white(s[i]) {
        next_black(s, i + 1)
    } else {
        i
    }
}

/// The word stands at `i`, whatever its case, and ends there.
pub open spec fn word_at(s: Seq<char>, i: int, word: Seq<char>) -> bool {
    let end = i + word.len();
    &&& 0 <= i && end <= s.len()
    &&& forall|k: int| 0 <= k < word.len() ==> lower_letter(#[trigger] s[i + k]) == word[k]
    &&& end == s.len() || !word_char(s[end])
}

/// The title leads with a word that asks to buy, after a "je" or without.
pub open spec fn leads_with_intent(s: Seq<char>) -> bool {
    let first = next_word(s, 0);
    let i = if first + 2 < s.len() && fold(s[first]) == 'j' && fold(s[first + 1]) == 'e'
        && is_white(s[first + 2]) {
        next_black(s, first + 2)
    } else {
        first
    };
    ||| word_at(s, i, "recherche"@)
    ||| word_at(s, i, "cherche"@)
    ||| word_at(s, i, "rech"@)
    ||| word_at(s, i, "achat"@)
    ||| word_at(s, i, "achete"@)
    ||| word_at(s, i, "ach\u{e8}te"@)
}

/// `regex::Regex::is_match`: does the pattern match somewhere in the text? A
/// pattern that does not compile matches nothing. The name `regex_is_match`
/// stands for the answer; of the wanted pattern it is stated: behind characters
/// that are no word characters, and an optional "je", one of the intent words
/// stands whole, in any case.
#[verifier::external_body]
fn pattern_matches(pattern: &str, text: &str) -> (r: bool)
    ensures
        r == regex_is_match(pattern@, text@),
        pattern@ == WANTED_PATTERN@ ==> r == leads_with_intent(text@),
{
    match regex::Regex::new(pattern) {
        Ok(re) => re.is_match(text),
        Err(_) => false,
    }
}

/// The texts of a match and of its groups.
pub open spec fn group_texts(groups: Seq<Option<String>>) -> Seq<Option<Seq<char>>> {
    groups.map_values(
        |g: Option<String>|
            match g {
                Some(t) => Some(t@),
                None => None,
            },
    )
}

/// `regex::Regex::captures`: the first match of the pattern, by its groups, the
/// whole match first. A pattern that does not compile matches nothing. The name
/// `regex_captures` stands for the answer; of the price pattern it is stated:
/// its groups are the whole part and the decimals of the first number.
#[verifier::external_body]
fn pattern_captures(pattern: &str, text: &str) -> (r: Option<Vec<Option<String>>>)
    ensures
        match r {
            Some(groups) => regex_captures(pattern@, text@) == Some(group_texts(groups@)),
            None => regex_captures(pattern@, text@) is None,
        },
        pattern@ == PRICE_PATTERN@ ==> match r {
            Some(groups) => groups@.len() == 3 && groups@[1] is Some && first_number(text@) == Some(
                (groups@[1]->0@, group_texts(groups@)[2]),
            ),
            None => first_number(text@) is None,
        },
{
    let re = regex::Regex::new(pattern).ok()?;
    let caps = re.captures(text)?;
    Some(caps.iter().map(|g| g.map(|m| m.as_str().to_string())).collect())
}

// ---------------------------------------------------------------------------
// Prices

/// The currency that a text names: by its symbol or code, else euros.
pub open spec fn currency_of(text: Seq<char>) -> Seq<char> {
    let upper = uppercase(text);
    if text.contains('€') || contains_text(upper, "EUR"@) {
        "EUR"@
    } else if text.contains('$') || contains_text(upper, "USD"@) {
        "USD"@
    } else if text.contains('£') || contains_text(upper, "GBP"@) {
        "GBP"@
    } else {
        "EUR"@
    }
}

/// The cents that a number amounts to. Separators do not count; of the whole
/// part only the ASCII digits do. One decimal is tenths.
pub open spec fn cents_of(number: (Seq<char>, Option<Seq<char>>)) -> Option<int> {
    match parse_i64(number.0.filter(|c: char| is_digit(c))) {
        None => None,
        Some(whole) => match number.1 {
            None => Some(whole * 100),
            Some(decimals) => match parse_i64(decimals) {
                None => None,
                Some(d) => Some(
                    whole * 100 + if decimals.len() == 1 {
                        d * 10
                    } else {
                        d as int
                    },
                ),
            },
        },
    }
}

/// The cents that the first number of a text amounts to.
pub open spec fn price_cents_of(text: Seq<char>) -> Option<int> {
    match first_number(text) {
        Some(number) => cents_of(number),
        None => None,
    }
}

fn currency(text: &str) -> (r: &'static str)
    ensures
        r@ == currency_of(text@),
{
    let upper = to_upper(text);
    if has_char(text, '€') || has_text(upper.as_str(), "EUR") {
        "EUR"
    } else if has_char(text, '$') || has_text(upper.as_str(), "USD") {
        "USD"
    } else if has_char(text, '£') || has_text(upper.as_str(), "GBP") {
        "GBP"
    } else {
        "EUR"
    }
}

/// The ASCII digits among some characters.
pub fn ascii_digits(chars: &[char]) -> (r: Vec<char>)
    ensures
        r@ == chars@.filter(|c: char| is_digit(c)),
{
    let mut r: Vec<char> = Vec::new();
    let ghost keep = |c: char| is_digit(c);
    let mut i: usize = 0;
    proof {
        assert(chars@.take(0) == Seq::<char>::empty());
        reveal(Seq::filter);
    }
    while i < chars.len()
        invariant
            i <= chars@.len(),
            keep == (|c: char| is_digit(c)),
            r@ == chars@.take(i as int).filter(keep),
        decreases chars@.len() - i,
    {
        let c = chars[i];
        proof {
            lemma_filter_push(chars@.take(i as int), c, keep);
            assert(chars@.take(i as int).push(c) == chars@.take(i as int + 1));
        }
        if digit(c) {
            r.push(c);
        }
        i = i + 1;
    }
    proof {
        assert(chars@.take(chars@.len() as int) == chars@);
    }
    r
}

/// One or two digits write a number below 100.
proof fn lemma_decimals_small(s: Seq<char>)
    requires
        1 <= s.len() <= 2,
    ensures
        parse_i64(s) matches Some(v) ==> -9 <= v <= 99,
        parse_i64(s) matches Some(v) ==> (s.len() == 1 ==> 0 <= v <= 9),
{
    reveal_with_fuel(digits_value, 4);
    if parse_i64(s) is Some {
        if s[0] == '-' || s[0] == '+' {
            let d = s.skip(1);
            if all_digits(d) && d.len() > 0 {
                assert(is_digit(d[0]));
            }
        } else {
            assert(is_digit(s[0]));
            if s.len() == 2 {
                assert(is_digit(s[1]));
            }
        }
    }
}

/// Digits write no negative number.
proof fn lemma_digits_not_negative(s: Seq<char>)
    requires
        all_digits(s),
    ensures
        parse_i64(s) matches Some(v) ==> v >= 0,
{
    if s.len() > 0 {
        assert(is_digit(s[0]));
    }
}

proof fn lemma_filtered_digits(s: Seq<char>)
    ensures
        all_digits(s.filter(|c: char| is_digit(c))),
{
    let keep = |c: char| is_digit(c);
    let f = s.filter(keep);
    broadcast use vstd::seq_lib::group_filter_ensures;

    assert forall|i: int| 0 <= i < f.len() implies is_digit(#[trigger] f[i]) by {
        assert(keep(f[i]));
    }
}

/// The decimals that a number has are one or two characters.
pub proof fn lemma_decimals_length(s: Seq<char>, i: int)
    ensures
        decimals_at(s, i) matches Some(d) ==> 1 <= d.len() <= 2,
{
}

/// The cents that a number amounts to, given its whole part and its decimals,
/// where an `i64` holds them.
pub fn number_cents(whole: &str, decimals: &Option<String>) -> (r: Option<Option<i64>>)
    requires
        decimals matches Some(d) ==> 1 <= d@.len() <= 2,
    ensures
        ({
            let number = (
                whole@,
                match *decimals {
                    Some(d) => Some(d@),
                    None => None,
                },
            );
            match cents_of(number) {
                None => r == Some(None::<i64>),
                Some(v) => if v <= i64::MAX {
                    r == Some(Some(v as i64))
                } else {
                    r is None
                },
            }
        }),
{
    let chars = chars_of(whole);
    let digits = ascii_digits(chars.as_slice());
    proof {
        lemma_filtered_digits(whole@);
        lemma_digits_not_negative(digits@);
    }
    let units: i64 = match parsed_i64(digits.as_slice()) {
        Some(v) => v,
        None => {
            return Some(None);
        },
    };
    let cents: i64 = match decimals {
        Some(text) => {
            let d = chars_of(text.as_str());
            proof {
                lemma_decimals_small(d@);
            }
            match parsed_i64(d.as_slice()) {
                Some(v) => if d.len() == 1 {
                    v * 10
                } else {
                    v
                },
                None => {
                    return Some(None);
                },
            }
        },
        None => 0,
    };
    let total: i128 = units as i128 * 100 + cents as i128;
    if total <= i64::MAX as i128 {
        Some(Some(total as i64))
    } else {
        None
    }
}

/// The first number of a text, by its whole part and its decimals.
fn number_in(text: &str) -> (r: Option<(String, Option<String>)>)
    ensures
        match r {
            Some((whole, decimals)) => first_number(text@) == Some(
                (
                    whole@,
                    match decimals {
                        Some(d) => Some(d@),
                        None => None,
                    },
                ),
            ) && (decimals matches Some(d) ==> 1 <= d@.len() <= 2),
            None => first_number(text@) is None,
        },
{
    match pattern_captures(PRICE_PATTERN, text) {
        Some(groups) => {
            proof {
                let start = next_digit(text@, 0);
                let run = digits_end(text@, start);
                lemma_decimals_length(text@, run);
                lemma_decimals_length(text@, groups_end(text@, run));
            }
            match &groups[1] {
                Some(whole) => Some((whole.clone(), groups[2].clone())),
                None => None,
            }
        },
        None => None,
    }
}

/// Parse a scraped price string into `(cents, currency)`.
///
/// Handles EU ("1 234,56 €") and US ("$1,234.56") styles. The currency is
/// inferred from the symbol or code found in the text; euros where a number is
/// present but no currency marker is.
pub fn parse_price(text: &str) -> (r: Option<(i64, String)>)
    requires
        price_cents_of(text@) matches Some(v) ==> v <= i64::MAX,
    ensures
        match r {
            Some((cents, code)) => price_cents_of(text@) == Some(cents as int) && code@
                == currency_of(text@),
            None => price_cents_of(text@) is None,
        },
{
    match number_in(text) {
        Some((whole, decimals)) => match number_cents(whole.as_str(), &decimals) {
            Some(Some(cents)) => Some((cents, currency(text).to_owned())),
            _ => None,
        },
        None => None,
    }
}

/// `parse_price` for any text: nothing where the price does not fit.
pub fn parse_fitting_price(text: &str) -> (r: Option<(i64, String)>)
    ensures
        match r {
            Some((cents, code)) => price_cents_of(text@) == Some(cents as int) && code@
                == currency_of(text@),
            None => price_cents_of(text@) is None || price_cents_of(text@)->0 > i64::MAX,
        },
{
    match number_in(text) {
        Some((whole, decimals)) => match number_cents(whole.as_str(), &decimals) {
            Some(_) => parse_price(text),
            None => None,
        },
        None => None,
    }
}

/// A text of ASCII digits alone is a price in full: however many they are, and
/// whatever their number, each counts.
pub proof fn law_bare_digits_count_in_full(s: Seq<char>)
    requires
        s.len() > 0,
        all_digits(s),
    ensures
        first_number(s) == Some((s, None::<Seq<char>>)),
        price_cents_of(s) == match parse_i64(s) {
            Some(v) => Some(v * 100),
            None => None,
        },
{
    assert(is_digit(s[0]));
    lemma_digits_run(s, 0);
    let run = digits_end(s, 0);
    assert(run == s.len());
    assert(s.subrange(0, s.len() as int) == s);
    let keep = |c: char| is_digit(c);
    assert(s.filter(keep) == s) by {
        lemma_filter_all(s, keep);
    }
}

proof fn lemma_digits_run(s: Seq<char>, i: int)
    requires
        all_digits(s),
        0 <= i <= s.len(),
    ensures
        digits_end(s, i) == s.len(),
    decreases s.len() - i,
{
    if i < s.len() {
        assert(is_digit(s[i]));
        lemma_digits_run(s, i + 1);
    }
}

/// Keeping what all of a sequence has keeps all of it.
pub proof fn lemma_filter_all<T>(s: Seq<T>, keep: spec_fn(T) -> bool)
    requires
        forall|i: int| 0 <= i < s.len() ==> keep(#[trigger] s[i]),
    ensures
        s.filter(keep) == s,
    decreases s.len(),
{
    if s.len() > 0 {
        let init = s.drop_last();
        assert forall|i: int| 0 <= i < init.len() implies keep(#[trigger] init[i]) by {
            assert(init[i] == s[i]);
        }
        lemma_filter_all(init, keep);
        lemma_filter_push(init, s.last(), keep);
        assert(init.push(s.last()) == s);
    } else {
        reveal(Seq::filter);
        assert(s.filter(keep) =~= s);
    }
}

// ---------------------------------------------------------------------------
// Wanted ads

/// True when the title is a buy request ("Recherche RTX 5090"), not an offer:
/// by its leading words only, to avoid false positives.
pub fn is_wanted_ad(title: &str) -> (r: bool)
    ensures
        r == leads_with_intent(title@),
{
    pattern_matches(WANTED_PATTERN, title)
}

// ---------------------------------------------------------------------------
// URLs

/// What is read off a URL: its own text, which is the normalized one, and its
/// scheme, host and query.
pub struct UrlParts {
    pub text: String,
    pub scheme: String,
    pub host: Option<String>,
    pub pairs: Vec<(String, String)>,
}

/// What the parts of a URL say.
pub struct UrlFacts {
    pub text: Seq<char>,
    pub scheme: Seq<char>,
    pub host: Option<Seq<char>>,
    pub pairs: Seq<(Seq<char>, Seq<char>)>,
}

impl UrlParts {
    pub open spec fn facts(self) -> UrlFacts {
        UrlFacts {
            text: self.text@,
            scheme: self.scheme@,
            host: match self.host {
                Some(h) => Some(h@),
                None => None,
            },
            pairs: pair_texts(self.pairs@),
        }
    }
}

/// The names and values of query pairs.
pub open spec fn pair_texts(pairs: Seq<(String, String)>) -> Seq<(Seq<char>, Seq<char>)> {
    pairs.map_values(|p: (String, String)| (p.0@, p.1@))
}

pub uninterp spec fn url_parts(raw: Seq<char>) -> Option<UrlFacts>;

/// `url::Url::parse`, with `Url::as_str`, `Url::scheme`, `Url::host_str` and
/// `Url::query_pairs` of what it gives: the normalized text of a URL, its scheme,
/// its host and its decoded query. The name `url_parts` stands for them; it has
/// nothing where the text is no URL.
#[verifier::external_body]
pub(crate) fn parse_url(raw: &str) -> (r: Option<UrlParts>)
    ensures
        match r {
            Some(p) => url_parts(raw@) == Some(p.facts()),
            None => url_parts(raw@) is None,
        },
{
    let url = url::Url::parse(raw).ok()?;
    let pairs = url.query_pairs().map(|(k, v)| (k.into_owned(), v.into_owned())).collect();
    let host = url.host_str().map(|h| h.to_string());
    let scheme = url.scheme().to_string();
    Some(UrlParts { text: url.as_str().to_string(), scheme, host, pairs })
}

/// A URL of the web.
pub open spec fn is_web(url: UrlFacts) -> bool {
    url.scheme == "http"@ || url.scheme == "https"@
}

/// Is this a URL of the web?
pub fn on_the_web(parts: &UrlParts) -> (r: bool)
    ensures
        r == is_web(parts.facts()),
{
    same_text(parts.scheme.as_str(), "http") || same_text(parts.scheme.as_str(), "https")
}

/// A hexadecimal digit in upper case.
pub open spec fn hex_digit(d: int) -> char {
    if d < 10 {
        (48 + d) as u8 as char
    } else {
        (55 + d) as u8 as char
    }
}

/// A byte as it stands in a form-encoded text.
pub open spec fn form_byte(b: u8) -> Seq<char> {
    if b == 0x2a || b == 0x2d || b == 0x2e || 0x30 <= b <= 0x39 || 0x41 <= b <= 0x5a || b == 0x5f
        || 0x61 <= b <= 0x7a {
        seq![b as char]
    } else if b == 0x20 {
        seq!['+']
    } else {
        seq!['%', hex_digit(b as int / 16), hex_digit(b as int % 16)]
    }
}

/// Bytes in form encoding: letters, digits and `*-._` stand for themselves, a
/// space is `+`, every other byte is `%` and two hexadecimal digits.
pub open spec fn form_bytes(bytes: Seq<u8>) -> Seq<char>
    decreases bytes.len(),
{
    if bytes.len() == 0 {
        Seq::empty()
    } else {
        form_bytes(bytes.drop_last()) + form_byte(bytes.last())
    }
}

/// A text in form encoding, by its UTF-8 bytes.
pub open spec fn form_text(text: Seq<char>) -> Seq<char> {
    form_bytes(encode_utf8(text))
}

/// Query pairs in form encoding: `name=value`, with `&` between them.
pub open spec fn form_pairs(pairs: Seq<(Seq<char>, Seq<char>)>) -> Seq<char> {
    join(pairs.map_values(|p: (Seq<char>, Seq<char>)| form_text(p.0) + "="@ + form_text(p.1)), "&"@)
}

/// The URL up to its query and its fragment.
pub open spec fn base_of(url: UrlFacts) -> Seq<char> {
    up_to(url.text, '?', '#')
}

/// The text is the URL with these query pairs in place of its own: read as a
/// URL it is itself, of the same scheme and host.
pub open spec fn reads_back(
    text: Seq<char>,
    url: UrlFacts,
    pairs: Seq<(Seq<char>, Seq<char>)>,
) -> bool {
    url_parts(text) == Some(UrlFacts { text, scheme: url.scheme, host: url.host, pairs })
}

/// `url::Url::set_fragment` and `url::Url::set_query`, both with nothing, on a
/// URL of the web: its text up to query and fragment. Read as a URL again, that
/// text is itself and has no query.
#[verifier::external_body]
fn without_query(raw: &str) -> (r: Option<String>)
    requires
        url_parts(raw@) matches Some(url) && is_web(url),
    ensures
        r is Some,
        r->0@ == base_of(url_parts(raw@)->0),
        reads_back(r->0@, url_parts(raw@)->0, Seq::empty()),
{
    let mut url = url::Url::parse(raw).ok()?;
    url.set_fragment(None);
    url.set_query(None);
    Some(url.to_string())
}

/// `url::Url::set_fragment` with nothing and `url::Url::query_pairs_mut`, on a
/// URL of the web: its text with these pairs, form-encoded, for its query. Read
/// as a URL again, that text is itself and its query is these pairs.
#[verifier::external_body]
fn with_query(raw: &str, pairs: &Vec<(String, String)>) -> (r: Option<String>)
    requires
        url_parts(raw@) matches Some(url) && is_web(url),
    ensures
        r is Some,
        r->0@ == base_of(url_parts(raw@)->0).push('?') + form_pairs(pair_texts(pairs@)),
        reads_back(r->0@, url_parts(raw@)->0, pair_texts(pairs@)),
{
    let mut url = url::Url::parse(raw).ok()?;
    url.set_fragment(None);
    url.query_pairs_mut().clear().extend_pairs(pairs).finish();
    Some(url.to_string())
}

/// Query parameters that never identify the advert.
pub open spec fn tracking(key: Seq<char>) -> bool {
    ||| "utm_"@.is_prefix_of(key)
    ||| key == "ref"@
    ||| key == "referrer"@
    ||| key == "aff"@
    ||| key == "affid"@
    ||| key == "tag"@
    ||| key == "fbclid"@
    ||| key == "gclid"@
    ||| key == "mc_cid"@
    ||| key == "mc_eid"@
}

/// Is this a query parameter that never identifies the advert?
pub fn is_tracking_param(key: &str) -> (r: bool)
    ensures
        r == tracking(key@),
{
    has_prefix(key, "utm_") || same_text(key, "ref") || same_text(key, "referrer") || same_text(
        key,
        "aff",
    ) || same_text(key, "affid") || same_text(key, "tag") || same_text(key, "fbclid") || same_text(
        key,
        "gclid",
    ) || same_text(key, "mc_cid") || same_text(key, "mc_eid")
}

/// The query pairs that identify the advert, in order.
pub open spec fn identifying(pairs: Seq<(Seq<char>, Seq<char>)>) -> Seq<(Seq<char>, Seq<char>)> {
    pairs.filter(|p: (Seq<char>, Seq<char>)| !tracking(p.0))
}

/// Drops the tracking pairs of a query.
pub fn without_tracking(pairs: &Vec<(String, String)>) -> (r: Vec<(String, String)>)
    ensures
        pair_texts(r@) == identifying(pair_texts(pairs@)),
{
    let mut kept: Vec<(String, String)> = Vec::new();
    let ghost keep = |p: (Seq<char>, Seq<char>)| !tracking(p.0);
    let ghost all = pair_texts(pairs@);
    proof {
        assert(all.take(0) == Seq::<(Seq<char>, Seq<char>)>::empty());
        reveal(Seq::filter);
        assert(pair_texts(kept@) =~= Seq::<(Seq<char>, Seq<char>)>::empty());
    }
    let mut i: usize = 0;
    while i < pairs.len()
        invariant
            i <= pairs@.len(),
            keep == (|p: (Seq<char>, Seq<char>)| !tracking(p.0)),
            all == pair_texts(pairs@),
            pair_texts(kept@) == all.take(i as int).filter(keep),
        decreases pairs@.len() - i,
    {
        let ghost next = all[i as int];
        proof {
            lemma_filter_push(all.take(i as int), next, keep);
            assert(all.take(i as int).push(next) == all.take(i as int + 1));
        }
        if !is_tracking_param(pairs[i].0.as_str()) {
            let ghost before = kept@;
            kept.push((pairs[i].0.clone(), pairs[i].1.clone()));
            proof {
                assert(pair_texts(kept@) =~= pair_texts(before).push(next));
            }
        }
        i = i + 1;
    }
    proof {
        assert(all.take(pairs@.len() as int) == all);
    }
    kept
}

/// The canonical form of a URL: its base, and its identifying query pairs.
/// Only web URLs have one.
pub open spec fn canonical(raw: Seq<char>) -> Option<Seq<char>> {
    match url_parts(raw) {
        None => None,
        Some(url) => if !is_web(url) {
            None
        } else if identifying(url.pairs).len() == 0 {
            Some(base_of(url))
        } else {
            Some(base_of(url).push('?') + form_pairs(identifying(url.pairs)))
        },
    }
}

/// Canonicalize a listing URL: lowercase host, drop the fragment, drop tracking
/// query parameters, keep the rest. What comes out is its own canonical form.
pub fn canonical_url(raw: &str) -> (r: Option<String>)
    ensures
        match r {
            Some(url) => {
                &&& canonical(raw@) == Some(url@)
                &&& canonical(url@) == Some(url@)
                &&& url_parts(url@) matches Some(u) && u.pairs == identifying(
                    url_parts(raw@)->0.pairs,
                ) && u.host == url_parts(raw@)->0.host
                &&& !url@.contains('#')
            },
            None => canonical(raw@) is None,
        },
{
    let parts = match parse_url(raw) {
        Some(p) => p,
        None => {
            return None;
        },
    };
    if !on_the_web(&parts) {
        return None;
    }
    let kept = without_tracking(&parts.pairs);
    let ghost url = url_parts(raw@)->0;
    proof {
        law_tracking_is_stripped(url.pairs);
        lemma_base(url.text);
        lemma_base_again(base_of(url), form_pairs(identifying(url.pairs)));
        lemma_form_pairs(identifying(url.pairs));
    }
    if kept.len() == 0 {
        proof {
            assert(pair_texts(kept@) =~= Seq::<(Seq<char>, Seq<char>)>::empty());
        }
        without_query(raw)
    } else {
        with_query(raw, &kept)
    }
}

/// The base of a URL holds neither of the characters that end it.
proof fn lemma_base(text: Seq<char>)
    ensures
        !up_to(text, '?', '#').contains('?'),
        !up_to(text, '?', '#').contains('#'),
    decreases text.len(),
{
    let base = up_to(text, '?', '#');
    if text.len() > 0 && text[0] != '?' && text[0] != '#' {
        let rest = up_to(text.skip(1), '?', '#');
        lemma_base(text.skip(1));
        assert forall|i: int| 0 <= i < base.len() implies base[i] != '?' && base[i] != '#' by {
            if i > 0 {
                assert(base[i] == rest[i - 1]);
            }
        }
    }
}

/// A base, alone or with a query behind it, has itself for a base.
proof fn lemma_base_again(base: Seq<char>, query: Seq<char>)
    requires
        !base.contains('?'),
        !base.contains('#'),
    ensures
        up_to(base, '?', '#') == base,
        up_to(base.push('?') + query, '?', '#') == base,
{
    let text = base.push('?') + query;
    assert forall|k: int| 0 <= k < base.len() implies base[k] != '?' && base[k] != '#' by {
        assert(base.contains(base[k]));
    }
    lemma_up_to(base, '?', '#', base.len() as int);
    lemma_up_to(text, '?', '#', base.len() as int);
    assert(base.take(base.len() as int) =~= base);
    assert(text.take(base.len() as int) =~= base);
}

/// Form encoding holds no `#`.
proof fn lemma_form_bytes(bytes: Seq<u8>)
    ensures
        !form_bytes(bytes).contains('#'),
    decreases bytes.len(),
{
    if bytes.len() > 0 {
        lemma_form_bytes(bytes.drop_last());
        let before = form_bytes(bytes.drop_last());
        let b = bytes.last();
        let last = form_byte(b);
        assert forall|i: int| 0 <= i < last.len() implies last[i] != '#' by {
            assert(b as int / 16 < 16);
        }
        let all = before + last;
        assert forall|i: int| 0 <= i < all.len() implies all[i] != '#' by {
            if i < before.len() {
                assert(before.contains(before[i]));
            }
        }
    }
}

/// A form-encoded query holds no `#`.
proof fn lemma_form_pairs(pairs: Seq<(Seq<char>, Seq<char>)>)
    ensures
        !form_pairs(pairs).contains('#'),
{
    let pair = |p: (Seq<char>, Seq<char>)| form_text(p.0) + "="@ + form_text(p.1);
    let parts = pairs.map_values(pair);
    reveal_strlit("=");
    reveal_strlit("&");
    assert forall|k: int, i: int| 0 <= k < parts.len() && 0 <= i < parts[k].len() implies (
    #[trigger] parts[k][i]) != '#' by {
        let name = form_text(pairs[k].0);
        let value = form_text(pairs[k].1);
        lemma_form_bytes(encode_utf8(pairs[k].0));
        lemma_form_bytes(encode_utf8(pairs[k].1));
        if i < name.len() {
            assert(name.contains(name[i]));
        } else if i > name.len() {
            assert(value.contains(value[i - name.len() - 1]));
        }
    }
    lemma_join_without(parts, "&"@, '#');
}

/// What neither the parts nor the separator hold, their join does not.
pub proof fn lemma_join_without(parts: Seq<Seq<char>>, sep: Seq<char>, c: char)
    requires
        forall|k: int, i: int|
            0 <= k < parts.len() && 0 <= i < parts[k].len() ==> (#[trigger] parts[k][i]) != c,
        forall|i: int| 0 <= i < sep.len() ==> (#[trigger] sep[i]) != c,
    ensures
        !join(parts, sep).contains(c),
    decreases parts.len(),
{
    if parts.len() == 1 {
        assert forall|i: int| 0 <= i < parts[0].len() implies parts[0][i] != c by {}
    } else if parts.len() > 1 {
        let init = parts.drop_last();
        assert forall|k: int, i: int| 0 <= k < init.len() && 0 <= i < init[k].len() implies (
        #[trigger] init[k][i]) != c by {
            assert(init[k][i] == parts[k][i]);
        }
        lemma_join_without(init, sep, c);
        let head = join(init, sep);
        let last = parts.last();
        let all = head + sep + last;
        assert forall|i: int| 0 <= i < all.len() implies all[i] != c by {
            if i < head.len() {
                assert(head.contains(head[i]));
            } else if i >= head.len() + sep.len() {
                assert(all[i] == parts[parts.len() - 1][i - head.len() - sep.len()]);
            }
        }
    }
}

/// No tracking parameter survives, nothing else is dropped, and dropping them
/// twice is dropping them once.
pub proof fn law_tracking_is_stripped(pairs: Seq<(Seq<char>, Seq<char>)>)
    ensures
        forall|i: int|
            0 <= i < identifying(pairs).len() ==> !tracking((#[trigger] identifying(pairs)[i]).0),
        forall|i: int|
            0 <= i < pairs.len() && !tracking((#[trigger] pairs[i]).0) ==> identifying(
                pairs,
            ).contains(pairs[i]),
        identifying(identifying(pairs)) == identifying(pairs),
{
    broadcast use vstd::seq_lib::group_filter_ensures;

    let keep = |p: (Seq<char>, Seq<char>)| !tracking(p.0);
    let kept = identifying(pairs);
    assert forall|i: int| 0 <= i < kept.len() implies !tracking((#[trigger] kept[i]).0) by {
        assert(keep(kept[i]));
    }
    assert forall|i: int|
        0 <= i < pairs.len() && !tracking((#[trigger] pairs[i]).0) implies kept.contains(
        pairs[i],
    ) by {
        assert(keep(pairs[i]));
    }
    lemma_filter_all(kept, keep);
}

/// URLs that differ only in fragment and tracking parameters are one listing.
pub proof fn law_retargeted_urls_agree(a: Seq<char>, b: Seq<char>)
    requires
        url_parts(a) is Some,
        url_parts(b) is Some,
        url_parts(a)->0.scheme == url_parts(b)->0.scheme,
        base_of(url_parts(a)->0) == base_of(url_parts(b)->0),
        identifying(url_parts(a)->0.pairs) == identifying(url_parts(b)->0.pairs),
    ensures
        canonical(a) == canonical(b),
{
}

// ---------------------------------------------------------------------------
// Titles

/// The words of a title with single spaces between them.
pub open spec fn cleaned(title: Seq<char>) -> Seq<char> {
    join(words(title), seq![' '])
}

/// Collapse all white space runs to single spaces and trim.
pub fn clean_title(title: &str) -> (r: String)
    ensures
        r@ == cleaned(title@),
{
    let list = words_of(title);
    proof {
        reveal_strlit(" ");
        assert(" "@ =~= seq![' ']);
    }
    joined(&list, " ")
}

/// No piece of a split text holds a separator, and all of it comes from the
/// text.
pub proof fn lemma_split_pieces(s: Seq<char>, sep: spec_fn(char) -> bool)
    ensures
        forall|i: int, k: int|
            0 <= i < split(s, sep).len() && 0 <= k < split(s, sep)[i].len() ==> !sep(
                #[trigger] split(s, sep)[i][k],
            ) && s.contains(split(s, sep)[i][k]),
    decreases s.len(),
{
    if s.len() > 0 {
        let init = s.drop_last();
        assert forall|c: char| init.contains(c) implies s.contains(c) by {
            let j = choose|j: int| 0 <= j < init.len() && init[j] == c;
            assert(s[j] == c);
        }
        assert(s[s.len() - 1] == s.last());
        lemma_split_pieces(s.drop_last(), sep);
        lemma_split_nonempty(s.drop_last(), sep);
        let before = split(s.drop_last(), sep);
        let now = split(s, sep);
        assert forall|i: int, k: int| 0 <= i < now.len() && 0 <= k < now[i].len() implies !sep(
            #[trigger] now[i][k],
        ) && s.contains(now[i][k]) by {
            if i < before.len() - 1 || (i == before.len() - 1 && sep(s.last())) {
                assert(now[i] == before[i]);
                assert(!sep(before[i][k]) && init.contains(before[i][k]));
            } else if i == before.len() - 1 {
                if k < before[i].len() {
                    assert(!sep(before[i][k]) && init.contains(before[i][k]));
                }
            }
        }
    }
}

/// More text without a separator lengthens the last piece.
proof fn lemma_split_append(s: Seq<char>, w: Seq<char>, sep: spec_fn(char) -> bool)
    requires
        forall|k: int| 0 <= k < w.len() ==> !sep(#[trigger] w[k]),
    ensures
        split(s + w, sep) == split(s, sep).drop_last().push(split(s, sep).last() + w),
    decreases w.len(),
{
    lemma_split_nonempty(s, sep);
    if w.len() == 0 {
        assert(s + w =~= s);
        assert(split(s, sep).last() + w =~= split(s, sep).last());
        assert(split(s, sep) =~= split(s, sep).drop_last().push(split(s, sep).last()));
    } else {
        let init = w.drop_last();
        assert forall|k: int| 0 <= k < init.len() implies !sep(#[trigger] init[k]) by {
            assert(init[k] == w[k]);
        }
        lemma_split_append(s, init, sep);
        assert(s + w =~= (s + init).push(w.last()));
        assert(!sep(w[w.len() - 1]));
        lemma_split_push(s + init, w.last(), sep);
        let p = split(s, sep).drop_last();
        assert(p.push(split(s, sep).last() + init).drop_last() =~= p);
        assert((split(s, sep).last() + init).push(w.last()) =~= split(s, sep).last() + w);
    }
}

/// Splitting joined words gives the words back.
pub proof fn lemma_split_join(ws: Seq<Seq<char>>, c: char, sep: spec_fn(char) -> bool)
    requires
        ws.len() > 0,
        sep(c),
        forall|i: int, k: int|
            0 <= i < ws.len() && 0 <= k < ws[i].len() ==> !sep(#[trigger] ws[i][k]),
    ensures
        split(join(ws, seq![c]), sep) == ws,
    decreases ws.len(),
{
    let last = ws.last();
    assert forall|k: int| 0 <= k < last.len() implies !sep(#[trigger] last[k]) by {
        assert(!sep(ws[ws.len() - 1][k]));
    }
    if ws.len() == 1 {
        lemma_split_append(Seq::empty(), last, sep);
        assert(Seq::<char>::empty() + last =~= last);
        let empty = split(Seq::<char>::empty(), sep);
        assert(empty.drop_last().push(empty.last() + last) =~= ws);
    } else {
        let init = ws.drop_last();
        assert forall|i: int, k: int|
            0 <= i < init.len() && 0 <= k < init[i].len() implies !sep(#[trigger] init[i][k]) by {
            assert(init[i][k] == ws[i][k]);
        }
        lemma_split_join(init, c, sep);
        let head = join(init, seq![c]);
        lemma_split_push(head, c, sep);
        assert(head + seq![c] =~= head.push(c));
        lemma_split_append(head + seq![c], last, sep);
        assert(init.push(Seq::<char>::empty()).drop_last() =~= init);
        assert(Seq::<char>::empty() + last =~= last);
        assert(init.push(last) =~= ws);
    }
}

/// What a filter leaves comes from the sequence.
pub proof fn lemma_filter_from<T>(s: Seq<T>, keep: spec_fn(T) -> bool, i: int)
    requires
        0 <= i < s.filter(keep).len(),
    ensures
        s.contains(s.filter(keep)[i]),
    decreases s.len(),
{
    if s.len() == 0 {
        reveal(Seq::filter);
    } else {
        let init = s.drop_last();
        assert(init.push(s.last()) == s);
        lemma_filter_push(init, s.last(), keep);
        if i < init.filter(keep).len() {
            lemma_filter_from(init, keep, i);
            let k = choose|k: int| 0 <= k < init.len() && init[k] == init.filter(keep)[i];
            assert(s[k] == s.filter(keep)[i]);
        } else {
            assert(s[s.len() - 1] == s.filter(keep)[i]);
        }
    }
}

/// The words of a text are not empty, hold no white space, and come from it.
pub proof fn lemma_words(s: Seq<char>)
    ensures
        forall|i: int| 0 <= i < words(s).len() ==> (#[trigger] words(s)[i]).len() > 0,
        forall|i: int, k: int|
            0 <= i < words(s).len() && 0 <= k < words(s)[i].len() ==> !is_white(
                #[trigger] words(s)[i][k],
            ) && s.contains(words(s)[i][k]),
{
    broadcast use vstd::seq_lib::group_filter_ensures;

    let sep = |c: char| is_white(c);
    let keep = |w: Seq<char>| w.len() > 0;
    let pieces = split(s, sep);
    let ws = words(s);
    lemma_split_pieces(s, sep);
    assert forall|i: int| 0 <= i < ws.len() implies (#[trigger] ws[i]).len() > 0 by {
        assert(keep(ws[i]));
    }
    assert forall|i: int, k: int| 0 <= i < ws.len() && 0 <= k < ws[i].len() implies !is_white(
        #[trigger] ws[i][k],
    ) && s.contains(ws[i][k]) by {
        lemma_filter_from(pieces, keep, i);
        let j = choose|j: int| 0 <= j < pieces.len() && pieces[j] == ws[i];
        assert(!sep(pieces[j][k]));
    }
}

/// Words with single spaces between them are those words.
pub proof fn lemma_joined_words(ws: Seq<Seq<char>>)
    requires
        forall|i: int| 0 <= i < ws.len() ==> (#[trigger] ws[i]).len() > 0,
        forall|i: int, k: int|
            0 <= i < ws.len() && 0 <= k < ws[i].len() ==> !is_white(#[trigger] ws[i][k]),
    ensures
        words(join(ws, seq![' '])) == ws,
{
    let sep = |c: char| is_white(c);
    let keep = |w: Seq<char>| w.len() > 0;
    if ws.len() > 0 {
        assert forall|i: int, k: int| 0 <= i < ws.len() && 0 <= k < ws[i].len() implies !sep(
            #[trigger] ws[i][k],
        ) by {}
        lemma_split_join(ws, ' ', sep);
        assert forall|i: int| 0 <= i < ws.len() implies keep(#[trigger] ws[i]) by {}
        lemma_filter_all(ws, keep);
    } else {
        let none = split(Seq::<char>::empty(), sep);
        lemma_filter_push(Seq::<Seq<char>>::empty(), Seq::<char>::empty(), keep);
        assert(none =~= Seq::<Seq<char>>::empty().push(Seq::<char>::empty()));
        reveal(Seq::filter);
        assert(join(ws, seq![' ']) =~= Seq::<char>::empty());
        assert(words(join(ws, seq![' '])) =~= ws);
    }
}

/// A cleaned title has the words of the title, and cleaning it again changes
/// nothing.
pub proof fn law_cleaning_keeps_the_words(title: Seq<char>)
    ensures
        words(cleaned(title)) == words(title),
        cleaned(cleaned(title)) == cleaned(title),
{
    lemma_words(title);
    lemma_joined_words(words(title));
}

} // verus!

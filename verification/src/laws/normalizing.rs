//! Normalizing: prices, URLs and titles as they are scraped.
use crate::normalize::{
    base_of, canonical, cents_of, currency_of, decimals_at, digits_end, first_number, form_pairs,
    groups_end, identifying, is_web, leads_with_intent, next_digit, next_word, pattern_digit,
    price_cents_of, tracking, url_parts, word_at, word_char, UrlFacts,
};
use crate::text::{
    all_digits, contains_text, digits_value, is_digit, is_white, lemma_filter_push, parse_i64,
    uppercase,
};
use vstd::prelude::*;

verus! {

/// The number of a price starts at the first digit of the text. Four digits or
/// more in a row are taken whole, and so are fewer without a thousands separator
/// behind them.
pub proof fn law_prices_start_at_the_first_digit(
    pre: Seq<char>,
    digits: Seq<char>,
    tail: Seq<char>,
)
    requires
        forall|i: int| 0 <= i < pre.len() ==> !pattern_digit(#[trigger] pre[i]),
        digits.len() > 0,
        all_digits(digits),
        tail.len() > 0 ==> !pattern_digit(tail[0]),
        digits.len() >= 4 || tail.len() < 4 || !(tail[0] == ' ' || tail[0] == '\u{a0}' || tail[0]
            == '\u{202f}' || tail[0] == ',' || tail[0] == '.') || !pattern_digit(tail[1])
            || !pattern_digit(tail[2]) || !pattern_digit(tail[3]),
    ensures
        ({
            let s = pre + digits + tail;
            let end = (pre.len() + digits.len()) as int;
            first_number(s) == Some((digits, decimals_at(s, end)))
        }),
{
    let s = pre + digits + tail;
    let start = pre.len() as int;
    let end = (pre.len() + digits.len()) as int;
    lemma_run(pre, digits, tail);
    assert(s.subrange(start, end) =~= digits);
    if digits.len() < 4 {
        let seps = seq![' ', '\u{a0}', '\u{202f}', ',', '.'];
        if end + 3 < s.len() {
            assert(s[end] == tail[0] && s[end + 1] == tail[1] && s[end + 2] == tail[2] && s[end + 3]
                == tail[3]);
            if seps.contains(s[end]) {
                let k = choose|k: int| 0 <= k < seps.len() && seps[k] == s[end];
            }
        }
        assert(groups_end(s, end) == end);
    }
}

proof fn lemma_run(pre: Seq<char>, digits: Seq<char>, tail: Seq<char>)
    requires
        forall|i: int| 0 <= i < pre.len() ==> !pattern_digit(#[trigger] pre[i]),
        digits.len() > 0,
        all_digits(digits),
        tail.len() > 0 ==> !pattern_digit(tail[0]),
    ensures
        next_digit(pre + digits + tail, 0) == pre.len(),
        digits_end(pre + digits + tail, pre.len() as int) == pre.len() + digits.len(),
{
    let s = pre + digits + tail;
    assert forall|i: int| 0 <= i < pre.len() implies !pattern_digit(#[trigger] s[i]) by {
        assert(s[i] == pre[i]);
    }
    assert(s[pre.len() as int] == digits[0]);
    assert(is_digit(digits[0]));
    lemma_next(s, 0, pre.len() as int);
    assert forall|i: int| pre.len() <= i < pre.len() + digits.len() implies pattern_digit(
        #[trigger] s[i],
    ) by {
        assert(s[i] == digits[i - pre.len()]);
    }
    if tail.len() > 0 {
        assert(s[(pre.len() + digits.len()) as int] == tail[0]);
    }
    lemma_end(s, pre.len() as int, (pre.len() + digits.len()) as int);
}

proof fn lemma_next(s: Seq<char>, i: int, j: int)
    requires
        0 <= i <= j < s.len(),
        forall|k: int| i <= k < j ==> !pattern_digit(#[trigger] s[k]),
        pattern_digit(s[j]),
    ensures
        next_digit(s, i) == j,
    decreases j - i,
{
    if i < j {
        assert(!pattern_digit(s[i]));
        lemma_next(s, i + 1, j);
    }
}

proof fn lemma_end(s: Seq<char>, i: int, j: int)
    requires
        0 <= i <= j <= s.len(),
        forall|k: int| i <= k < j ==> pattern_digit(#[trigger] s[k]),
        j < s.len() ==> !pattern_digit(s[j]),
    ensures
        digits_end(s, i) == j,
    decreases j - i,
{
    if i < j {
        assert(pattern_digit(s[i]));
        lemma_end(s, i + 1, j);
    }
}

/// Up to three digits, a thousands separator and three digits are one number,
/// and so on as long as such groups follow.
pub proof fn law_separators_join_thousands(
    pre: Seq<char>,
    digits: Seq<char>,
    sep: char,
    group: Seq<char>,
    tail: Seq<char>,
)
    requires
        forall|i: int| 0 <= i < pre.len() ==> !pattern_digit(#[trigger] pre[i]),
        1 <= digits.len() <= 3,
        all_digits(digits),
        sep == ' ' || sep == '\u{a0}' || sep == '\u{202f}' || sep == ',' || sep == '.',
        !pattern_digit(sep),
        group.len() == 3,
        all_digits(group),
        tail.len() < 4 || !(tail[0] == ' ' || tail[0] == '\u{a0}' || tail[0] == '\u{202f}'
            || tail[0] == ',' || tail[0] == '.') || !pattern_digit(tail[1]) || !pattern_digit(
            tail[2],
        ) || !pattern_digit(tail[3]),
    ensures
        ({
            let s = pre + digits + (seq![sep] + group + tail);
            let end = (pre.len() + digits.len() + 4) as int;
            first_number(s) == Some((digits + (seq![sep] + group), decimals_at(s, end)))
        }),
{
    let rest = seq![sep] + group + tail;
    let s = pre + digits + rest;
    let start = pre.len() as int;
    let run = (pre.len() + digits.len()) as int;
    lemma_run(pre, digits, rest);
    let seps = seq![' ', '\u{a0}', '\u{202f}', ',', '.'];
    assert(seps[0] == ' ' && seps[1] == '\u{a0}' && seps[2] == '\u{202f}' && seps[3] == ','
        && seps[4] == '.');
    assert(s[run] == sep);
    assert(s[run + 1] == group[0] && s[run + 2] == group[1] && s[run + 3] == group[2]);
    assert(is_digit(group[0]) && is_digit(group[1]) && is_digit(group[2]));
    assert(seps.contains(sep));
    let end = run + 4;
    if end + 3 < s.len() {
        assert(s[end] == tail[0] && s[end + 1] == tail[1] && s[end + 2] == tail[2] && s[end + 3]
            == tail[3]);
        if seps.contains(s[end]) {
            let k = choose|k: int| 0 <= k < seps.len() && seps[k] == s[end];
        }
    }
    assert(groups_end(s, end) == end);
    assert(groups_end(s, run) == end);
    assert(s.subrange(start, end) =~= digits + (seq![sep] + group));
}

/// The decimals of a number are the one or two digits behind a point or a comma;
/// without such a digit there are none.
pub proof fn law_decimals_stand_behind_a_point(
    head: Seq<char>,
    point: char,
    a: char,
    b: char,
    rest: Seq<char>,
)
    requires
        point == '.' || point == ',',
        is_digit(a),
        is_digit(b),
    ensures
        decimals_at(head + (seq![point, a, b] + rest), head.len() as int) == Some(seq![a, b]),
        decimals_at(head + seq![point, a], head.len() as int) == Some(seq![a]),
        rest.len() > 0 && !pattern_digit(rest[0]) ==> decimals_at(
            head + (seq![point, a] + rest),
            head.len() as int,
        ) == Some(seq![a]),
        decimals_at(head, head.len() as int) is None,
        rest.len() > 0 && rest[0] != '.' && rest[0] != ',' ==> decimals_at(
            head + rest,
            head.len() as int,
        ) is None,
{
    let i = head.len() as int;
    let s = head + (seq![point, a, b] + rest);
    assert(s[i] == point && s[i + 1] == a && s[i + 2] == b);
    assert(s.subrange(i + 1, i + 3) =~= seq![a, b]);
    let t = head + seq![point, a];
    assert(t[i] == point && t[i + 1] == a);
    assert(t.subrange(i + 1, i + 2) =~= seq![a]);
    let u = head + (seq![point, a] + rest);
    assert(u[i] == point && u[i + 1] == a);
    assert(u.subrange(i + 1, i + 2) =~= seq![a]);
    if rest.len() > 0 {
        assert(u[i + 2] == rest[0]);
        assert((head + rest)[i] == rest[0]);
    }
}

/// A price is worth a hundred cents for every unit of its whole part, its
/// decimals added: one decimal is tenths. Separators do not count.
pub proof fn law_prices_are_worth_their_cents(
    whole: Seq<char>,
    more: Seq<char>,
    sep: char,
    a: char,
    b: char,
)
    requires
        whole.len() > 0,
        all_digits(whole),
        digits_value(whole) <= i64::MAX,
        is_digit(a),
        is_digit(b),
        !is_digit(sep),
        all_digits(more),
    ensures
        cents_of((whole, None)) == Some(100 * digits_value(whole) as int),
        cents_of((whole, Some(seq![a, b]))) == Some(
            100 * digits_value(whole) + 10 * (a as int - 48) + (b as int - 48),
        ),
        cents_of((whole, Some(seq![a]))) == Some(
            100 * digits_value(whole) + 10 * (a as int - 48),
        ),
        cents_of((whole.push(sep) + more, None)) == cents_of((whole + more, None)),
        cents_of((whole.push(sep) + more, Some(seq![a, b]))) == cents_of(
            (whole + more, Some(seq![a, b])),
        ),
{
    let keep = |c: char| is_digit(c);
    crate::normalize::lemma_filter_all(whole, keep);
    crate::normalize::lemma_filter_all(more, keep);
    Seq::filter_distributes_over_add(whole, more, keep);
    Seq::filter_distributes_over_add(whole.push(sep), more, keep);
    lemma_filter_push(whole, sep, keep);
    crate::laws::texts::law_reading_integers(whole, ' ');
    reveal_with_fuel(digits_value, 3);
    let ab = seq![a, b];
    let one = seq![a];
    assert(ab.drop_last() =~= one);
    assert(one.drop_last() =~= Seq::<char>::empty());
    assert(all_digits(ab) && all_digits(one));
    crate::laws::texts::law_reading_integers(ab, ' ');
    crate::laws::texts::law_reading_integers(one, ' ');
}

/// The price of a text is that of its first number; a text without a digit has
/// none.
pub proof fn law_prices_are_those_of_the_first_number(s: Seq<char>)
    ensures
        first_number(s) matches Some(n) ==> price_cents_of(s) == cents_of(n),
        (forall|i: int| 0 <= i < s.len() ==> !pattern_digit(#[trigger] s[i])) ==> price_cents_of(s)
            is None,
{
    if forall|i: int| 0 <= i < s.len() ==> !pattern_digit(#[trigger] s[i]) {
        lemma_no_digit(s, 0);
    }
}

proof fn lemma_no_digit(s: Seq<char>, i: int)
    requires
        0 <= i <= s.len(),
        forall|k: int| 0 <= k < s.len() ==> !pattern_digit(#[trigger] s[k]),
    ensures
        next_digit(s, i) == s.len(),
    decreases s.len() - i,
{
    if i < s.len() {
        assert(!pattern_digit(s[i]));
        lemma_no_digit(s, i + 1);
    }
}

/// A currency is named by its sign or its code, in whatever case; the euro comes
/// first, then the dollar, then the pound, and a bare number is in euros.
pub proof fn law_currencies_are_named_by_sign_or_code(text: Seq<char>)
    ensures
        ({
            let euro = text.contains('€') || contains_text(uppercase(text), "EUR"@);
            let dollar = text.contains('$') || contains_text(uppercase(text), "USD"@);
            let pound = text.contains('£') || contains_text(uppercase(text), "GBP"@);
            &&& euro ==> currency_of(text) == "EUR"@
            &&& !euro && dollar ==> currency_of(text) == "USD"@
            &&& !euro && !dollar && pound ==> currency_of(text) == "GBP"@
            &&& !euro && !dollar && !pound ==> currency_of(text) == "EUR"@
        }),
{
}

/// These parameters identify no advert, and no others are dropped.
pub proof fn law_tracking_parameters(key: Seq<char>)
    ensures
        tracking(key) <==> (key.len() >= 4 && key.take(4) == "utm_"@) || seq![
            "ref"@,
            "referrer"@,
            "aff"@,
            "affid"@,
            "tag"@,
            "fbclid"@,
            "gclid"@,
            "mc_cid"@,
            "mc_eid"@,
        ].contains(key),
{
    let names = seq![
        "ref"@,
        "referrer"@,
        "aff"@,
        "affid"@,
        "tag"@,
        "fbclid"@,
        "gclid"@,
        "mc_cid"@,
        "mc_eid"@,
    ];
    reveal_strlit("utm_");
    assert(names[0] == "ref"@ && names[1] == "referrer"@ && names[2] == "aff"@ && names[3]
        == "affid"@ && names[4] == "tag"@ && names[5] == "fbclid"@ && names[6] == "gclid"@
        && names[7] == "mc_cid"@ && names[8] == "mc_eid"@);
    if key.len() >= 4 && key.take(4) == "utm_"@ {
        assert("utm_"@.is_prefix_of(key));
    }
    if "utm_"@.is_prefix_of(key) {
        assert(key.take(4) =~= "utm_"@);
    }
}

/// A parameter that identifies the advert stays, in its place, with its value;
/// another goes.
pub proof fn law_identifying_parameters_stay(
    pairs: Seq<(Seq<char>, Seq<char>)>,
    key: Seq<char>,
    value: Seq<char>,
)
    ensures
        identifying(Seq::empty()) == Seq::<(Seq<char>, Seq<char>)>::empty(),
        tracking(key) ==> identifying(pairs.push((key, value))) == identifying(pairs),
        !tracking(key) ==> identifying(pairs.push((key, value))) == identifying(pairs).push(
            (key, value),
        ),
{
    let keep = |p: (Seq<char>, Seq<char>)| !tracking(p.0);
    lemma_filter_push(pairs, (key, value), keep);
    assert(Seq::<(Seq<char>, Seq<char>)>::empty().filter(keep) =~= Seq::<
        (Seq<char>, Seq<char>),
    >::empty()) by {
        reveal(Seq::filter);
    }
}

/// A URL of the web has a canonical form, which is the URL up to its query with
/// the identifying parameters behind it; another URL, and what is none, has none.
pub proof fn law_web_urls_have_a_canonical_form(raw: Seq<char>, url: UrlFacts)
    ensures
        url_parts(raw) is None ==> canonical(raw) is None,
        url_parts(raw) == Some(url) && url.scheme != "http"@ && url.scheme != "https"@ ==> canonical(
            raw,
        ) is None,
        url_parts(raw) == Some(url) && (url.scheme == "http"@ || url.scheme == "https"@)
            && identifying(url.pairs).len() == 0 ==> canonical(raw) == Some(base_of(url)),
        url_parts(raw) == Some(url) && (url.scheme == "http"@ || url.scheme == "https"@)
            && identifying(url.pairs).len() > 0 ==> canonical(raw) == Some(
            base_of(url) + "?"@ + form_pairs(identifying(url.pairs)),
        ),
        is_web(url) <==> url.scheme == "http"@ || url.scheme == "https"@,
{
    reveal_strlit("?");
    assert(base_of(url).push('?') =~= base_of(url) + "?"@);
}

/// A title that leads with a word that asks to buy, in whatever case, is a wanted
/// ad: the word stands whole behind signs alone, or behind a "je".
pub proof fn law_leading_words_make_wanted_ads(
    lead: Seq<char>,
    word: Seq<char>,
    rest: Seq<char>,
    blank: char,
)
    requires
        forall|i: int| 0 <= i < lead.len() ==> !word_char(#[trigger] lead[i]),
        word == "recherche"@ || word == "cherche"@ || word == "rech"@ || word == "achat"@ || word
            == "achete"@ || word == "ach\u{e8}te"@,
        rest.len() > 0 ==> !word_char(rest[0]),
        is_white(blank),
    ensures
        leads_with_intent(lead + word + rest),
        leads_with_intent(lead + (seq!['j', 'e', blank] + word) + rest),
{
    reveal_strlit("recherche");
    reveal_strlit("cherche");
    reveal_strlit("rech");
    reveal_strlit("achat");
    reveal_strlit("achete");
    reveal_strlit("ach\u{e8}te");
    let s = lead + word + rest;
    let first = lead.len() as int;
    assert(word[0] == 'r' || word[0] == 'c' || word[0] == 'a');
    assert(s[first] == word[0]);
    assert forall|k: int| 0 <= k < first implies !word_char(#[trigger] s[k]) by {
        assert(s[k] == lead[k]);
    }
    lemma_next_word(s, 0, first);
    lemma_word_at(s, first, word, rest);
    let t = lead + (seq!['j', 'e', blank] + word) + rest;
    assert(t[first] == 'j' && t[first + 1] == 'e' && t[first + 2] == blank);
    assert forall|k: int| 0 <= k < first implies !word_char(#[trigger] t[k]) by {
        assert(t[k] == lead[k]);
    }
    lemma_next_word(t, 0, first);
    assert(t[first + 3] == word[0]);
    assert(crate::normalize::next_black(t, first + 3) == first + 3);
    assert(crate::normalize::next_black(t, first + 2) == first + 3);
    lemma_word_at(t, first + 3, word, rest);
}

proof fn lemma_word_at(s: Seq<char>, i: int, word: Seq<char>, rest: Seq<char>)
    requires
        0 <= i,
        s.len() == i + word.len() + rest.len(),
        forall|k: int| 0 <= k < word.len() ==> s[i + k] == #[trigger] word[k],
        rest.len() > 0 ==> s[i + word.len()] == rest[0] && !word_char(rest[0]),
        forall|k: int|
            0 <= k < word.len() ==> crate::normalize::lower_letter(#[trigger] word[k]) == word[k],
    ensures
        word_at(s, i, word),
{
    assert forall|k: int| 0 <= k < word.len() implies crate::normalize::lower_letter(
        #[trigger] s[i + k],
    ) == word[k] by {
        assert(s[i + k] == word[k]);
    }
}

proof fn lemma_next_word(s: Seq<char>, i: int, j: int)
    requires
        0 <= i <= j < s.len(),
        forall|k: int| i <= k < j ==> !word_char(#[trigger] s[k]),
        word_char(s[j]),
    ensures
        next_word(s, i) == j,
    decreases j - i,
{
    if i < j {
        assert(!word_char(s[i]));
        lemma_next_word(s, i + 1, j);
    }
}

/// A title whose first letter starts none of these words is an offer.
pub proof fn law_other_titles_are_offers(lead: Seq<char>, c: char, rest: Seq<char>)
    requires
        forall|i: int| 0 <= i < lead.len() ==> !word_char(#[trigger] lead[i]),
        word_char(c),
        c != 'r' && c != 'R' && c != 'c' && c != 'C' && c != 'a' && c != 'A' && c != 'j' && c
            != 'J',
    ensures
        !leads_with_intent(lead + (seq![c] + rest)),
{
    reveal_strlit("recherche");
    reveal_strlit("cherche");
    reveal_strlit("rech");
    reveal_strlit("achat");
    reveal_strlit("achete");
    reveal_strlit("ach\u{e8}te");
    let s = lead + (seq![c] + rest);
    let first = lead.len() as int;
    assert(s[first] == c);
    assert forall|k: int| 0 <= k < first implies !word_char(#[trigger] s[k]) by {
        assert(s[k] == lead[k]);
    }
    lemma_next_word(s, 0, first);
    assert(crate::normalize::lower_letter(s[first + 0]) != 'r');
    assert(crate::normalize::lower_letter(s[first + 0]) != 'c');
    assert(crate::normalize::lower_letter(s[first + 0]) != 'a');
}

} // verus!

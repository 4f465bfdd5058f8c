//! Texts: cutting them up, putting them together, reading numbers.
use crate::text::{
    after_last, all_digits, contains_text, decimal, digits_value, find, fold, fold_all, int_text,
    is_decimal, is_digit, is_white, join, lemma_after_last, lemma_decimal_value,
    lemma_filter_push, lemma_find, lemma_find_is_first, lemma_rfind, lemma_split_nonempty,
    lemma_split_push, lemma_up_to, occurs_at, parse_i64, replace, rfind, split, swap_char,
    text_before, texts, trim, trim_end, trim_end_char, trim_start, up_to, words,
};
use vstd::prelude::*;

verus! {

/// A text holds another exactly where the other stands somewhere in it.
pub proof fn law_texts_hold_their_parts(before: Seq<char>, needle: Seq<char>, after: Seq<char>)
    ensures
        contains_text(before + needle + after, needle),
        contains_text(before, needle) ==> exists|i: int|
            0 <= i <= before.len() - needle.len() && #[trigger] before.subrange(
                i,
                i + needle.len(),
            ) == needle,
{
    let hay = before + needle + after;
    let i = before.len() as int;
    assert(hay.subrange(i, i + needle.len()) =~= needle);
    assert(occurs_at(hay, needle, i));
    if contains_text(before, needle) {
        let i = choose|i: int| #[trigger] occurs_at(before, needle, i);
        assert(before.subrange(i, i + needle.len()) == needle);
    }
}

/// What is found is there, and nowhere before; what is not found is nowhere.
pub proof fn law_finding_finds_the_first(hay: Seq<char>, needle: Seq<char>, j: int)
    ensures
        find(hay, needle) matches Some(i) ==> 0 <= i <= hay.len() - needle.len() && hay.subrange(
            i,
            i + needle.len(),
        ) == needle,
        find(hay, needle) matches Some(i) && 0 <= j < i ==> hay.subrange(j, j + needle.len())
            != needle,
        find(hay, needle) is None && 0 <= j <= hay.len() - needle.len() ==> hay.subrange(
            j,
            j + needle.len(),
        ) != needle,
{
    lemma_find_is_first(hay, needle);
    if find(hay, needle) is Some && 0 <= j < find(hay, needle)->0 {
        assert(!occurs_at(hay, needle, j));
    }
    if find(hay, needle) is None && 0 <= j <= hay.len() - needle.len() {
        assert(!occurs_at(hay, needle, j));
    }
}

/// What is found from the end is there, and nowhere behind.
pub proof fn law_finding_from_the_end_finds_the_last(
    before: Seq<char>,
    needle: Seq<char>,
    after: Seq<char>,
)
    requires
        needle.len() == 1,
        !after.contains(needle[0]),
    ensures
        rfind(before + needle + after, needle) == Some(before.len() as int),
{
    let hay = before + needle + after;
    let i = before.len() as int;
    assert(hay.subrange(i, i + 1) =~= needle);
    assert forall|j: int| i < j implies !occurs_at(hay, needle, j) by {
        if occurs_at(hay, needle, j) {
            assert(hay.subrange(j, j + 1)[0] == hay[j]);
            assert(hay[j] == after[j - i - 1]);
            assert(after.contains(after[j - i - 1]));
        }
    }
    lemma_rfind(hay, needle, i);
}

/// White space is a space, a tab, a line end, the other blanks of Unicode; no
/// letter, digit or sign is.
pub proof fn law_white_space(c: char)
    ensures
        c == ' ' || c == '\t' || c == '\n' || c == '\r' || c == '\u{b}' || c == '\u{c}' || c
            == '\u{85}' || c == '\u{a0}' || c == '\u{1680}' || c == '\u{2028}' || c == '\u{2029}'
            || c == '\u{202f}' || c == '\u{205f}' || c == '\u{3000}' ==> is_white(c),
        '\u{2000}' <= c <= '\u{200a}' ==> is_white(c),
        '!' <= c <= '~' ==> !is_white(c),
        is_white(c) ==> c <= ' ' || c == '\u{85}' || c == '\u{a0}' || c == '\u{1680}' || (
        '\u{2000}' <= c <= '\u{205f}') || c == '\u{3000}',
        '\u{200b}' <= c <= '\u{2027}' || '\u{202a}' <= c <= '\u{202e}' || '\u{2030}' <= c
            <= '\u{205e}' ==> !is_white(c),
        c < '\t' || '\u{e}' <= c < ' ' ==> !is_white(c),
{
}

/// Trimming takes the white space off both ends, and nothing else.
pub proof fn law_trimming(left: Seq<char>, core: Seq<char>, right: Seq<char>)
    requires
        forall|i: int| 0 <= i < left.len() ==> is_white(#[trigger] left[i]),
        forall|i: int| 0 <= i < right.len() ==> is_white(#[trigger] right[i]),
        core.len() > 0 ==> !is_white(core[0]) && !is_white(core.last()),
    ensures
        trim(left + core + right) == core,
{
    if core.len() == 0 {
        lemma_trim_white(left + core + right);
    } else {
        lemma_trim_left(left, core + right);
        assert(left + core + right =~= left + (core + right));
        assert((core + right)[0] == core[0]);
        lemma_trim_right(core, right);
    }
}

proof fn lemma_trim_white(s: Seq<char>)
    requires
        forall|i: int| 0 <= i < s.len() ==> is_white(#[trigger] s[i]),
    ensures
        trim_start(s) == Seq::<char>::empty(),
        trim(s) == Seq::<char>::empty(),
    decreases s.len(),
{
    if s.len() > 0 {
        let t = s.skip(1);
        assert forall|i: int| 0 <= i < t.len() implies is_white(#[trigger] t[i]) by {
            assert(t[i] == s[i + 1]);
        }
        assert(is_white(s[0]));
        lemma_trim_white(t);
    } else {
        assert(s =~= Seq::<char>::empty());
    }
}

proof fn lemma_trim_left(left: Seq<char>, rest: Seq<char>)
    requires
        forall|i: int| 0 <= i < left.len() ==> is_white(#[trigger] left[i]),
        rest.len() > 0 && !is_white(rest[0]),
    ensures
        trim_start(left + rest) == rest,
    decreases left.len(),
{
    if left.len() > 0 {
        let t = left.skip(1);
        assert forall|i: int| 0 <= i < t.len() implies is_white(#[trigger] t[i]) by {
            assert(t[i] == left[i + 1]);
        }
        assert((left + rest)[0] == left[0]);
        assert((left + rest).skip(1) =~= t + rest);
        lemma_trim_left(t, rest);
    } else {
        assert(left + rest =~= rest);
    }
}

proof fn lemma_trim_right(core: Seq<char>, right: Seq<char>)
    requires
        forall|i: int| 0 <= i < right.len() ==> is_white(#[trigger] right[i]),
        core.len() > 0 && !is_white(core.last()),
    ensures
        trim_end(core + right) == core,
    decreases right.len(),
{
    if right.len() > 0 {
        let t = right.drop_last();
        assert forall|i: int| 0 <= i < t.len() implies is_white(#[trigger] t[i]) by {
            assert(t[i] == right[i]);
        }
        assert((core + right).last() == right[right.len() - 1]);
        assert((core + right).drop_last() =~= core + t);
        lemma_trim_right(core, t);
    } else {
        assert(core + right =~= core);
    }
}

/// The pieces of a text: the first runs up to the first separator, and the rest
/// are those of what comes behind it. A text without separators is one piece.
pub proof fn law_splitting(
    piece: Seq<char>,
    c: char,
    rest: Seq<char>,
    sep: spec_fn(char) -> bool,
)
    requires
        forall|i: int| 0 <= i < piece.len() ==> !sep(#[trigger] piece[i]),
        sep(c),
    ensures
        split(piece, sep) == seq![piece],
        split(piece.push(c) + rest, sep) == seq![piece] + split(rest, sep),
    decreases rest.len(),
{
    lemma_one_piece(piece, sep);
    lemma_split_nonempty(rest, sep);
    if rest.len() == 0 {
        assert(piece.push(c) + rest =~= piece.push(c));
        lemma_split_push(piece, c, sep);
        assert(split(rest, sep) =~= seq![Seq::<char>::empty()]);
        assert(seq![piece].push(Seq::<char>::empty()) =~= seq![piece] + split(rest, sep));
    } else {
        let init = rest.drop_last();
        law_splitting(piece, c, init, sep);
        let all = piece.push(c) + rest;
        assert(all =~= (piece.push(c) + init).push(rest.last()));
        lemma_split_push(piece.push(c) + init, rest.last(), sep);
        lemma_split_nonempty(init, sep);
        let tail = split(init, sep);
        assert((seq![piece] + tail).drop_last() =~= seq![piece] + tail.drop_last());
        assert((seq![piece] + tail).last() == tail.last());
        assert(split(all, sep) =~= seq![piece] + split(rest, sep));
    }
}

proof fn lemma_one_piece(piece: Seq<char>, sep: spec_fn(char) -> bool)
    requires
        forall|i: int| 0 <= i < piece.len() ==> !sep(#[trigger] piece[i]),
    ensures
        split(piece, sep) == seq![piece],
    decreases piece.len(),
{
    if piece.len() == 0 {
        assert(piece =~= Seq::<char>::empty());
    } else {
        let init = piece.drop_last();
        assert forall|i: int| 0 <= i < init.len() implies !sep(#[trigger] init[i]) by {
            assert(init[i] == piece[i]);
        }
        lemma_one_piece(init, sep);
        assert(!sep(piece[piece.len() - 1]));
        assert(init.push(piece.last()) =~= piece);
        assert(split(piece, sep) =~= seq![piece]);
    }
}

/// The words of a text: a run without white space is a word, white space parts
/// words and adds none.
pub proof fn law_words(w: Seq<char>, c: char, rest: Seq<char>)
    requires
        forall|i: int| 0 <= i < w.len() ==> !is_white(#[trigger] w[i]),
        is_white(c),
    ensures
        w.len() > 0 ==> words(w) == seq![w] && words(w.push(c) + rest) == seq![w] + words(rest),
        words(seq![c] + rest) == words(rest),
        words(Seq::empty()) == Seq::<Seq<char>>::empty(),
{
    let sep = |c: char| is_white(c);
    let keep = |w: Seq<char>| w.len() > 0;
    law_splitting(w, c, rest, sep);
    law_splitting(Seq::empty(), c, rest, sep);
    assert(Seq::<char>::empty().push(c) + rest =~= seq![c] + rest);
    lemma_filter_one(w, split(rest, sep), keep);
    lemma_filter_one(w, Seq::empty(), keep);
    lemma_filter_one(Seq::empty(), split(rest, sep), keep);
    lemma_filter_one(Seq::empty(), Seq::empty(), keep);
    assert(seq![w] + Seq::<Seq<char>>::empty() =~= seq![w]);
    assert(seq![Seq::<char>::empty()] + Seq::<Seq<char>>::empty() =~= seq![Seq::<char>::empty()]);
    assert(Seq::<Seq<char>>::empty().filter(keep) =~= Seq::<Seq<char>>::empty()) by {
        reveal(Seq::filter);
    }
    assert(seq![w] + Seq::<Seq<char>>::empty().filter(keep) =~= seq![w]);
}

proof fn lemma_filter_one(
    w: Seq<char>,
    rest: Seq<Seq<char>>,
    keep: spec_fn(Seq<char>) -> bool,
)
    ensures
        (seq![w] + rest).filter(keep) == if keep(w) {
            seq![w] + rest.filter(keep)
        } else {
            rest.filter(keep)
        },
{
    Seq::filter_distributes_over_add(seq![w], rest, keep);
    lemma_filter_push(Seq::<Seq<char>>::empty(), w, keep);
    assert(Seq::<Seq<char>>::empty().push(w) =~= seq![w]);
    assert(Seq::<Seq<char>>::empty().filter(keep) =~= Seq::<Seq<char>>::empty()) by {
        reveal(Seq::filter);
    }
    if keep(w) {
        assert(Seq::<Seq<char>>::empty().push(w) =~= seq![w]);
    } else {
        assert(Seq::<Seq<char>>::empty() + rest.filter(keep) =~= rest.filter(keep));
    }
}

/// Joined parts stand one behind the other with the separator between two.
pub proof fn law_joining(parts: Seq<Seq<char>>, last: Seq<char>, sep: Seq<char>)
    ensures
        join(Seq::empty(), sep) == Seq::<char>::empty(),
        join(seq![last], sep) == last,
        parts.len() > 0 ==> join(parts.push(last), sep) == join(parts, sep) + sep + last,
{
    assert(parts.push(last).drop_last() =~= parts);
}

/// Replacing puts one text for another wherever it stands, and leaves the rest.
pub proof fn law_replacing(from: Seq<char>, to: Seq<char>, rest: Seq<char>, c: char)
    requires
        from.len() > 0,
    ensures
        replace(from + rest, from, to) == to + replace(rest, from, to),
        !from.is_prefix_of(seq![c] + rest) ==> replace(seq![c] + rest, from, to) == seq![c]
            + replace(rest, from, to),
        replace(Seq::empty(), from, to) == Seq::<char>::empty(),
{
    assert((from + rest).subrange(0, from.len() as int) =~= from);
    assert((from + rest).skip(from.len() as int) =~= rest);
    let s = seq![c] + rest;
    assert(s.skip(1) =~= rest);
    if occurs_at(s, from, 0) {
        assert(s.subrange(0, from.len() as int) =~= s.take(from.len() as int));
        assert(from.is_prefix_of(s));
    }
}

/// Cutting at the first of two characters keeps what stands before it, and all
/// of a text without either.
pub proof fn law_cutting_at_the_first(head: Seq<char>, c: char, rest: Seq<char>, a: char, b: char)
    requires
        !head.contains(a),
        !head.contains(b),
        c == a || c == b,
    ensures
        up_to(head, a, b) == head,
        up_to(head.push(c) + rest, a, b) == head,
{
    let s = head.push(c) + rest;
    assert forall|k: int| 0 <= k < head.len() implies head[k] != a && head[k] != b by {
        assert(head.contains(head[k]));
    }
    lemma_up_to(head, a, b, head.len() as int);
    lemma_up_to(s, a, b, head.len() as int);
    assert(head.take(head.len() as int) =~= head);
    assert(s.take(head.len() as int) =~= head);
}

/// Cutting behind the last of a character keeps what stands behind it, and all of
/// a text without it.
pub proof fn law_cutting_behind_the_last(head: Seq<char>, c: char, tail: Seq<char>)
    requires
        !tail.contains(c),
    ensures
        after_last(tail, c) == tail,
        after_last(head.push(c) + tail, c) == tail,
{
    let s = head.push(c) + tail;
    assert forall|k: int| 0 <= k < tail.len() implies tail[k] != c by {
        assert(tail.contains(tail[k]));
    }
    lemma_after_last(tail, c, 0);
    lemma_after_last(s, c, head.len() as int + 1);
    assert(tail.skip(0) =~= tail);
    assert(s.skip(head.len() as int + 1) =~= tail);
}

/// A character at the end is taken off as often as it stands there.
pub proof fn law_cutting_off_the_end(s: Seq<char>, c: char)
    ensures
        trim_end_char(s.push(c), c) == trim_end_char(s, c),
        s.len() > 0 && s.last() != c ==> trim_end_char(s, c) == s,
        trim_end_char(Seq::empty(), c) == Seq::<char>::empty(),
{
    assert(s.push(c).drop_last() =~= s);
}

/// One character stands for another wherever it stood; folding changes capital
/// letters of ASCII alone, to their small ones.
pub proof fn law_swapping_and_folding(s: Seq<char>, from: char, to: char, i: int)
    requires
        0 <= i < s.len(),
    ensures
        swap_char(s, from, to).len() == s.len() && fold_all(s).len() == s.len(),
        s[i] == from ==> swap_char(s, from, to)[i] == to,
        s[i] != from ==> swap_char(s, from, to)[i] == s[i],
        'A' <= s[i] <= 'Z' ==> fold_all(s)[i] as int == s[i] as int + 32,
        !('A' <= s[i] <= 'Z') ==> fold_all(s)[i] == s[i],
        fold_all(s)[i] == fold(s[i]),
{
}

/// In the order of texts the first difference decides, and what another text
/// starts with comes first.
pub proof fn law_first_difference_decides(
    common: Seq<char>,
    x: char,
    a: Seq<char>,
    y: char,
    b: Seq<char>,
)
    requires
        x != y,
    ensures
        text_before(common + (seq![x] + a), common + (seq![y] + b)) <==> x < y,
        text_before(common, common + (seq![y] + b)),
        !text_before(common + (seq![x] + a), common),
        !text_before(common, common),
    decreases common.len(),
{
    let p = common + (seq![x] + a);
    let q = common + (seq![y] + b);
    if common.len() > 0 {
        let t = common.skip(1);
        law_first_difference_decides(t, x, a, y, b);
        assert(p.skip(1) =~= t + (seq![x] + a));
        assert(q.skip(1) =~= t + (seq![y] + b));
        assert(p[0] == common[0] && q[0] == common[0]);
    } else {
        assert(p =~= seq![x] + a);
        assert(q =~= seq![y] + b);
    }
}

/// Digits write a number: each one more multiplies by ten and adds itself.
pub proof fn law_digits_write_numbers(s: Seq<char>, d: char)
    ensures
        digits_value(Seq::empty()) == 0,
        is_digit(d) ==> digits_value(s.push(d)) == 10 * digits_value(s) + (d as int - 48),
        is_digit(d) <==> 48 <= d as int <= 57,
        all_digits(s.push(d)) <==> all_digits(s) && 48 <= d as int <= 57,
{
    assert(s.push(d).drop_last() =~= s);
    if all_digits(s.push(d)) {
        assert forall|i: int| 0 <= i < s.len() implies is_digit(#[trigger] s[i]) by {
            assert(s.push(d)[i] == s[i]);
        }
        assert(is_digit(s.push(d)[s.len() as int]));
    }
}

/// A text reads as an integer exactly where it is digits with at most one sign
/// before them, and an `i64` holds it; then it is the number that they write.
pub proof fn law_reading_integers(digits: Seq<char>, c: char)
    requires
        digits.len() > 0,
        all_digits(digits),
    ensures
        digits_value(digits) <= i64::MAX ==> parse_i64(digits) == Some(digits_value(digits) as i64)
            && parse_i64(seq!['+'] + digits) == Some(digits_value(digits) as i64),
        digits_value(digits) <= 0x8000_0000_0000_0000 ==> parse_i64(seq!['-'] + digits) == Some(
            -digits_value(digits) as i64,
        ),
        digits_value(digits) > i64::MAX ==> parse_i64(digits) is None,
        !is_digit(c) ==> parse_i64(digits.push(c)) is None,
        !is_digit(c) && c != '+' && c != '-' ==> parse_i64(seq![c] + digits) is None,
        parse_i64(Seq::empty()) is None,
        parse_i64(seq!['-']) is None && parse_i64(seq!['+']) is None,
{
    assert(is_digit(digits[0]));
    assert((seq!['+'] + digits).skip(1) =~= digits);
    assert((seq!['-'] + digits).skip(1) =~= digits);
    assert(seq!['-'].skip(1) =~= Seq::<char>::empty());
    assert(seq!['+'].skip(1) =~= Seq::<char>::empty());
    assert(digits.push(c)[digits.len() as int] == c);
    assert(digits.push(c)[0] == digits[0]);
    assert((seq![c] + digits)[0] == c);
    if !is_digit(c) {
        assert(!all_digits(digits.push(c)));
        assert(!all_digits(seq![c] + digits));
    }
}

/// The text of a number is its digits without leading zeros, and of a negative
/// one with a minus sign.
pub proof fn law_numbers_are_written_in_digits(n: nat)
    ensures
        decimal(n).len() > 0,
        all_digits(decimal(n)),
        digits_value(decimal(n)) == n,
        n > 0 ==> decimal(n)[0] != '0',
        int_text(n as int) == decimal(n),
        n > 0 ==> int_text(-(n as int)) == seq!['-'] + decimal(n),
    decreases n,
{
    lemma_decimal_value(n);
    if n >= 10 {
        law_numbers_are_written_in_digits(n / 10);
        assert(decimal(n)[0] == decimal(n / 10)[0]);
    } else if n > 0 {
        assert(decimal(n)[0] as int == 48 + n);
    }
}

/// Digits read as a number, with a point and digits behind or without, with a
/// sign or without; words do not, nor does a number with a unit behind it.
pub proof fn law_reading_decimals(whole: Seq<char>, part: Seq<char>, c: char)
    requires
        whole.len() > 0,
        all_digits(whole),
        all_digits(part),
    ensures
        is_decimal(whole),
        is_decimal(whole.push('.') + part),
        is_decimal(seq!['-'] + whole),
        is_decimal(seq!['-'] + (whole.push('.') + part)),
        c != '.' && c != 'e' && c != 'E' && !is_digit(c) ==> !is_decimal(whole.push(c) + part),
        !is_decimal(Seq::empty()),
{
    assert(is_digit(whole[0]));
    let s = whole.push('.') + part;
    lemma_digit_run(whole, 0, whole.len() as int);
    assert forall|k: int| 0 <= k < whole.len() implies is_digit(#[trigger] s[k]) by {
        assert(s[k] == whole[k]);
    }
    lemma_digit_run(s, 0, whole.len() as int);
    assert forall|k: int| whole.len() < k < s.len() implies is_digit(#[trigger] s[k]) by {
        assert(s[k] == part[k - whole.len() - 1]);
    }
    lemma_digit_run(s, whole.len() as int + 1, s.len() as int);
    assert((seq!['-'] + whole).skip(1) =~= whole);
    assert((seq!['-'] + s).skip(1) =~= s);
    let t = whole.push(c) + part;
    assert(t[0] == whole[0]);
    assert forall|k: int| 0 <= k < whole.len() implies is_digit(#[trigger] t[k]) by {
        assert(t[k] == whole[k]);
    }
    if c != '.' && c != 'e' && c != 'E' && !is_digit(c) {
        lemma_digit_run(t, 0, whole.len() as int);
        assert(t.skip(whole.len() as int)[0] == c);
        reveal_strlit("inf");
        reveal_strlit("infinity");
        reveal_strlit("nan");
        assert(fold_all(t)[0] == t[0]);
        assert("inf"@[0] == 'i' && "infinity"@[0] == 'i' && "nan"@[0] == 'n');
    }
    let none = Seq::<char>::empty();
    reveal_strlit("inf");
    reveal_strlit("infinity");
    reveal_strlit("nan");
    assert(fold_all(none).len() == 0);
}

proof fn lemma_digit_run(s: Seq<char>, i: int, j: int)
    requires
        0 <= i <= j <= s.len(),
        forall|k: int| i <= k < j ==> is_digit(#[trigger] s[k]),
        j < s.len() ==> !is_digit(s[j]),
    ensures
        crate::text::digit_run(s, i) == j,
    decreases j - i,
{
    if i < j {
        assert(is_digit(s[i]));
        lemma_digit_run(s, i + 1, j);
    }
}

/// The texts of a list are those of its strings, one for one.
pub proof fn law_lists_of_texts(list: Seq<String>, i: int)
    requires
        0 <= i < list.len(),
    ensures
        texts(list).len() == list.len(),
        texts(list)[i] == list[i]@,
{
}

} // verus!

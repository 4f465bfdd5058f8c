//! Text as sequences of characters: the operations that the rest of the
//! library is stated in, and their executable forms.
use vstd::prelude::*;
use vstd::string::StringExecFns;

verus! {

/// `String::push` appends one character.
pub assume_specification[ String::push ](s: &mut String, c: char)
    ensures
        final(s)@ == old(s)@.push(c),
;

/// The characters of a text, in order.
pub fn chars_of(s: &str) -> (r: Vec<char>)
    ensures
        r@ == s@,
{
    let mut r: Vec<char> = Vec::new();
    for c in it: s.chars()
        invariant
            r@ == it.seq().take(it.index()),
            it.seq() == s@,
    {
        r.push(c);
    }
    proof {
        assert(s@.take(s@.len() as int) == s@);
    }
    r
}

/// The text that some characters make up.
pub fn string_of(chars: &[char]) -> (r: String)
    ensures
        r@ == chars@,
{
    let mut r = String::new();
    let mut i: usize = 0;
    while i < chars.len()
        invariant
            i <= chars@.len(),
            r@ == chars@.take(i as int),
        decreases chars@.len() - i,
    {
        r.push(chars[i]);
        i = i + 1;
    }
    proof {
        assert(chars@.take(chars@.len() as int) == chars@);
    }
    r
}

/// Are two texts the same?
pub fn same_text(a: &str, b: &str) -> (r: bool)
    ensures
        r == (a@ == b@),
{
    a.to_owned() == b.to_owned()
}

/// The texts that a list of strings holds.
pub open spec fn texts(list: Seq<String>) -> Seq<Seq<char>> {
    list.map_values(|s: String| s@)
}

// ---------------------------------------------------------------------------
// Characters

/// White space as Unicode defines it.
pub open spec fn is_white(c: char) -> bool {
    ||| '\u{9}' <= c <= '\u{d}'
    ||| c == ' '
    ||| c == '\u{85}'
    ||| c == '\u{a0}'
    ||| c == '\u{1680}'
    ||| '\u{2000}' <= c <= '\u{200a}'
    ||| c == '\u{2028}'
    ||| c == '\u{2029}'
    ||| c == '\u{202f}'
    ||| c == '\u{205f}'
    ||| c == '\u{3000}'
}

/// Is `c` white space?
pub fn white(c: char) -> (r: bool)
    ensures
        r == is_white(c),
{
    (c >= '\u{9}' && c <= '\u{d}') || c == ' ' || c == '\u{85}' || c == '\u{a0}' || c == '\u{1680}'
        || (c >= '\u{2000}' && c <= '\u{200a}') || c == '\u{2028}' || c == '\u{2029}' || c
        == '\u{202f}' || c == '\u{205f}' || c == '\u{3000}'
}

pub open spec fn is_digit(c: char) -> bool {
    '0' <= c <= '9'
}

pub fn digit(c: char) -> (r: bool)
    ensures
        r == is_digit(c),
{
    c >= '0' && c <= '9'
}

pub open spec fn is_alphanumeric(c: char) -> bool {
    is_digit(c) || 'a' <= c <= 'z' || 'A' <= c <= 'Z'
}

pub fn alphanumeric(c: char) -> (r: bool)
    ensures
        r == is_alphanumeric(c),
{
    digit(c) || (c >= 'a' && c <= 'z') || (c >= 'A' && c <= 'Z')
}

/// ASCII letters in lower case, everything else as it is.
pub open spec fn fold(c: char) -> char {
    if 'A' <= c <= 'Z' {
        (c as u8 + 32) as u8 as char
    } else {
        c
    }
}

pub fn folded(c: char) -> (r: char)
    ensures
        r == fold(c),
{
    if c >= 'A' && c <= 'Z' {
        (c as u8 + 32) as char
    } else {
        c
    }
}

/// A text with its ASCII letters in lower case.
pub open spec fn fold_all(s: Seq<char>) -> Seq<char> {
    s.map_values(|c: char| fold(c))
}

/// Are two texts the same but for the case of ASCII letters?
pub fn same_folded(a: &str, b: &str) -> (r: bool)
    ensures
        r == (fold_all(a@) == fold_all(b@)),
{
    let x = chars_of(a);
    let y = chars_of(b);
    if x.len() != y.len() {
        proof {
            assert(fold_all(a@).len() != fold_all(b@).len());
        }
        return false;
    }
    let mut i: usize = 0;
    while i < x.len()
        invariant
            i <= x@.len(),
            x@.len() == y@.len(),
            x@ == a@,
            y@ == b@,
            forall|k: int| 0 <= k < i ==> fold(x@[k]) == fold(y@[k]),
        decreases x@.len() - i,
    {
        if folded(x[i]) != folded(y[i]) {
            proof {
                assert(fold_all(a@)[i as int] != fold_all(b@)[i as int]);
            }
            return false;
        }
        i = i + 1;
    }
    proof {
        assert(fold_all(a@) =~= fold_all(b@));
    }
    true
}

pub uninterp spec fn lowercase(text: Seq<char>) -> Seq<char>;

/// `str::to_lowercase`: the text in lower case by the Unicode tables, which
/// the name `lowercase` stands for.
#[verifier::external_body]
pub(crate) fn to_lower(text: &str) -> (r: String)
    ensures
        r@ == lowercase(text@),
{
    text.to_lowercase()
}

pub uninterp spec fn uppercase(text: Seq<char>) -> Seq<char>;

/// `str::to_uppercase`: the text in upper case by the Unicode tables, which
/// the name `uppercase` stands for.
#[verifier::external_body]
pub(crate) fn to_upper(text: &str) -> (r: String)
    ensures
        r@ == uppercase(text@),
{
    text.to_uppercase()
}

// ---------------------------------------------------------------------------
// Trimming

/// The text without the white space it starts with.
pub open spec fn trim_start(s: Seq<char>) -> Seq<char>
    decreases s.len(),
{
    if s.len() > 0 && is_white(s[0]) {
        trim_start(s.skip(1))
    } else {
        s
    }
}

/// The text without the white space it ends with.
pub open spec fn trim_end(s: Seq<char>) -> Seq<char>
    decreases s.len(),
{
    if s.len() > 0 && is_white(s.last()) {
        trim_end(s.drop_last())
    } else {
        s
    }
}

/// The text without white space at either end.
pub open spec fn trim(s: Seq<char>) -> Seq<char> {
    trim_end(trim_start(s))
}

/// The characters between the white space at either end.
pub fn trimmed(chars: &[char]) -> (r: &[char])
    ensures
        r@ == trim(chars@),
{
    let n: usize = chars.len();
    let mut start: usize = 0;
    proof {
        assert(chars@.skip(0) == chars@);
    }
    while start < n && white(chars[start])
        invariant
            n == chars@.len(),
            start <= n,
            trim_start(chars@) == trim_start(chars@.skip(start as int)),
        decreases n - start,
    {
        proof {
            assert(chars@.skip(start as int).skip(1) == chars@.skip(start as int + 1));
        }
        start = start + 1;
    }
    let ghost tail = chars@.skip(start as int);
    let mut end: usize = n;
    proof {
        assert(tail == chars@.subrange(start as int, end as int));
    }
    while start < end && white(chars[end - 1])
        invariant
            n == chars@.len(),
            start <= end <= n,
            trim_end(tail) == trim_end(chars@.subrange(start as int, end as int)),
        decreases end - start,
    {
        proof {
            let s = chars@.subrange(start as int, end as int);
            assert(s.last() == chars@[end - 1]);
            assert(s.drop_last() == chars@.subrange(start as int, end - 1));
        }
        end = end - 1;
    }
    proof {
        let s = chars@.subrange(start as int, end as int);
        if start < end {
            assert(s.last() == chars@[end - 1]);
        }
    }
    vstd::slice::slice_subrange(chars, start, end)
}

/// `str::trim` as a new string.
pub fn trim_text(s: &str) -> (r: String)
    ensures
        r@ == trim(s@),
{
    let chars = chars_of(s);
    string_of(trimmed(chars.as_slice()))
}

/// Does the text hold nothing but white space?
pub fn is_blank(s: &str) -> (r: bool)
    ensures
        r == (trim(s@).len() == 0),
{
    let chars = chars_of(s);
    trimmed(chars.as_slice()).len() == 0
}

/// The text without the character `c` repeated at its end.
pub open spec fn trim_end_char(s: Seq<char>, c: char) -> Seq<char>
    decreases s.len(),
{
    if s.len() > 0 && s.last() == c {
        trim_end_char(s.drop_last(), c)
    } else {
        s
    }
}

pub fn trimmed_end(chars: &[char], c: char) -> (r: &[char])
    ensures
        r@ == trim_end_char(chars@, c),
{
    let mut end: usize = chars.len();
    proof {
        assert(chars@ == chars@.subrange(0, end as int));
    }
    while 0 < end && chars[end - 1] == c
        invariant
            end <= chars@.len(),
            trim_end_char(chars@, c) == trim_end_char(chars@.subrange(0, end as int), c),
        decreases end,
    {
        proof {
            let s = chars@.subrange(0, end as int);
            assert(s.last() == chars@[end - 1]);
            assert(s.drop_last() == chars@.subrange(0, end - 1));
        }
        end = end - 1;
    }
    proof {
        if 0 < end {
            assert(chars@.subrange(0, end as int).last() == chars@[end - 1]);
        }
    }
    vstd::slice::slice_subrange(chars, 0, end)
}

// ---------------------------------------------------------------------------
// Splitting and joining

/// The pieces of a text between the characters that `sep` picks: one more
/// piece than there are such characters, empty ones included.
pub open spec fn split(s: Seq<char>, sep: spec_fn(char) -> bool) -> Seq<Seq<char>>
    decreases s.len(),
{
    if s.len() == 0 {
        seq![Seq::<char>::empty()]
    } else {
        let before = split(s.drop_last(), sep);
        if sep(s.last()) {
            before.push(Seq::<char>::empty())
        } else {
            before.drop_last().push(before.last().push(s.last()))
        }
    }
}

/// The runs of characters between white space.
pub open spec fn words(s: Seq<char>) -> Seq<Seq<char>> {
    split(s, |c: char| is_white(c)).filter(|w: Seq<char>| w.len() > 0)
}

/// The parts one behind the other, with `sep` between them.
pub open spec fn join(parts: Seq<Seq<char>>, sep: Seq<char>) -> Seq<char>
    decreases parts.len(),
{
    if parts.len() == 0 {
        Seq::empty()
    } else if parts.len() == 1 {
        parts[0]
    } else {
        join(parts.drop_last(), sep) + sep + parts.last()
    }
}

pub proof fn lemma_split_nonempty(s: Seq<char>, sep: spec_fn(char) -> bool)
    ensures
        split(s, sep).len() > 0,
    decreases s.len(),
{
    if s.len() > 0 {
        lemma_split_nonempty(s.drop_last(), sep);
    }
}

/// One character more at the end of a text: what becomes of its pieces.
pub proof fn lemma_split_push(s: Seq<char>, c: char, sep: spec_fn(char) -> bool)
    ensures
        split(s.push(c), sep) == if sep(c) {
            split(s, sep).push(Seq::<char>::empty())
        } else {
            split(s, sep).drop_last().push(split(s, sep).last().push(c))
        },
{
    assert(s.push(c).drop_last() == s);
}

/// `str::split_whitespace`: the words of a text.
pub fn words_of(s: &str) -> (r: Vec<String>)
    ensures
        texts(r@) == words(s@),
{
    let chars = chars_of(s);
    let mut done: Vec<String> = Vec::new();
    let mut current = String::new();
    let ghost sep = |c: char| is_white(c);
    let ghost keep = |w: Seq<char>| w.len() > 0;
    proof {
        assert(chars@.take(0) == Seq::<char>::empty());
        lemma_filter_push(Seq::<Seq<char>>::empty(), current@, keep);
        assert(split(chars@.take(0), sep) == Seq::<Seq<char>>::empty().push(current@));
    }
    let ghost mut pieces: Seq<Seq<char>> = Seq::empty();
    let mut i: usize = 0;
    while i < chars.len()
        invariant
            i <= chars@.len(),
            sep == (|c: char| is_white(c)),
            keep == (|w: Seq<char>| w.len() > 0),
            split(chars@.take(i as int), sep) == pieces.push(current@),
            texts(done@) == pieces.filter(keep),
        decreases chars@.len() - i,
    {
        let c = chars[i];
        proof {
            lemma_split_push(chars@.take(i as int), c, sep);
            assert(chars@.take(i as int).push(c) == chars@.take(i as int + 1));
            assert(pieces.push(current@).drop_last() == pieces);
        }
        if white(c) {
            proof {
                lemma_filter_push(pieces, current@, keep);
                pieces = pieces.push(current@);
            }
            if !current.as_str().is_empty() {
                let ghost before = done@;
                done.push(current);
                proof {
                    assert(texts(done@) =~= texts(before).push(current@));
                }
            }
            current = String::new();
        } else {
            current.push(c);
        }
        i = i + 1;
    }
    proof {
        assert(chars@.take(chars@.len() as int) == chars@);
        lemma_filter_push(pieces, current@, keep);
    }
    if !current.as_str().is_empty() {
        let ghost before = done@;
        done.push(current);
        proof {
            assert(texts(done@) =~= texts(before).push(current@));
        }
    }
    done
}

pub proof fn lemma_filter_push<T>(s: Seq<T>, x: T, keep: spec_fn(T) -> bool)
    ensures
        s.push(x).filter(keep) == if keep(x) {
            s.filter(keep).push(x)
        } else {
            s.filter(keep)
        },
{
    reveal(Seq::filter);
    assert(s.push(x).drop_last() == s);
}

/// The pieces of a text between the occurrences of `sep`.
pub fn split_at_char(s: &str, sep: char) -> (r: Vec<String>)
    ensures
        texts(r@) == split(s@, |c: char| c == sep),
{
    let chars = chars_of(s);
    let mut done: Vec<String> = Vec::new();
    let mut current = String::new();
    let ghost pick = |c: char| c == sep;
    proof {
        assert(chars@.take(0) == Seq::<char>::empty());
        assert(texts(done@) =~= Seq::<Seq<char>>::empty());
        assert(split(chars@.take(0), pick) == texts(done@).push(current@));
    }
    let mut i: usize = 0;
    while i < chars.len()
        invariant
            i <= chars@.len(),
            pick == (|c: char| c == sep),
            split(chars@.take(i as int), pick) == texts(done@).push(current@),
        decreases chars@.len() - i,
    {
        let c = chars[i];
        proof {
            lemma_split_push(chars@.take(i as int), c, pick);
            assert(chars@.take(i as int).push(c) == chars@.take(i as int + 1));
            assert(texts(done@).push(current@).drop_last() == texts(done@));
        }
        if c == sep {
            let ghost before = done@;
            done.push(current);
            proof {
                assert(texts(done@) =~= texts(before).push(current@));
            }
            current = String::new();
        } else {
            current.push(c);
        }
        i = i + 1;
    }
    proof {
        assert(chars@.take(chars@.len() as int) == chars@);
    }
    let ghost before = done@;
    done.push(current);
    proof {
        assert(texts(done@) =~= texts(before).push(current@));
    }
    done
}

/// The parts one behind the other, with `sep` between them.
pub fn joined(parts: &Vec<String>, sep: &str) -> (r: String)
    ensures
        r@ == join(texts(parts@), sep@),
{
    let mut r = String::new();
    let mut i: usize = 0;
    while i < parts.len()
        invariant
            i <= parts@.len(),
            r@ == join(texts(parts@).take(i as int), sep@),
        decreases parts@.len() - i,
    {
        if i > 0 {
            r.append(sep);
        }
        r.append(parts[i].as_str());
        proof {
            let t = texts(parts@);
            let next = t.take(i as int + 1);
            assert(next.last() == parts@[i as int]@);
            assert(next.drop_last() == t.take(i as int));
            if i == 0 {
                assert(r@ =~= next[0]);
            }
        }
        i = i + 1;
    }
    proof {
        assert(texts(parts@).take(parts@.len() as int) == texts(parts@));
    }
    r
}

// ---------------------------------------------------------------------------
// Searching

/// Does `needle` stand in `hay` at position `i`?
pub open spec fn occurs_at(hay: Seq<char>, needle: Seq<char>, i: int) -> bool {
    0 <= i && i + needle.len() <= hay.len() && hay.subrange(i, i + needle.len()) == needle
}

/// Does `needle` stand anywhere in `hay`?
pub open spec fn contains_text(hay: Seq<char>, needle: Seq<char>) -> bool {
    exists|i: int| occurs_at(hay, needle, i)
}

/// The first position of `needle` in `hay`.
pub open spec fn is_first_at(hay: Seq<char>, needle: Seq<char>, i: int) -> bool {
    occurs_at(hay, needle, i) && forall|j: int| 0 <= j < i ==> !occurs_at(hay, needle, j)
}

/// The last position of `needle` in `hay`.
pub open spec fn is_last_at(hay: Seq<char>, needle: Seq<char>, i: int) -> bool {
    occurs_at(hay, needle, i) && forall|j: int| i < j ==> !occurs_at(hay, needle, j)
}

/// `str::find` with positions counted in characters.
pub open spec fn find(hay: Seq<char>, needle: Seq<char>) -> Option<int> {
    if contains_text(hay, needle) {
        Some(choose|i: int| is_first_at(hay, needle, i))
    } else {
        None
    }
}

/// `str::rfind` with positions counted in characters.
pub open spec fn rfind(hay: Seq<char>, needle: Seq<char>) -> Option<int> {
    if contains_text(hay, needle) {
        Some(choose|i: int| is_last_at(hay, needle, i))
    } else {
        None
    }
}

pub proof fn lemma_find(hay: Seq<char>, needle: Seq<char>, i: int)
    requires
        is_first_at(hay, needle, i),
    ensures
        find(hay, needle) == Some(i),
{
    let k = choose|k: int| is_first_at(hay, needle, k);
    assert(k == i) by {
        if k < i {
            assert(!occurs_at(hay, needle, k));
        }
        if i < k {
            assert(!occurs_at(hay, needle, i));
        }
    }
}

pub proof fn lemma_rfind(hay: Seq<char>, needle: Seq<char>, i: int)
    requires
        is_last_at(hay, needle, i),
    ensures
        rfind(hay, needle) == Some(i),
{
    let k = choose|k: int| is_last_at(hay, needle, k);
    assert(k == i) by {
        if k < i {
            assert(!occurs_at(hay, needle, i));
        }
        if i < k {
            assert(!occurs_at(hay, needle, k));
        }
    }
}

/// What `find` gives is the first position.
pub proof fn lemma_find_is_first(hay: Seq<char>, needle: Seq<char>)
    ensures
        find(hay, needle) matches Some(i) ==> is_first_at(hay, needle, i),
{
    if contains_text(hay, needle) {
        let j = choose|j: int| occurs_at(hay, needle, j);
        lemma_some_first(hay, needle, 0, j);
    }
}

proof fn lemma_some_first(hay: Seq<char>, needle: Seq<char>, i: int, j: int)
    requires
        0 <= i <= j,
        occurs_at(hay, needle, j),
        forall|k: int| 0 <= k < i ==> !occurs_at(hay, needle, k),
    ensures
        exists|k: int| is_first_at(hay, needle, k),
    decreases j - i,
{
    if occurs_at(hay, needle, i) {
        assert(is_first_at(hay, needle, i));
    } else {
        lemma_some_first(hay, needle, i + 1, j);
    }
}

pub fn stands_at(hay: &[char], needle: &[char], i: usize) -> (r: bool)
    ensures
        r == occurs_at(hay@, needle@, i as int),
{
    if i > hay.len() || needle.len() > hay.len() - i {
        return false;
    }
    let n: usize = hay.len();
    let mut k: usize = 0;
    while k < needle.len()
        invariant
            n == hay@.len(),
            k <= needle@.len(),
            i + needle@.len() <= hay@.len(),
            forall|m: int| 0 <= m < k ==> hay@[i + m] == needle@[m],
        decreases needle@.len() - k,
    {
        if hay[i + k] != needle[k] {
            proof {
                assert(hay@.subrange(i as int, i + needle@.len())[k as int] != needle@[k as int]);
            }
            return false;
        }
        k = k + 1;
    }
    proof {
        assert(hay@.subrange(i as int, i + needle@.len()) =~= needle@);
    }
    true
}

/// The first position of `needle` in `hay`.
pub fn position(hay: &[char], needle: &[char]) -> (r: Option<usize>)
    ensures
        match r {
            Some(i) => is_first_at(hay@, needle@, i as int) && find(hay@, needle@) == Some(
                i as int,
            ) && i + needle@.len() <= hay@.len() <= usize::MAX,
            None => !contains_text(hay@, needle@) && find(hay@, needle@) == None::<int>,
        },
{
    let n: usize = hay.len();
    let mut i: usize = 0;
    while i <= n
        invariant
            n == hay@.len(),
            i <= n + 1,
            forall|j: int| 0 <= j < i ==> !occurs_at(hay@, needle@, j),
        decreases hay@.len() + 1 - i,
    {
        if stands_at(hay, needle, i) {
            proof {
                lemma_find(hay@, needle@, i as int);
            }
            return Some(i);
        }
        if i == hay.len() {
            return None;
        }
        i = i + 1;
    }
    None
}

/// The last position of `needle` in `hay`.
pub fn last_position(hay: &[char], needle: &[char]) -> (r: Option<usize>)
    ensures
        match r {
            Some(i) => is_last_at(hay@, needle@, i as int) && rfind(hay@, needle@) == Some(
                i as int,
            ) && i + needle@.len() <= hay@.len() <= usize::MAX,
            None => !contains_text(hay@, needle@) && rfind(hay@, needle@) == None::<int>,
        },
{
    let n: usize = hay.len();
    let mut i: usize = n;
    while i > 0
        invariant
            n == hay@.len(),
            i <= n,
            forall|j: int| i < j ==> !occurs_at(hay@, needle@, j),
        decreases i,
    {
        if stands_at(hay, needle, i) {
            proof {
                lemma_rfind(hay@, needle@, i as int);
            }
            return Some(i);
        }
        i = i - 1;
    }
    if stands_at(hay, needle, 0) {
        proof {
            lemma_rfind(hay@, needle@, 0);
        }
        Some(0)
    } else {
        None
    }
}

/// `str::contains`.
pub fn has_text(hay: &str, needle: &str) -> (r: bool)
    ensures
        r == contains_text(hay@, needle@),
{
    let h = chars_of(hay);
    let n = chars_of(needle);
    match position(h.as_slice(), n.as_slice()) {
        Some(_) => true,
        None => false,
    }
}

/// Does the text hold the character?
pub fn has_char(s: &str, c: char) -> (r: bool)
    ensures
        r == s@.contains(c),
{
    let chars = chars_of(s);
    let mut i: usize = 0;
    while i < chars.len()
        invariant
            i <= chars@.len(),
            chars@ == s@,
            forall|k: int| 0 <= k < i ==> s@[k] != c,
        decreases chars@.len() - i,
    {
        if chars[i] == c {
            return true;
        }
        i = i + 1;
    }
    false
}

/// Does the text start with `prefix`?
pub fn has_prefix(s: &str, prefix: &str) -> (r: bool)
    ensures
        r == prefix@.is_prefix_of(s@),
{
    let h = chars_of(s);
    let n = chars_of(prefix);
    proof {
        if prefix@.len() <= s@.len() {
            assert(s@.subrange(0, prefix@.len() as int) == s@.take(prefix@.len() as int));
        }
    }
    stands_at(h.as_slice(), n.as_slice(), 0)
}

/// Does a list of strings hold the text?
pub fn lists(list: &Vec<String>, s: &str) -> (r: bool)
    ensures
        r == texts(list@).contains(s@),
{
    let mut i: usize = 0;
    while i < list.len()
        invariant
            i <= list@.len(),
            forall|k: int| 0 <= k < i ==> list@[k]@ != s@,
        decreases list@.len() - i,
    {
        if same_text(list[i].as_str(), s) {
            proof {
                assert(texts(list@)[i as int] == s@);
            }
            return true;
        }
        i = i + 1;
    }
    proof {
        assert forall|k: int| 0 <= k < list@.len() implies texts(list@)[k] != s@ by {
            assert(texts(list@)[k] == list@[k]@);
        }
    }
    false
}

// ---------------------------------------------------------------------------
// Order

/// Earlier in the order of code points.
pub open spec fn text_before(a: Seq<char>, b: Seq<char>) -> bool
    decreases a.len(),
{
    if b.len() == 0 {
        false
    } else if a.len() == 0 {
        true
    } else if a[0] != b[0] {
        a[0] < b[0]
    } else {
        text_before(a.skip(1), b.skip(1))
    }
}

pub proof fn lemma_text_total(a: Seq<char>, b: Seq<char>)
    ensures
        a != b ==> text_before(a, b) || text_before(b, a),
        !text_before(a, a),
    decreases a.len(),
{
    if a.len() > 0 {
        lemma_text_total(a.skip(1), b.skip(1));
        if b.len() > 0 && a[0] == b[0] && a.skip(1) == b.skip(1) {
            assert(a =~= seq![a[0]] + a.skip(1));
            assert(b =~= seq![b[0]] + b.skip(1));
        }
    } else if b.len() == 0 {
        assert(a =~= b);
    }
}

pub proof fn lemma_text_transitive(a: Seq<char>, b: Seq<char>, c: Seq<char>)
    requires
        text_before(a, b),
        text_before(b, c),
    ensures
        text_before(a, c),
    decreases a.len(),
{
    if a.len() > 0 && a[0] == b[0] && b[0] == c[0] {
        lemma_text_transitive(a.skip(1), b.skip(1), c.skip(1));
    }
}

/// Does `a` come before `b` in the order of code points?
pub fn comes_before(a: &str, b: &str) -> (r: bool)
    ensures
        r == text_before(a@, b@),
{
    let x = chars_of(a);
    let y = chars_of(b);
    let mut i: usize = 0;
    proof {
        assert(a@.skip(0) =~= a@);
        assert(b@.skip(0) =~= b@);
    }
    while i < x.len() && i < y.len()
        invariant
            i <= x@.len(),
            i <= y@.len(),
            x@ == a@,
            y@ == b@,
            text_before(a@, b@) == text_before(a@.skip(i as int), b@.skip(i as int)),
        decreases x@.len() - i,
    {
        if x[i] != y[i] {
            return x[i] < y[i];
        }
        proof {
            assert(a@.skip(i as int).skip(1) =~= a@.skip(i as int + 1));
            assert(b@.skip(i as int).skip(1) =~= b@.skip(i as int + 1));
        }
        i = i + 1;
    }
    i < y.len()
}

/// No text stands before one that comes earlier in the order.
pub open spec fn in_order(list: Seq<Seq<char>>) -> bool {
    forall|i: int, j: int|
        0 <= i < j < list.len() ==> !text_before(#[trigger] list[j], #[trigger] list[i])
}

/// The strings in the order of code points.
pub fn sorted_texts(list: Vec<String>) -> (r: Vec<String>)
    ensures
        in_order(texts(r@)),
        texts(r@).to_multiset() == texts(list@).to_multiset(),
{
    let ghost all = list@;
    let mut r: Vec<String> = Vec::new();
    proof {
        assert(texts(r@) =~= texts(all).take(0));
    }
    for s in it: list
        invariant
            it.seq() == all,
            in_order(texts(r@)),
            texts(r@).to_multiset() == texts(all).take(it.index()).to_multiset(),
    {
        let ghost before = r@;
        let mut p: usize = 0;
        while p < r.len() && !comes_before(s.as_str(), r[p].as_str())
            invariant
                p <= r@.len(),
                r@ == before,
                forall|k: int| 0 <= k < p ==> !text_before(s@, #[trigger] texts(before)[k]),
            decreases r@.len() - p,
        {
            proof {
                assert(texts(before)[p as int] == r@[p as int]@);
            }
            p = p + 1;
        }
        r.insert(p, s);
        proof {
            let old_texts = texts(before);
            let new_texts = texts(r@);
            assert(new_texts =~= old_texts.insert(p as int, s@));
            vstd::seq_lib::to_multiset_insert(old_texts, p as int, s@);
            assert(texts(all).take(it.index() + 1) =~= texts(all).take(it.index()).push(s@));
            vstd::seq_lib::to_multiset_build(texts(all).take(it.index()), s@);
            assert forall|i: int, j: int| 0 <= i < j < new_texts.len() implies !text_before(
                #[trigger] new_texts[j],
                #[trigger] new_texts[i],
            ) by {
                if i < p && j == p {
                    assert(!text_before(s@, old_texts[i]));
                } else if i == p {
                    let next = old_texts[p as int];
                    assert(next == before[p as int]@);
                    assert(text_before(s@, next));
                    let other = old_texts[j - 1];
                    if text_before(other, s@) {
                        lemma_text_transitive(other, s@, next);
                        if j - 1 > p {
                            assert(!text_before(old_texts[j - 1], old_texts[p as int]));
                        } else {
                            lemma_text_total(other, other);
                        }
                    }
                } else {
                    let x = if i < p { i } else { i - 1 };
                    let y = if j < p { j } else { j - 1 };
                    assert(!text_before(old_texts[y], old_texts[x]));
                }
            }
        }
    }
    proof {
        assert(texts(all).take(all.len() as int) =~= texts(all));
    }
    r
}

// ---------------------------------------------------------------------------
// Cutting

/// The text up to the first of two characters.
pub open spec fn up_to(s: Seq<char>, a: char, b: char) -> Seq<char>
    decreases s.len(),
{
    if s.len() == 0 || s[0] == a || s[0] == b {
        Seq::empty()
    } else {
        seq![s[0]] + up_to(s.skip(1), a, b)
    }
}

/// Where the first of two characters stands, the text is cut.
pub proof fn lemma_up_to(s: Seq<char>, a: char, b: char, i: int)
    requires
        0 <= i <= s.len(),
        forall|k: int| 0 <= k < i ==> s[k] != a && s[k] != b,
        i < s.len() ==> s[i] == a || s[i] == b,
    ensures
        up_to(s, a, b) == s.take(i),
    decreases i,
{
    if i > 0 {
        lemma_up_to(s.skip(1), a, b, i - 1);
        assert(s.take(i) =~= seq![s[0]] + s.skip(1).take(i - 1));
    } else {
        assert(s.take(i) =~= Seq::<char>::empty());
    }
}

/// The characters up to the first of two.
pub fn cut_at(chars: &[char], a: char, b: char) -> (r: &[char])
    ensures
        r@ == up_to(chars@, a, b),
{
    let mut i: usize = 0;
    while i < chars.len() && chars[i] != a && chars[i] != b
        invariant
            i <= chars@.len(),
            forall|k: int| 0 <= k < i ==> chars@[k] != a && chars@[k] != b,
        decreases chars@.len() - i,
    {
        i = i + 1;
    }
    proof {
        lemma_up_to(chars@, a, b, i as int);
        assert(chars@.subrange(0, i as int) =~= chars@.take(i as int));
    }
    vstd::slice::slice_subrange(chars, 0, i)
}

/// The text behind the last occurrence of a character; all of it where there
/// is none.
pub open spec fn after_last(s: Seq<char>, c: char) -> Seq<char>
    decreases s.len(),
{
    if s.len() == 0 || s.last() == c {
        Seq::empty()
    } else {
        after_last(s.drop_last(), c).push(s.last())
    }
}

/// Behind the last occurrence of a character the text is cut.
pub proof fn lemma_after_last(s: Seq<char>, c: char, i: int)
    requires
        0 <= i <= s.len(),
        forall|k: int| i <= k < s.len() ==> s[k] != c,
        i > 0 ==> s[i - 1] == c,
    ensures
        after_last(s, c) == s.skip(i),
    decreases s.len() - i,
{
    if i < s.len() {
        lemma_after_last(s.drop_last(), c, i);
        assert(s.skip(i) =~= s.drop_last().skip(i).push(s.last()));
    } else {
        assert(s.skip(i) =~= Seq::<char>::empty());
    }
}

/// The characters behind the last occurrence of one.
pub fn cut_after_last(chars: &[char], c: char) -> (r: &[char])
    ensures
        r@ == after_last(chars@, c),
{
    let mut i: usize = chars.len();
    while 0 < i && chars[i - 1] != c
        invariant
            i <= chars@.len(),
            forall|k: int| i <= k < chars@.len() ==> chars@[k] != c,
        decreases i,
    {
        i = i - 1;
    }
    proof {
        lemma_after_last(chars@, c, i as int);
        assert(chars@.subrange(i as int, chars@.len() as int) =~= chars@.skip(i as int));
    }
    vstd::slice::slice_subrange(chars, i, chars.len())
}

// ---------------------------------------------------------------------------
// Replacing

/// Every occurrence of `from`, met from the left, replaced by `to`.
pub open spec fn replace(s: Seq<char>, from: Seq<char>, to: Seq<char>) -> Seq<char>
    decreases s.len(),
{
    if s.len() == 0 || from.len() == 0 {
        s
    } else if occurs_at(s, from, 0) {
        to + replace(s.skip(from.len() as int), from, to)
    } else {
        seq![s[0]] + replace(s.skip(1), from, to)
    }
}

/// Every occurrence of a non-empty `from`, met from the left, replaced by `to`.
pub fn replaced(s: &str, from: &str, to: &str) -> (r: String)
    requires
        from@.len() > 0,
    ensures
        r@ == replace(s@, from@, to@),
{
    let chars = chars_of(s);
    let pattern = chars_of(from);
    let mut r = String::new();
    let mut i: usize = 0;
    proof {
        assert(s@.skip(0) == s@);
    }
    while i < chars.len()
        invariant
            i <= chars@.len(),
            chars@ == s@,
            pattern@ == from@,
            from@.len() > 0,
            r@ + replace(s@.skip(i as int), from@, to@) == replace(s@, from@, to@),
        decreases chars@.len() - i,
    {
        let ghost rest = s@.skip(i as int);
        let ghost before = r@;
        proof {
            if occurs_at(rest, from@, 0) {
                assert(s@.subrange(i as int, i + from@.len()) == rest.subrange(
                    0,
                    from@.len() as int,
                ));
            }
            if occurs_at(s@, from@, i as int) {
                assert(s@.subrange(i as int, i + from@.len()) == rest.subrange(
                    0,
                    from@.len() as int,
                ));
            }
        }
        if stands_at(chars.as_slice(), pattern.as_slice(), i) {
            r.append(to);
            proof {
                assert(rest.skip(from@.len() as int) == s@.skip(i + from@.len()));
                assert(before + (to@ + replace(s@.skip(i + from@.len()), from@, to@)) =~= r@
                    + replace(s@.skip(i + from@.len()), from@, to@));
            }
            i = i + pattern.len();
        } else {
            r.push(chars[i]);
            proof {
                assert(rest.skip(1) == s@.skip(i + 1));
                assert(before + (seq![rest[0]] + replace(s@.skip(i + 1), from@, to@)) =~= r@
                    + replace(s@.skip(i + 1), from@, to@));
            }
            i = i + 1;
        }
    }
    proof {
        assert(s@.skip(i as int) =~= Seq::<char>::empty());
        assert(r@ + Seq::<char>::empty() =~= r@);
    }
    r
}

/// The text with one character standing for another.
pub open spec fn swap_char(s: Seq<char>, from: char, to: char) -> Seq<char> {
    s.map_values(|c: char| if c == from { to } else { c })
}

pub fn swapped_char(s: &str, from: char, to: char) -> (r: String)
    ensures
        r@ == swap_char(s@, from, to),
{
    let chars = chars_of(s);
    let mut r = String::new();
    let mut i: usize = 0;
    while i < chars.len()
        invariant
            i <= chars@.len(),
            chars@ == s@,
            r@ == swap_char(s@, from, to).take(i as int),
        decreases chars@.len() - i,
    {
        let c = chars[i];
        r.push(if c == from { to } else { c });
        proof {
            assert(swap_char(s@, from, to).take(i as int + 1) =~= swap_char(s@, from, to).take(
                i as int,
            ).push(swap_char(s@, from, to)[i as int]));
        }
        i = i + 1;
    }
    proof {
        assert(swap_char(s@, from, to).take(s@.len() as int) == swap_char(s@, from, to));
    }
    r
}

// ---------------------------------------------------------------------------
// Integers

pub open spec fn all_digits(s: Seq<char>) -> bool {
    forall|i: int| 0 <= i < s.len() ==> is_digit(#[trigger] s[i])
}

/// The number that decimal digits write.
pub open spec fn digits_value(s: Seq<char>) -> nat
    decreases s.len(),
{
    if s.len() == 0 {
        0
    } else {
        (10 * digits_value(s.drop_last()) + (s.last() as int - '0' as int)) as nat
    }
}

/// The integer that a text writes: digits, with at most one sign before them.
pub open spec fn integer_value(s: Seq<char>) -> Option<int> {
    if s.len() > 0 && (s[0] == '-' || s[0] == '+') {
        let digits = s.skip(1);
        if digits.len() == 0 || !all_digits(digits) {
            None
        } else if s[0] == '-' {
            Some(-(digits_value(digits) as int))
        } else {
            Some(digits_value(digits) as int)
        }
    } else if s.len() == 0 || !all_digits(s) {
        None
    } else {
        Some(digits_value(s) as int)
    }
}

/// `str::parse::<i64>`: the integer that a text writes, where it fits.
pub open spec fn parse_i64(s: Seq<char>) -> Option<i64> {
    match integer_value(s) {
        Some(v) if i64::MIN <= v <= i64::MAX => Some(v as i64),
        _ => None,
    }
}

/// The value of some digits, where it is at most 2 to the power of 63.
fn small_value(chars: &[char]) -> (r: Option<u64>)
    requires
        all_digits(chars@),
    ensures
        match r {
            Some(v) => v == digits_value(chars@) && v <= 0x8000_0000_0000_0000,
            None => digits_value(chars@) > 0x8000_0000_0000_0000,
        },
{
    let mut acc: u64 = 0;
    let mut over: bool = false;
    let mut i: usize = 0;
    while i < chars.len()
        invariant
            i <= chars@.len(),
            all_digits(chars@),
            acc <= 0x8000_0000_0000_0000,
            !over ==> acc == digits_value(chars@.take(i as int)),
            over ==> digits_value(chars@.take(i as int)) > 0x8000_0000_0000_0000,
        decreases chars@.len() - i,
    {
        let c = chars[i];
        proof {
            let next = chars@.take(i as int + 1);
            assert(next.last() == c);
            assert(next.drop_last() == chars@.take(i as int));
            assert(is_digit(chars@[i as int]));
        }
        let d: u64 = (c as u8 - 48) as u64;
        if !over {
            if acc > 0x0CCC_CCCC_CCCC_CCCC || acc * 10 + d > 0x8000_0000_0000_0000 {
                over = true;
            } else {
                acc = acc * 10 + d;
            }
        }
        i = i + 1;
    }
    proof {
        assert(chars@.take(chars@.len() as int) == chars@);
    }
    if over {
        None
    } else {
        Some(acc)
    }
}

/// Are there only decimal digits?
pub fn only_digits(chars: &[char]) -> (r: bool)
    ensures
        r == all_digits(chars@),
{
    let mut i: usize = 0;
    while i < chars.len()
        invariant
            i <= chars@.len(),
            forall|k: int| 0 <= k < i ==> is_digit(chars@[k]),
        decreases chars@.len() - i,
    {
        if !digit(chars[i]) {
            proof {
                assert(!is_digit(chars@[i as int]));
            }
            return false;
        }
        i = i + 1;
    }
    true
}

/// The integer that some characters write, where it fits.
pub fn parsed_i64(chars: &[char]) -> (r: Option<i64>)
    ensures
        r == parse_i64(chars@),
{
    if chars.len() > 0 && (chars[0] == '-' || chars[0] == '+') {
        let digits = vstd::slice::slice_subrange(chars, 1, chars.len());
        proof {
            assert(digits@ == chars@.skip(1));
        }
        if digits.len() == 0 || !only_digits(digits) {
            return None;
        }
        match small_value(digits) {
            Some(v) => {
                if chars[0] == '-' {
                    if v == 0x8000_0000_0000_0000 {
                        Some(i64::MIN)
                    } else {
                        Some(-(v as i64))
                    }
                } else if v <= i64::MAX as u64 {
                    Some(v as i64)
                } else {
                    None
                }
            },
            None => None,
        }
    } else if chars.len() == 0 || !only_digits(chars) {
        None
    } else {
        match small_value(chars) {
            Some(v) => if v <= i64::MAX as u64 {
                Some(v as i64)
            } else {
                None
            },
            None => None,
        }
    }
}

/// The integer that a text writes, where it fits.
pub fn text_to_i64(s: &str) -> (r: Option<i64>)
    ensures
        r == parse_i64(s@),
{
    let chars = chars_of(s);
    parsed_i64(chars.as_slice())
}

// ---------------------------------------------------------------------------
// Decimal numbers

/// The text behind a sign, where it starts with one.
pub open spec fn unsigned_part(s: Seq<char>) -> Seq<char> {
    if s.len() > 0 && (s[0] == '+' || s[0] == '-') {
        s.skip(1)
    } else {
        s
    }
}

/// Where the run of ASCII digits at `i` ends.
pub open spec fn digit_run(s: Seq<char>, i: int) -> int
    decreases s.len() - i,
{
    if 0 <= i < s.len() && is_digit(s[i]) {
        digit_run(s, i + 1)
    } else {
        i
    }
}

/// An exponent: the letter, an optional sign, digits.
pub open spec fn is_exponent(s: Seq<char>) -> bool {
    &&& s.len() > 0 && (s[0] == 'e' || s[0] == 'E')
    &&& unsigned_part(s.skip(1)).len() > 0 && all_digits(unsigned_part(s.skip(1)))
}

/// Digits with at most one point among them and at least one digit, and an
/// optional exponent.
pub open spec fn is_plain_decimal(s: Seq<char>) -> bool {
    let whole = digit_run(s, 0);
    let end = if whole < s.len() && s[whole] == '.' {
        digit_run(s, whole + 1)
    } else {
        whole
    };
    let digits = if end > whole {
        end - 1
    } else {
        end
    };
    digits > 0 && (end == s.len() || is_exponent(s.skip(end)))
}

/// A text that reads as a floating-point number: an optional sign, then a
/// decimal or one of the names of what is no finite number.
pub open spec fn is_decimal(s: Seq<char>) -> bool {
    let t = unsigned_part(s);
    ||| fold_all(t) == "inf"@
    ||| fold_all(t) == "infinity"@
    ||| fold_all(t) == "nan"@
    ||| is_plain_decimal(t)
}

fn skip_sign(chars: &[char]) -> (r: &[char])
    ensures
        r@ == unsigned_part(chars@),
{
    let from: usize = if chars.len() > 0 && (chars[0] == '+' || chars[0] == '-') {
        1
    } else {
        0
    };
    proof {
        assert(chars@.subrange(from as int, chars@.len() as int) =~= unsigned_part(chars@));
    }
    vstd::slice::slice_subrange(chars, from, chars.len())
}

fn run_end(chars: &[char], start: usize) -> (r: usize)
    requires
        start <= chars@.len(),
    ensures
        r == digit_run(chars@, start as int),
        start <= r <= chars@.len(),
{
    let mut i: usize = start;
    while i < chars.len() && digit(chars[i])
        invariant
            start <= i <= chars@.len(),
            digit_run(chars@, start as int) == digit_run(chars@, i as int),
        decreases chars@.len() - i,
    {
        i = i + 1;
    }
    i
}

/// Does the text read as a floating-point number?
pub fn reads_as_decimal(s: &str) -> (r: bool)
    ensures
        r == is_decimal(s@),
{
    let chars = chars_of(s);
    let t = skip_sign(chars.as_slice());
    let name = string_of(t);
    if same_folded(name.as_str(), "inf") || same_folded(name.as_str(), "infinity") || same_folded(
        name.as_str(),
        "nan",
    ) {
        proof {
            lemma_names_are_folded();
        }
        return true;
    }
    proof {
        lemma_names_are_folded();
    }
    let whole: usize = run_end(t, 0);
    let end: usize = if whole < t.len() && t[whole] == '.' {
        run_end(t, whole + 1)
    } else {
        whole
    };
    let digits: usize = if end > whole {
        end - 1
    } else {
        end
    };
    if digits == 0 {
        return false;
    }
    if end == t.len() {
        return true;
    }
    if t[end] != 'e' && t[end] != 'E' {
        proof {
            assert(t@.skip(end as int)[0] == t@[end as int]);
        }
        return false;
    }
    let rest = skip_sign(vstd::slice::slice_subrange(t, end + 1, t.len()));
    proof {
        assert(t@.skip(end as int)[0] == t@[end as int]);
        assert(t@.skip(end as int).skip(1) =~= t@.subrange(end + 1, t@.len() as int));
    }
    rest.len() > 0 && only_digits(rest)
}

proof fn lemma_names_are_folded()
    ensures
        fold_all("inf"@) == "inf"@,
        fold_all("infinity"@) == "infinity"@,
        fold_all("nan"@) == "nan"@,
{
    reveal_strlit("inf");
    reveal_strlit("infinity");
    reveal_strlit("nan");
    assert(fold_all("inf"@) =~= "inf"@);
    assert(fold_all("infinity"@) =~= "infinity"@);
    assert(fold_all("nan"@) =~= "nan"@);
}

// ---------------------------------------------------------------------------
// Integers as text

pub open spec fn digit_char(d: int) -> char {
    (48 + d) as u8 as char
}

/// A number in decimal digits, without leading zeros.
pub open spec fn decimal(n: nat) -> Seq<char>
    decreases n,
{
    if n < 10 {
        seq![digit_char(n as int)]
    } else {
        decimal(n / 10).push(digit_char((n % 10) as int))
    }
}

/// An integer in decimal digits, with a minus sign where it is negative.
pub open spec fn int_text(i: int) -> Seq<char> {
    if i < 0 {
        seq!['-'] + decimal((-i) as nat)
    } else {
        decimal(i as nat)
    }
}

/// Appends a number in decimal digits.
pub fn push_decimal(out: &mut String, n: u64)
    ensures
        final(out)@ == old(out)@ + decimal(n as nat),
    decreases n,
{
    if n >= 10 {
        push_decimal(out, n / 10);
    }
    let d: u8 = (n % 10) as u8;
    out.push((48 + d) as char);
    proof {
        assert(out@ =~= old(out)@ + decimal(n as nat));
    }
}

/// Appends an integer in decimal digits.
pub fn push_int(out: &mut String, i: i64)
    ensures
        final(out)@ == old(out)@ + int_text(i as int),
{
    if i < 0 {
        out.push('-');
        if i == i64::MIN {
            push_decimal(out, 0x8000_0000_0000_0000);
        } else {
            push_decimal(out, (-i) as u64);
        }
        proof {
            assert(out@ =~= old(out)@ + int_text(i as int));
        }
    } else {
        push_decimal(out, i as u64);
    }
}

/// An integer as text.
pub fn int_to_text(i: i64) -> (r: String)
    ensures
        r@ == int_text(i as int),
{
    let mut r = String::new();
    push_int(&mut r, i);
    proof {
        assert(Seq::<char>::empty() + int_text(i as int) =~= int_text(i as int));
    }
    r
}

pub proof fn lemma_decimal_value(n: nat)
    ensures
        decimal(n).len() > 0,
        all_digits(decimal(n)),
        digits_value(decimal(n)) == n,
    decreases n,
{
    if n < 10 {
        let s = decimal(n);
        assert(s.drop_last() =~= Seq::<char>::empty());
        assert(digits_value(s.drop_last()) == 0);
        assert(s.last() as int == 48 + n);
    } else {
        lemma_decimal_value(n / 10);
        let s = decimal(n);
        assert(s.drop_last() =~= decimal(n / 10));
        assert(s.last() as int == 48 + n % 10);
        assert forall|i: int| 0 <= i < s.len() implies is_digit(#[trigger] s[i]) by {
            if i < s.len() - 1 {
                assert(s[i] == decimal(n / 10)[i]);
            }
        }
    }
}

/// Reading back the text of an integer gives the integer.
pub proof fn law_integers_read_back(i: i64)
    ensures
        parse_i64(int_text(i as int)) == Some(i),
{
    if i < 0 {
        lemma_decimal_value((-i) as nat);
        assert(int_text(i as int).skip(1) =~= decimal((-i) as nat));
    } else {
        lemma_decimal_value(i as nat);
        assert(is_digit(decimal(i as nat)[0]));
    }
}

} // verus!

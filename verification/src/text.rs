//! Text helpers shared by the modules: conversions between strings and
//! character vectors, and the usual searches, all stated over `Seq<char>`.

use vstd::prelude::*;

verus! {

/// `String::push`: appends `c` at the end of `s`, as std documents it.
/// Trusted: vstd gives this method no specification.
#[verifier::external_body]
pub(crate) fn push_char(s: &mut String, c: char)
    ensures
        final(s)@ == old(s)@.push(c),
{
    s.push(c);
}

/// The decimal digit of `d` (`d < 10`).
pub open spec fn digit_char(d: nat) -> char {
    ((48 + d) as u32) as char
}

/// `n` written in decimal, without leading zeros (`"0"` for zero).
pub open spec fn spec_decimal(n: nat) -> Seq<char>
    decreases n,
{
    if n < 10 {
        seq![digit_char(n)]
    } else {
        spec_decimal(n / 10) + seq![digit_char(n % 10)]
    }
}

/// Appends `n` in decimal to `s`.
pub fn push_decimal(s: &mut String, n: u64)
    ensures
        final(s)@ == old(s)@ + spec_decimal(n as nat),
    decreases n,
{
    if n >= 10 {
        push_decimal(s, n / 10);
    }
    let d = (n % 10) as u8;
    let c = (48 + d) as char;
    push_char(s, c);
    assert(final(s)@ == old(s)@ + spec_decimal(n as nat)) by {
        assert(c == digit_char((n % 10) as nat));
    }
}

/// `n` in decimal (`u64::to_string`).
pub fn decimal(n: u64) -> (s: String)
    ensures
        s@ == spec_decimal(n as nat),
{
    let mut s = String::new();
    push_decimal(&mut s, n);
    s
}

/// `v` in decimal, with a minus sign when negative.
pub open spec fn spec_signed_decimal(v: int) -> Seq<char> {
    if v < 0 {
        seq!['-'] + spec_decimal((0 - v) as nat)
    } else {
        spec_decimal(v as nat)
    }
}

/// `v` in decimal (`i64::to_string`).
pub fn signed_decimal(v: i64) -> (s: String)
    ensures
        s@ == spec_signed_decimal(v as int),
{
    let mut s = String::new();
    if v < 0 {
        push_char(&mut s, '-');
        let m: u64 = (-(v + 1)) as u64 + 1;
        push_decimal(&mut s, m);
    } else {
        push_decimal(&mut s, v as u64);
    }
    s
}

/// The characters of `s`.
pub fn to_chars(s: &str) -> (v: Vec<char>)
    ensures
        v@ == s@,
{
    let mut v: Vec<char> = Vec::new();
    let n = s.unicode_len();
    let mut i: usize = 0;
    while i < n
        invariant
            n == s@.len(),
            i <= n,
            v@ == s@.subrange(0, i as int),
        decreases n - i,
    {
        v.push(s.get_char(i));
        assert(v@ =~= s@.subrange(0, i + 1));
        i = i + 1;
    }
    assert(v@ =~= s@);
    v
}

/// The string made of `v[from..to]`.
pub fn string_of(v: &[char], from: usize, to: usize) -> (s: String)
    requires
        from <= to <= v@.len(),
    ensures
        s@ == v@.subrange(from as int, to as int),
{
    let mut s = String::new();
    let mut i = from;
    while i < to
        invariant
            from <= i <= to <= v@.len(),
            s@ == v@.subrange(from as int, i as int),
        decreases to - i,
    {
        push_char(&mut s, v[i]);
        assert(s@ =~= v@.subrange(from as int, i + 1));
        i = i + 1;
    }
    s
}

/// `c` is white space for Rust (`char::is_whitespace`, the Unicode
/// White_Space property).
pub open spec fn is_space(c: char) -> bool {
    ||| '\u{9}' <= c <= '\u{d}'
    ||| c == ' '
    ||| c == '\u{85}'
    ||| c == '\u{a0}'
    ||| c == '\u{1680}'
    ||| '\u{2000}' <= c <= '\u{200a}'
    ||| c == '\u{2028}'
    ||| c == '\u{2029}'
    ||| c == '\u{202f}'
    ||| c == '\u{205f}'
    ||| c == '\u{3000}'
}

pub fn is_space_char(c: char) -> (b: bool)
    ensures
        b == is_space(c),
{
    ('\u{9}' <= c && c <= '\u{d}') || c == ' ' || c == '\u{85}' || c == '\u{a0}' || c == '\u{1680}'
        || ('\u{2000}' <= c && c <= '\u{200a}') || c == '\u{2028}' || c == '\u{2029}' || c
        == '\u{202f}' || c == '\u{205f}' || c == '\u{3000}'
}

/// Index of the first character of `s` that is not white space (or `s.len()`).
pub open spec fn trim_start_index(s: Seq<char>) -> int
    decreases s.len(),
{
    if s.len() == 0 || !is_space(s[0]) {
        0
    } else {
        1 + trim_start_index(s.drop_first())
    }
}

/// Index just after the last character of `s` that is not white space (or 0).
pub open spec fn trim_end_index(s: Seq<char>) -> int
    decreases s.len(),
{
    if s.len() == 0 || !is_space(s.last()) {
        s.len() as int
    } else {
        trim_end_index(s.drop_last())
    }
}

/// `s` without its leading and trailing white space (`str::trim`).
pub open spec fn spec_trim(s: Seq<char>) -> Seq<char> {
    let a = trim_start_index(s);
    if a >= s.len() {
        Seq::empty()
    } else {
        s.subrange(a, trim_end_index(s))
    }
}

pub proof fn lemma_trim_start_index(s: Seq<char>)
    ensures
        0 <= trim_start_index(s) <= s.len(),
        forall|i: int| 0 <= i < trim_start_index(s) ==> is_space(#[trigger] s[i]),
        trim_start_index(s) < s.len() ==> !is_space(s[trim_start_index(s)]),
    decreases s.len(),
{
    if s.len() > 0 && is_space(s[0]) {
        lemma_trim_start_index(s.drop_first());
        assert forall|i: int| 0 <= i < trim_start_index(s) implies is_space(#[trigger] s[i]) by {
            if i > 0 {
                assert(s[i] == s.drop_first()[i - 1]);
            }
        }
    }
}

pub proof fn lemma_trim_end_index(s: Seq<char>)
    ensures
        0 <= trim_end_index(s) <= s.len(),
        forall|i: int| trim_end_index(s) <= i < s.len() ==> is_space(#[trigger] s[i]),
        trim_end_index(s) > 0 ==> !is_space(s[trim_end_index(s) - 1]),
    decreases s.len(),
{
    if s.len() > 0 && is_space(s.last()) {
        lemma_trim_end_index(s.drop_last());
        assert forall|i: int| trim_end_index(s) <= i < s.len() implies is_space(#[trigger] s[i]) by {
            if i < s.len() - 1 {
                assert(s[i] == s.drop_last()[i]);
            }
        }
    }
}

/// The first index at or after `from` whose character is not white space.
pub fn first_non_space(v: &Vec<char>) -> (i: usize)
    ensures
        i == trim_start_index(v@),
{
    proof { lemma_trim_start_index(v@); }
    let mut i: usize = 0;
    while i < v.len() && is_space_char(v[i])
        invariant
            i <= v@.len(),
            forall|j: int| 0 <= j < i ==> is_space(#[trigger] v@[j]),
            trim_start_index(v@) >= i,
        decreases v.len() - i,
    {
        proof { lemma_start_index_skip(v@, i as int); }
        i = i + 1;
    }
    proof {
        if i < v@.len() {
            lemma_start_index_stop(v@, i as int);
        }
    }
    i
}

proof fn lemma_start_index_skip(s: Seq<char>, i: int)
    requires
        0 <= i < s.len(),
        forall|j: int| 0 <= j <= i ==> is_space(#[trigger] s[j]),
    ensures
        trim_start_index(s) > i,
    decreases i,
{
    assert(is_space(s[0]));
    lemma_trim_start_index(s.drop_first());
    if i > 0 {
        assert forall|j: int| 0 <= j <= i - 1 implies is_space(#[trigger] s.drop_first()[j]) by {
            assert(s.drop_first()[j] == s[j + 1]);
        }
        lemma_start_index_skip(s.drop_first(), i - 1);
    }
}

proof fn lemma_start_index_stop(s: Seq<char>, i: int)
    requires
        0 <= i < s.len(),
        forall|j: int| 0 <= j < i ==> is_space(#[trigger] s[j]),
        !is_space(s[i]),
    ensures
        trim_start_index(s) == i,
    decreases i,
{
    if i > 0 {
        assert forall|j: int| 0 <= j < i - 1 implies is_space(#[trigger] s.drop_first()[j]) by {
            assert(s.drop_first()[j] == s[j + 1]);
        }
        assert(is_space(s[0]));
        lemma_start_index_stop(s.drop_first(), i - 1);
    }
}

proof fn lemma_end_index_skip(s: Seq<char>, e: int)
    requires
        0 <= e < s.len(),
        forall|j: int| e <= j < s.len() ==> is_space(#[trigger] s[j]),
    ensures
        trim_end_index(s) <= e,
    decreases s.len(),
{
    assert(is_space(s[s.len() - 1]));
    lemma_trim_end_index(s.drop_last());
    if e < s.len() - 1 {
        assert forall|j: int| e <= j < s.drop_last().len() implies is_space(#[trigger] s.drop_last()[j]) by {
            assert(s.drop_last()[j] == s[j]);
        }
        lemma_end_index_skip(s.drop_last(), e);
    }
}

proof fn lemma_end_index_stop(s: Seq<char>, e: int)
    requires
        0 < e <= s.len(),
        forall|j: int| e <= j < s.len() ==> is_space(#[trigger] s[j]),
        !is_space(s[e - 1]),
    ensures
        trim_end_index(s) == e,
    decreases s.len(),
{
    if e < s.len() {
        assert forall|j: int| e <= j < s.drop_last().len() implies is_space(#[trigger] s.drop_last()[j]) by {
            assert(s.drop_last()[j] == s[j]);
        }
        assert(is_space(s.last()));
        lemma_end_index_stop(s.drop_last(), e);
    }
}

/// `s` without leading and trailing white space (`str::trim`).
pub fn trim(s: &str) -> (r: String)
    ensures
        r@ == spec_trim(s@),
{
    let v = to_chars(s);
    trim_chars(&v)
}

/// `v` without leading and trailing white space, as a string.
pub fn trim_chars(v: &Vec<char>) -> (r: String)
    ensures
        r@ == spec_trim(v@),
{
    proof {
        lemma_trim_start_index(v@);
        lemma_trim_end_index(v@);
    }
    let a = first_non_space(v);
    if a >= v.len() {
        return String::new();
    }
    let mut e: usize = v.len();
    while e > a && is_space_char(v[e - 1])
        invariant
            a < v@.len(),
            !is_space(v@[a as int]),
            a <= e <= v@.len(),
            forall|j: int| e <= j < v@.len() ==> is_space(#[trigger] v@[j]),
        decreases e,
    {
        e = e - 1;
    }
    proof {
        if e < v@.len() {
            lemma_end_index_skip(v@, e as int);
        }
        lemma_end_index_stop(v@, e as int);
    }
    string_of(v.as_slice(), a, e)
}


/// Index of the first `c` in `s`.
pub open spec fn find_char(s: Seq<char>, c: char) -> Option<int>
    decreases s.len(),
{
    if s.len() == 0 {
        None
    } else if s[0] == c {
        Some(0)
    } else {
        match find_char(s.drop_first(), c) {
            Some(i) => Some(i + 1),
            None => None,
        }
    }
}

/// `find_char` gives the first position holding `c`.
pub proof fn lemma_find_char_at(s: Seq<char>, c: char, k: int)
    requires
        0 <= k < s.len(),
        s[k] == c,
        forall|j: int| 0 <= j < k ==> #[trigger] s[j] != c,
    ensures
        find_char(s, c) == Some(k),
    decreases k,
{
    if k > 0 {
        assert(s[0] != c);
        assert forall|j: int| 0 <= j < k - 1 implies #[trigger] s.drop_first()[j] != c by {
            assert(s.drop_first()[j] == s[j + 1]);
        }
        lemma_find_char_at(s.drop_first(), c, k - 1);
    }
}

/// `find_char` finds nothing where `c` does not occur.
pub proof fn lemma_find_char_none(s: Seq<char>, c: char)
    requires
        forall|j: int| 0 <= j < s.len() ==> #[trigger] s[j] != c,
    ensures
        find_char(s, c) is None,
    decreases s.len(),
{
    if s.len() > 0 {
        assert(s[0] != c);
        assert forall|j: int| 0 <= j < s.drop_first().len() implies #[trigger] s.drop_first()[j] != c by {
            assert(s.drop_first()[j] == s[j + 1]);
        }
        lemma_find_char_none(s.drop_first(), c);
    }
}

/// What `find_char` returns lies in `s` and holds `c`, with no `c` before it.
pub proof fn lemma_find_char(s: Seq<char>, c: char)
    ensures
        find_char(s, c) matches Some(i) ==> 0 <= i < s.len() && s[i] == c && forall|j: int|
            0 <= j < i ==> #[trigger] s[j] != c,
        find_char(s, c) is None ==> forall|j: int| 0 <= j < s.len() ==> #[trigger] s[j] != c,
    decreases s.len(),
{
    if s.len() > 0 && s[0] != c {
        lemma_find_char(s.drop_first(), c);
        assert forall|j: int| 1 <= j < s.len() implies #[trigger] s[j] == s.drop_first()[j - 1] by {}
    }
}

/// The first index in `v[from..to]` holding `c`.
pub fn find_in(v: &Vec<char>, from: usize, to: usize, c: char) -> (r: Option<usize>)
    requires
        from <= to <= v@.len(),
    ensures
        match find_char(v@.subrange(from as int, to as int), c) {
            Some(i) => r == Some((from + i) as usize),
            None => r is None,
        },
{
    let ghost s = v@.subrange(from as int, to as int);
    let mut i = from;
    while i < to
        invariant
            from <= i <= to <= v@.len(),
            s == v@.subrange(from as int, to as int),
            forall|j: int| from <= j < i ==> #[trigger] v@[j] != c,
        decreases to - i,
    {
        if v[i] == c {
            proof {
                assert(s[i - from] == v@[i as int]);
                assert forall|j: int| 0 <= j < i - from implies #[trigger] s[j] != c by {
                    assert(s[j] == v@[from + j]);
                }
                lemma_find_char_at(s, c, i - from);
            }
            return Some(i);
        }
        i = i + 1;
    }
    proof {
        assert forall|j: int| 0 <= j < s.len() implies #[trigger] s[j] != c by {
            assert(s[j] == v@[from + j]);
        }
        lemma_find_char_none(s, c);
    }
    None
}

/// The pieces of `s` between the occurrences of `c` (`str::split`): there is
/// always at least one, possibly empty.
pub open spec fn split_on(s: Seq<char>, c: char) -> Seq<Seq<char>>
    decreases s.len(),
{
    match find_char(s, c) {
        None => seq![s],
        Some(i) => {
            if 0 <= i < s.len() {
                seq![s.subrange(0, i)] + split_on(s.subrange(i + 1, s.len() as int), c)
            } else {
                seq![s]
            }
        },
    }
}

/// `s` split at its first `c` (`str::split_once`).
pub open spec fn split_once(s: Seq<char>, c: char) -> Option<(Seq<char>, Seq<char>)> {
    match find_char(s, c) {
        None => None,
        Some(i) => Some((s.subrange(0, i), s.subrange(i + 1, s.len() as int))),
    }
}

/// Index of the first white space character of `s`, or its length.
pub open spec fn word_end(s: Seq<char>) -> int
    decreases s.len(),
{
    if s.len() == 0 || is_space(s[0]) {
        0
    } else {
        1 + word_end(s.drop_first())
    }
}

/// The words of `s`: its maximal runs of non-white-space characters
/// (`str::split_whitespace`).
pub open spec fn words(s: Seq<char>) -> Seq<Seq<char>>
    decreases s.len(),
{
    if s.len() == 0 {
        Seq::empty()
    } else if is_space(s[0]) {
        words(s.drop_first())
    } else {
        let k = word_end(s);
        if 0 < k <= s.len() {
            seq![s.subrange(0, k)] + words(s.subrange(k, s.len() as int))
        } else {
            seq![s]
        }
    }
}

pub proof fn lemma_word_end(s: Seq<char>)
    ensures
        0 <= word_end(s) <= s.len(),
        forall|j: int| 0 <= j < word_end(s) ==> !is_space(#[trigger] s[j]),
        word_end(s) < s.len() ==> is_space(s[word_end(s)]),
    decreases s.len(),
{
    if s.len() > 0 && !is_space(s[0]) {
        lemma_word_end(s.drop_first());
        assert forall|j: int| 0 <= j < word_end(s) implies !is_space(#[trigger] s[j]) by {
            if j > 0 {
                assert(s[j] == s.drop_first()[j - 1]);
            }
        }
    }
}

proof fn lemma_words_skip_spaces(s: Seq<char>, a: int)
    requires
        0 <= a <= s.len(),
        forall|j: int| 0 <= j < a ==> is_space(#[trigger] s[j]),
    ensures
        words(s) == words(s.subrange(a, s.len() as int)),
    decreases a,
{
    if a == 0 {
        assert(s.subrange(0, s.len() as int) =~= s);
    } else {
        assert(is_space(s[0]));
        assert forall|j: int| 0 <= j < a - 1 implies is_space(#[trigger] s.drop_first()[j]) by {
            assert(s.drop_first()[j] == s[j + 1]);
        }
        lemma_words_skip_spaces(s.drop_first(), a - 1);
        assert(s.drop_first().subrange(a - 1, s.drop_first().len() as int) =~= s.subrange(a, s.len() as int));
    }
}

proof fn lemma_word_end_at(s: Seq<char>, b: int)
    requires
        0 <= b <= s.len(),
        forall|j: int| 0 <= j < b ==> !is_space(#[trigger] s[j]),
        b < s.len() ==> is_space(s[b]),
    ensures
        word_end(s) == b,
    decreases b,
{
    if b > 0 {
        assert forall|j: int| 0 <= j < b - 1 implies !is_space(#[trigger] s.drop_first()[j]) by {
            assert(s.drop_first()[j] == s[j + 1]);
        }
        assert(b - 1 < s.drop_first().len() ==> s.drop_first()[b - 1] == s[b]);
        lemma_word_end_at(s.drop_first(), b - 1);
        assert(!is_space(s[0]));
    }
}

/// `v[from..]` skipping white space: the first index at or after `from` that
/// is not white space (or the length).
fn skip_spaces(v: &Vec<char>, from: usize) -> (i: usize)
    requires
        from <= v@.len(),
    ensures
        from <= i <= v@.len(),
        forall|j: int| from <= j < i ==> is_space(#[trigger] v@[j]),
        i < v@.len() ==> !is_space(v@[i as int]),
{
    let mut i = from;
    while i < v.len() && is_space_char(v[i])
        invariant
            from <= i <= v@.len(),
            forall|j: int| from <= j < i ==> is_space(#[trigger] v@[j]),
        decreases v.len() - i,
    {
        i = i + 1;
    }
    i
}

/// The first white space index at or after `from` (or the length).
fn skip_word(v: &Vec<char>, from: usize) -> (i: usize)
    requires
        from <= v@.len(),
    ensures
        from <= i <= v@.len(),
        forall|j: int| from <= j < i ==> !is_space(#[trigger] v@[j]),
        i < v@.len() ==> is_space(v@[i as int]),
{
    let mut i = from;
    while i < v.len() && !is_space_char(v[i])
        invariant
            from <= i <= v@.len(),
            forall|j: int| from <= j < i ==> !is_space(#[trigger] v@[j]),
        decreases v.len() - i,
    {
        i = i + 1;
    }
    i
}

/// Where the first word of `v[from..]` lies, if there is one: `(start, end)`,
/// with `words(v[from..])` being that word followed by the words of
/// `v[end..]`.
pub fn next_word(v: &Vec<char>, from: usize) -> (r: Option<(usize, usize)>)
    requires
        from <= v@.len(),
    ensures
        match r {
            None => words(v@.subrange(from as int, v@.len() as int)) == Seq::<Seq<char>>::empty(),
            Some((a, b)) => from <= a < b <= v@.len() && words(v@.subrange(from as int, v@.len() as int))
                == seq![v@.subrange(a as int, b as int)] + words(v@.subrange(b as int, v@.len() as int)),
        },
{
    let a = skip_spaces(v, from);
    let ghost s = v@.subrange(from as int, v@.len() as int);
    proof {
        assert forall|j: int| 0 <= j < a - from implies is_space(#[trigger] s[j]) by {
            assert(s[j] == v@[from + j]);
        }
        lemma_words_skip_spaces(s, a - from);
        assert(s.subrange(a - from, s.len() as int) =~= v@.subrange(a as int, v@.len() as int));
    }
    if a == v.len() {
        proof {
            assert(v@.subrange(a as int, v@.len() as int) =~= Seq::<char>::empty());
        }
        return None;
    }
    let b = skip_word(v, a);
    proof {
        let t = v@.subrange(a as int, v@.len() as int);
        assert forall|j: int| 0 <= j < b - a implies !is_space(#[trigger] t[j]) by {
            assert(t[j] == v@[a + j]);
        }
        if b < v@.len() {
            assert(t[b - a] == v@[b as int]);
        }
        lemma_word_end_at(t, b - a);
        assert(t[0] == v@[a as int]);
        assert(t.subrange(0, b - a) =~= v@.subrange(a as int, b as int));
        assert(t.subrange(b - a, t.len() as int) =~= v@.subrange(b as int, v@.len() as int));
    }
    Some((a, b))
}

/// The words of `s` (`str::split_whitespace`).
pub fn words_of(s: &str) -> (r: Vec<String>)
    ensures
        strings_of(r@) == words(s@),
{
    let v = to_chars(s);
    let n = v.len();
    let mut out: Vec<String> = Vec::new();
    let mut from: usize = 0;
    assert(v@.subrange(0, n as int) =~= v@);
    while from < n
        invariant
            n == v@.len(),
            v@ == s@,
            from <= n,
            words(s@) == strings_of(out@) + words(v@.subrange(from as int, n as int)),
        decreases n - from,
    {
        match next_word(&v, from) {
            None => {
                assert(strings_of(out@) + Seq::<Seq<char>>::empty() =~= strings_of(out@));
                assert(v@.subrange(n as int, n as int) =~= Seq::<char>::empty());
                from = n;
            },
            Some((a, b)) => {
                let ghost before = out@;
                let w = string_of(v.as_slice(), a, b);
                out.push(w);
                assert(strings_of(out@) =~= strings_of(before).push(w@));
                assert(strings_of(before) + (seq![w@] + words(v@.subrange(b as int, n as int))) =~= strings_of(out@) + words(
                    v@.subrange(b as int, n as int),
                ));
                from = b;
            },
        }
    }
    assert(words(v@.subrange(n as int, n as int)) =~= Seq::<Seq<char>>::empty()) by {
        assert(v@.subrange(n as int, n as int).len() == 0);
    }
    assert(strings_of(out@) + Seq::<Seq<char>>::empty() =~= strings_of(out@));
    out
}

/// `v[from..to]` as a vector of its own.
pub fn sub_vec(v: &Vec<char>, from: usize, to: usize) -> (r: Vec<char>)
    requires
        from <= to <= v@.len(),
    ensures
        r@ == v@.subrange(from as int, to as int),
{
    let mut r: Vec<char> = Vec::new();
    let mut i = from;
    while i < to
        invariant
            from <= i <= to <= v@.len(),
            r@ == v@.subrange(from as int, i as int),
        decreases to - i,
    {
        r.push(v[i]);
        assert(r@ =~= v@.subrange(from as int, i + 1));
        i = i + 1;
    }
    r
}

/// Whether two strings are equal.
pub fn str_eq(a: &str, b: &str) -> (r: bool)
    ensures
        r == (a@ == b@),
{
    let n = a.unicode_len();
    if n != b.unicode_len() {
        return false;
    }
    let mut i: usize = 0;
    while i < n
        invariant
            n == a@.len(),
            n == b@.len(),
            i <= n,
            forall|j: int| 0 <= j < i ==> #[trigger] a@[j] == b@[j],
        decreases n - i,
    {
        if a.get_char(i) != b.get_char(i) {
            return false;
        }
        i = i + 1;
    }
    assert(a@ =~= b@);
    true
}

/// The first line of a text, as `str::lines` gives it: up to the first
/// `\n`, without the `\r` of a `\r\n`; `None` for an empty text.
pub open spec fn first_line(s: Seq<char>) -> Option<Seq<char>> {
    if s.len() == 0 {
        None
    } else {
        match find_char(s, '\n') {
            Some(i) => {
                let l = s.subrange(0, i);
                if l.len() > 0 && l.last() == '\r' {
                    Some(l.drop_last())
                } else {
                    Some(l)
                }
            },
            None => Some(s),
        }
    }
}

/// Where the first line of `v` ends (see `first_line`), if `v` is not empty.
pub fn first_line_end(v: &Vec<char>) -> (r: Option<usize>)
    ensures
        match first_line(v@) {
            None => r is None,
            Some(l) => r matches Some(e) && e <= v@.len() && l == v@.subrange(0, e as int),
        },
{
    let n = v.len();
    if n == 0 {
        return None;
    }
    proof { assert(v@.subrange(0, n as int) =~= v@); }
    match find_in(v, 0, n, '\n') {
        Some(i) => {
            proof { lemma_find_char(v@, '\n'); }
            if i > 0 && v[i - 1] == '\r' {
                proof { assert(v@.subrange(0, i as int).drop_last() =~= v@.subrange(0, i - 1)); }
                Some(i - 1)
            } else {
                Some(i)
            }
        },
        None => Some(n),
    }
}

/// The pieces of `v[from..to]` between the occurrences of `sep`, as
/// ranges: piece `i` is `v[r[i].0 .. r[i].1]` (see `split_on`).
pub fn split_ranges(v: &Vec<char>, from: usize, to: usize, sep: char) -> (r: Vec<(usize, usize)>)
    requires
        from <= to <= v@.len(),
    ensures
        r@.len() == split_on(v@.subrange(from as int, to as int), sep).len(),
        Seq::new(r@.len(), |i: int| v@.subrange(r@[i].0 as int, r@[i].1 as int)) == split_on(
            v@.subrange(from as int, to as int),
            sep,
        ),
        forall|i: int| 0 <= i < r@.len() ==> (#[trigger] r@[i]).0 <= r@[i].1 <= v@.len(),
        forall|i: int|
            0 <= i < r@.len() ==> r@[i].0 <= r@[i].1 <= v@.len() && v@.subrange(
                r@[i].0 as int,
                r@[i].1 as int,
            ) == #[trigger] split_on(v@.subrange(from as int, to as int), sep)[i],
{
    let ghost whole = split_on(v@.subrange(from as int, to as int), sep);
    let mut r: Vec<(usize, usize)> = Vec::new();
    let mut p = from;
    loop
        invariant
            from <= p <= to <= v@.len(),
            whole == split_on(v@.subrange(from as int, to as int), sep),
            whole == Seq::new(r@.len(), |i: int| v@.subrange(r@[i].0 as int, r@[i].1 as int))
                + split_on(v@.subrange(p as int, to as int), sep),
            forall|i: int| 0 <= i < r@.len() ==> (#[trigger] r@[i]).0 <= r@[i].1 <= v@.len(),
        ensures
            r@.len() == whole.len(),
            Seq::new(r@.len(), |i: int| v@.subrange(r@[i].0 as int, r@[i].1 as int)) == whole,
            forall|i: int| 0 <= i < r@.len() ==> r@[i].0 <= r@[i].1 <= v@.len() && v@.subrange(
                r@[i].0 as int,
                r@[i].1 as int,
            ) == #[trigger] whole[i],
        decreases to - p,
    {
        let ghost s = v@.subrange(p as int, to as int);
        let ghost done = Seq::new(r@.len(), |i: int| v@.subrange(r@[i].0 as int, r@[i].1 as int));
        proof { lemma_find_char(s, sep); }
        match find_in(v, p, to, sep) {
            Some(k) => {
                proof {
                    assert(s.subrange(0, k - p) =~= v@.subrange(p as int, k as int));
                    assert(s.subrange(k - p + 1, s.len() as int) =~= v@.subrange(k + 1, to as int));
                    assert(split_on(s, sep) == seq![v@.subrange(p as int, k as int)] + split_on(
                        v@.subrange(k + 1, to as int),
                        sep,
                    ));
                }
                r.push((p, k));
                proof {
                    assert(Seq::new(r@.len(), |i: int| v@.subrange(r@[i].0 as int, r@[i].1 as int))
                        =~= done + seq![v@.subrange(p as int, k as int)]);
                }
                p = k + 1;
            },
            None => {
                r.push((p, to));
                proof {
                    assert(split_on(s, sep) == seq![s]);
                    assert(Seq::new(r@.len(), |i: int| v@.subrange(r@[i].0 as int, r@[i].1 as int))
                        =~= done + seq![s]);
                    assert(whole =~= Seq::new(r@.len(), |i: int| v@.subrange(r@[i].0 as int, r@[i].1 as int)));
                    assert forall|i: int| 0 <= i < r@.len() implies v@.subrange(
                        r@[i].0 as int,
                        r@[i].1 as int,
                    ) == #[trigger] whole[i] by {
                        assert(whole[i] == Seq::new(r@.len(), |i: int| v@.subrange(r@[i].0 as int, r@[i].1 as int))[i]);
                    }
                }
                return r;
            },
        }
    }
}

/// `s` with every occurrence of `pat` replaced by `with`, left to right,
/// without looking again at what was put in (`str::replace`, for a
/// non-empty `pat`).
pub open spec fn spec_replace(s: Seq<char>, pat: Seq<char>, with: Seq<char>) -> Seq<char>
    decreases s.len(),
{
    if pat.len() == 0 || s.len() < pat.len() {
        s
    } else if s.subrange(0, pat.len() as int) == pat {
        with + spec_replace(s.subrange(pat.len() as int, s.len() as int), pat, with)
    } else {
        seq![s[0]] + spec_replace(s.drop_first(), pat, with)
    }
}

/// Whether `v[i..]` starts with `p`.
fn starts_at(v: &Vec<char>, i: usize, p: &Vec<char>) -> (r: bool)
    requires
        i <= v@.len(),
    ensures
        r == (v@.len() - i >= p@.len() && v@.subrange(i as int, i + p@.len()) == p@),
{
    if v.len() - i < p.len() {
        return false;
    }
    let mut j: usize = 0;
    while j < p.len()
        invariant
            i <= v@.len(),
            v@.len() - i >= p@.len(),
            i + p@.len() <= v.len(),
            j <= p@.len(),
            forall|m: int| 0 <= m < j ==> v@[i + m] == #[trigger] p@[m],
        decreases p.len() - j,
    {
        if v[i + j] != p[j] {
            assert(v@.subrange(i as int, i + p@.len())[j as int] != p@[j as int]);
            return false;
        }
        j = j + 1;
    }
    assert(v@.subrange(i as int, i + p@.len()) =~= p@);
    true
}

/// `s` with its first `pat` replaced by `with` (`str::replacen` with a
/// count of one, for a non-empty `pat`).
pub open spec fn spec_replace_first(s: Seq<char>, pat: Seq<char>, with: Seq<char>) -> Seq<char>
    decreases s.len(),
{
    if pat.len() == 0 || s.len() < pat.len() {
        s
    } else if s.subrange(0, pat.len() as int) == pat {
        with + s.subrange(pat.len() as int, s.len() as int)
    } else {
        seq![s[0]] + spec_replace_first(s.drop_first(), pat, with)
    }
}

/// `s` with its first `pat` replaced by `with` (`str::replacen(pat, with, 1)`).
pub fn replace_first(s: &str, pat: &str, with: &str) -> (r: String)
    requires
        pat@.len() > 0,
    ensures
        r@ == spec_replace_first(s@, pat@, with@),
{
    let v = to_chars(s);
    let p = to_chars(pat);
    let n = v.len();
    let mut i: usize = 0;
    assert(v@.subrange(0, n as int) =~= s@);
    assert(v@.subrange(0, 0) + v@.subrange(0, n as int) =~= v@.subrange(0, n as int));
    while i < n
        invariant
            i <= n,
            n == v@.len(),
            v@ == s@,
            p@ == pat@,
            p@.len() > 0,
            spec_replace_first(s@, pat@, with@) == v@.subrange(0, i as int) + spec_replace_first(
                v@.subrange(i as int, n as int),
                pat@,
                with@,
            ),
        decreases n - i,
    {
        let ghost rest = v@.subrange(i as int, n as int);
        if starts_at(&v, i, &p) {
            assert(rest.subrange(0, p@.len() as int) =~= v@.subrange(i as int, i + p@.len()));
            let mut r = string_of(v.as_slice(), 0, i);
            r.append(with);
            let tail = string_of(v.as_slice(), i + p.len(), n);
            r.append(tail.as_str());
            assert(rest.subrange(p@.len() as int, rest.len() as int) =~= v@.subrange(i + p@.len(), n as int));
            assert(r@ =~= v@.subrange(0, i as int) + (with@ + rest.subrange(p@.len() as int, rest.len() as int)));
            return r;
        }
        assert(rest.drop_first() =~= v@.subrange(i + 1, n as int));
        proof {
            if rest.len() < p@.len() {
                assert(rest.drop_first().len() < p@.len());
                assert(spec_replace_first(rest.drop_first(), pat@, with@) == rest.drop_first());
                assert(rest =~= seq![rest[0]] + rest.drop_first());
            } else {
                assert(rest.subrange(0, p@.len() as int) =~= v@.subrange(i as int, i + p@.len()));
                assert(rest.subrange(0, p@.len() as int) != p@);
            }
            assert(spec_replace_first(rest, pat@, with@) == seq![rest[0]] + spec_replace_first(rest.drop_first(), pat@, with@));
        }
        assert(v@.subrange(0, i as int) + (seq![rest[0]] + v@.subrange(i + 1, n as int)) =~= v@.subrange(0, i + 1) + v@.subrange(
            i + 1,
            n as int,
        ));
        assert(v@.subrange(0, i as int) + seq![rest[0]] =~= v@.subrange(0, i + 1));
        i = i + 1;
    }
    assert(v@.subrange(0, n as int) + v@.subrange(n as int, n as int) =~= s@);
    s.to_owned()
}

/// `s` with every `pat` replaced by `with` (`str::replace`).
pub fn replace_all(s: &str, pat: &str, with: &str) -> (r: String)
    requires
        pat@.len() > 0,
    ensures
        r@ == spec_replace(s@, pat@, with@),
{
    let v = to_chars(s);
    let p = to_chars(pat);
    let n = v.len();
    let mut out = String::new();
    let mut i: usize = 0;
    assert(v@.subrange(0, n as int) =~= v@);
    while i < n
        invariant
            n == v@.len(),
            p@ == pat@,
            p@.len() > 0,
            i <= n,
            out@ + spec_replace(v@.subrange(i as int, n as int), pat@, with@) == spec_replace(v@, pat@, with@),
        decreases n - i,
    {
        let ghost rest = v@.subrange(i as int, n as int);
        let ghost before = out@;
        if starts_at(&v, i, &p) {
            assert(rest.subrange(0, p@.len() as int) =~= v@.subrange(i as int, i + p@.len()));
            assert(rest.subrange(p@.len() as int, rest.len() as int) =~= v@.subrange(i + p@.len(), n as int));
            out.append(with);
            assert(out@ + spec_replace(v@.subrange(i + p@.len(), n as int), pat@, with@) =~= before
                + spec_replace(rest, pat@, with@));
            i = i + p.len();
        } else {
            proof {
                if rest.len() >= p@.len() {
                    assert(rest.subrange(0, p@.len() as int) =~= v@.subrange(i as int, i + p@.len()));
                }
            }
            push_char(&mut out, v[i]);
            assert(rest.drop_first() =~= v@.subrange(i + 1, n as int));
        proof {
            if rest.len() < p@.len() {
                assert(rest.drop_first().len() < p@.len());
                assert(spec_replace_first(rest.drop_first(), pat@, with@) == rest.drop_first());
                assert(rest =~= seq![rest[0]] + rest.drop_first());
            } else {
                assert(rest.subrange(0, p@.len() as int) =~= v@.subrange(i as int, i + p@.len()));
                assert(rest.subrange(0, p@.len() as int) != p@);
            }
            assert(spec_replace_first(rest, pat@, with@) == seq![rest[0]] + spec_replace_first(rest.drop_first(), pat@, with@));
        }
            assert(out@ + spec_replace(v@.subrange(i + 1, n as int), pat@, with@) =~= before
                + spec_replace(rest, pat@, with@));
            i = i + 1;
        }
    }
    assert(v@.subrange(n as int, n as int) =~= Seq::<char>::empty());
    assert(out@ + Seq::<char>::empty() =~= out@);
    out
}

/// `s` starts with `p`.
pub open spec fn starts_with(s: Seq<char>, p: Seq<char>) -> bool {
    p.len() <= s.len() && s.subrange(0, p.len() as int) == p
}

/// `p` occurs in `s`.
pub open spec fn contains(s: Seq<char>, p: Seq<char>) -> bool {
    exists|i: int| 0 <= i && i + p.len() <= s.len() && #[trigger] s.subrange(i, i + p.len()) == p
}

/// Whether `s` starts with `p` (`str::starts_with`).
pub fn starts_with_str(s: &str, p: &str) -> (r: bool)
    ensures
        r == starts_with(s@, p@),
{
    let n = p.unicode_len();
    if n > s.unicode_len() {
        return false;
    }
    let mut i: usize = 0;
    while i < n
        invariant
            n == p@.len() <= s@.len(),
            i <= n,
            forall|j: int| 0 <= j < i ==> s@[j] == #[trigger] p@[j],
        decreases n - i,
    {
        if s.get_char(i) != p.get_char(i) {
            assert(s@.subrange(0, n as int)[i as int] != p@[i as int]);
            return false;
        }
        i = i + 1;
    }
    assert(s@.subrange(0, n as int) =~= p@);
    true
}

/// Whether `p` occurs in `s` (`str::contains`).
pub fn contains_str(s: &str, p: &str) -> (r: bool)
    ensures
        r == contains(s@, p@),
{
    let v = to_chars(s);
    let w = to_chars(p);
    let n = v.len();
    let m = w.len();
    if m > n {
        return false;
    }
    let mut i: usize = 0;
    while i <= n - m
        invariant
            n == v@.len(),
            m == w@.len(),
            m <= n,
            v@ == s@,
            w@ == p@,
            forall|k: int| 0 <= k < i ==> #[trigger] s@.subrange(k, k + m) != p@,
        decreases n - m + 1 - i,
    {
        let mut j: usize = 0;
        let mut same = true;
        while j < m
            invariant
                i <= n - m,
                n == v@.len(),
                m == w@.len(),
                j <= m,
                same == forall|x: int| 0 <= x < j ==> v@[i + x] == #[trigger] w@[x],
            decreases m - j,
        {
            if v[i + j] != w[j] {
                same = false;
            }
            j = j + 1;
        }
        if same {
            assert(s@.subrange(i as int, i + m) =~= p@);
            return true;
        }
        assert(s@.subrange(i as int, i + m) != p@) by {
            let x = choose|x: int| 0 <= x < m && !(v@[i + x] == #[trigger] w@[x]);
            assert(s@.subrange(i as int, i + m)[x] == v@[i + x]);
        }
        i = i + 1;
    }
    assert forall|k: int| 0 <= k && k + p@.len() <= s@.len() implies #[trigger] s@.subrange(k, k + p@.len()) != p@ by {
        assert(k < i);
    }
    false
}

/// `l` without a final `\r`.
pub open spec fn strip_cr(l: Seq<char>) -> Seq<char> {
    if l.len() > 0 && l.last() == '\r' {
        l.drop_last()
    } else {
        l
    }
}

/// The lines of a text (`str::lines`): split at each `\n`, the `\r` of a
/// `\r\n` dropped, no empty line after a final `\n`.
pub open spec fn spec_lines(s: Seq<char>) -> Seq<Seq<char>>
    decreases s.len(),
{
    if s.len() == 0 {
        Seq::empty()
    } else {
        match find_char(s, '\n') {
            None => seq![s],
            Some(i) => if 0 <= i < s.len() {
                seq![strip_cr(s.subrange(0, i))] + spec_lines(s.subrange(i + 1, s.len() as int))
            } else {
                seq![s]
            },
        }
    }
}

/// No line of a text holds a `\n`.
pub proof fn lemma_lines_without_newline(s: Seq<char>)
    ensures
        forall|i: int, j: int| 0 <= i < spec_lines(s).len() && 0 <= j < spec_lines(s)[i].len() ==> #[trigger] spec_lines(s)[i][j] != '\n',
    decreases s.len(),
{
    if s.len() > 0 {
        lemma_find_char(s, '\n');
        match find_char(s, '\n') {
            None => {
                assert forall|i: int, j: int| 0 <= i < spec_lines(s).len() && 0 <= j < spec_lines(s)[i].len() implies #[trigger] spec_lines(s)[i][j] != '\n' by {
                    assert(spec_lines(s)[i] == s);
                }
            },
            Some(k) => {
                let rest = s.subrange(k + 1, s.len() as int);
                lemma_lines_without_newline(rest);
                let first = strip_cr(s.subrange(0, k));
                assert forall|i: int, j: int| 0 <= i < spec_lines(s).len() && 0 <= j < spec_lines(s)[i].len() implies #[trigger] spec_lines(s)[i][j] != '\n' by {
                    if i == 0 {
                        assert(spec_lines(s)[0] == first);
                        assert(first[j] == s[j]);
                    } else {
                        assert(spec_lines(s)[i] == spec_lines(rest)[i - 1]);
                    }
                }
            },
        }
    }
}

/// A line without `\n`, its `\n`, then the rest: the line (without a
/// final `\r`), then the lines of the rest.
pub proof fn lemma_lines_of_line(l: Seq<char>, rest: Seq<char>)
    requires
        forall|j: int| 0 <= j < l.len() ==> #[trigger] l[j] != '\n',
    ensures
        spec_lines(l + seq!['\n'] + rest) == seq![strip_cr(l)] + spec_lines(rest),
{
    let s = l + seq!['\n'] + rest;
    assert forall|j: int| 0 <= j < l.len() implies #[trigger] s[j] != '\n' by {
        assert(s[j] == l[j]);
    }
    assert(s[l.len() as int] == '\n');
    lemma_find_char_at(s, '\n', l.len() as int);
    assert(s.subrange(0, l.len() as int) =~= l);
    assert(s.subrange(l.len() as int + 1, s.len() as int) =~= rest);
}

/// The contents of a list of strings.
pub open spec fn strings_of(v: Seq<String>) -> Seq<Seq<char>> {
    Seq::new(v.len(), |i: int| v[i]@)
}

/// The lines of `s` (see `spec_lines`).
pub fn lines_of(s: &str) -> (r: Vec<String>)
    ensures
        strings_of(r@) == spec_lines(s@),
{
    let v = to_chars(s);
    let n = v.len();
    let mut r: Vec<String> = Vec::new();
    let mut p: usize = 0;
    assert(v@.subrange(0, n as int) =~= v@);
    while p < n
        invariant
            n == v@.len(),
            v@ == s@,
            p <= n,
            strings_of(r@) + spec_lines(v@.subrange(p as int, n as int)) == spec_lines(s@),
        decreases n - p,
    {
        let ghost rest = v@.subrange(p as int, n as int);
        proof { lemma_find_char(rest, '\n'); }
        let ghost before = r@;
        match find_in(&v, p, n, '\n') {
            Some(k) => {
                let e = if k > p && v[k - 1] == '\r' { k - 1 } else { k };
                let line = string_of(v.as_slice(), p, e);
                proof {
                    assert(rest.subrange(0, k - p) =~= v@.subrange(p as int, k as int));
                    assert(strip_cr(v@.subrange(p as int, k as int)) =~= v@.subrange(p as int, e as int));
                    assert(rest.subrange(k - p + 1, rest.len() as int) =~= v@.subrange(k + 1, n as int));
                }
                r.push(line);
                assert(strings_of(r@) =~= strings_of(before).push(line@));
                assert(strings_of(r@) + spec_lines(v@.subrange(k + 1, n as int)) =~= strings_of(before)
                    + spec_lines(rest));
                p = k + 1;
            },
            None => {
                let line = string_of(v.as_slice(), p, n);
                r.push(line);
                assert(strings_of(r@) =~= strings_of(before).push(line@));
                assert(v@.subrange(n as int, n as int) =~= Seq::<char>::empty());
                assert(strings_of(r@) + spec_lines(v@.subrange(n as int, n as int)) =~= strings_of(before)
                    + spec_lines(rest));
                p = n;
            },
        }
    }
    assert(v@.subrange(n as int, n as int) =~= Seq::<char>::empty());
    assert(strings_of(r@) + Seq::<Seq<char>>::empty() =~= strings_of(r@));
    r
}

/// The first `n` characters of `s` (`s.chars().take(n).collect()`).
pub fn take_chars(s: &str, n: usize) -> (r: String)
    ensures
        r@ == if s@.len() <= n { s@ } else { s@.subrange(0, n as int) },
{
    let v = to_chars(s);
    if v.len() <= n {
        assert(v@.subrange(0, v@.len() as int) =~= v@);
        string_of(v.as_slice(), 0, v.len())
    } else {
        string_of(v.as_slice(), 0, n)
    }
}

/// Index of the last `c` in `s`.
pub open spec fn rfind_char(s: Seq<char>, c: char) -> Option<int>
    decreases s.len(),
{
    if s.len() == 0 {
        None
    } else if s.last() == c {
        Some(s.len() - 1)
    } else {
        rfind_char(s.drop_last(), c)
    }
}

/// What is before the last `c` of `s` (`str::rsplit_once(c)`'s first part).
pub open spec fn before_last(s: Seq<char>, c: char) -> Option<Seq<char>> {
    match rfind_char(s, c) {
        Some(i) => Some(s.subrange(0, i)),
        None => None,
    }
}

/// What is before the last `c` of `s`, if `c` occurs in it.
pub fn before_last_char(s: &str, c: char) -> (r: Option<String>)
    ensures
        match before_last(s@, c) {
            Some(b) => (r matches Some(x) && x@ == b),
            None => r is None,
        },
{
    let v = to_chars(s);
    let mut i = v.len();
    assert(v@.subrange(0, i as int) =~= v@);
    while i > 0
        invariant
            i <= v@.len(),
            v@ == s@,
            rfind_char(s@, c) == rfind_char(v@.subrange(0, i as int), c),
        decreases i,
    {
        if v[i - 1] == c {
            return Some(string_of(v.as_slice(), 0, i - 1));
        }
        assert(v@.subrange(0, i as int).drop_last() =~= v@.subrange(0, i - 1));
        i = i - 1;
    }
    None
}


/// `a` comes before `b`, or equals it, in the order of Rust's `str`:
/// character by character (by code point, which is also the order of their
/// UTF-8 bytes), a prefix first.
pub open spec fn lex_le(a: Seq<char>, b: Seq<char>) -> bool
    decreases a.len(),
{
    if a.len() == 0 {
        true
    } else if b.len() == 0 {
        false
    } else if a[0] != b[0] {
        (a[0] as int) < (b[0] as int)
    } else {
        lex_le(a.drop_first(), b.drop_first())
    }
}

/// Of two texts one comes first.
pub proof fn lemma_lex_total(a: Seq<char>, b: Seq<char>)
    ensures
        lex_le(a, b) || lex_le(b, a),
    decreases a.len(),
{
    if a.len() > 0 && b.len() > 0 {
        if a[0] == b[0] {
            lemma_lex_total(a.drop_first(), b.drop_first());
        } else {
            assert((a[0] as int) != (b[0] as int));
        }
    }
}

/// The order is transitive.
pub proof fn lemma_lex_trans(a: Seq<char>, b: Seq<char>, c: Seq<char>)
    requires
        lex_le(a, b),
        lex_le(b, c),
    ensures
        lex_le(a, c),
    decreases a.len(),
{
    if a.len() > 0 && b.len() > 0 && c.len() > 0 && a[0] == b[0] && b[0] == c[0] {
        lemma_lex_trans(a.drop_first(), b.drop_first(), c.drop_first());
    }
}

/// See `lex_le`.
pub fn str_le(a: &str, b: &str) -> (r: bool)
    ensures
        r == lex_le(a@, b@),
{
    let n = a.unicode_len();
    let m = b.unicode_len();
    let mut i: usize = 0;
    assert(a@.subrange(0, n as int) =~= a@);
    assert(b@.subrange(0, m as int) =~= b@);
    while i < n
        invariant
            n == a@.len(),
            m == b@.len(),
            i <= n,
            i <= m,
            lex_le(a@, b@) == lex_le(a@.subrange(i as int, n as int), b@.subrange(i as int, m as int)),
        decreases n - i,
    {
        let ghost sa = a@.subrange(i as int, n as int);
        let ghost sb = b@.subrange(i as int, m as int);
        if i == m {
            return false;
        }
        let x = a.get_char(i);
        let y = b.get_char(i);
        assert(sa[0] == x && sb[0] == y);
        if x != y {
            return (x as u32) < (y as u32);
        }
        assert(sa.drop_first() =~= a@.subrange(i + 1, n as int));
        assert(sb.drop_first() =~= b@.subrange(i + 1, m as int));
        i = i + 1;
    }
    true
}

} // verus!

//! The client's command line: splitting it into words and reading commands
//! from them, and the shortening of decimal texts for display.
use vstd::prelude::*;
use vstd::string::{StrSliceExecFns, StringExecFns, StringSliceAdditionalSpecFns};
use vstd::utf8::{encode_utf8, is_char_boundary};

use crate::text::str_equals;

verus! {

// ── Splitting into words ───────────────────────────────────────────────────
/// Splitting state: the words so far, the word being read, and whether a
/// quotation is open.
pub open spec fn split_step(st: (Seq<Seq<char>>, Seq<char>, bool), c: char) -> (
    Seq<Seq<char>>,
    Seq<char>,
    bool,
) {
    let (words, current, quoted) = st;
    if c == '"' || c == '\'' {
        (words, current, !quoted)
    } else if c == ' ' && !quoted {
        if current.len() > 0 {
            (words.push(current), Seq::empty(), quoted)
        } else {
            (words, current, quoted)
        }
    } else {
        (words, current.push(c), quoted)
    }
}

/// The splitting state after reading `s`.
pub open spec fn split_state(s: Seq<char>) -> (Seq<Seq<char>>, Seq<char>, bool)
    decreases s.len(),
{
    if s.len() == 0 {
        (Seq::empty(), Seq::empty(), false)
    } else {
        split_step(split_state(s.drop_last()), s.last())
    }
}

/// The words of a command line: spaces separate words except inside quotes
/// (single or double, either closing either), and the quote characters
/// themselves are dropped.
pub open spec fn words_of(s: Seq<char>) -> Seq<Seq<char>> {
    let st = split_state(s);
    if st.1.len() > 0 {
        st.0.push(st.1)
    } else {
        st.0
    }
}

/// The texts of a list of strings.
pub open spec fn word_texts(v: Seq<String>) -> Seq<Seq<char>> {
    v.map_values(|s: String| s@)
}

/// Splits a command line into words.
pub fn tokenize(input: &str) -> (r: Vec<String>)
    ensures
        word_texts(r@) == words_of(input@),
{
    let n = input.unicode_len();
    let mut tokens: Vec<String> = Vec::new();
    let mut current = String::new();
    let mut in_quotes = false;
    let mut i: usize = 0;
    while i < n
        invariant
            n == input@.len(),
            i <= n,
            (word_texts(tokens@), current@, in_quotes) == split_state(input@.take(i as int)),
        decreases n - i,
    {
        let ch = input.get_char(i);
        proof {
            let p = input@.take(i as int + 1);
            assert(p.drop_last() =~= input@.take(i as int));
            assert(p.last() == ch);
        }
        if ch == '"' || ch == '\'' {
            in_quotes = !in_quotes;
        } else if ch == ' ' && !in_quotes {
            if current.unicode_len() > 0 {
                let ghost before = tokens@;
                tokens.push(current);
                current = String::new();
                proof {
                    assert(word_texts(tokens@) =~= word_texts(before).push(tokens@.last()@));
                }
            }
        } else {
            current.append(input.substring_char(i, i + 1));
            proof {
                assert(input@.subrange(i as int, i + 1) =~= seq![ch]);
            }
        }
        i = i + 1;
    }
    proof {
        assert(input@.take(n as int) =~= input@);
    }
    if current.unicode_len() > 0 {
        let ghost before = tokens@;
        tokens.push(current);
        proof {
            assert(word_texts(tokens@) =~= word_texts(before).push(tokens@.last()@));
        }
    }
    tokens
}

proof fn lemma_split_state_words(s: Seq<char>)
    ensures
        forall|k: int|
            0 <= k < split_state(s).0.len() ==> {
                &&& (#[trigger] split_state(s).0[k]).len() > 0
                &&& !split_state(s).0[k].contains('"')
                &&& !split_state(s).0[k].contains('\'')
            },
        !split_state(s).1.contains('"'),
        !split_state(s).1.contains('\''),
    decreases s.len(),
{
    if s.len() > 0 {
        lemma_split_state_words(s.drop_last());
        let prev = split_state(s.drop_last());
        let c = s.last();
        if !(c == '"' || c == '\'') && !(c == ' ' && !prev.2) {
            assert forall|x: char| prev.1.push(c).contains(x) implies x == c || prev.1.contains(x) by {
                let j = choose|j: int| 0 <= j < prev.1.push(c).len() && prev.1.push(c)[j] == x;
                if j < prev.1.len() {
                    assert(prev.1[j] == x);
                }
            }
        }
    }
}

/// No word is empty, and no word holds a quote character.
pub proof fn law_words_are_nonempty_and_unquoted(s: Seq<char>)
    ensures
        forall|k: int|
            0 <= k < words_of(s).len() ==> {
                &&& (#[trigger] words_of(s)[k]).len() > 0
                &&& !words_of(s)[k].contains('"')
                &&& !words_of(s)[k].contains('\'')
            },
{
    lemma_split_state_words(s);
}

/// The pieces of `s` between its spaces, empty ones included: one more
/// piece than there are spaces.
pub open spec fn space_pieces(s: Seq<char>) -> Seq<Seq<char>>
    decreases s.len(),
{
    if s.len() == 0 {
        seq![Seq::empty()]
    } else {
        let p = space_pieces(s.drop_last());
        if s.last() == ' ' {
            p.push(Seq::empty())
        } else {
            p.update(p.len() - 1, p.last().push(s.last()))
        }
    }
}

/// The non-empty words of `ws`, in order.
pub open spec fn non_empty(ws: Seq<Seq<char>>) -> Seq<Seq<char>> {
    ws.filter(|w: Seq<char>| w.len() > 0)
}

proof fn lemma_space_pieces(s: Seq<char>)
    requires
        !s.contains('"'),
        !s.contains('\''),
    ensures
        space_pieces(s).len() >= 1,
        split_state(s).0 == non_empty(space_pieces(s).drop_last()),
        split_state(s).1 == space_pieces(s).last(),
        !split_state(s).2,
    decreases s.len(),
{
    reveal_with_fuel(Seq::filter, 1);
    if s.len() > 0 {
        let p = s.drop_last();
        assert forall|c: char| p.contains(c) implies s.contains(c) by {
            let j = choose|j: int| 0 <= j < p.len() && p[j] == c;
            assert(s[j] == c);
        }
        lemma_space_pieces(p);
        let c = s.last();
        assert(s[s.len() - 1] == c);
        let pp = space_pieces(p);
        let cur = space_pieces(s);
        if c == ' ' {
            assert(cur.drop_last() =~= pp);
            assert(pp =~= pp.drop_last().push(pp.last()));
            if pp.last().len() > 0 {
            } else {
                assert(pp.last() =~= Seq::<char>::empty());
            }
        } else {
            assert(cur.drop_last() =~= pp.drop_last());
        }
    }
}

/// Outside quotes, splitting a command line is splitting it on spaces and
/// dropping the empty words.
pub proof fn law_unquoted_words_are_the_non_empty_space_pieces(s: Seq<char>)
    requires
        !s.contains('"'),
        !s.contains('\''),
    ensures
        words_of(s) == non_empty(space_pieces(s)),
{
    reveal_with_fuel(Seq::filter, 1);
    lemma_space_pieces(s);
    let pp = space_pieces(s);
    assert(pp =~= pp.drop_last().push(pp.last()));
}

/// A word that splitting keeps whole: not empty, without spaces or quotes.
pub open spec fn plain_word(w: Seq<char>) -> bool {
    &&& w.len() > 0
    &&& !w.contains(' ')
    &&& !w.contains('"')
    &&& !w.contains('\'')
}

/// `ws` written out with one space between each two.
pub open spec fn spaced(ws: Seq<Seq<char>>) -> Seq<char>
    decreases ws.len(),
{
    if ws.len() == 0 {
        Seq::empty()
    } else if ws.len() == 1 {
        ws[0]
    } else {
        spaced(ws.drop_last()) + seq![' '] + ws.last()
    }
}

/// The splitting state after reading `s` from the state `st`.
pub open spec fn split_from(st: (Seq<Seq<char>>, Seq<char>, bool), s: Seq<char>) -> (
    Seq<Seq<char>>,
    Seq<char>,
    bool,
)
    decreases s.len(),
{
    if s.len() == 0 {
        st
    } else {
        split_step(split_from(st, s.drop_last()), s.last())
    }
}

proof fn lemma_split_concat(a: Seq<char>, b: Seq<char>)
    ensures
        split_state(a + b) == split_from(split_state(a), b),
    decreases b.len(),
{
    if b.len() == 0 {
        assert(a + b =~= a);
    } else {
        lemma_split_concat(a, b.drop_last());
        assert((a + b).drop_last() =~= a + b.drop_last());
        assert((a + b).last() == b.last());
    }
}

proof fn lemma_split_plain(words: Seq<Seq<char>>, current: Seq<char>, w: Seq<char>)
    requires
        !w.contains(' '),
        !w.contains('"'),
        !w.contains('\''),
    ensures
        split_from((words, current, false), w) == (words, current + w, false),
    decreases w.len(),
{
    if w.len() == 0 {
        assert(current + w =~= current);
    } else {
        let p = w.drop_last();
        assert forall|c: char| p.contains(c) implies w.contains(c) by {
            let i = choose|i: int| 0 <= i < p.len() && p[i] == c;
            assert(w[i] == c);
        }
        lemma_split_plain(words, current, p);
        assert(w[w.len() - 1] == w.last());
        assert((current + p).push(w.last()) =~= current + w);
    }
}

proof fn lemma_split_spaced(ws: Seq<Seq<char>>)
    requires
        ws.len() > 0,
        forall|k: int| 0 <= k < ws.len() ==> plain_word(#[trigger] ws[k]),
    ensures
        split_state(spaced(ws)) == (ws.drop_last(), ws.last(), false),
    decreases ws.len(),
{
    let w = ws.last();
    assert(plain_word(ws[ws.len() - 1]));
    if ws.len() == 1 {
        lemma_split_concat(Seq::empty(), w);
        assert(Seq::<char>::empty() + w =~= w);
        lemma_split_plain(Seq::empty(), Seq::empty(), w);
        assert(Seq::<char>::empty() + w =~= w);
        assert(ws.drop_last() =~= Seq::<Seq<char>>::empty());
    } else {
        let p = ws.drop_last();
        assert forall|k: int| 0 <= k < p.len() implies plain_word(#[trigger] p[k]) by {
            assert(p[k] == ws[k]);
        }
        lemma_split_spaced(p);
        let head = spaced(p) + seq![' '];
        lemma_split_concat(spaced(p), seq![' ']);
        assert(seq![' '].drop_last() =~= Seq::<char>::empty());
        assert(p.last().len() > 0) by {
            assert(p[p.len() - 1] == p.last());
        }
        let st = split_state(spaced(p));
        assert(split_from(st, seq![' '].drop_last()) == st);
        assert(seq![' '].last() == ' ');
        assert(split_from(st, seq![' ']) == split_step(st, ' '));
        assert(p.drop_last().push(p.last()) =~= p);
        assert(split_state(head) == (p, Seq::<char>::empty(), false));
        lemma_split_concat(head, w);
        lemma_split_plain(p, Seq::empty(), w);
        assert(Seq::<char>::empty() + w =~= w);
    }
}

/// Splitting words written out with single spaces gives the words back,
/// when none of them is empty or holds a space or a quote.
pub proof fn law_spaced_words_split_back(ws: Seq<Seq<char>>)
    requires
        forall|k: int| 0 <= k < ws.len() ==> plain_word(#[trigger] ws[k]),
    ensures
        words_of(spaced(ws)) == ws,
{
    if ws.len() == 0 {
        assert(split_state(Seq::<char>::empty()) == (
            Seq::<Seq<char>>::empty(),
            Seq::<char>::empty(),
            false,
        ));
    } else {
        lemma_split_spaced(ws);
        assert(plain_word(ws[ws.len() - 1]));
        assert(ws.drop_last().push(ws.last()) =~= ws);
    }
}

// ── Shortening decimal texts ───────────────────────────────────────────────
/// The position of the first `.` in `bytes`, from `from` on.
pub open spec fn first_dot(bytes: Seq<u8>, from: int) -> Option<int>
    decreases bytes.len() - from,
{
    if from < 0 || from >= bytes.len() {
        None
    } else if bytes[from] == 46 {
        Some(from)
    } else {
        first_dot(bytes, from + 1)
    }
}

/// How many bytes of a decimal text are kept: up to two digits after the
/// first `.`, or all of it when there is none.
pub open spec fn kept_bytes(bytes: Seq<u8>) -> int {
    match first_dot(bytes, 0) {
        Some(d) => if d + 3 < bytes.len() {
            d + 3
        } else {
            bytes.len() as int
        },
        None => bytes.len() as int,
    }
}

/// Shortens a decimal text to at most two digits after the point.
pub fn truncate_decimal(s: &str) -> (r: String)
    requires
        is_char_boundary(s.spec_bytes(), kept_bytes(s.spec_bytes())),
    ensures
        encode_utf8(r@) == s.spec_bytes().subrange(0, kept_bytes(s.spec_bytes())),
{
    let bytes = s.as_bytes();
    let mut k: usize = 0;
    while k < bytes.len()
        invariant
            bytes@ == s.spec_bytes(),
            k <= bytes@.len(),
            first_dot(bytes@, 0) == first_dot(bytes@, k as int),
        ensures
            k <= bytes@.len(),
            first_dot(bytes@, 0) == first_dot(bytes@, k as int),
            k < bytes@.len() ==> bytes@[k as int] == 46,
        decreases bytes@.len() - k,
    {
        if bytes[k] == 46u8 {
            break;
        }
        k = k + 1;
    }
    let end = if k < bytes.len() {
        if bytes.len() - k > 3 {
            k + 3
        } else {
            bytes.len()
        }
    } else {
        bytes.len()
    };
    proof {
        assert(end == kept_bytes(s.spec_bytes()));
    }
    let (head, _) = s.split_at(end);
    let r = head.to_owned();
    proof {
        assert(encode_utf8(r@) == head.spec_bytes());
    }
    r
}

// ── Trimming ───────────────────────────────────────────────────────────────
/// White space as Unicode's White_Space property has it (what
/// `char::is_whitespace` tests).
pub open spec fn is_space(c: char) -> bool {
    let u = c as int;
    ||| 9 <= u <= 13
    ||| u == 32
    ||| u == 0x85
    ||| u == 0xA0
    ||| u == 0x1680
    ||| 0x2000 <= u <= 0x200A
    ||| u == 0x2028
    ||| u == 0x2029
    ||| u == 0x202F
    ||| u == 0x205F
    ||| u == 0x3000
}

fn char_is_space(c: char) -> (r: bool)
    ensures
        r == is_space(c),
{
    let u = c as u32;
    (9 <= u && u <= 13) || u == 32 || u == 0x85 || u == 0xA0 || u == 0x1680 || (0x2000 <= u && u
        <= 0x200A) || u == 0x2028 || u == 0x2029 || u == 0x202F || u == 0x205F || u == 0x3000
}

/// The position of the first character of `s` from `from` on that is not
/// white space, or the length of `s`.
pub open spec fn first_non_space(s: Seq<char>, from: int) -> int
    decreases s.len() - from,
{
    if from < 0 || from >= s.len() || !is_space(s[from]) {
        from
    } else {
        first_non_space(s, from + 1)
    }
}

/// The end of `s.take(to)` with its trailing white space taken off.
pub open spec fn end_non_space(s: Seq<char>, to: int) -> int
    decreases to,
{
    if to <= 0 || to > s.len() || !is_space(s[to - 1]) {
        to
    } else {
        end_non_space(s, to - 1)
    }
}

/// `s` without leading and trailing white space.
pub open spec fn trimmed(s: Seq<char>) -> Seq<char> {
    let a = first_non_space(s, 0);
    if a >= s.len() {
        Seq::empty()
    } else {
        s.subrange(a, end_non_space(s, s.len() as int))
    }
}

proof fn lemma_first_non_space(s: Seq<char>, from: int)
    requires
        0 <= from <= s.len(),
    ensures
        from <= first_non_space(s, from) <= s.len(),
        first_non_space(s, from) < s.len() ==> !is_space(s[first_non_space(s, from)]),
    decreases s.len() - from,
{
    if from < s.len() && is_space(s[from]) {
        lemma_first_non_space(s, from + 1);
    }
}

proof fn lemma_end_non_space(s: Seq<char>, to: int, a: int)
    requires
        0 <= a < to <= s.len(),
        !is_space(s[a]),
    ensures
        a < end_non_space(s, to) <= to,
    decreases to,
{
    if is_space(s[to - 1]) {
        lemma_end_non_space(s, to - 1, a);
    }
}

/// `s` without leading and trailing white space.
pub fn trim(s: &str) -> (r: &str)
    ensures
        r@ == trimmed(s@),
{
    let n = s.unicode_len();
    let mut a: usize = 0;
    while a < n && char_is_space(s.get_char(a))
        invariant
            n == s@.len(),
            a <= n,
            first_non_space(s@, 0) == first_non_space(s@, a as int),
        decreases n - a,
    {
        a = a + 1;
    }
    if a >= n {
        let r = s.substring_char(0, 0);
        proof {
            assert(r@ =~= Seq::<char>::empty());
        }
        return r;
    }
    proof {
        lemma_first_non_space(s@, 0);
    }
    let mut b: usize = n;
    while b > a && char_is_space(s.get_char(b - 1))
        invariant
            n == s@.len(),
            a < n,
            a == first_non_space(s@, 0),
            !is_space(s@[a as int]),
            a < b <= n,
            end_non_space(s@, n as int) == end_non_space(s@, b as int),
        decreases b,
    {
        b = b - 1;
    }
    proof {
        assert(!is_space(s@[b - 1]));
        assert(end_non_space(s@, b as int) == b);
    }
    s.substring_char(a, b)
}

// ── Numbers ────────────────────────────────────────────────────────────────
pub open spec fn is_digit(c: char) -> bool {
    '0' <= c <= '9'
}

/// The value of a run of decimal digits.
pub open spec fn digits_value(s: Seq<char>) -> int
    decreases s.len(),
{
    if s.len() == 0 {
        0
    } else {
        digits_value(s.drop_last()) * 10 + (s.last() as int - '0' as int)
    }
}

/// `s` without its sign, if it has one.
pub open spec fn unsigned_part(s: Seq<char>) -> Seq<char> {
    if s.len() > 0 && (s[0] == '-' || s[0] == '+') {
        s.drop_first()
    } else {
        s
    }
}

/// Every character of `s` is a decimal digit.
pub open spec fn all_digits(s: Seq<char>) -> bool {
    forall|i: int| 0 <= i < s.len() ==> is_digit(#[trigger] s[i])
}

/// The integer that `s` writes: an optional `+` or `-` and at least one
/// decimal digit.
pub open spec fn integer_text(s: Seq<char>) -> Option<int> {
    let body = unsigned_part(s);
    if body.len() > 0 && all_digits(body) {
        Some(
            if s[0] == '-' {
                -digits_value(body)
            } else {
                digits_value(body)
            },
        )
    } else {
        None
    }
}

/// What `str::parse::<i32>` gives for `s`: the integer it writes, when that
/// fits in an `i32`.
pub open spec fn i32_text(s: Seq<char>) -> Option<i32> {
    match integer_text(s) {
        Some(v) => if i32::MIN <= v <= i32::MAX {
            Some(v as i32)
        } else {
            None
        },
        None => None,
    }
}

proof fn lemma_digits_grow(s: Seq<char>, j: int)
    requires
        0 <= j <= s.len(),
        forall|i: int| 0 <= i < s.len() ==> is_digit(#[trigger] s[i]),
    ensures
        digits_value(s) >= digits_value(s.take(j)) >= 0,
    decreases s.len(),
{
    if j == s.len() {
        assert(s.take(j) =~= s);
        if s.len() > 0 {
            lemma_digits_grow(s.drop_last(), j - 1);
            assert(s.drop_last().take(j - 1) =~= s.drop_last());
        }
    } else {
        lemma_digits_grow(s.drop_last(), j);
        assert(s.drop_last().take(j) =~= s.take(j));
    }
}

/// Reads an `i32` as `str::parse` does.
pub fn parse_i32(s: &str) -> (r: Option<i32>)
    ensures
        r == i32_text(s@),
{
    let n = s.unicode_len();
    if n == 0 {
        return None;
    }
    let first = s.get_char(0);
    let negative = first == '-';
    let start: usize = if first == '-' || first == '+' {
        1
    } else {
        0
    };
    let ghost body = if start == 1 {
        s@.drop_first()
    } else {
        s@
    };
    proof {
        assert(body =~= s@.subrange(start as int, n as int));
        assert(first == s@[0]);
        assert(body == unsigned_part(s@));
    }
    if start == n {
        return None;
    }
    let mut acc: i64 = 0;
    let mut i: usize = start;
    while i < n
        invariant
            n == s@.len(),
            start <= i <= n,
            body == s@.subrange(start as int, n as int),
            body == unsigned_part(s@),
            0 <= acc <= 2147483648,
            acc == digits_value(body.take(i - start)),
            forall|k: int| 0 <= k < i - start ==> is_digit(#[trigger] body[k]),
        decreases n - i,
    {
        let c = s.get_char(i);
        proof {
            let p = body.take(i - start + 1);
            assert(p.drop_last() =~= body.take(i - start));
            assert(p.last() == c);
        }
        if !('0' <= c && c <= '9') {
            proof {
                assert(!is_digit(body[i - start]));
                assert(!all_digits(body));
            }
            return None;
        }
        let d = (c as u32 - '0' as u32) as i64;
        if acc * 10 + d > 2147483648 {
            proof {
                assert(forall|k: int| 0 <= k < i - start + 1 ==> is_digit(#[trigger] body[k]));
                assert(digits_value(body.take(i - start + 1)) == acc * 10 + d);
                if all_digits(body) {
                    lemma_digits_grow(body, i - start + 1);
                    assert(digits_value(body) > 2147483648);
                    assert(integer_text(s@) == Some(
                        if s@[0] == '-' {
                            -digits_value(body)
                        } else {
                            digits_value(body)
                        },
                    ));
                } else {
                    assert(integer_text(s@) is None);
                }
            }
            return None;
        }
        acc = acc * 10 + d;
        i = i + 1;
    }
    proof {
        assert(body.take(n - start) =~= body);
    }
    if negative {
        Some((-acc) as i32)
    } else if acc <= 2147483647 {
        Some(acc as i32)
    } else {
        None
    }
}

// ── Other text operations ─────────────────────────────────────────────────
/// `s` with its leading `x` characters taken off.
pub open spec fn without_leading_x(s: Seq<char>) -> Seq<char>
    decreases s.len(),
{
    if s.len() > 0 && s[0] == 'x' {
        without_leading_x(s.drop_first())
    } else {
        s
    }
}

/// Takes the leading `x` characters off `s` (`trim_start_matches('x')`).
pub fn strip_leading_x(s: &str) -> (r: &str)
    ensures
        r@ == without_leading_x(s@),
{
    let n = s.unicode_len();
    let mut a: usize = 0;
    proof {
        assert(s@.subrange(0, n as int) =~= s@);
    }
    while a < n && s.get_char(a) == 'x'
        invariant
            n == s@.len(),
            a <= n,
            without_leading_x(s@) == without_leading_x(s@.subrange(a as int, n as int)),
        decreases n - a,
    {
        proof {
            assert(s@.subrange(a as int, n as int).drop_first() =~= s@.subrange(a + 1, n as int));
        }
        a = a + 1;
    }
    let r = s.substring_char(a, n);
    proof {
        if a < n {
            assert(s@.subrange(a as int, n as int)[0] == s@[a as int]);
        }
    }
    r
}

/// Words joined by single spaces.
pub open spec fn joined(words: Seq<Seq<char>>) -> Seq<char>
    decreases words.len(),
{
    if words.len() == 0 {
        Seq::empty()
    } else if words.len() == 1 {
        words[0]
    } else {
        joined(words.drop_last()) + seq![' '] + words.last()
    }
}

/// Joins `words[from..]` with single spaces.
pub fn join_words(words: &Vec<String>, from: usize) -> (r: String)
    requires
        from <= words@.len(),
    ensures
        r@ == joined(word_texts(words@).subrange(from as int, words@.len() as int)),
{
    let mut out = String::new();
    let mut i: usize = from;
    while i < words.len()
        invariant
            from <= i <= words@.len(),
            out@ == joined(word_texts(words@).subrange(from as int, i as int)),
        decreases words@.len() - i,
    {
        let ghost prev = word_texts(words@).subrange(from as int, i as int);
        let ghost next = word_texts(words@).subrange(from as int, i + 1);
        proof {
            assert(next.drop_last() =~= prev);
            assert(next.last() == words@[i as int]@);
        }
        if i > from {
            out.append(" ");
            proof {
                reveal_strlit(" ");
            }
        } else {
            proof {
                assert(prev.len() == 0);
                assert(next =~= seq![words@[i as int]@]);
            }
        }
        out.append(words[i].as_str());
        proof {
            if i > from {
                assert(out@ =~= joined(prev) + seq![' '] + words@[i as int]@);
            }
        }
        i = i + 1;
    }
    out
}

/// Name for the text that `str::to_lowercase` gives.
pub uninterp spec fn lowercase(s: Seq<char>) -> Seq<char>;

/// `str::to_lowercase`: trusted to give the named lower-case text.
#[verifier::external_body]
fn to_lower(s: &str) -> (r: String)
    ensures
        r@ == lowercase(s@),
{
    s.to_lowercase()
}

/// Name for the identifier that `uuid::Uuid::parse_str` reads from a text,
/// as its 128 bits, or `None` where it refuses the text.
pub uninterp spec fn uuid_text(s: Seq<char>) -> Option<u128>;

/// `uuid::Uuid::parse_str`, then `as_u128`: trusted to give the named value.
#[verifier::external_body]
pub(crate) fn parse_uuid(s: &str) -> (r: Option<u128>)
    ensures
        r == uuid_text(s@),
{
    match uuid::Uuid::parse_str(s) {
        Ok(u) => Some(u.as_u128()),
        Err(_) => None,
    }
}

// ── Reading commands ───────────────────────────────────────────────────────
/// A command line with missing or malformed arguments, by command.
#[derive(Debug, Clone, Copy, PartialEq, Eq, Structural)]
pub enum UsageError {
    Register,
    Login,
    Create,
    Fund,
    Hire,
    Build,
    Select,
    Buy,
    Sell,
    Produce,
}

/// How the command that `e` refused is written, line by line.
pub open spec fn usage_text(e: UsageError) -> Seq<Seq<char>> {
    match e {
        UsageError::Register => seq!["Usage: register <username> <password>"@],
        UsageError::Login => seq!["Usage: login <username> <password>"@],
        UsageError::Create => seq!["Usage: create company <name>"@],
        UsageError::Fund => seq!["Usage: fund <amount>"@],
        UsageError::Hire => seq!["Usage: hire <count>"@],
        UsageError::Build => seq!["Usage: build factory"@],
        UsageError::Select => seq!["Usage: select <company_id>"@],
        UsageError::Buy => seq![
            "Usage: buy <qty> <resource> <price>"@,
            "  Example: buy 100 copper 40"@,
        ],
        UsageError::Sell => seq![
            "Usage: sell <qty> <resource> <price>"@,
            "  Example: sell 50 steel 120"@,
        ],
        UsageError::Produce => seq![
            "Usage: produce <recipe> [quantity]"@,
            "  Example: produce smelt_steel 5"@,
        ],
    }
}

/// The usage lines for `e`.
pub fn usage_lines(e: UsageError) -> (r: Vec<&'static str>)
    ensures
        r@.len() == usage_text(e).len(),
        forall|k: int| 0 <= k < r@.len() ==> (#[trigger] r@[k])@ == usage_text(e)[k],
{
    match e {
        UsageError::Register => vec!["Usage: register <username> <password>"],
        UsageError::Login => vec!["Usage: login <username> <password>"],
        UsageError::Create => vec!["Usage: create company <name>"],
        UsageError::Fund => vec!["Usage: fund <amount>"],
        UsageError::Hire => vec!["Usage: hire <count>"],
        UsageError::Build => vec!["Usage: build factory"],
        UsageError::Select => vec!["Usage: select <company_id>"],
        UsageError::Buy => vec!["Usage: buy <qty> <resource> <price>", "  Example: buy 100 copper 40"],
        UsageError::Sell => vec!["Usage: sell <qty> <resource> <price>", "  Example: sell 50 steel 120"],
        UsageError::Produce => vec![
            "Usage: produce <recipe> [quantity]",
            "  Example: produce smelt_steel 5",
        ],
    }
}

/// A command read from the command line.
#[derive(Debug)]
pub enum ClientCommand {
    /// A blank line: nothing to do.
    Nothing,
    Register { username: String, password: String },
    Login { username: String, password: String },
    Logout,
    CreateCompany { name: String },
    Fund { amount: String },
    Hire { count: i32 },
    BuildFactory,
    Research,
    /// `None` when the argument is not a company identifier.
    Select { company_id: Option<u128> },
    Markets,
    Scan { resource: String },
    Buy { quantity: String, resource: String, price: String },
    Sell { quantity: String, resource: String, price: String },
    Produce { recipe: String, batch: i32 },
    Recipes,
    Status,
    Inventory,
    Balance,
    Companies,
    Help,
    Clear,
    /// `quit` or `exit`, which only remind of the quit keys.
    QuitHint,
    /// The command's arguments do not fit it.
    Usage(UsageError),
    /// `hire` with a count that is not a number.
    InvalidNumber,
    /// No such command; the lower-cased command word.
    Unknown { name: String },
}

/// The position of the price among the arguments of `buy` and `sell`:
/// after an `@` when one stands third.
pub open spec fn price_position(args: Seq<Seq<char>>) -> int {
    if args.len() > 3 && args[2] == "@"@ {
        3
    } else {
        2
    }
}

/// The batch size of `produce`: the second argument without leading `x`s,
/// read as a number, or 1.
pub open spec fn batch_of(args: Seq<Seq<char>>) -> i32 {
    if args.len() > 1 {
        match i32_text(without_leading_x(args[1])) {
            Some(n) => n,
            None => 1,
        }
    } else {
        1
    }
}

/// `r` is the command read from the words `w` (the command word first).
pub open spec fn reads_words(r: ClientCommand, w: Seq<Seq<char>>) -> bool {
    let k = lowercase(w[0]);
    let args = w.drop_first();
    if k == "register"@ || k == "login"@ {
        if args.len() < 2 {
            r == ClientCommand::Usage(if k == "register"@ { UsageError::Register } else { UsageError::Login })
        } else if k == "register"@ {
            r matches ClientCommand::Register { username, password } && username@ == args[0]
                && password@ == args[1]
        } else {
            r matches ClientCommand::Login { username, password } && username@ == args[0]
                && password@ == args[1]
        }
    } else if k == "logout"@ {
        r is Logout
    } else if k == "create"@ {
        if args.len() == 0 || lowercase(args[0]) != "company"@ || args.len() < 2 {
            r == ClientCommand::Usage(UsageError::Create)
        } else {
            r matches ClientCommand::CreateCompany { name } && name@ == joined(args.drop_first())
        }
    } else if k == "fund"@ {
        if args.len() == 0 {
            r == ClientCommand::Usage(UsageError::Fund)
        } else {
            r matches ClientCommand::Fund { amount } && amount@ == args[0]
        }
    } else if k == "hire"@ {
        if args.len() == 0 {
            r == ClientCommand::Usage(UsageError::Hire)
        } else {
            match i32_text(args[0]) {
                Some(n) => r == ClientCommand::Hire { count: n },
                None => r is InvalidNumber,
            }
        }
    } else if k == "build"@ {
        if args.len() == 0 || lowercase(args[0]) != "factory"@ {
            r == ClientCommand::Usage(UsageError::Build)
        } else {
            r is BuildFactory
        }
    } else if k == "research"@ {
        r is Research
    } else if k == "select"@ || k == "use"@ {
        if args.len() == 0 {
            r == ClientCommand::Usage(UsageError::Select)
        } else {
            r == ClientCommand::Select { company_id: uuid_text(args[0]) }
        }
    } else if k == "markets"@ || k == "m"@ {
        r is Markets
    } else if k == "scan"@ {
        if args.len() == 0 {
            r is Markets
        } else {
            r matches ClientCommand::Scan { resource } && resource@ == args[0]
        }
    } else if k == "buy"@ || k == "b"@ {
        if args.len() < 3 {
            r == ClientCommand::Usage(UsageError::Buy)
        } else {
            r matches ClientCommand::Buy { quantity, resource, price } && quantity@ == args[0]
                && resource@ == args[1] && price@ == args[price_position(args)]
        }
    } else if k == "sell"@ || k == "s"@ {
        if args.len() < 3 {
            r == ClientCommand::Usage(UsageError::Sell)
        } else {
            r matches ClientCommand::Sell { quantity, resource, price } && quantity@ == args[0]
                && resource@ == args[1] && price@ == args[price_position(args)]
        }
    } else if k == "produce"@ || k == "p"@ {
        if args.len() == 0 {
            r == ClientCommand::Usage(UsageError::Produce)
        } else {
            r matches ClientCommand::Produce { recipe, batch } && recipe@ == args[0] && batch
                == batch_of(args)
        }
    } else if k == "recipes"@ || k == "r"@ {
        r is Recipes
    } else if k == "status"@ || k == "st"@ {
        r is Status
    } else if k == "inventory"@ || k == "inv"@ || k == "i"@ {
        r is Inventory
    } else if k == "balance"@ || k == "bal"@ {
        r is Balance
    } else if k == "companies"@ || k == "co"@ {
        r is Companies
    } else if k == "help"@ || k == "h"@ || k == "?"@ {
        r is Help
    } else if k == "clear"@ || k == "cls"@ {
        r is Clear
    } else if k == "quit"@ || k == "exit"@ {
        r is QuitHint
    } else {
        r matches ClientCommand::Unknown { name } && name@ == k
    }
}

/// `r` is the command read from the command line `line`: nothing for a
/// line without words, else the command its words give.
pub open spec fn reads_as(r: ClientCommand, line: Seq<char>) -> bool {
    let w = words_of(trimmed(line));
    if trimmed(line).len() == 0 || w.len() == 0 {
        r is Nothing
    } else {
        reads_words(r, w)
    }
}

/// Reads the command in a command line.  The command word is matched
/// without regard to case; arguments are taken as they are.
pub fn parse_command(raw: &str) -> (r: ClientCommand)
    ensures
        reads_as(r, raw@),
{
    let line = trim(raw);
    if line.unicode_len() == 0 {
        return ClientCommand::Nothing;
    }
    let tokens = tokenize(line);
    if tokens.len() == 0 {
        return ClientCommand::Nothing;
    }
    let ghost w = word_texts(tokens@);
    let ghost args = w.drop_first();
    let n = tokens.len() - 1;
    assert(args.len() == n);
    assert(forall|j: int| 0 <= j < n ==> #[trigger] args[j] == tokens@[j + 1]@);
    let k = to_lower(tokens[0].as_str());
    let k = k.as_str();
    assert(k@ == lowercase(w[0]));
    if str_equals(k, "register") || str_equals(k, "login") {
        let register = str_equals(k, "register");
        if n < 2 {
            return ClientCommand::Usage(
                if register {
                    UsageError::Register
                } else {
                    UsageError::Login
                },
            );
        }
        let username = tokens[1].clone();
        let password = tokens[2].clone();
        if register {
            ClientCommand::Register { username, password }
        } else {
            ClientCommand::Login { username, password }
        }
    } else if str_equals(k, "logout") {
        ClientCommand::Logout
    } else if str_equals(k, "create") {
        if n == 0 {
            return ClientCommand::Usage(UsageError::Create);
        }
        let first = to_lower(tokens[1].as_str());
        if !str_equals(first.as_str(), "company") || n < 2 {
            return ClientCommand::Usage(UsageError::Create);
        }
        let name = join_words(&tokens, 2);
        proof {
            assert(word_texts(tokens@).subrange(2, tokens@.len() as int) =~= args.drop_first());
        }
        ClientCommand::CreateCompany { name }
    } else if str_equals(k, "fund") {
        if n == 0 {
            return ClientCommand::Usage(UsageError::Fund);
        }
        ClientCommand::Fund { amount: tokens[1].clone() }
    } else if str_equals(k, "hire") {
        if n == 0 {
            return ClientCommand::Usage(UsageError::Hire);
        }
        match parse_i32(tokens[1].as_str()) {
            Some(count) => ClientCommand::Hire { count },
            None => ClientCommand::InvalidNumber,
        }
    } else if str_equals(k, "build") {
        if n == 0 {
            return ClientCommand::Usage(UsageError::Build);
        }
        let first = to_lower(tokens[1].as_str());
        if !str_equals(first.as_str(), "factory") {
            return ClientCommand::Usage(UsageError::Build);
        }
        ClientCommand::BuildFactory
    } else if str_equals(k, "research") {
        ClientCommand::Research
    } else if str_equals(k, "select") || str_equals(k, "use") {
        if n == 0 {
            return ClientCommand::Usage(UsageError::Select);
        }
        ClientCommand::Select { company_id: parse_uuid(tokens[1].as_str()) }
    } else if str_equals(k, "markets") || str_equals(k, "m") {
        ClientCommand::Markets
    } else if str_equals(k, "scan") {
        if n == 0 {
            return ClientCommand::Markets;
        }
        ClientCommand::Scan { resource: tokens[1].clone() }
    } else if str_equals(k, "buy") || str_equals(k, "b") || str_equals(k, "sell") || str_equals(
        k,
        "s",
    ) {
        let buying = str_equals(k, "buy") || str_equals(k, "b");
        if n < 3 {
            return ClientCommand::Usage(
                if buying {
                    UsageError::Buy
                } else {
                    UsageError::Sell
                },
            );
        }
        let at = n > 3 && str_equals(tokens[3].as_str(), "@");
        let price_index: usize = if at {
            4
        } else {
            3
        };
        let quantity = tokens[1].clone();
        let resource = tokens[2].clone();
        let price = tokens[price_index].clone();
        if buying {
            ClientCommand::Buy { quantity, resource, price }
        } else {
            ClientCommand::Sell { quantity, resource, price }
        }
    } else if str_equals(k, "produce") || str_equals(k, "p") {
        if n == 0 {
            return ClientCommand::Usage(UsageError::Produce);
        }
        let batch = if n > 1 {
            match parse_i32(strip_leading_x(tokens[2].as_str())) {
                Some(b) => b,
                None => 1,
            }
        } else {
            1
        };
        ClientCommand::Produce { recipe: tokens[1].clone(), batch }
    } else if str_equals(k, "recipes") || str_equals(k, "r") {
        ClientCommand::Recipes
    } else if str_equals(k, "status") || str_equals(k, "st") {
        ClientCommand::Status
    } else if str_equals(k, "inventory") || str_equals(k, "inv") || str_equals(k, "i") {
        ClientCommand::Inventory
    } else if str_equals(k, "balance") || str_equals(k, "bal") {
        ClientCommand::Balance
    } else if str_equals(k, "companies") || str_equals(k, "co") {
        ClientCommand::Companies
    } else if str_equals(k, "help") || str_equals(k, "h") || str_equals(k, "?") {
        ClientCommand::Help
    } else if str_equals(k, "clear") || str_equals(k, "cls") {
        ClientCommand::Clear
    } else if str_equals(k, "quit") || str_equals(k, "exit") {
        ClientCommand::QuitHint
    } else {
        ClientCommand::Unknown { name: k.to_owned() }
    }
}

/// A command line written as the command word `c` and the two words `u`
/// and `p`, each kept whole by splitting, reads as `register` or `login`
/// (whichever `c` is, in any case) of user name `u` with password `p`: the
/// first argument is always the user name and the second the password.
pub proof fn law_account_commands_take_user_then_password(
    c: Seq<char>,
    u: Seq<char>,
    p: Seq<char>,
    r: ClientCommand,
)
    requires
        plain_word(c),
        plain_word(u),
        plain_word(p),
        !is_space(c[0]),
        !is_space(p[p.len() - 1]),
        lowercase(c) == "login"@ || lowercase(c) == "register"@,
        reads_as(r, c + seq![' '] + u + seq![' '] + p),
    ensures
        lowercase(c) == "login"@ ==> (r matches ClientCommand::Login { username, password }
            && username@ == u && password@ == p),
        lowercase(c) == "register"@ ==> (r matches ClientCommand::Register { username, password }
            && username@ == u && password@ == p),
{
    reveal_strlit("login");
    reveal_strlit("register");
    let ws = seq![c, u, p];
    let line = c + seq![' '] + u + seq![' '] + p;
    assert(spaced(ws.drop_last()) == spaced(seq![c]) + seq![' '] + u) by {
        assert(ws.drop_last() =~= seq![c, u]);
        assert(seq![c, u].drop_last() =~= seq![c]);
    }
    assert(spaced(ws) =~= line);
    assert forall|k: int| 0 <= k < ws.len() implies plain_word(#[trigger] ws[k]) by {}
    law_spaced_words_split_back(ws);
    assert(line[0] == c[0]);
    assert(line[line.len() - 1] == p[p.len() - 1]);
    assert(first_non_space(line, 0) == 0);
    assert(end_non_space(line, line.len() as int) == line.len());
    assert(trimmed(line) =~= line);
    assert(ws.drop_first() =~= seq![u, p]);
    assert(words_of(trimmed(line)) == ws);
    assert("login"@.len() != "register"@.len());
    assert("login"@ != "register"@);
    if lowercase(c) == "login"@ {
        assert(reads_words(r, ws));
        assert(lowercase(ws[0]) == "login"@);
        assert(lowercase(ws[0]) != "register"@);
    }
}

proof fn lemma_nat_text_digits(n: nat)
    ensures
        crate::text::nat_text(n).len() > 0,
        all_digits(crate::text::nat_text(n)),
        digits_value(crate::text::nat_text(n)) == n,
    decreases n,
{
    let t = crate::text::nat_text(n);
    if n < 10 {
        assert(t == seq![crate::text::digit_char(n)]);
        assert(t.drop_last() =~= Seq::<char>::empty());
        assert(crate::text::digit_char(n) as int == 48 + n);
        assert(digits_value(t.drop_last()) == 0);
        assert(t.last() == crate::text::digit_char(n));
    } else {
        lemma_nat_text_digits(n / 10);
        let p = crate::text::nat_text(n / 10);
        assert(t == p + seq![crate::text::digit_char(n % 10)]);
        assert(t.drop_last() =~= p);
        assert(t.last() == crate::text::digit_char(n % 10));
        assert(crate::text::digit_char(n % 10) as int == 48 + n % 10);
        assert(n == (n / 10) * 10 + n % 10);
        assert forall|i: int| 0 <= i < t.len() implies is_digit(#[trigger] t[i]) by {
            if i < p.len() {
                assert(t[i] == p[i]);
            }
        }
    }
}

/// Reading back the text of an integer gives the integer: the digits that
/// `Display` writes, with a `-` before a negative number, parse to the
/// number they were written from.
pub proof fn law_integer_text_reads_back(n: int)
    ensures
        integer_text(crate::text::int_text(n)) == Some(n),
        i32::MIN <= n <= i32::MAX ==> i32_text(crate::text::int_text(n)) == Some(n as i32),
{
    let t = crate::text::int_text(n);
    if n < 0 {
        lemma_nat_text_digits((-n) as nat);
        assert(t.drop_first() =~= crate::text::nat_text((-n) as nat));
    } else {
        lemma_nat_text_digits(n as nat);
        assert(is_digit(t[0]));
    }
}

} // verus!

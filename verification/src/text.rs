//! Text helpers shared by the rest of the crate: comparing, cutting,
//! trimming, joining and reading numbers.

use vstd::prelude::*;
use vstd::string::*;
use itertools::Itertools;

verus! {

/// `str`'s `==` compares the two slices character by character.
pub assume_specification[ <str as PartialEq>::eq ](a: &str, b: &str) -> (r: bool)
    ensures
        r == (a@ == b@),
;

/// Whether `c` is white space in Unicode's sense, as `char::is_whitespace`
/// tells it.
pub uninterp spec fn is_whitespace(c: char) -> bool;

/// `char::is_whitespace` depends on the character alone.
pub assume_specification[ char::is_whitespace ](c: char) -> (r: bool)
    ensures
        r == is_whitespace(c),
;

/// The views of a sequence of strings.
pub open spec fn texts(v: Seq<String>) -> Seq<Seq<char>> {
    v.map_values(|s: String| s@)
}

/// The view of an optional list of strings.
pub open spec fn opt_list(o: Option<Vec<String>>) -> Option<Seq<Seq<char>>> {
    match o {
        Some(v) => Some(texts(v@)),
        None => None,
    }
}

/// The views of a sequence of string slices.
pub open spec fn slices(v: Seq<&str>) -> Seq<Seq<char>> {
    v.map_values(|s: &str| s@)
}

/// A text followed by its qualifier in parentheses: `text (qualifier)`.
pub open spec fn qualified_text(text: Seq<char>, qualifier: Seq<char>) -> Seq<char> {
    text + seq![' ', '('] + qualifier + seq![')']
}

/// Renders `text (qualifier)`.
pub fn render_qualified(text: &str, qualifier: &str) -> (r: String)
    ensures
        r@ == qualified_text(text@, qualifier@),
{
    let mut out = String::from_str(text);
    out.append(" (");
    out.append(qualifier);
    out.append(")");
    proof {
        reveal_strlit(" (");
        reveal_strlit(")");
        assert(" ("@ =~= seq![' ', '(']);
        assert(")"@ =~= seq![')']);
    }
    out
}

/// Whether `items` holds `text`.
pub fn holds_text(items: &Vec<String>, text: &str) -> (r: bool)
    ensures
        r == texts(items@).contains(text@),
{
    let mut i: usize = 0;
    while i < items.len()
        invariant
            i <= items.len(),
            forall|j: int| 0 <= j < i ==> texts(items@)[j] != text@,
        decreases items.len() - i,
    {
        if *items[i].as_str() == *text {
            assert(texts(items@)[i as int] == text@);
            return true;
        }
        i = i + 1;
    }
    false
}

/// The characters of `s`.
pub fn chars_of(s: &str) -> (r: Vec<char>)
    ensures
        r@ == s@,
{
    let mut out: Vec<char> = Vec::new();
    for c in it: s.chars()
        invariant
            out@ == it.seq().take(it.index() as int),
            it.seq() == s@,
    {
        out.push(c);
    }
    out
}

/// The position of the first `sep` in `s`; the length of `s` where there
/// is none.
pub open spec fn first_sep(s: Seq<char>, sep: char) -> int
    decreases s.len(),
{
    if s.len() == 0 || s[0] == sep {
        0
    } else {
        1 + first_sep(s.drop_first(), sep)
    }
}

/// The pieces of `s` between the occurrences of `sep`. There is one piece
/// more than there are separators.
pub open spec fn split(s: Seq<char>, sep: char) -> Seq<Seq<char>>
    decreases s.len(),
{
    let i = first_sep(s, sep);
    if 0 <= i < s.len() {
        seq![s.take(i)] + split(s.skip(i + 1), sep)
    } else {
        seq![s]
    }
}

/// The pieces of `s` that `sep` ends or separates: as `split`, but a
/// separator at the very end ends the last piece and begins no new one, and
/// the empty text has no piece.
pub open spec fn split_terminator(s: Seq<char>, sep: char) -> Seq<Seq<char>> {
    if s.len() == 0 {
        Seq::empty()
    } else if s.last() == sep {
        split(s.drop_last(), sep)
    } else {
        split(s, sep)
    }
}

/// No `sep` stands before the first `sep`.
pub proof fn lemma_first_sep_found(s: Seq<char>, sep: char)
    ensures
        0 <= first_sep(s, sep) <= s.len(),
        forall|j: int| 0 <= j < first_sep(s, sep) ==> s[j] != sep,
        first_sep(s, sep) < s.len() ==> s[first_sep(s, sep)] == sep,
    decreases s.len(),
{
    if s.len() > 0 && s[0] != sep {
        let rest = s.drop_first();
        lemma_first_sep_found(rest, sep);
        assert forall|j: int| 0 <= j < first_sep(s, sep) implies s[j] != sep by {
            if j > 0 {
                assert(rest[j - 1] == s[j]);
            }
        }
    }
}

/// A text before other texts is joined to them by one separator.
pub proof fn lemma_joined_front(x: Seq<char>, rest: Seq<Seq<char>>, sep: Seq<char>)
    requires
        rest.len() > 0,
    ensures
        joined(seq![x] + rest, sep) == x + sep + joined(rest, sep),
    decreases rest.len(),
{
    let all = seq![x] + rest;
    assert(all.last() == rest.last());
    assert(all.drop_last() =~= seq![x] + rest.drop_last());
    if rest.len() == 1 {
        assert(all.drop_last() =~= seq![x]);
        assert(joined(seq![x], sep) == x);
        assert(joined(rest, sep) == rest.last());
        assert(joined(all, sep) =~= x + sep + joined(rest, sep));
    } else {
        lemma_joined_front(x, rest.drop_last(), sep);
        assert(joined(all, sep) =~= x + sep + joined(rest, sep));
    }
}

/// Cutting a text at each separator and joining the pieces with the
/// separator gives the text back, and no piece holds the separator.
pub proof fn law_split_joins_back(s: Seq<char>, sep: char)
    ensures
        split(s, sep).len() >= 1,
        joined(split(s, sep), seq![sep]) == s,
        forall|p: int, j: int|
            0 <= p < split(s, sep).len() && 0 <= j < split(s, sep)[p].len() ==> #[trigger] split(
                s,
                sep,
            )[p][j] != sep,
    decreases s.len(),
{
    let i = first_sep(s, sep);
    lemma_first_sep_found(s, sep);
    if 0 <= i < s.len() {
        let rest = s.skip(i + 1);
        law_split_joins_back(rest, sep);
        lemma_joined_front(s.take(i), split(rest, sep), seq![sep]);
        assert(s.take(i) + seq![sep] + rest =~= s);
        assert forall|p: int, j: int|
            0 <= p < split(s, sep).len() && 0 <= j < split(s, sep)[p].len() implies #[trigger] split(
            s,
            sep,
        )[p][j] != sep by {
            if p > 0 {
                assert(split(s, sep)[p] == split(rest, sep)[p - 1]);
            }
        }
    }
}

/// The pieces that a separator ends or separates, joined with the
/// separator, give back the text without the separator at its very end.
pub proof fn law_split_terminator_joins_back(s: Seq<char>, sep: char)
    ensures
        joined(split_terminator(s, sep), seq![sep]) == if s.len() > 0 && s.last() == sep {
            s.drop_last()
        } else {
            s
        },
        forall|p: int, j: int|
            0 <= p < split_terminator(s, sep).len() && 0 <= j < split_terminator(s, sep)[p].len()
                ==> #[trigger] split_terminator(s, sep)[p][j] != sep,
{
    if s.len() > 0 {
        law_split_joins_back(s, sep);
        law_split_joins_back(s.drop_last(), sep);
    }
}

/// Where no `sep` stands before position `k` and one stands at `k`, or `k`
/// is the end, `k` is the position of the first `sep`.
pub proof fn lemma_first_sep(s: Seq<char>, sep: char, k: int)
    requires
        0 <= k <= s.len(),
        forall|j: int| 0 <= j < k ==> s[j] != sep,
        k == s.len() || s[k] == sep,
    ensures
        first_sep(s, sep) == k,
    decreases s.len(),
{
    if k > 0 {
        let rest = s.drop_first();
        assert forall|j: int| 0 <= j < k - 1 implies rest[j] != sep by {
            assert(rest[j] == s[j + 1]);
        }
        lemma_first_sep(rest, sep, k - 1);
    }
}

/// Cuts `s` at each `sep`. A `sep` at the very end begins no new piece.
pub fn split_at_each<'a>(s: &'a str, sep: char) -> (r: Vec<&'a str>)
    ensures
        slices(r@) == split_terminator(s@, sep),
{
    let chars = chars_of(s);
    let n = chars.len();
    let mut fields: Vec<&'a str> = Vec::new();
    if n == 0 {
        assert(slices(fields@) =~= Seq::<Seq<char>>::empty());
        return fields;
    }
    let end = if chars[n - 1] == sep {
        n - 1
    } else {
        n
    };
    let ghost t = s@.take(end as int);
    assert(end == n - 1 ==> t =~= s@.drop_last());
    assert(end == n ==> t =~= s@);
    let mut start: usize = 0;
    let mut i: usize = 0;
    assert(t.skip(0) =~= t);
    assert(slices(fields@) =~= Seq::<Seq<char>>::empty());
    while i < end
        invariant
            start <= i <= end <= n,
            n == chars.len(),
            chars@ == s@,
            t == s@.take(end as int),
            forall|j: int| start <= j < i ==> t[j] != sep,
            split(t, sep) == slices(fields@) + split(t.skip(start as int), sep),
        decreases end - i,
    {
        if chars[i] == sep {
            let piece = s.substring_char(start, i);
            proof {
                let rest = t.skip(start as int);
                assert forall|j: int| 0 <= j < i - start implies rest[j] != sep by {
                    assert(rest[j] == t[start + j]);
                }
                lemma_first_sep(rest, sep, i - start);
                assert(rest.take(i - start) =~= s@.subrange(start as int, i as int));
                assert(rest.skip(i - start + 1) =~= t.skip(i + 1));
                assert(slices(fields@.push(piece)) =~= slices(fields@).push(piece@));
                assert(slices(fields@) + (seq![piece@] + split(t.skip(i + 1), sep)) =~= slices(
                    fields@,
                ).push(piece@) + split(t.skip(i + 1), sep));
            }
            fields.push(piece);
            start = i + 1;
        }
        i = i + 1;
    }
    let piece = s.substring_char(start, end);
    proof {
        let rest = t.skip(start as int);
        assert forall|j: int| 0 <= j < end - start implies rest[j] != sep by {
            assert(rest[j] == t[start + j]);
        }
        lemma_first_sep(rest, sep, end - start);
        assert(rest =~= s@.subrange(start as int, end as int));
        assert(slices(fields@.push(piece)) =~= slices(fields@).push(piece@));
        assert(slices(fields@) + seq![piece@] =~= slices(fields@).push(piece@));
    }
    fields.push(piece);
    fields
}

/// Copies of the strings of `items`.
pub fn clone_texts(items: &Vec<String>) -> (r: Vec<String>)
    ensures
        texts(r@) == texts(items@),
{
    let mut out: Vec<String> = Vec::new();
    let mut i: usize = 0;
    while i < items.len()
        invariant
            i <= items.len(),
            out.len() == i,
            forall|j: int| 0 <= j < i ==> out[j]@ == items[j]@,
        decreases items.len() - i,
    {
        out.push(items[i].clone());
        i = i + 1;
    }
    assert(texts(out@) =~= texts(items@));
    out
}

/// `s` without the characters at its start that `strip` holds of.
pub open spec fn strip_start(s: Seq<char>, strip: spec_fn(char) -> bool) -> Seq<char>
    decreases s.len(),
{
    if s.len() > 0 && strip(s[0]) {
        strip_start(s.drop_first(), strip)
    } else {
        s
    }
}

/// `s` without the characters at its end that `strip` holds of.
pub open spec fn strip_end(s: Seq<char>, strip: spec_fn(char) -> bool) -> Seq<char>
    decreases s.len(),
{
    if s.len() > 0 && strip(s.last()) {
        strip_end(s.drop_last(), strip)
    } else {
        s
    }
}

/// What to strip from the ends of a text.
#[derive(Clone, Copy, Debug)]
pub enum Strip {
    /// White space.
    Whitespace,
    /// One character, however often it stands there.
    Char(char),
}

impl Strip {
    /// Whether `c` is to be stripped.
    pub open spec fn holds(self, c: char) -> bool {
        match self {
            Strip::Whitespace => is_whitespace(c),
            Strip::Char(x) => c == x,
        }
    }

    pub fn strips(&self, c: char) -> (r: bool)
        ensures
            r == self.holds(c),
    {
        match self {
            Strip::Whitespace => c.is_whitespace(),
            Strip::Char(x) => c == *x,
        }
    }
}

/// `s` without what `front` strips from its start and then what `back`
/// strips from its end.
pub open spec fn stripped(s: Seq<char>, front: Strip, back: Strip) -> Seq<char> {
    strip_end(strip_start(s, |c: char| front.holds(c)), |c: char| back.holds(c))
}

/// `s` without the white space at its start and at its end.
pub open spec fn trimmed(s: Seq<char>) -> Seq<char> {
    stripped(s, Strip::Whitespace, Strip::Whitespace)
}

/// `s` without every `open` at its start and then every `close` at its end.
pub open spec fn unwrapped(s: Seq<char>, open: char, close: char) -> Seq<char> {
    stripped(s, Strip::Char(open), Strip::Char(close))
}

pub proof fn lemma_strip_start(s: Seq<char>, strip: spec_fn(char) -> bool, k: int)
    requires
        0 <= k <= s.len(),
        forall|j: int| 0 <= j < k ==> strip(s[j]),
        k == s.len() || !strip(s[k]),
    ensures
        strip_start(s, strip) == s.skip(k),
    decreases s.len(),
{
    if k > 0 {
        let rest = s.drop_first();
        assert forall|j: int| 0 <= j < k - 1 implies strip(rest[j]) by {
            assert(rest[j] == s[j + 1]);
        }
        lemma_strip_start(rest, strip, k - 1);
        assert(rest.skip(k - 1) =~= s.skip(k));
    } else {
        assert(s.skip(0) =~= s);
    }
}

pub proof fn lemma_strip_end(s: Seq<char>, strip: spec_fn(char) -> bool, k: int)
    requires
        0 <= k <= s.len(),
        forall|j: int| k <= j < s.len() ==> strip(s[j]),
        k == 0 || !strip(s[k - 1]),
    ensures
        strip_end(s, strip) == s.take(k),
    decreases s.len(),
{
    if k < s.len() {
        let rest = s.drop_last();
        lemma_strip_end(rest, strip, k);
        assert(rest.take(k) =~= s.take(k));
    } else {
        assert(s.take(k) =~= s);
    }
}

/// The part of `s` that is left when `front` is stripped from its start and
/// then `back` from its end.
pub fn strip_ends<'a>(s: &'a str, front: Strip, back: Strip) -> (r: &'a str)
    ensures
        r@ == stripped(s@, front, back),
{
    let chars = chars_of(s);
    let n = chars.len();
    let mut a: usize = 0;
    while a < n && front.strips(chars[a])
        invariant
            a <= n,
            n == chars.len(),
            forall|j: int| 0 <= j < a ==> front.holds(chars[j]),
        decreases n - a,
    {
        a = a + 1;
    }
    let mut b: usize = n;
    while b > a && back.strips(chars[b - 1])
        invariant
            a <= b <= n,
            n == chars.len(),
            forall|j: int| b <= j < n ==> back.holds(chars[j]),
        decreases b,
    {
        b = b - 1;
    }
    proof {
        let f = |c: char| front.holds(c);
        let g = |c: char| back.holds(c);
        assert forall|j: int| 0 <= j < a implies f(s@[j]) by {
            assert(front.holds(chars[j]));
        }
        lemma_strip_start(s@, f, a as int);
        let mid = s@.skip(a as int);
        assert forall|j: int| b - a <= j < mid.len() implies g(mid[j]) by {
            assert(back.holds(chars[a + j]));
        }
        if b > a {
            assert(mid[b - a - 1] == chars[b - 1]);
        }
        lemma_strip_end(mid, g, b - a);
        assert(mid.take(b - a) =~= s@.subrange(a as int, b as int));
    }
    s.substring_char(a, b)
}

/// `s` without the white space at its start and at its end.
pub fn trim(s: &str) -> (r: &str)
    ensures
        r@ == trimmed(s@),
{
    strip_ends(s, Strip::Whitespace, Strip::Whitespace)
}

/// `s` without every `open` at its start and then every `close` at its end.
pub fn unwrap_text(s: &str, open: char, close: char) -> (r: &str)
    ensures
        r@ == unwrapped(s@, open, close),
{
    strip_ends(s, Strip::Char(open), Strip::Char(close))
}

/// Whether `s` begins with `prefix`.
pub fn begins_with(s: &str, prefix: &str) -> (r: bool)
    ensures
        r == (prefix@.len() <= s@.len() && s@.take(prefix@.len() as int) == prefix@),
{
    let a = chars_of(s);
    let b = chars_of(prefix);
    if b.len() > a.len() {
        return false;
    }
    let mut i: usize = 0;
    while i < b.len()
        invariant
            i <= b.len() <= a.len(),
            a@ == s@,
            b@ == prefix@,
            forall|j: int| 0 <= j < i ==> a[j] == b[j],
        decreases b.len() - i,
    {
        if a[i] != b[i] {
            assert(s@.take(prefix@.len() as int)[i as int] != prefix@[i as int]);
            return false;
        }
        i = i + 1;
    }
    assert(s@.take(prefix@.len() as int) =~= prefix@);
    true
}

/// `s` with a space in place of every `from`.
pub open spec fn spaced(s: Seq<char>, from: char) -> Seq<char> {
    s.map_values(
        |c: char|
            if c == from {
                ' '
            } else {
                c
            },
    )
}

/// Puts a space in place of every `from`.
pub fn space_out(s: &str, from: char) -> (r: String)
    ensures
        r@ == spaced(s@, from),
{
    let chars = chars_of(s);
    let n = chars.len();
    let mut out = String::new();
    let mut start: usize = 0;
    let mut i: usize = 0;
    proof {
        reveal_strlit(" ");
        assert(" "@ =~= seq![' ']);
    }
    while i < n
        invariant
            start <= i <= n,
            n == chars.len(),
            chars@ == s@,
            " "@ == seq![' '],
            forall|j: int| start <= j < i ==> s@[j] != from,
            out@ == spaced(s@, from).take(start as int),
        decreases n - i,
    {
        if chars[i] == from {
            out.append(s.substring_char(start, i));
            out.append(" ");
            assert(out@ =~= spaced(s@, from).take(i + 1));
            start = i + 1;
        }
        i = i + 1;
    }
    out.append(s.substring_char(start, n));
    assert(out@ =~= spaced(s@, from));
    out
}

/// A text is a number where it is made of the digits `0` to `9`, one at
/// least.
pub open spec fn is_digits(s: Seq<char>) -> bool {
    s.len() > 0 && forall|i: int| 0 <= i < s.len() ==> '0' <= #[trigger] s[i] <= '9'
}

/// The number that the digits of `s` write in base ten.
pub open spec fn digits_value(s: Seq<char>) -> nat
    decreases s.len(),
{
    if s.len() == 0 {
        0
    } else {
        (digits_value(s.drop_last()) * 10 + (s.last() as u32 - '0' as u32)) as nat
    }
}

/// `s` without the `+` at its start, if it has one.
pub open spec fn unsigned_part(s: Seq<char>) -> Seq<char> {
    if s.len() > 0 && s[0] == '+' {
        s.drop_first()
    } else {
        s
    }
}

/// The count that `s` writes: digits, after a `+` or not, that stay within
/// the numbers of the machine.
pub open spec fn count_of(s: Seq<char>) -> Option<usize> {
    let digits = unsigned_part(s);
    if is_digits(digits) && digits_value(digits) <= usize::MAX {
        Some(digits_value(digits) as usize)
    } else {
        None
    }
}

/// More digits write no smaller number.
pub proof fn lemma_digits_value_grows(s: Seq<char>, k: int)
    requires
        0 <= k <= s.len(),
        is_digits(s),
    ensures
        digits_value(s.take(k)) <= digits_value(s),
    decreases s.len() - k,
{
    if k < s.len() {
        lemma_digits_value_grows(s, k + 1);
        assert(s.take(k + 1).drop_last() =~= s.take(k));
        assert(s.take(k + 1).last() == s[k]);
    } else {
        assert(s.take(k) =~= s);
    }
}

/// Reads a count: digits, after a `+` or not. `None` where `s` is not
/// written so or the number is too large.
pub fn parse_count(s: &str) -> (r: Option<usize>)
    ensures
        r == count_of(s@),
{
    let chars = chars_of(s);
    let n = chars.len();
    let first: usize = if n > 0 && chars[0] == '+' {
        1
    } else {
        0
    };
    let ghost digits = unsigned_part(s@);
    assert(digits =~= s@.skip(first as int));
    if first == n {
        return None;
    }
    let mut value: usize = 0;
    let mut i: usize = first;
    assert(digits.take(0) =~= Seq::<char>::empty());
    while i < n
        invariant
            first <= i <= n,
            first < n,
            n == chars.len(),
            chars@ == s@,
            digits == unsigned_part(s@),
            digits == s@.skip(first as int),
            forall|j: int| 0 <= j < i - first ==> '0' <= #[trigger] digits[j] <= '9',
            value == digits_value(digits.take(i - first)),
        decreases n - i,
    {
        let c = chars[i];
        assert(digits[i - first] == c);
        if !(c >= '0' && c <= '9') {
            return None;
        }
        let d = (c as u32 - '0' as u32) as usize;
        proof {
            assert(digits.take(i - first + 1).drop_last() =~= digits.take(i - first));
            assert(digits.take(i - first + 1).last() == c);
        }
        let next = match value.checked_mul(10) {
            Some(tens) => tens.checked_add(d),
            None => None,
        };
        match next {
            Some(v) => {
                value = v;
            },
            None => {
                proof {
                    if is_digits(digits) {
                        lemma_digits_value_grows(digits, i - first + 1);
                    }
                }
                return None;
            },
        }
        i = i + 1;
    }
    assert(digits.take(n - first) =~= digits);
    Some(value)
}

/// The texts of `items` in a row with `sep` between each two.
pub open spec fn joined(items: Seq<Seq<char>>, sep: Seq<char>) -> Seq<char>
    decreases items.len(),
{
    if items.len() == 0 {
        Seq::empty()
    } else if items.len() == 1 {
        items[0]
    } else {
        joined(items.drop_last(), sep) + sep + items.last()
    }
}

/// `Itertools::join` on strings: the items in a row, with `sep` between
/// each two and none at either end; the empty string for no items.
#[verifier::external_body]
pub(crate) fn join_with(items: &Vec<String>, sep: &str) -> (r: String)
    ensures
        r@ == joined(texts(items@), sep@),
{
    items.iter().join(sep)
}

} // verus!

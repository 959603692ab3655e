//! Character-level text primitives with their mathematical models.
//!
//! Every executable function here works on the characters of a string and
//! is specified over `Seq<char>`, the view of `str` and `String`.

use vstd::prelude::*;

verus! {

/// `String::push` appends one character.
pub assume_specification[ String::push ](s: &mut String, ch: char)
    ensures
        final(s)@ == old(s)@.push(ch),
;

// ---------------------------------------------------------------------------
// Models
// ---------------------------------------------------------------------------

/// Unicode `White_Space`, the set that `char::is_whitespace` and `str::trim` use.
pub open spec fn is_ws(c: char) -> bool {
    ||| ('\t' <= c && c <= '\r')
    ||| c == ' '
    ||| c == '\u{85}'
    ||| c == '\u{A0}'
    ||| c == '\u{1680}'
    ||| ('\u{2000}' <= c && c <= '\u{200A}')
    ||| c == '\u{2028}'
    ||| c == '\u{2029}'
    ||| c == '\u{202F}'
    ||| c == '\u{205F}'
    ||| c == '\u{3000}'
}

/// `s` without its leading whitespace.
pub open spec fn trim_start(s: Seq<char>) -> Seq<char>
    decreases s.len(),
{
    if s.len() > 0 && is_ws(s[0]) {
        trim_start(s.drop_first())
    } else {
        s
    }
}

/// `s` without its trailing whitespace.
pub open spec fn trim_end(s: Seq<char>) -> Seq<char>
    decreases s.len(),
{
    if s.len() > 0 && is_ws(s.last()) {
        trim_end(s.drop_last())
    } else {
        s
    }
}

/// `s` without leading and trailing whitespace.
pub open spec fn trim(s: Seq<char>) -> Seq<char> {
    trim_end(trim_start(s))
}

/// `p` occurs in `s` starting at index `i`.
pub open spec fn occurs_at(s: Seq<char>, p: Seq<char>, i: int) -> bool {
    0 <= i && i + p.len() <= s.len() && s.subrange(i, i + p.len()) == p
}

/// The first index at or after `from` where `p` occurs in `s`.
pub open spec fn find_from(s: Seq<char>, p: Seq<char>, from: int) -> Option<int>
    decreases s.len() + 1 - from,
{
    if from < 0 || from + p.len() > s.len() {
        None
    } else if occurs_at(s, p, from) {
        Some(from)
    } else {
        find_from(s, p, from + 1)
    }
}

/// The first index where `p` occurs in `s`.
pub open spec fn find(s: Seq<char>, p: Seq<char>) -> Option<int> {
    find_from(s, p, 0)
}

/// `p` occurs somewhere in `s`.
pub open spec fn contains(s: Seq<char>, p: Seq<char>) -> bool {
    find(s, p) is Some
}

/// The last index `i` with `lo <= i` and `i + |p| <= hi` where `p` occurs in `s`.
pub open spec fn rfind_in(s: Seq<char>, p: Seq<char>, lo: int, hi: int) -> Option<int>
    decreases hi - lo + 1,
{
    if hi - lo < p.len() {
        None
    } else if occurs_at(s, p, hi - p.len()) {
        Some(hi - p.len())
    } else {
        rfind_in(s, p, lo, hi - 1)
    }
}

/// The last index where `p` occurs in `s`.
pub open spec fn rfind(s: Seq<char>, p: Seq<char>) -> Option<int> {
    rfind_in(s, p, 0, s.len() as int)
}

/// `s` begins with `p`.
pub open spec fn starts_with(s: Seq<char>, p: Seq<char>) -> bool {
    p.len() <= s.len() && s.subrange(0, p.len() as int) == p
}

/// `s` ends with `p`.
pub open spec fn ends_with(s: Seq<char>, p: Seq<char>) -> bool {
    p.len() <= s.len() && s.subrange(s.len() - p.len(), s.len() as int) == p
}

/// Every non-overlapping occurrence of `p` (found from left to right) replaced by `t`.
pub open spec fn replace_all(s: Seq<char>, p: Seq<char>, t: Seq<char>) -> Seq<char>
    decreases s.len(),
{
    if p.len() == 0 {
        s
    } else {
        match find(s, p) {
            Some(i) => {
                proof {
                    lemma_find_from_some(s, p, 0);
                }
                s.subrange(0, i) + t + replace_all(s.subrange(i + p.len(), s.len() as int), p, t)
            },
            None => s,
        }
    }
}

/// The pieces of `s` between the occurrences of `sep` (as `str::split` yields them).
pub open spec fn split_all(s: Seq<char>, sep: Seq<char>) -> Seq<Seq<char>>
    decreases s.len(),
{
    if sep.len() == 0 {
        seq![s]
    } else {
        match find(s, sep) {
            Some(i) => {
                proof {
                    lemma_find_from_some(s, sep, 0);
                }
                seq![s.subrange(0, i)] + split_all(s.subrange(i + sep.len(), s.len() as int), sep)
            },
            None => seq![s],
        }
    }
}

/// The pieces joined with `sep` between consecutive pieces.
pub open spec fn join(parts: Seq<Seq<char>>, sep: Seq<char>) -> Seq<char>
    decreases parts.len(),
{
    if parts.len() == 0 {
        Seq::empty()
    } else if parts.len() == 1 {
        parts[0]
    } else {
        join(parts.drop_last(), sep) + sep + parts.last()
    }
}

/// The pieces one after another.
pub open spec fn concat(parts: Seq<Seq<char>>) -> Seq<char>
    decreases parts.len(),
{
    if parts.len() == 0 {
        Seq::empty()
    } else {
        concat(parts.drop_last()) + parts.last()
    }
}

/// ASCII lower case of one character.
pub open spec fn lower_char(c: char) -> char {
    if 'A' <= c && c <= 'Z' {
        ((c as u32) + 32) as char
    } else {
        c
    }
}

/// ASCII lower case of a text.
pub open spec fn ascii_lower(s: Seq<char>) -> Seq<char> {
    s.map_values(|c: char| lower_char(c))
}

/// The decimal digit character for `d < 10`.
pub open spec fn digit_char(d: nat) -> char {
    (48 + d) as char
}

/// The decimal notation of `n`, as `usize::to_string` writes it.
pub open spec fn dec(n: nat) -> Seq<char>
    decreases n,
{
    if n < 10 {
        seq![digit_char(n)]
    } else {
        dec(n / 10).push(digit_char(n % 10))
    }
}

/// `c` is an ASCII decimal digit.
pub open spec fn is_digit(c: char) -> bool {
    '0' <= c && c <= '9'
}

/// Every character of `s` is a decimal digit.
pub open spec fn all_digits(s: Seq<char>) -> bool {
    forall|i: int| 0 <= i < s.len() ==> is_digit(#[trigger] s[i])
}

/// The value of a string of decimal digits.
pub open spec fn digits_value(s: Seq<char>) -> nat
    decreases s.len(),
{
    if s.len() == 0 {
        0
    } else {
        10 * digits_value(s.drop_last()) + ((s.last() as u32) - 48) as nat
    }
}

/// `str::parse::<usize>`: an optional `+`, then at least one digit, and a value that fits.
pub open spec fn parse_usize(s: Seq<char>) -> Option<nat> {
    let body = if s.len() > 0 && s[0] == '+' { s.drop_first() } else { s };
    if body.len() > 0 && all_digits(body) && digits_value(body) <= usize::MAX {
        Some(digits_value(body))
    } else {
        None
    }
}

/// `str::parse::<isize>`: an optional sign, then at least one digit, and a value that fits.
pub open spec fn parse_isize(s: Seq<char>) -> Option<int> {
    let neg = s.len() > 0 && s[0] == '-';
    let body = if s.len() > 0 && (s[0] == '+' || s[0] == '-') { s.drop_first() } else { s };
    if body.len() > 0 && all_digits(body) {
        if neg && digits_value(body) <= -(isize::MIN as int) {
            Some(-(digits_value(body) as int))
        } else if !neg && digits_value(body) <= isize::MAX {
            Some(digits_value(body) as int)
        } else {
            None
        }
    } else {
        None
    }
}

/// `str::parse::<i64>`: an optional sign, then at least one digit, and a value that fits.
pub open spec fn parse_i64(s: Seq<char>) -> Option<int> {
    let neg = s.len() > 0 && s[0] == '-';
    let body = if s.len() > 0 && (s[0] == '+' || s[0] == '-') { s.drop_first() } else { s };
    if body.len() > 0 && all_digits(body) {
        if neg && digits_value(body) <= -(i64::MIN as int) {
            Some(-(digits_value(body) as int))
        } else if !neg && digits_value(body) <= i64::MAX {
            Some(digits_value(body) as int)
        } else {
            None
        }
    } else {
        None
    }
}

/// `s` without any leading copies of `c` (`trim_start_matches(c)`).
pub open spec fn trim_start_char(s: Seq<char>, c: char) -> Seq<char>
    decreases s.len(),
{
    if s.len() > 0 && s[0] == c {
        trim_start_char(s.drop_first(), c)
    } else {
        s
    }
}

/// `s` without any trailing copies of `c` (`trim_end_matches(c)`).
pub open spec fn trim_end_char(s: Seq<char>, c: char) -> Seq<char>
    decreases s.len(),
{
    if s.len() > 0 && s.last() == c {
        trim_end_char(s.drop_last(), c)
    } else {
        s
    }
}

/// `s` without leading and trailing copies of `c` (`trim_matches(c)`).
pub open spec fn trim_char(s: Seq<char>, c: char) -> Seq<char> {
    trim_end_char(trim_start_char(s, c), c)
}

/// `s` without any trailing copies of `p` (`trim_end_matches(p)`).
pub open spec fn strip_suffix_all(s: Seq<char>, p: Seq<char>) -> Seq<char>
    decreases s.len(),
{
    if p.len() > 0 && ends_with(s, p) {
        strip_suffix_all(s.subrange(0, s.len() - p.len()), p)
    } else {
        s
    }
}

/// `s` without any leading copies of `p` (`trim_start_matches(p)`).
pub open spec fn strip_prefix_all(s: Seq<char>, p: Seq<char>) -> Seq<char>
    decreases s.len(),
{
    if p.len() > 0 && starts_with(s, p) {
        strip_prefix_all(s.subrange(p.len() as int, s.len() as int), p)
    } else {
        s
    }
}

/// A line without the `\r` of a `\r\n` ending.
pub open spec fn strip_cr(l: Seq<char>) -> Seq<char> {
    if l.len() > 0 && l.last() == '\r' {
        l.drop_last()
    } else {
        l
    }
}

/// `str::lines`: the text split at `\n` (a `\r` before it dropped too), without an
/// empty last line.
pub open spec fn lines(s: Seq<char>) -> Seq<Seq<char>> {
    let p = split_all(s, "\n"@);
    let n = p.len() as int;
    let last: Seq<Seq<char>> = if n == 0 || p[n - 1].len() == 0 { Seq::empty() } else { seq![p[n - 1]] };
    p.subrange(0, n - 1).map_values(|l: Seq<char>| strip_cr(l)) + last
}

/// At most the first `n` elements.
pub open spec fn first_n<A>(s: Seq<A>, n: int) -> Seq<A> {
    if s.len() <= n {
        s
    } else {
        s.subrange(0, n)
    }
}

/// An optional index as a mathematical integer.
pub open spec fn opt_int(r: Option<usize>) -> Option<int> {
    match r {
        Some(i) => Some(i as int),
        None => None,
    }
}

// ---------------------------------------------------------------------------
// Lemmas
// ---------------------------------------------------------------------------

/// A found occurrence lies at or after the start of the search, inside `s`,
/// and no earlier position from the start holds one.
pub proof fn lemma_find_from_some(s: Seq<char>, p: Seq<char>, from: int)
    ensures
        find_from(s, p, from) matches Some(i) ==> from <= i && i + p.len() <= s.len()
            && occurs_at(s, p, i)
            && forall|j: int| from <= j < i ==> !occurs_at(s, p, j),
        find_from(s, p, from) is None && 0 <= from ==> forall|j: int| from <= j ==> !occurs_at(s, p, j),
    decreases s.len() + 1 - from,
{
    if from < 0 || from + p.len() > s.len() {
    } else if occurs_at(s, p, from) {
    } else {
        lemma_find_from_some(s, p, from + 1);
    }
}

/// A found last occurrence lies inside the searched window.
pub proof fn lemma_rfind_in_bounds(s: Seq<char>, p: Seq<char>, lo: int, hi: int)
    ensures
        rfind_in(s, p, lo, hi) matches Some(i) ==> lo <= i && i + p.len() <= hi && occurs_at(s, p, i)
            && forall|j: int| i < j && j + p.len() <= hi ==> !occurs_at(s, p, j),
    decreases hi - lo + 1,
{
    if hi - lo < p.len() {
    } else if occurs_at(s, p, hi - p.len()) {
    } else {
        lemma_rfind_in_bounds(s, p, lo, hi - 1);
    }
}

/// Every piece of a split is no longer than the text.
pub proof fn lemma_split_parts_len(s: Seq<char>, sep: Seq<char>)
    ensures
        split_all(s, sep).len() >= 1,
        forall|i: int| 0 <= i < split_all(s, sep).len() ==> #[trigger] split_all(s, sep)[i].len() <= s.len(),
        sep.len() > 0 && contains(s, sep) ==> forall|i: int|
            0 <= i < split_all(s, sep).len() ==> #[trigger] split_all(s, sep)[i].len() < s.len(),
    decreases s.len(),
{
    if sep.len() > 0 {
        lemma_find_from_some(s, sep, 0);
        match find(s, sep) {
            Some(i) => {
                let t = s.subrange(i + sep.len(), s.len() as int);
                lemma_split_parts_len(t, sep);
                let parts = split_all(s, sep);
                assert(parts == seq![s.subrange(0, i)] + split_all(t, sep));
                assert forall|k: int| 0 <= k < parts.len() implies #[trigger] parts[k].len() < s.len() by {
                    if k > 0 {
                        assert(parts[k] == split_all(t, sep)[k - 1]);
                    }
                }
            },
            None => {},
        }
    }
}

/// Trimming keeps only characters of the text: whatever holds of every character
/// of a text holds of every character of it trimmed.
pub proof fn lemma_trim_keeps(s: Seq<char>, p: spec_fn(char) -> bool)
    requires
        forall|i: int| 0 <= i < s.len() ==> p(#[trigger] s[i]),
    ensures
        forall|i: int| 0 <= i < trim(s).len() ==> p(#[trigger] trim(s)[i]),
{
    lemma_trim_start_keeps(s, p);
    lemma_trim_end_keeps(trim_start(s), p);
}

/// A text made of whitespace only.
pub open spec fn all_ws(s: Seq<char>) -> bool {
    forall|i: int| 0 <= i < s.len() ==> is_ws(#[trigger] s[i])
}

proof fn lemma_trim_start_empty(s: Seq<char>)
    ensures
        all_ws(s) <==> trim_start(s).len() == 0,
        trim_start(s).len() > 0 ==> !is_ws(trim_start(s)[0]),
    decreases s.len(),
{
    if s.len() > 0 && is_ws(s[0]) {
        let rest = s.drop_first();
        lemma_trim_start_empty(rest);
        if all_ws(rest) {
            assert forall|i: int| 0 <= i < s.len() implies is_ws(#[trigger] s[i]) by {
                if i > 0 {
                    assert(s[i] == rest[i - 1]);
                }
            }
        }
        if all_ws(s) {
            assert forall|i: int| 0 <= i < rest.len() implies is_ws(#[trigger] rest[i]) by {
                assert(rest[i] == s[i + 1]);
            }
        }
    } else if s.len() > 0 {
        assert(!is_ws(s[0]));
    }
}

proof fn lemma_trim_end_nonempty(s: Seq<char>)
    requires
        s.len() > 0,
        !is_ws(s[0]),
    ensures
        trim_end(s).len() > 0,
    decreases s.len(),
{
    if is_ws(s.last()) {
        assert(s.len() > 1);
        lemma_trim_end_nonempty(s.drop_last());
    }
}

/// A text trims to nothing exactly when it is all whitespace.
pub proof fn lemma_trim_empty(s: Seq<char>)
    ensures
        trim(s).len() == 0 <==> all_ws(s),
{
    lemma_trim_start_empty(s);
    if trim_start(s).len() > 0 {
        lemma_trim_end_nonempty(trim_start(s));
    }
}

/// Every piece of a split keeps what holds of every character of the text.
pub proof fn lemma_split_keeps(s: Seq<char>, sep: Seq<char>, p: spec_fn(char) -> bool)
    requires
        forall|i: int| 0 <= i < s.len() ==> p(#[trigger] s[i]),
    ensures
        forall|k: int, i: int| 0 <= k < split_all(s, sep).len() && 0 <= i < split_all(s, sep)[k].len()
            ==> p(#[trigger] split_all(s, sep)[k][i]),
    decreases s.len(),
{
    if sep.len() > 0 {
        lemma_find_from_some(s, sep, 0);
        match find(s, sep) {
            Some(j) => {
                let t = s.subrange(j + sep.len(), s.len() as int);
                assert forall|i: int| 0 <= i < t.len() implies p(#[trigger] t[i]) by {
                    assert(t[i] == s[j + sep.len() + i]);
                }
                lemma_split_keeps(t, sep, p);
                let parts = split_all(s, sep);
                assert(parts == seq![s.subrange(0, j)] + split_all(t, sep));
                assert forall|k: int, i: int| 0 <= k < parts.len() && 0 <= i < parts[k].len()
                    implies p(#[trigger] parts[k][i]) by {
                    if k > 0 {
                        assert(parts[k] == split_all(t, sep)[k - 1]);
                    } else {
                        assert(parts[0][i] == s[i]);
                    }
                }
            },
            None => {},
        }
    }
}

/// A text whose pieces, split at a whitespace separator, are all whitespace is
/// all whitespace.
pub proof fn lemma_split_ws_back(s: Seq<char>, sep: Seq<char>)
    requires
        all_ws(sep),
        forall|k: int| 0 <= k < split_all(s, sep).len() ==> all_ws(#[trigger] split_all(s, sep)[k]),
    ensures
        all_ws(s),
    decreases s.len(),
{
    if sep.len() == 0 {
        assert(split_all(s, sep)[0] == s);
    } else {
        lemma_find_from_some(s, sep, 0);
        match find(s, sep) {
            Some(j) => {
                let t = s.subrange(j + sep.len(), s.len() as int);
                let parts = split_all(s, sep);
                assert(parts == seq![s.subrange(0, j)] + split_all(t, sep));
                assert forall|k: int| 0 <= k < split_all(t, sep).len() implies all_ws(#[trigger] split_all(t, sep)[k]) by {
                    assert(split_all(t, sep)[k] == parts[k + 1]);
                }
                lemma_split_ws_back(t, sep);
                assert(all_ws(parts[0]));
                assert forall|i: int| 0 <= i < s.len() implies is_ws(#[trigger] s[i]) by {
                    if i < j {
                        assert(s[i] == parts[0][i]);
                    } else if i < j + sep.len() {
                        assert(s.subrange(j, j + sep.len()) == sep);
                        assert(s[i] == sep[i - j]);
                    } else {
                        assert(s[i] == t[i - j - sep.len()]);
                    }
                }
            },
            None => {
                assert(split_all(s, sep)[0] == s);
            },
        }
    }
}

/// A text whose lines are all whitespace is all whitespace.
pub proof fn lemma_lines_ws_back(s: Seq<char>)
    requires
        forall|k: int| 0 <= k < lines(s).len() ==> all_ws(#[trigger] lines(s)[k]),
    ensures
        all_ws(s),
{
    reveal_strlit("\n");
    let parts = split_all(s, "\n"@);
    let n = parts.len() as int;
    lemma_split_parts_len(s, "\n"@);
    let ls = lines(s);
    assert("\n"@ =~= seq!['\n']);
    assert forall|k: int| 0 <= k < n implies all_ws(#[trigger] parts[k]) by {
        if k < n - 1 {
            assert(ls[k] == strip_cr(parts[k]));
            assert(all_ws(ls[k]));
            assert forall|i: int| 0 <= i < parts[k].len() implies is_ws(#[trigger] parts[k][i]) by {
                if i < ls[k].len() {
                    assert(ls[k][i] == parts[k][i]);
                }
            }
        } else if parts[k].len() > 0 {
            assert(ls[ls.len() - 1] == parts[k]);
        }
    }
    lemma_split_ws_back(s, "\n"@);
}

/// Every line of a text keeps what holds of every character of the text.
pub proof fn lemma_lines_keep(s: Seq<char>, p: spec_fn(char) -> bool)
    requires
        forall|i: int| 0 <= i < s.len() ==> p(#[trigger] s[i]),
    ensures
        forall|k: int, i: int| 0 <= k < lines(s).len() && 0 <= i < lines(s)[k].len() ==> p(#[trigger] lines(s)[k][i]),
{
    let parts = split_all(s, "\n"@);
    lemma_split_keeps(s, "\n"@, p);
    lemma_split_parts_len(s, "\n"@);
    let n = parts.len() as int;
    let ls = lines(s);
    assert forall|k: int, i: int| 0 <= k < ls.len() && 0 <= i < ls[k].len() implies p(#[trigger] ls[k][i]) by {
        if k < n - 1 {
            assert(ls[k] == strip_cr(parts[k]));
            assert(ls[k][i] == parts[k][i]);
        } else {
            assert(ls[k] == parts[n - 1]);
        }
    }
}

proof fn lemma_trim_start_suffix(s: Seq<char>) -> (k: int)
    ensures
        0 <= k <= s.len(),
        trim_start(s) == s.subrange(k, s.len() as int),
        trim_start(s).len() > 0 ==> !is_ws(trim_start(s)[0]),
    decreases s.len(),
{
    if s.len() > 0 && is_ws(s[0]) {
        let j = lemma_trim_start_suffix(s.drop_first());
        assert(s.drop_first().subrange(j, s.len() - 1) =~= s.subrange(j + 1, s.len() as int));
        j + 1
    } else {
        assert(s.subrange(0, s.len() as int) =~= s);
        0
    }
}

proof fn lemma_trim_end_prefix(s: Seq<char>) -> (k: int)
    ensures
        0 <= k <= s.len(),
        trim_end(s) == s.subrange(0, k),
        trim_end(s).len() > 0 ==> !is_ws(trim_end(s).last()),
    decreases s.len(),
{
    if s.len() > 0 && is_ws(s.last()) {
        let j = lemma_trim_end_prefix(s.drop_last());
        assert(s.drop_last().subrange(0, j) =~= s.subrange(0, j));
        j
    } else {
        assert(s.subrange(0, s.len() as int) =~= s);
        s.len() as int
    }
}

/// A trimmed text is its own trim, and no longer than the text.
pub proof fn lemma_trim_idempotent(s: Seq<char>)
    ensures
        trim(trim(s)) == trim(s),
        trim(s).len() <= s.len(),
{
    let a = trim_start(s);
    lemma_trim_start_suffix(s);
    let k = lemma_trim_end_prefix(a);
    let t = trim_end(a);
    if t.len() > 0 {
        assert(t[0] == a[0]);
        assert(trim_start(t) == t);
        assert(trim_end(t) == t);
    } else {
        assert(trim_start(t) == t);
    }
}

proof fn lemma_trim_start_keeps(s: Seq<char>, p: spec_fn(char) -> bool)
    requires
        forall|i: int| 0 <= i < s.len() ==> p(#[trigger] s[i]),
    ensures
        forall|i: int| 0 <= i < trim_start(s).len() ==> p(#[trigger] trim_start(s)[i]),
    decreases s.len(),
{
    if s.len() > 0 && is_ws(s[0]) {
        let rest = s.drop_first();
        assert forall|i: int| 0 <= i < rest.len() implies p(#[trigger] rest[i]) by {
            assert(rest[i] == s[i + 1]);
        }
        lemma_trim_start_keeps(rest, p);
        assert(trim_start(s) == trim_start(rest));
    } else {
        assert(trim_start(s) == s);
    }
}

proof fn lemma_trim_end_keeps(s: Seq<char>, p: spec_fn(char) -> bool)
    requires
        forall|i: int| 0 <= i < s.len() ==> p(#[trigger] s[i]),
    ensures
        forall|i: int| 0 <= i < trim_end(s).len() ==> p(#[trigger] trim_end(s)[i]),
    decreases s.len(),
{
    if s.len() > 0 && is_ws(s.last()) {
        let rest = s.drop_last();
        assert forall|i: int| 0 <= i < rest.len() implies p(#[trigger] rest[i]) by {
            assert(rest[i] == s[i]);
        }
        lemma_trim_end_keeps(rest, p);
        assert(trim_end(s) == trim_end(rest));
    } else {
        assert(trim_end(s) == s);
    }
}

proof fn lemma_trim_start_skip(s: Seq<char>, i: int)
    requires
        0 <= i < s.len(),
        is_ws(s[i]),
    ensures
        trim_start(s.subrange(i, s.len() as int)) == trim_start(s.subrange(i + 1, s.len() as int)),
{
    assert(s.subrange(i, s.len() as int).drop_first() =~= s.subrange(i + 1, s.len() as int));
}

proof fn lemma_trim_end_drop(s: Seq<char>, lo: int, hi: int)
    requires
        0 <= lo < hi <= s.len(),
        is_ws(s[hi - 1]),
    ensures
        trim_end(s.subrange(lo, hi)) == trim_end(s.subrange(lo, hi - 1)),
{
    assert(s.subrange(lo, hi).drop_last() =~= s.subrange(lo, hi - 1));
}

proof fn lemma_digits_value_step(s: Seq<char>, i: int)
    requires
        0 <= i < s.len(),
    ensures
        digits_value(s.subrange(0, i + 1)) == 10 * digits_value(s.subrange(0, i)) + ((s[i] as u32) - 48) as nat,
{
    assert(s.subrange(0, i + 1).drop_last() =~= s.subrange(0, i));
}

proof fn lemma_digits_value_mono(s: Seq<char>, i: int, j: int)
    requires
        0 <= i <= j <= s.len(),
        all_digits(s),
    ensures
        digits_value(s.subrange(0, i)) <= digits_value(s.subrange(0, j)),
    decreases j - i,
{
    if i < j {
        lemma_digits_value_mono(s, i, j - 1);
        lemma_digits_value_step(s, j - 1);
        assert(is_digit(s[j - 1]));
    }
}

// ---------------------------------------------------------------------------
// Executable primitives
// ---------------------------------------------------------------------------

/// The characters of a string slice, in order.
pub fn chars_of(s: &str) -> (v: Vec<char>)
    ensures
        v@ == s@,
{
    let mut v: Vec<char> = Vec::new();
    for c in it: s.chars()
        invariant
            v@ == it.seq().take(it.index() as int),
            it.seq() == s@,
    {
        v.push(c);
    }
    v
}

/// The characters `v[lo..hi]` as a `String`.
pub fn string_from(v: &Vec<char>, lo: usize, hi: usize) -> (r: String)
    requires
        lo <= hi <= v.len(),
    ensures
        r@ == v@.subrange(lo as int, hi as int),
{
    let mut r = String::new();
    let mut i = lo;
    while i < hi
        invariant
            lo <= i <= hi <= v.len(),
            r@ == v@.subrange(lo as int, i as int),
        decreases hi - i,
    {
        r.push(v[i]);
        i += 1;
        assert(r@ =~= v@.subrange(lo as int, i as int));
    }
    r
}

/// The characters `v[lo..hi]`.
pub fn vec_range(v: &Vec<char>, lo: usize, hi: usize) -> (r: Vec<char>)
    requires
        lo <= hi <= v.len(),
    ensures
        r@ == v@.subrange(lo as int, hi as int),
{
    let mut r: Vec<char> = Vec::new();
    let mut i = lo;
    while i < hi
        invariant
            lo <= i <= hi <= v.len(),
            r@ == v@.subrange(lo as int, i as int),
        decreases hi - i,
    {
        r.push(v[i]);
        i += 1;
        assert(r@ =~= v@.subrange(lo as int, i as int));
    }
    r
}

/// A `String` with the given characters.
pub fn string_of(v: &Vec<char>) -> (r: String)
    ensures
        r@ == v@,
{
    let r = string_from(v, 0, v.len());
    assert(v@.subrange(0, v@.len() as int) =~= v@);
    r
}

/// Appends the characters of `t` to `s`.
pub fn push_str(s: &mut String, t: &str)
    ensures
        final(s)@ == old(s)@ + t@,
{
    let v = chars_of(t);
    let mut i: usize = 0;
    while i < v.len()
        invariant
            0 <= i <= v.len(),
            v@ == t@,
            s@ == old(s)@ + v@.subrange(0, i as int),
        decreases v.len() - i,
    {
        s.push(v[i]);
        i += 1;
        assert(s@ =~= old(s)@ + v@.subrange(0, i as int));
    }
    assert(v@.subrange(0, v@.len() as int) =~= v@);
}

/// Appends `v[lo..hi]` to `s`.
pub fn push_range(s: &mut String, v: &Vec<char>, lo: usize, hi: usize)
    requires
        lo <= hi <= v.len(),
    ensures
        final(s)@ == old(s)@ + v@.subrange(lo as int, hi as int),
{
    let mut i = lo;
    while i < hi
        invariant
            lo <= i <= hi <= v.len(),
            s@ == old(s)@ + v@.subrange(lo as int, i as int),
        decreases hi - i,
    {
        s.push(v[i]);
        i += 1;
        assert(s@ =~= old(s)@ + v@.subrange(lo as int, i as int));
    }
}

/// Whitespace test of `char::is_whitespace`.
pub fn is_whitespace(c: char) -> (b: bool)
    ensures
        b == is_ws(c),
{
    ('\t' <= c && c <= '\r') || c == ' ' || c == '\u{85}' || c == '\u{A0}' || c == '\u{1680}'
        || ('\u{2000}' <= c && c <= '\u{200A}') || c == '\u{2028}' || c == '\u{2029}'
        || c == '\u{202F}' || c == '\u{205F}' || c == '\u{3000}'
}

/// The bounds of `v` without leading and trailing whitespace.
pub fn trim_bounds(v: &Vec<char>) -> (r: (usize, usize))
    ensures
        r.0 <= r.1 <= v.len(),
        v@.subrange(r.0 as int, r.1 as int) == trim(v@),
        v@.subrange(r.0 as int, v.len() as int) == trim_start(v@),
{
    let mut lo: usize = 0;
    assert(v@.subrange(0, v@.len() as int) =~= v@);
    while lo < v.len() && is_whitespace(v[lo])
        invariant
            lo <= v.len(),
            trim_start(v@) == trim_start(v@.subrange(lo as int, v.len() as int)),
        decreases v.len() - lo,
    {
        proof {
            lemma_trim_start_skip(v@, lo as int);
        }
        lo += 1;
    }
    let ghost ts = v@.subrange(lo as int, v.len() as int);
    assert(trim_start(ts) == ts);
    let mut hi: usize = v.len();
    while hi > lo && is_whitespace(v[hi - 1])
        invariant
            lo <= hi <= v.len(),
            trim_end(ts) == trim_end(v@.subrange(lo as int, hi as int)),
        decreases hi,
    {
        proof {
            lemma_trim_end_drop(v@, lo as int, hi as int);
        }
        hi -= 1;
    }
    let ghost tt = v@.subrange(lo as int, hi as int);
    assert(trim_end(tt) == tt);
    (lo, hi)
}

/// `trim_start_matches(c)` on characters.
pub fn trim_start_char_exec(v: &Vec<char>, c: char) -> (r: Vec<char>)
    ensures
        r@ == trim_start_char(v@, c),
        r@.len() <= v@.len(),
{
    let mut lo: usize = 0;
    assert(v@.subrange(0, v@.len() as int) =~= v@);
    while lo < v.len() && v[lo] == c
        invariant
            lo <= v.len(),
            trim_start_char(v@, c) == trim_start_char(v@.subrange(lo as int, v.len() as int), c),
        decreases v.len() - lo,
    {
        assert(v@.subrange(lo as int, v.len() as int).drop_first() =~= v@.subrange(lo + 1, v.len() as int));
        lo += 1;
    }
    vec_range(v, lo, v.len())
}

/// `trim_end_matches(c)` on characters.
pub fn trim_end_char_exec(v: &Vec<char>, c: char) -> (r: Vec<char>)
    ensures
        r@ == trim_end_char(v@, c),
        r@.len() <= v@.len(),
{
    let mut hi: usize = v.len();
    assert(v@.subrange(0, v@.len() as int) =~= v@);
    while hi > 0 && v[hi - 1] == c
        invariant
            hi <= v.len(),
            trim_end_char(v@, c) == trim_end_char(v@.subrange(0, hi as int), c),
        decreases hi,
    {
        assert(v@.subrange(0, hi as int).drop_last() =~= v@.subrange(0, hi - 1));
        hi -= 1;
    }
    vec_range(v, 0, hi)
}

/// `trim_matches(c)` on characters.
pub fn trim_char_exec(v: &Vec<char>, c: char) -> (r: Vec<char>)
    ensures
        r@ == trim_char(v@, c),
        r@.len() <= v@.len(),
{
    let a = trim_start_char_exec(v, c);
    trim_end_char_exec(&a, c)
}

/// `trim_end_matches(p)` on characters.
pub fn strip_suffix_all_exec(v: &Vec<char>, p: &Vec<char>) -> (r: Vec<char>)
    ensures
        r@ == strip_suffix_all(v@, p@),
        r@.len() <= v@.len(),
        v@.subrange(0, r@.len() as int) == r@,
{
    let mut hi: usize = v.len();
    assert(v@.subrange(0, v@.len() as int) =~= v@);
    while p.len() > 0 && hi >= p.len() && occurs_at_exec(v, p, hi - p.len())
        invariant
            hi <= v.len(),
            strip_suffix_all(v@, p@) == strip_suffix_all(v@.subrange(0, hi as int), p@),
        decreases hi,
    {
        let ghost t = v@.subrange(0, hi as int);
        assert(t.subrange(t.len() - p@.len(), t.len() as int) =~= v@.subrange(hi - p@.len(), hi as int));
        assert(t.subrange(0, t.len() - p@.len()) =~= v@.subrange(0, hi - p@.len()));
        hi -= p.len();
    }
    proof {
        let t = v@.subrange(0, hi as int);
        if p@.len() > 0 && ends_with(t, p@) {
            assert(t.subrange(t.len() - p@.len(), t.len() as int) =~= v@.subrange(hi - p@.len(), hi as int));
        }
    }
    let r = vec_range(v, 0, hi);
    assert(v@.subrange(0, r@.len() as int) =~= r@);
    r
}

/// `trim_start_matches(p)` on characters.
pub fn strip_prefix_all_exec(v: &Vec<char>, p: &Vec<char>) -> (r: Vec<char>)
    ensures
        r@ == strip_prefix_all(v@, p@),
        r@.len() <= v@.len(),
{
    let mut lo: usize = 0;
    assert(v@.subrange(0, v@.len() as int) =~= v@);
    while p.len() > 0 && occurs_at_exec(v, p, lo)
        invariant
            lo <= v.len(),
            strip_prefix_all(v@, p@) == strip_prefix_all(v@.subrange(lo as int, v.len() as int), p@),
        decreases v.len() - lo,
    {
        let ghost t = v@.subrange(lo as int, v.len() as int);
        assert(t.subrange(0, p@.len() as int) =~= v@.subrange(lo as int, lo + p@.len()));
        assert(t.subrange(p@.len() as int, t.len() as int) =~= v@.subrange(lo + p@.len(), v.len() as int));
        lo += p.len();
    }
    proof {
        let t = v@.subrange(lo as int, v.len() as int);
        if p@.len() > 0 && starts_with(t, p@) {
            assert(t.subrange(0, p@.len() as int) =~= v@.subrange(lo as int, lo + p@.len()));
        }
    }
    vec_range(v, lo, v.len())
}

/// `str::trim` on characters.
pub fn trim_exec(v: &Vec<char>) -> (r: Vec<char>)
    ensures
        r@ == trim(v@),
        r@.len() <= v@.len(),
{
    let (lo, hi) = trim_bounds(v);
    vec_range(v, lo, hi)
}

/// The strings joined with `sep` between consecutive ones (`[String]::join`).
pub fn join_strings(parts: &Vec<String>, sep: &str) -> (r: String)
    ensures
        r@ == join(parts.deep_view(), sep@),
{
    let mut r = String::new();
    let mut i: usize = 0;
    assert(parts.deep_view().subrange(0, 0) =~= Seq::<Seq<char>>::empty());
    while i < parts.len()
        invariant
            i <= parts.len(),
            r@ == join(parts.deep_view().subrange(0, i as int), sep@),
        decreases parts.len() - i,
    {
        let ghost prev = parts.deep_view().subrange(0, i as int);
        assert(parts.deep_view().subrange(0, i + 1) =~= prev.push(parts.deep_view()[i as int]));
        assert(prev.push(parts.deep_view()[i as int]).drop_last() =~= prev);
        if i > 0 {
            push_str(&mut r, sep);
        } else {
            assert(r@ =~= Seq::<char>::empty());
        }
        push_str(&mut r, parts[i].as_str());
        i += 1;
    }
    assert(parts.deep_view().subrange(0, parts.len() as int) =~= parts.deep_view());
    r
}

/// `str::lines`.
pub fn lines_exec(s: &str) -> (r: Vec<String>)
    ensures
        r.deep_view() == lines(s@),
{
    let v = chars_of(s);
    let nl = chars_of("\n");
    proof {
        reveal_strlit("\n");
        lemma_split_parts_len(v@, nl@);
    }
    let parts = split_exec(&v, &nl);
    let ghost p = parts.deep_view();
    let n = parts.len();
    let mut r: Vec<String> = Vec::new();
    let mut i: usize = 0;
    while i + 1 < n
        invariant
            p == parts.deep_view(),
            n == p.len(),
            n >= 1,
            i + 1 <= n,
            r.deep_view() == p.subrange(0, i as int).map_values(|l: Seq<char>| strip_cr(l)),
        decreases n - i,
    {
        let lv = chars_of(parts[i].as_str());
        let line = if lv.len() > 0 && lv[lv.len() - 1] == '\r' {
            string_from(&lv, 0, lv.len() - 1)
        } else {
            string_of(&lv)
        };
        proof {
            if lv@.len() > 0 && lv@.last() == '\r' {
                assert(lv@.subrange(0, lv@.len() - 1) =~= lv@.drop_last());
            }
        }
        let ghost before = r.deep_view();
        r.push(line);
        assert(r.deep_view() =~= before.push(strip_cr(p[i as int])));
        assert(p.subrange(0, i + 1).map_values(|l: Seq<char>| strip_cr(l))
            =~= p.subrange(0, i as int).map_values(|l: Seq<char>| strip_cr(l)).push(strip_cr(p[i as int])));
        i += 1;
    }
    if !parts[n - 1].as_str().is_empty() {
        let ghost before = r.deep_view();
        r.push(parts[n - 1].clone());
        assert(r.deep_view() =~= before + seq![p[n - 1]]);
    } else {
        assert(r.deep_view() =~= r.deep_view() + Seq::<Seq<char>>::empty());
    }
    r
}

/// The number of characters of a text (`str::chars().count()`).
pub fn char_count(s: &str) -> (n: usize)
    ensures
        n == s@.len(),
{
    chars_of(s).len()
}

/// `str::trim`.
pub fn trim_str(s: &str) -> (r: String)
    ensures
        r@ == trim(s@),
{
    let v = chars_of(s);
    let (lo, hi) = trim_bounds(&v);
    string_from(&v, lo, hi)
}

/// Whether `p` occurs in `v` at index `i`.
pub fn occurs_at_exec(v: &Vec<char>, p: &Vec<char>, i: usize) -> (b: bool)
    ensures
        b == occurs_at(v@, p@, i as int),
{
    if i > v.len() || p.len() > v.len() - i {
        return false;
    }
    let mut k: usize = 0;
    while k < p.len()
        invariant
            i + p.len() <= v.len(),
            k <= p.len(),
            forall|j: int| 0 <= j < k ==> v@[i + j] == p@[j],
        decreases p.len() - k,
    {
        if v[i + k] != p[k] {
            assert(v@.subrange(i as int, i + p.len())[k as int] != p@[k as int]);
            return false;
        }
        k += 1;
    }
    assert(v@.subrange(i as int, i + p.len()) =~= p@);
    true
}

/// The first index at or after `from` where `p` occurs in `v`.
pub fn find_from_exec(v: &Vec<char>, p: &Vec<char>, from: usize) -> (r: Option<usize>)
    ensures
        opt_int(r) == find_from(v@, p@, from as int),
        r matches Some(i) ==> from <= i && i + p.len() <= v.len(),
{
    proof {
        lemma_find_from_some(v@, p@, from as int);
    }
    let mut i = from;
    while i <= v.len() && p.len() <= v.len() - i
        invariant
            from <= i,
            find_from(v@, p@, from as int) == find_from(v@, p@, i as int),
        decreases v.len() + 1 - i,
    {
        if occurs_at_exec(v, p, i) {
            return Some(i);
        }
        if i == v.len() {
            assert(find_from(v@, p@, i + 1) is None);
            return None;
        }
        i += 1;
    }
    None
}

/// The last index in `[lo, hi - |p|]` where `p` occurs in `v`.
pub fn rfind_in_exec(v: &Vec<char>, p: &Vec<char>, lo: usize, hi: usize) -> (r: Option<usize>)
    requires
        lo <= hi <= v.len(),
    ensures
        opt_int(r) == rfind_in(v@, p@, lo as int, hi as int),
        r matches Some(i) ==> lo <= i && i + p.len() <= hi,
{
    proof {
        lemma_rfind_in_bounds(v@, p@, lo as int, hi as int);
    }
    let mut h = hi;
    while h >= lo && h - lo >= p.len()
        invariant
            lo <= hi <= v.len(),
            h <= hi,
            rfind_in(v@, p@, lo as int, hi as int) == rfind_in(v@, p@, lo as int, h as int),
        decreases h,
    {
        if occurs_at_exec(v, p, h - p.len()) {
            return Some(h - p.len());
        }
        if h == 0 {
            assert(v@.subrange(0, 0) =~= p@);
            return None;
        }
        h -= 1;
    }
    None
}

/// `s.contains(p)`.
pub fn contains_exec(v: &Vec<char>, p: &Vec<char>) -> (b: bool)
    ensures
        b == contains(v@, p@),
{
    find_from_exec(v, p, 0).is_some()
}

/// `s.starts_with(p)`.
pub fn starts_with_exec(v: &Vec<char>, p: &Vec<char>) -> (b: bool)
    ensures
        b == starts_with(v@, p@),
{
    occurs_at_exec(v, p, 0)
}

/// `s.ends_with(p)`.
pub fn ends_with_exec(v: &Vec<char>, p: &Vec<char>) -> (b: bool)
    ensures
        b == ends_with(v@, p@),
{
    if p.len() > v.len() {
        false
    } else {
        occurs_at_exec(v, p, v.len() - p.len())
    }
}

/// `str::replace` for a non-empty pattern.
pub fn replace_exec(v: &Vec<char>, p: &Vec<char>, t: &Vec<char>) -> (r: String)
    requires
        p.len() > 0,
    ensures
        r@ == replace_all(v@, p@, t@),
{
    let mut r = String::new();
    let mut pos: usize = 0;
    assert(v@.subrange(0, v@.len() as int) =~= v@);
    while pos <= v.len()
        invariant
            p.len() > 0,
            pos <= v.len(),
            replace_all(v@, p@, t@) == r@ + replace_all(v@.subrange(pos as int, v.len() as int), p@, t@),
        decreases v.len() - pos,
    {
        let ghost rest = v@.subrange(pos as int, v.len() as int);
        match find_from_exec(v, p, pos) {
            Some(i) => {
                proof {
                    lemma_find_shift(v@, p@, pos as int);
                }
                push_range(&mut r, v, pos, i);
                push_range(&mut r, t, 0, t.len());
                assert(t@.subrange(0, t@.len() as int) =~= t@);
                assert(rest.subrange(0, i - pos) =~= v@.subrange(pos as int, i as int));
                assert(rest.subrange(i - pos + p.len(), rest.len() as int)
                    =~= v@.subrange(i + p.len(), v.len() as int));
                pos = i + p.len();
                assert(r@ + replace_all(v@.subrange(pos as int, v.len() as int), p@, t@)
                    =~= replace_all(v@, p@, t@));
            },
            None => {
                proof {
                    lemma_find_shift(v@, p@, pos as int);
                }
                push_range(&mut r, v, pos, v.len());
                return r;
            },
        }
    }
    r
}

/// Searching a suffix of `s` is searching `s` from the suffix's start.
pub proof fn lemma_find_shift(s: Seq<char>, p: Seq<char>, pos: int)
    requires
        0 <= pos <= s.len(),
    ensures
        find(s.subrange(pos, s.len() as int), p) == match find_from(s, p, pos) {
            Some(i) => Some(i - pos),
            None => None::<int>,
        },
{
    lemma_find_shift_from(s, p, pos, pos);
}

proof fn lemma_find_shift_from(s: Seq<char>, p: Seq<char>, pos: int, k: int)
    requires
        0 <= pos <= k,
        pos <= s.len(),
    ensures
        find_from(s.subrange(pos, s.len() as int), p, k - pos) == match find_from(s, p, k) {
            Some(i) => Some(i - pos),
            None => None::<int>,
        },
    decreases s.len() + 1 - k,
{
    let t = s.subrange(pos, s.len() as int);
    if k + p.len() > s.len() {
    } else {
        assert(t.subrange(k - pos, k - pos + p.len()) =~= s.subrange(k, k + p.len()));
        if !occurs_at(s, p, k) {
            lemma_find_shift_from(s, p, pos, k + 1);
        }
    }
}

/// `str::split` for a non-empty separator.
pub fn split_exec(v: &Vec<char>, sep: &Vec<char>) -> (r: Vec<String>)
    requires
        sep.len() > 0,
    ensures
        r.deep_view() == split_all(v@, sep@),
{
    let mut r: Vec<String> = Vec::new();
    let mut pos: usize = 0;
    assert(v@.subrange(0, v@.len() as int) =~= v@);
    loop
        invariant
            sep.len() > 0,
            pos <= v.len(),
            split_all(v@, sep@) == r.deep_view() + split_all(v@.subrange(pos as int, v.len() as int), sep@),
        decreases v.len() - pos,
    {
        let ghost rest = v@.subrange(pos as int, v.len() as int);
        proof {
            lemma_find_shift(v@, sep@, pos as int);
        }
        match find_from_exec(v, sep, pos) {
            Some(i) => {
                let piece = string_from(v, pos, i);
                let ghost old_r = r.deep_view();
                r.push(piece);
                assert(rest.subrange(0, i - pos) =~= v@.subrange(pos as int, i as int));
                assert(rest.subrange(i - pos + sep.len(), rest.len() as int)
                    =~= v@.subrange(i + sep.len(), v.len() as int));
                assert(r.deep_view() =~= old_r + seq![v@.subrange(pos as int, i as int)]);
                pos = i + sep.len();
                assert(split_all(v@, sep@) =~= r.deep_view() + split_all(v@.subrange(pos as int, v.len() as int), sep@));
            },
            None => {
                let piece = string_from(v, pos, v.len());
                let ghost old_r = r.deep_view();
                r.push(piece);
                assert(r.deep_view() =~= old_r + seq![rest]);
                return r;
            },
        }
    }
}

/// ASCII lower case of one character.
pub fn lower_char_exec(c: char) -> (r: char)
    ensures
        r == lower_char(c),
{
    if 'A' <= c && c <= 'Z' {
        ((c as u8) + 32) as char
    } else {
        c
    }
}

/// `str::to_ascii_lowercase`, as characters.
pub fn ascii_lower_exec(v: &Vec<char>) -> (r: Vec<char>)
    ensures
        r@ == ascii_lower(v@),
{
    let mut r: Vec<char> = Vec::new();
    let mut i: usize = 0;
    while i < v.len()
        invariant
            i <= v.len(),
            r@ == ascii_lower(v@.subrange(0, i as int)),
        decreases v.len() - i,
    {
        r.push(lower_char_exec(v[i]));
        i += 1;
        assert(r@ =~= ascii_lower(v@.subrange(0, i as int)));
    }
    assert(v@.subrange(0, v@.len() as int) =~= v@);
    r
}

/// `usize::to_string`.
pub fn usize_to_string(n: usize) -> (r: String)
    ensures
        r@ == dec(n as nat),
    decreases n,
{
    if n < 10 {
        let mut r = String::new();
        r.push(((n as u8) + 48) as char);
        assert(r@ =~= dec(n as nat));
        r
    } else {
        let mut r = usize_to_string(n / 10);
        r.push((((n % 10) as u8) + 48) as char);
        r
    }
}

/// The value of the digit string `v[lo..hi]` if it does not exceed `max`.
fn digits_upto(v: &Vec<char>, lo: usize, hi: usize, max: usize) -> (r: Option<usize>)
    requires
        lo <= hi <= v.len(),
    ensures
        r matches Some(x) ==> all_digits(v@.subrange(lo as int, hi as int))
            && digits_value(v@.subrange(lo as int, hi as int)) == x && x <= max,
        r is None ==> !all_digits(v@.subrange(lo as int, hi as int))
            || digits_value(v@.subrange(lo as int, hi as int)) > max,
{
    let ghost s = v@.subrange(lo as int, hi as int);
    let mut acc: usize = 0;
    let mut i = lo;
    assert(s.subrange(0, 0) =~= Seq::<char>::empty());
    while i < hi
        invariant
            lo <= i <= hi <= v.len(),
            s == v@.subrange(lo as int, hi as int),
            all_digits(s.subrange(0, i - lo)),
            digits_value(s.subrange(0, i - lo)) == acc,
            acc <= max,
        decreases hi - i,
    {
        let c = v[i];
        proof {
            lemma_digits_value_step(s, i - lo);
            assert(s[i - lo] == c);
        }
        if !('0' <= c && c <= '9') {
            assert(!is_digit(s[i - lo]));
            return None;
        }
        let d = ((c as u32) - 48) as usize;
        if acc > max / 10 || d > max - acc * 10 {
            // the value already exceeds `max`, or is not a digit string
            proof {
                assert(s.subrange(0, i - lo + 1) =~= s.subrange(0, i + 1 - lo));
                assert(all_digits(s.subrange(0, i - lo + 1)));
                if all_digits(s) {
                    assert(s.subrange(0, s.len() as int) =~= s);
                    lemma_digits_value_mono(s, i - lo + 1, s.len() as int);
                }
            }
            return None;
        }
        acc = acc * 10 + d;
        i += 1;
        proof {
            assert(all_digits(s.subrange(0, i - lo)));
        }
    }
    assert(s.subrange(0, s.len() as int) =~= s);
    Some(acc)
}

fn digits_upto_u64(v: &Vec<char>, lo: usize, hi: usize, max: u64) -> (r: Option<u64>)
    requires
        lo <= hi <= v.len(),
    ensures
        r matches Some(x) ==> all_digits(v@.subrange(lo as int, hi as int))
            && digits_value(v@.subrange(lo as int, hi as int)) == x && x <= max,
        r is None ==> !all_digits(v@.subrange(lo as int, hi as int))
            || digits_value(v@.subrange(lo as int, hi as int)) > max,
{
    let ghost s = v@.subrange(lo as int, hi as int);
    let mut acc: u64 = 0;
    let mut i = lo;
    assert(s.subrange(0, 0) =~= Seq::<char>::empty());
    while i < hi
        invariant
            lo <= i <= hi <= v.len(),
            s == v@.subrange(lo as int, hi as int),
            all_digits(s.subrange(0, i - lo)),
            digits_value(s.subrange(0, i - lo)) == acc,
            acc <= max,
        decreases hi - i,
    {
        let c = v[i];
        proof {
            lemma_digits_value_step(s, i - lo);
            assert(s[i - lo] == c);
        }
        if !('0' <= c && c <= '9') {
            assert(!is_digit(s[i - lo]));
            return None;
        }
        let d = ((c as u32) - 48) as u64;
        if acc > max / 10 || d > max - acc * 10 {
            // the value already exceeds `max`, or is not a digit string
            proof {
                assert(s.subrange(0, i - lo + 1) =~= s.subrange(0, i + 1 - lo));
                assert(all_digits(s.subrange(0, i - lo + 1)));
                if all_digits(s) {
                    assert(s.subrange(0, s.len() as int) =~= s);
                    lemma_digits_value_mono(s, i - lo + 1, s.len() as int);
                }
            }
            return None;
        }
        acc = acc * 10 + d;
        i += 1;
        proof {
            assert(all_digits(s.subrange(0, i - lo)));
        }
    }
    assert(s.subrange(0, s.len() as int) =~= s);
    Some(acc)
}

/// `str::parse::<i64>`.
pub fn parse_i64_exec(v: &Vec<char>) -> (r: Option<i64>)
    ensures
        match r {
            Some(x) => parse_i64(v@) == Some(x as int),
            None => parse_i64(v@) is None,
        },
{
    let signed = v.len() > 0 && (v[0] == '+' || v[0] == '-');
    let neg = v.len() > 0 && v[0] == '-';
    let lo: usize = if signed { 1 } else { 0 };
    assert(v@.subrange(lo as int, v@.len() as int) =~= if signed { v@.drop_first() } else { v@ });
    if lo == v.len() {
        return None;
    }
    if neg {
        match digits_upto_u64(v, lo, v.len(), 9_223_372_036_854_775_808u64) {
            Some(x) => {
                if x == 9_223_372_036_854_775_808u64 {
                    Some(i64::MIN)
                } else {
                    Some(-(x as i64))
                }
            },
            None => None,
        }
    } else {
        match digits_upto_u64(v, lo, v.len(), 9_223_372_036_854_775_807u64) {
            Some(x) => Some(x as i64),
            None => None,
        }
    }
}

/// `str::parse::<usize>`.
pub fn parse_usize_exec(v: &Vec<char>) -> (r: Option<usize>)
    ensures
        opt_int(r) == match parse_usize(v@) {
            Some(x) => Some(x as int),
            None => None::<int>,
        },
{
    let lo: usize = if v.len() > 0 && v[0] == '+' { 1 } else { 0 };
    assert(v@.subrange(lo as int, v@.len() as int) =~= if v@.len() > 0 && v@[0] == '+' { v@.drop_first() } else { v@ });
    if lo == v.len() {
        return None;
    }
    digits_upto(v, lo, v.len(), usize::MAX)
}

/// `str::parse::<isize>`.
pub fn parse_isize_exec(v: &Vec<char>) -> (r: Option<isize>)
    ensures
        match r {
            Some(x) => parse_isize(v@) == Some(x as int),
            None => parse_isize(v@) is None,
        },
{
    let signed = v.len() > 0 && (v[0] == '+' || v[0] == '-');
    let neg = v.len() > 0 && v[0] == '-';
    let lo: usize = if signed { 1 } else { 0 };
    assert(v@.subrange(lo as int, v@.len() as int) =~= if signed { v@.drop_first() } else { v@ });
    if lo == v.len() {
        return None;
    }
    if neg {
        match digits_upto(v, lo, v.len(), (isize::MAX as usize) + 1) {
            Some(x) => {
                if x == (isize::MAX as usize) + 1 {
                    Some(isize::MIN)
                } else {
                    Some(-(x as isize))
                }
            },
            None => None,
        }
    } else {
        match digits_upto(v, lo, v.len(), isize::MAX as usize) {
            Some(x) => Some(x as isize),
            None => None,
        }
    }
}

} // verus!

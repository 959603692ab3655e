//! The Legado rule syntax: `rule##pattern##replacement`, request options
//! after the URL, indexed selector segments, and script detection.

use vstd::prelude::*;
use crate::outside::{opt_strings_view, regex_replace, regex_replaced, regex_split_captures, regex_split_groups};
use crate::text::{
    ascii_lower, ascii_lower_exec, chars_of, contains, occurs_at, starts_with, contains_exec, find, find_from_exec, lemma_find_from_some,
    lemma_find_shift, lemma_rfind_in_bounds, parse_isize, parse_isize_exec, rfind, rfind_in_exec, string_from,
    string_of, vec_range,
};

verus! {

/// The parts of a rule: the rule itself and, after `##`, a pattern and its replacement.
pub open spec fn spec_split_rule(s: Seq<char>) -> (Seq<char>, Option<(Seq<char>, Seq<char>)>) {
    match find(s, "##"@) {
        None => (s, None),
        Some(i) => {
            let rest = s.subrange(i + 2, s.len() as int);
            match find(rest, "##"@) {
                None => (s.subrange(0, i), Some((rest, Seq::empty()))),
                Some(j) => (
                    s.subrange(0, i),
                    Some((rest.subrange(0, j), rest.subrange(j + 2, rest.len() as int))),
                ),
            }
        },
    }
}

/// The view of a split rule.
pub open spec fn split_rule_view(r: (String, Option<(String, String)>)) -> (Seq<char>, Option<(Seq<char>, Seq<char>)>) {
    (r.0@, match r.1 {
        Some((p, t)) => Some((p@, t@)),
        None => None,
    })
}

/// The URL of a request and, after `,{` or `,[{`, its options.
pub open spec fn spec_split_request(s: Seq<char>) -> (Seq<char>, Option<Seq<char>>) {
    match find(s, ",{"@) {
        Some(i) => (s.subrange(0, i), Some(s.subrange(i + 1, s.len() as int))),
        None => match find(s, ",[{"@) {
            Some(i) => (s.subrange(0, i), Some(s.subrange(i + 1, s.len() as int))),
            None => (s, None),
        },
    }
}

/// The view of a split request.
pub open spec fn split_request_view(r: (String, Option<String>)) -> (Seq<char>, Option<Seq<char>>) {
    (r.0@, match r.1 {
        Some(o) => Some(o@),
        None => None,
    })
}

/// A text cut before the first occurrence of `p` does not contain `p`.
proof fn lemma_before_first(s: Seq<char>, p: Seq<char>, i: int)
    requires
        find(s, p) == Some(i),
        p.len() > 0,
    ensures
        !contains(s.subrange(0, i), p),
{
    lemma_find_from_some(s, p, 0);
    let m = s.subrange(0, i);
    lemma_find_from_some(m, p, 0);
    if let Some(k) = find(m, p) {
        assert(m.subrange(k, k + p.len()) =~= s.subrange(k, k + p.len()));
        assert(occurs_at(s, p, k));
    }
}

/// A text that does not contain `p` has no occurrence of it anywhere.
proof fn lemma_not_contains(s: Seq<char>, p: Seq<char>, t: Seq<char>, i: int)
    requires
        !contains(s, p),
        0 <= i <= s.len(),
        t == s.subrange(0, i),
    ensures
        !contains(t, p),
{
    lemma_find_from_some(s, p, 0);
    lemma_find_from_some(t, p, 0);
    if let Some(k) = find(t, p) {
        assert(t.subrange(k, k + p.len()) =~= s.subrange(k, k + p.len()));
        assert(occurs_at(s, p, k));
    }
}

/// A rule splits at its first two `##`: no `##` is left in the rule itself nor in
/// the pattern, and the parts put back together with `##` give the rule again
/// (with no replacement, the rule had one `##` only). There is no replacement part
/// exactly when the rule holds no `##`, and then the rule is the whole text.
pub proof fn lemma_split_rule(s: Seq<char>)
    ensures
        !contains(spec_split_rule(s).0, "##"@),
        spec_split_rule(s).1 is None <==> !contains(s, "##"@),
        spec_split_rule(s).1 is None ==> spec_split_rule(s).0 == s,
        spec_split_rule(s).1 matches Some((p, q)) ==> !contains(p, "##"@) && (s == spec_split_rule(s).0 + "##"@ + p
            + "##"@ + q || (q.len() == 0 && s == spec_split_rule(s).0 + "##"@ + p)),
{
    reveal_strlit("##");
    lemma_find_from_some(s, "##"@, 0);
    match find(s, "##"@) {
        None => {},
        Some(i) => {
            lemma_before_first(s, "##"@, i);
            let rest = s.subrange(i + 2, s.len() as int);
            assert(s.subrange(i, i + 2) == "##"@);
            match find(rest, "##"@) {
                None => {
                    assert(s =~= s.subrange(0, i) + "##"@ + rest);
                },
                Some(j) => {
                    lemma_before_first(rest, "##"@, j);
                    lemma_find_from_some(rest, "##"@, 0);
                    assert(rest.subrange(j, j + 2) == "##"@);
                    assert(s =~= s.subrange(0, i) + "##"@ + rest.subrange(0, j) + "##"@ + rest.subrange(j + 2, rest.len() as int));
                },
            }
        },
    }
}

/// A request splits before its first `,{` (or, when there is none, its first
/// `,[{`): the URL and the options joined by the comma give the request again, the
/// options begin with `{` or `[{`, and the URL holds no `,{`. Without options the
/// URL is the whole request, which holds neither mark.
pub proof fn lemma_split_request(v: Seq<char>)
    ensures
        spec_split_request(v).1 is None ==> spec_split_request(v).0 == v && !contains(v, ",{"@) && !contains(v, ",[{"@),
        spec_split_request(v).1 matches Some(o) ==> v == spec_split_request(v).0 + ","@ + o
            && (starts_with(o, "{"@) || starts_with(o, "[{"@)) && !contains(spec_split_request(v).0, ",{"@),
{
    reveal_strlit(",{");
    reveal_strlit(",[{");
    reveal_strlit(",");
    reveal_strlit("{");
    reveal_strlit("[{");
    lemma_find_from_some(v, ",{"@, 0);
    lemma_find_from_some(v, ",[{"@, 0);
    match find(v, ",{"@) {
        Some(i) => {
            lemma_before_first(v, ",{"@, i);
            let o = v.subrange(i + 1, v.len() as int);
            assert(v.subrange(i, i + 2) == ",{"@);
            assert(",{"@ =~= seq![',', '{'] && ","@ =~= seq![','] && "{"@ =~= seq!['{']);
            assert(v.subrange(i, i + 2)[0] == v[i] && v.subrange(i, i + 2)[1] == v[i + 1]);
            assert(v =~= v.subrange(0, i) + ","@ + o);
            assert(o.subrange(0, 1) =~= "{"@);
        },
        None => match find(v, ",[{"@) {
            Some(i) => {
                lemma_not_contains(v, ",{"@, v.subrange(0, i), i);
                let o = v.subrange(i + 1, v.len() as int);
                assert(v.subrange(i, i + 3) == ",[{"@);
                assert(",[{"@ =~= seq![',', '[', '{'] && ","@ =~= seq![','] && "[{"@ =~= seq!['[', '{']);
                assert(v.subrange(i, i + 3)[0] == v[i] && v.subrange(i, i + 3)[1] == v[i + 1]
                    && v.subrange(i, i + 3)[2] == v[i + 2]);
                assert(v =~= v.subrange(0, i) + ","@ + o);
                assert(o.subrange(0, 2) =~= "[{"@);
            },
            None => {},
        },
    }
}

/// A selector segment and the index written after its last `.`, if that is an integer.
pub open spec fn spec_parse_segment(s: Seq<char>) -> (Seq<char>, Option<int>) {
    match rfind(s, "."@) {
        Some(k) => match parse_isize(s.subrange(k + 1, s.len() as int)) {
            Some(n) => (s.subrange(0, k), Some(n)),
            None => (s, None),
        },
        None => (s, None),
    }
}

/// A rule value contains a script marker, in any ASCII case.
pub open spec fn spec_has_script(s: Seq<char>) -> bool {
    let l = ascii_lower(s);
    ||| contains(l, "@js"@)
    ||| contains(l, "<js"@)
    ||| contains(l, "java."@)
    ||| contains(l, "eval("@)
    ||| contains(l, "@get:"@)
    ||| contains(l, "@put:"@)
}

/// The regular expression of a placeholder `{{expr}}`: a non-empty expression
/// without braces, between double braces.
pub const PLACEHOLDER: &'static str = "\\{\\{([^{}]+)\\}\\}";

/// A matched placeholder: its expression, or nothing when the group took no part.
pub open spec fn group_piece(g: Option<Seq<char>>) -> (Seq<char>, bool) {
    match g {
        Some(e) => (e, true),
        None => (Seq::empty(), false),
    }
}

/// The first `k` matches of a template with the text before each and after the
/// last: literal text (flagged `false`) and placeholder expressions (`true`).
pub open spec fn interleave(lits: Seq<Seq<char>>, groups: Seq<Option<Seq<char>>>, k: nat) -> Seq<(Seq<char>, bool)>
    decreases k,
{
    if k == 0 {
        seq![(lits[0], false)]
    } else {
        interleave(lits, groups, (k - 1) as nat).push(group_piece(groups[k - 1])).push((lits[k as int], false))
    }
}

/// The pieces of a template, as the regex of placeholders splits it.
pub open spec fn template_parts(s: Seq<char>) -> Seq<(Seq<char>, bool)> {
    match regex_split_groups(PLACEHOLDER@, s) {
        Some((lits, groups)) => interleave(lits, groups, groups.len()),
        None => seq![(s, false)],
    }
}

/// A template with every placeholder expression replaced by `f` of it.
pub open spec fn fill(parts: Seq<(Seq<char>, bool)>, f: spec_fn(Seq<char>) -> Seq<char>) -> Seq<char>
    decreases parts.len(),
{
    if parts.len() == 0 {
        Seq::empty()
    } else {
        let last: Seq<char> = if parts.last().1 {
            f(parts.last().0)
        } else {
            parts.last().0
        };
        fill(parts.drop_last(), f) + last
    }
}

/// One piece of a template: a placeholder expression or literal text.
pub struct TemplatePiece {
    pub text: String,
    pub is_expr: bool,
}

/// The view of template pieces.
pub open spec fn pieces_view(v: Seq<TemplatePiece>) -> Seq<(Seq<char>, bool)> {
    v.map_values(|p: TemplatePiece| (p.text@, p.is_expr))
}

/// Splits a template into literal text and `{{expr}}` placeholders.
pub fn template_parts_exec(s: &Vec<char>) -> (r: Vec<TemplatePiece>)
    ensures
        pieces_view(r@) == template_parts(s@),
{
    let text = string_of(s);
    match regex_split_captures(PLACEHOLDER, text.as_str()) {
        None => {
            let mut r: Vec<TemplatePiece> = Vec::new();
            r.push(TemplatePiece { text, is_expr: false });
            assert(pieces_view(r@) =~= seq![(s@, false)]);
            r
        },
        Some((lits, groups)) => {
            let ghost lv = lits.deep_view();
            let ghost gv = opt_strings_view(groups@);
            let mut r: Vec<TemplatePiece> = Vec::new();
            assert(lv[0] == lits@[0]@);
            r.push(TemplatePiece { text: lits[0].clone(), is_expr: false });
            assert(pieces_view(r@) =~= interleave(lv, gv, 0));
            let mut k: usize = 0;
            while k < groups.len()
                invariant
                    k <= groups.len(),
                    lits.len() == groups.len() + 1,
                    lv == lits.deep_view(),
                    gv == opt_strings_view(groups@),
                    pieces_view(r@) == interleave(lv, gv, k as nat),
                decreases groups.len() - k,
            {
                let ghost before = pieces_view(r@);
                let piece = match &groups[k] {
                    Some(e) => TemplatePiece { text: e.clone(), is_expr: true },
                    None => TemplatePiece { text: String::new(), is_expr: false },
                };
                assert((piece.text@, piece.is_expr) == group_piece(gv[k as int]));
                r.push(piece);
                assert(lv[k + 1] == lits@[k + 1]@);
                r.push(TemplatePiece { text: lits[k + 1].clone(), is_expr: false });
                k += 1;
                assert(pieces_view(r@) =~= interleave(lv, gv, k as nat));
            }
            r
        },
    }
}

/// The regular expression of the tags that end a line: `<br>`, `<br/>`, `</p>`
/// and `</div>`, in any case.
pub const BREAK_TAGS: &'static str = "(?i)<br\\s*/?>|</p>|</div>";

/// The regular expression of any tag.
pub const ANY_TAG: &'static str = "(?is)<[^>]+>";

/// A value after the optional regex replacement of a rule; a pattern that does
/// not compile leaves the value as it is.
pub open spec fn spec_apply_replace(value: Seq<char>, replace: Option<(Seq<char>, Seq<char>)>) -> Seq<char> {
    match replace {
        Some((p, t)) => match regex_replaced(p, value, t) {
            Some(r) => r,
            None => value,
        },
        None => value,
    }
}

/// Applies the replacement part of a rule to a value.
pub fn apply_replace(value: String, replace: &Option<(String, String)>) -> (r: String)
    ensures
        r@ == spec_apply_replace(value@, match replace {
            Some((p, t)) => Some((p@, t@)),
            None => None,
        }),
{
    match replace {
        Some((pattern, replacement)) => match regex_replace(pattern.as_str(), value.as_str(), replacement.as_str()) {
            Some(r) => r,
            None => value,
        },
        None => value,
    }
}

/// Splits a rule at `##` into the rule and an optional regex replacement
/// (pattern, replacement); text after a third `##` stays in the replacement.
pub fn split_rule(rule: &str) -> (r: (String, Option<(String, String)>))
    ensures
        split_rule_view(r) == spec_split_rule(rule@),
{
    let v = chars_of(rule);
    let sep = chars_of("##");
    proof {
        reveal_strlit("##");
        lemma_find_from_some(v@, sep@, 0);
    }
    match find_from_exec(&v, &sep, 0) {
        None => (string_of(&v), None),
        Some(i) => {
            let main = string_from(&v, 0, i);
            let ghost rest = v@.subrange(i + 2, v@.len() as int);
            proof {
                lemma_find_shift(v@, sep@, i + 2);
                lemma_find_from_some(v@, sep@, i + 2);
            }
            match find_from_exec(&v, &sep, i + 2) {
                None => (main, Some((string_from(&v, i + 2, v.len()), String::new()))),
                Some(j) => {
                    assert(rest.subrange(0, j - (i + 2)) =~= v@.subrange(i + 2, j as int));
                    assert(rest.subrange(j - (i + 2) + 2, rest.len() as int) =~= v@.subrange(j + 2, v@.len() as int));
                    (main, Some((string_from(&v, i + 2, j), string_from(&v, j + 2, v.len()))))
                },
            }
        },
    }
}

/// Splits a request specification into its URL and the options after `,{` or `,[{`.
pub fn split_request(value: &str) -> (r: (String, Option<String>))
    ensures
        split_request_view(r) == spec_split_request(value@),
{
    let v = chars_of(value);
    let a = chars_of(",{");
    let b = chars_of(",[{");
    proof {
        reveal_strlit(",{");
        reveal_strlit(",[{");
    }
    match find_from_exec(&v, &a, 0) {
        Some(i) => (string_from(&v, 0, i), Some(string_from(&v, i + 1, v.len()))),
        None => match find_from_exec(&v, &b, 0) {
            Some(i) => (string_from(&v, 0, i), Some(string_from(&v, i + 1, v.len()))),
            None => (string_of(&v), None),
        },
    }
}

/// Splits `head.N` into `head` and the integer `N`; other segments stay whole.
pub fn parse_segment(segment: &str) -> (r: (String, Option<isize>))
    ensures
        r.0@ == spec_parse_segment(segment@).0,
        match r.1 {
            Some(n) => spec_parse_segment(segment@).1 == Some(n as int),
            None => spec_parse_segment(segment@).1 is None,
        },
{
    let v = chars_of(segment);
    let dot = chars_of(".");
    proof {
        reveal_strlit(".");
    }
    match rfind_in_exec(&v, &dot, 0, v.len()) {
        Some(k) => {
            proof {
                lemma_rfind_in_bounds(v@, dot@, 0, v@.len() as int);
            }
            let tail = vec_range(&v, k + 1, v.len());
            match parse_isize_exec(&tail) {
                Some(n) => (string_from(&v, 0, k), Some(n)),
                None => (string_of(&v), None),
            }
        },
        None => (string_of(&v), None),
    }
}

/// Whether a rule value carries JavaScript or another script form.
pub fn has_script(value: &str) -> (b: bool)
    ensures
        b == spec_has_script(value@),
{
    let v = chars_of(value);
    let lower = ascii_lower_exec(&v);
    contains_exec(&lower, &chars_of("@js")) || contains_exec(&lower, &chars_of("<js"))
        || contains_exec(&lower, &chars_of("java.")) || contains_exec(&lower, &chars_of("eval("))
        || contains_exec(&lower, &chars_of("@get:")) || contains_exec(&lower, &chars_of("@put:"))
}

} // verus!

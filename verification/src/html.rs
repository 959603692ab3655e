//! Legado selector chains on HTML pages: `class.item@tag.a.0@href`.
//!
//! A chain is split at `@`; each step is a CSS selector (written `css:…`,
//! `class.…`, `id.…`, `tag.…` or plainly) with an optional element index after
//! its last `.`, and the chain may end in what to extract (`text`, `html`, an
//! attribute name).

use vstd::prelude::*;
use crate::outside::{
    decode_entities, entities_decoded, html_attr, html_root, html_root_of, html_attribute, html_inner, html_inner_of, html_select,
    html_selected, html_text, html_text_of, parse_html, HtmlPage,
};
use crate::rules::{
    apply_replace, parse_segment, spec_apply_replace, spec_parse_segment, spec_split_rule, split_rule,
};
use crate::text::{
    chars_of, join, push_str, replace_all, replace_exec, split_all, split_exec, starts_with,
    starts_with_exec, string_from, trim, trim_str,
};
use crate::json::{lemma_join_push, nonempty, lemma_nonempty_push};

verus! {

/// The final steps of a chain that name what to extract rather than select.
pub open spec fn is_extractor(s: Seq<char>) -> bool {
    ||| s == "text"@
    ||| s == "html"@
    ||| is_attribute_name(s)
}

/// The attribute names a chain may end in.
pub open spec fn is_attribute_name(s: Seq<char>) -> bool {
    ||| s == "href"@
    ||| s == "src"@
    ||| s == "title"@
    ||| s == "content"@
    ||| s == "data-src"@
    ||| s == "alt"@
}

/// The CSS selector of a chain step.
pub open spec fn css_of(seg: Seq<char>) -> Seq<char> {
    if starts_with(seg, "css:"@) {
        seg.subrange(4, seg.len() as int)
    } else if starts_with(seg, "class."@) {
        "."@ + replace_all(seg.subrange(6, seg.len() as int), "."@, " ."@)
    } else if starts_with(seg, "id."@) {
        "#"@ + seg.subrange(3, seg.len() as int)
    } else if starts_with(seg, "tag."@) {
        seg.subrange(4, seg.len() as int)
    } else {
        seg
    }
}

/// The elements a selector matches inside each of the `nodes`, one after another;
/// `None` when the selector is refused.
pub open spec fn select_all(page: Seq<char>, nodes: Seq<usize>, css: Seq<char>) -> Option<Seq<usize>>
    decreases nodes.len(),
{
    if nodes.len() == 0 {
        Some(Seq::empty())
    } else {
        match (select_all(page, nodes.drop_last(), css), html_selected(page, nodes.last() as int, css)) {
            (Some(a), Some(b)) => Some(a + b),
            _ => None,
        }
    }
}

/// The element at `index` (counted from the end when negative, clamped at the first).
pub open spec fn pick(next: Seq<usize>, index: Option<int>) -> Seq<usize> {
    match index {
        Some(i) => {
            let actual = if i < 0 { next.len() + i } else { i };
            let k = if actual < 0 { 0 } else { actual };
            if k < next.len() {
                seq![next[k]]
            } else {
                Seq::empty()
            }
        },
        None => next,
    }
}

/// Applying chain steps one after another, up to the first extractor step.
pub open spec fn select_steps(page: Seq<char>, current: Seq<usize>, segs: Seq<Seq<char>>) -> Seq<usize>
    decreases segs.len(),
{
    if segs.len() == 0 || is_extractor(segs[0]) {
        current
    } else {
        let seg = spec_parse_segment(segs[0]).0;
        let index = spec_parse_segment(segs[0]).1;
        match select_all(page, current, css_of(seg)) {
            None => Seq::empty(),
            Some(next) => select_steps(page, pick(next, index), segs.drop_first()),
        }
    }
}

/// A chain step with an element index keeps one of the `n` elements its selector
/// matches: index `i` with `0 <= i < n` keeps the `i`-th, index `-k` with
/// `1 <= k <= n` keeps the `k`-th from the end (`-1` the last), an index below
/// `-n` keeps the first, and an index `n` or more keeps none; the rest of the
/// chain goes on from what was kept.
pub proof fn lemma_step_index(page: Seq<char>, current: Seq<usize>, segs: Seq<Seq<char>>, next: Seq<usize>, i: int)
    requires
        segs.len() > 0,
        !is_extractor(segs[0]),
        spec_parse_segment(segs[0]).1 == Some(i),
        select_all(page, current, css_of(spec_parse_segment(segs[0]).0)) == Some(next),
    ensures
        0 <= i < next.len() ==> select_steps(page, current, segs) == select_steps(page, seq![next[i]], segs.drop_first()),
        1 <= -i <= next.len() ==> select_steps(page, current, segs)
            == select_steps(page, seq![next[next.len() - (-i)]], segs.drop_first()),
        -i > next.len() && next.len() > 0 ==> select_steps(page, current, segs)
            == select_steps(page, seq![next[0]], segs.drop_first()),
        i >= next.len() ==> select_steps(page, current, segs) == select_steps(page, Seq::empty(), segs.drop_first()),
{
}

/// The non-empty steps of a chain.
pub open spec fn chain_steps(main: Seq<char>) -> Seq<Seq<char>> {
    nonempty(split_all(main, "@"@))
}

/// The elements a rule selects, starting from `nodes`.
pub open spec fn spec_select_html(page: Seq<char>, nodes: Seq<usize>, rule: Seq<char>) -> Seq<usize> {
    select_steps(page, nodes, chain_steps(spec_split_rule(rule).0))
}

/// What to extract from one element, per the last step of a chain.
pub open spec fn extract_one(page: Seq<char>, node: usize, last: Seq<char>) -> Option<Seq<char>> {
    if is_attribute_name(last) {
        html_attribute(page, node as int, last)
    } else if last == "html"@ {
        Some(html_inner_of(page, node as int))
    } else {
        Some(html_text_of(page, node as int))
    }
}

/// What to extract from each element, in order, skipping absent attributes.
pub open spec fn extract_all(page: Seq<char>, nodes: Seq<usize>, last: Seq<char>) -> Seq<Seq<char>>
    decreases nodes.len(),
{
    if nodes.len() == 0 {
        Seq::empty()
    } else {
        let rest = extract_all(page, nodes.drop_last(), last);
        match extract_one(page, nodes.last(), last) {
            Some(v) => rest.push(v),
            None => rest,
        }
    }
}

/// The value of a rule on element `node`: the extracted values of the selected
/// elements on separate lines, HTML entities decoded, the rule's regex replacement
/// applied, then trimmed.
pub open spec fn spec_eval_html(page: Seq<char>, node: usize, rule: Seq<char>) -> Seq<char> {
    let main = spec_split_rule(rule).0;
    let replace = spec_split_rule(rule).1;
    let nodes = spec_select_html(page, seq![node], main);
    let pieces = split_all(main, "@"@);
    let last = pieces[pieces.len() - 1];
    trim(spec_apply_replace(entities_decoded(join(extract_all(page, nodes, last), "\n"@)), replace))
}

// ---------------------------------------------------------------------------
// Executable
// ---------------------------------------------------------------------------

fn is_attribute_name_exec(s: &Vec<char>) -> (b: bool)
    ensures
        b == is_attribute_name(s@),
{
    eq_chars(s, "href") || eq_chars(s, "src") || eq_chars(s, "title") || eq_chars(s, "content")
        || eq_chars(s, "data-src") || eq_chars(s, "alt")
}

fn is_extractor_exec(s: &Vec<char>) -> (b: bool)
    ensures
        b == is_extractor(s@),
{
    eq_chars(s, "text") || eq_chars(s, "html") || is_attribute_name_exec(s)
}

impl HtmlPage {
    /// The page an HTML text parses into.
    pub fn parse(source: &str) -> (page: HtmlPage)
        ensures
            page@ == source@,
    {
        parse_html(source)
    }

    /// The number of the page's root element.
    pub fn root(&self) -> (n: usize)
        ensures
            n == html_root_of(self@),
    {
        html_root(self)
    }
}

/// Whether the characters are exactly those of `lit`.
pub fn eq_chars(s: &Vec<char>, lit: &str) -> (b: bool)
    ensures
        b == (s@ == lit@),
{
    let l = chars_of(lit);
    if s.len() != l.len() {
        return false;
    }
    let mut i: usize = 0;
    while i < s.len()
        invariant
            s@.len() == l@.len(),
            l@ == lit@,
            i <= s@.len(),
            forall|k: int| 0 <= k < i ==> s@[k] == l@[k],
        decreases s@.len() - i,
    {
        if s[i] != l[i] {
            return false;
        }
        i += 1;
    }
    assert(s@ =~= l@);
    true
}

fn css_of_exec(seg: &Vec<char>) -> (r: String)
    ensures
        r@ == css_of(seg@),
{
    let p_css = chars_of("css:");
    let p_class = chars_of("class.");
    let p_id = chars_of("id.");
    let p_tag = chars_of("tag.");
    proof {
        reveal_strlit("css:");
        reveal_strlit("class.");
        reveal_strlit("id.");
        reveal_strlit("tag.");
        reveal_strlit(".");
    }
    if starts_with_exec(seg, &p_css) {
        string_from(seg, 4, seg.len())
    } else if starts_with_exec(seg, &p_class) {
        let rest = crate::text::vec_range(seg, 6, seg.len());
        let dot = chars_of(".");
        let sp = chars_of(" .");
        let mut r = String::new();
        push_str(&mut r, ".");
        let body = replace_exec(&rest, &dot, &sp);
        push_str(&mut r, body.as_str());
        r
    } else if starts_with_exec(seg, &p_id) {
        let mut r = String::new();
        push_str(&mut r, "#");
        let rest = string_from(seg, 3, seg.len());
        push_str(&mut r, rest.as_str());
        r
    } else if starts_with_exec(seg, &p_tag) {
        string_from(seg, 4, seg.len())
    } else {
        crate::text::string_of(seg)
    }
}

fn pick_exec(next: Vec<usize>, index: Option<isize>) -> (r: Vec<usize>)
    ensures
        r@ == pick(next@, match index {
            Some(i) => Some(i as int),
            None => None,
        }),
{
    match index {
        Some(i) => {
            let len = next.len();
            let k: usize = if i < 0 {
                let m: usize = ((-(i + 1)) as usize) + 1;
                if m > len { 0 } else { len - m }
            } else {
                i as usize
            };
            let mut r: Vec<usize> = Vec::new();
            if k < len {
                r.push(next[k]);
            }
            assert(r@ =~= pick(next@, Some(i as int)));
            r
        },
        None => next,
    }
}

/// The elements a rule selects on `page`, starting from the elements `nodes`.
pub fn select_html(page: &HtmlPage, nodes: Vec<usize>, rule: &str) -> (r: Vec<usize>)
    ensures
        r@ == spec_select_html(page@, nodes@, rule@),
{
    let (main, _) = split_rule(rule);
    let mv = chars_of(main.as_str());
    let at = chars_of("@");
    proof {
        reveal_strlit("@");
    }
    let pieces = split_exec(&mv, &at);
    // the non-empty steps
    let mut steps: Vec<String> = Vec::new();
    let mut i: usize = 0;
    assert(pieces.deep_view().subrange(0, 0) =~= Seq::<Seq<char>>::empty());
    assert(nonempty(Seq::<Seq<char>>::empty()) =~= Seq::<Seq<char>>::empty());
    while i < pieces.len()
        invariant
            i <= pieces.len(),
            steps.deep_view() == nonempty(pieces.deep_view().subrange(0, i as int)),
        decreases pieces.len() - i,
    {
        proof {
            assert(pieces.deep_view().subrange(0, i + 1) =~= pieces.deep_view().subrange(0, i as int).push(
                pieces.deep_view()[i as int],
            ));
            lemma_nonempty_push(pieces.deep_view().subrange(0, i as int), pieces.deep_view()[i as int]);
        }
        if !pieces[i].as_str().is_empty() {
            let ghost before = steps.deep_view();
            steps.push(pieces[i].clone());
            assert(steps.deep_view() =~= before.push(pieces.deep_view()[i as int]));
        }
        i += 1;
    }
    assert(pieces.deep_view().subrange(0, pieces.len() as int) =~= pieces.deep_view());
    let ghost segs = steps.deep_view();
    let ghost goal = spec_select_html(page@, nodes@, rule@);
    assert(segs == chain_steps(spec_split_rule(rule@).0));
    let mut current = nodes;
    let mut j: usize = 0;
    assert(segs.subrange(0, segs.len() as int) =~= segs);
    while j < steps.len()
        invariant
            j <= steps.len(),
            segs == steps.deep_view(),
            goal == select_steps(page@, current@, segs.subrange(j as int, segs.len() as int)),
            goal == spec_select_html(page@, nodes@, rule@),
        decreases steps.len() - j,
    {
        let ghost tail = segs.subrange(j as int, segs.len() as int);
        assert(tail[0] == segs[j as int]);
        assert(tail.drop_first() =~= segs.subrange(j + 1, segs.len() as int));
        let raw = chars_of(steps[j].as_str());
        if is_extractor_exec(&raw) {
            return current;
        }
        let (seg, index) = parse_segment(steps[j].as_str());
        let sv = chars_of(seg.as_str());
        let css = css_of_exec(&sv);
        // the elements the selector matches inside each current element
        let mut next: Vec<usize> = Vec::new();
        let mut k: usize = 0;
        let ghost tail = segs.subrange(j as int, segs.len() as int);
        assert(!is_extractor(tail[0]));
        assert(css@ == css_of(spec_parse_segment(tail[0]).0));
        assert(goal == match select_all(page@, current@, css@) {
            None => Seq::<usize>::empty(),
            Some(nx) => select_steps(page@, pick(nx, spec_parse_segment(tail[0]).1), tail.drop_first()),
        });
        while k < current.len()
            invariant
                k <= current@.len(),
                select_all(page@, current@.subrange(0, k as int), css@) == Some(next@),
                goal == spec_select_html(page@, nodes@, rule@),
                goal == match select_all(page@, current@, css@) {
                    None => Seq::<usize>::empty(),
                    Some(nx) => select_steps(page@, pick(nx, spec_parse_segment(tail[0]).1), tail.drop_first()),
                },
            decreases current@.len() - k,
        {
            assert(current@.subrange(0, k + 1).drop_last() =~= current@.subrange(0, k as int));
            match html_select(page, current[k], css.as_str()) {
                Some(found) => {
                    let ghost before = next@;
                    let mut q: usize = 0;
                    while q < found.len()
                        invariant
                            q <= found@.len(),
                            next@ == before + found@.subrange(0, q as int),
                        decreases found@.len() - q,
                    {
                        next.push(found[q]);
                        q += 1;
                        assert(next@ =~= before + found@.subrange(0, q as int));
                    }
                    assert(found@.subrange(0, found@.len() as int) =~= found@);
                },
                None => {
                    proof {
                        lemma_select_all_none(page@, current@, css@, k as int);
                    }
                    return Vec::new();
                },
            }
            k += 1;
        }
        assert(current@.subrange(0, current@.len() as int) =~= current@);
        current = pick_exec(next, index);
        j += 1;
    }
    current
}

proof fn lemma_select_all_none(page: Seq<char>, nodes: Seq<usize>, css: Seq<char>, k: int)
    requires
        0 <= k < nodes.len(),
        html_selected(page, nodes[k] as int, css) is None,
    ensures
        select_all(page, nodes, css) is None,
    decreases nodes.len(),
{
    if k < nodes.len() - 1 {
        assert(nodes.drop_last()[k] == nodes[k]);
        lemma_select_all_none(page, nodes.drop_last(), css, k);
    }
}

/// The value of a rule on element `node` of `page`.
pub fn eval_html(page: &HtmlPage, node: usize, rule: &str) -> (r: String)
    ensures
        r@ == spec_eval_html(page@, node, rule@),
{
    let (main, replace) = split_rule(rule);
    let mut start: Vec<usize> = Vec::new();
    start.push(node);
    assert(start@ =~= seq![node]);
    let nodes = select_html(page, start, main.as_str());
    proof {
        // the rule given to `select_html` has no `##` left, so splitting it again keeps it
        lemma_split_rule_main(rule@);
    }
    let mv = chars_of(main.as_str());
    let at = chars_of("@");
    proof {
        reveal_strlit("@");
        crate::text::lemma_split_parts_len(mv@, at@);
    }
    let pieces = split_exec(&mv, &at);
    let last_name = pieces[pieces.len() - 1].clone();
    let lastv = chars_of(last_name.as_str());
    let is_attr = is_attribute_name_exec(&lastv);
    let is_html = eq_chars(&lastv, "html");
    let ghost values = extract_all(page@, nodes@, lastv@);
    let mut out = String::new();
    let mut any = false;
    let mut i: usize = 0;
    assert(nodes@.subrange(0, 0) =~= Seq::<usize>::empty());
    while i < nodes.len()
        invariant
            i <= nodes@.len(),
            is_attr == is_attribute_name(lastv@),
            is_html == (lastv@ == "html"@),
            out@ == join(extract_all(page@, nodes@.subrange(0, i as int), lastv@), "\n"@),
            last_name@ == lastv@,
            any == (extract_all(page@, nodes@.subrange(0, i as int), lastv@).len() > 0),
        decreases nodes@.len() - i,
    {
        let n = nodes[i];
        let ghost prev = extract_all(page@, nodes@.subrange(0, i as int), lastv@);
        assert(nodes@.subrange(0, i + 1).drop_last() =~= nodes@.subrange(0, i as int));
        let value: Option<String> = if is_attr {
            html_attr(page, n, last_name.as_str())
        } else if is_html {
            Some(html_inner(page, n))
        } else {
            Some(html_text(page, n))
        };
        match value {
            Some(v) => {
                proof {
                    lemma_join_push(prev, v@, "\n"@);
                }
                if any {
                    push_str(&mut out, "\n");
                }
                push_str(&mut out, v.as_str());
                any = true;
            },
            None => {},
        }
        i += 1;
    }
    assert(nodes@.subrange(0, nodes@.len() as int) =~= nodes@);
    let decoded = decode_entities(out.as_str());
    let replaced = apply_replace(decoded, &replace);
    trim_str(replaced.as_str())
}

/// The rule part of a split rule holds no `##`, so splitting it again keeps it whole.
proof fn lemma_split_rule_main(rule: Seq<char>)
    ensures
        spec_split_rule(spec_split_rule(rule).0).0 == spec_split_rule(rule).0,
{
    reveal_strlit("##");
    crate::text::lemma_find_from_some(rule, "##"@, 0);
    let main = spec_split_rule(rule).0;
    match crate::text::find(rule, "##"@) {
        Some(i) => {
            crate::text::lemma_find_from_some(main, "##"@, 0);
            if let Some(j) = crate::text::find(main, "##"@) {
                assert(main.subrange(j, j + 2) =~= rule.subrange(j, j + 2));
                assert(crate::text::occurs_at(rule, "##"@, j));
                assert(false);
            }
        },
        None => {},
    }
}

} // verus!

//! The report of an analysis: the members of its module objects merged key by key,
//! a later module's member replacing an earlier one of the same name.

use vstd::prelude::*;
use crate::book::pairs_view;
use crate::json::{body_json, parse_json, JsonKind, JsonTree};
use crate::outside::{json_quote, json_quoted};
use crate::text::{join, push_str};

verus! {

/// The JSON notation of value `i`: a string quoted and escaped, `null`, or the
/// compact notation the document keeps for any other value.
pub open spec fn notation(t: JsonTree, i: int) -> Seq<char> {
    if t.kind(i) == JsonKind::Str {
        json_quoted(t.text(i))
    } else if t.kind(i) == JsonKind::Null {
        "null"@
    } else {
        t.text(i)
    }
}

/// The members of a module's text, each as its name and the JSON notation of its
/// value, in order: none unless the text is one JSON object.
pub open spec fn module_members(text: Seq<char>) -> Seq<(Seq<char>, Seq<char>)> {
    match body_json(text) {
        Ok((t, root)) => if t.kind(root) == JsonKind::Object {
            Seq::new(t.items(root).len(), |k: int| (t.keys(root)[k], notation(t, t.items(root)[k] as int)))
        } else {
            Seq::empty()
        },
        Err(_) => Seq::empty(),
    }
}

/// The position, from `j` on, of the member named `key`.
pub open spec fn key_pos(acc: Seq<(Seq<char>, Seq<char>)>, key: Seq<char>, j: int) -> Option<int>
    decreases acc.len() - j,
{
    if j < 0 || j >= acc.len() {
        None
    } else if acc[j].0 == key {
        Some(j)
    } else {
        key_pos(acc, key, j + 1)
    }
}

/// A member added: it replaces the member of the same name, or comes last.
pub open spec fn merge_one(acc: Seq<(Seq<char>, Seq<char>)>, m: (Seq<char>, Seq<char>)) -> Seq<(Seq<char>, Seq<char>)> {
    match key_pos(acc, m.0, 0) {
        Some(j) => acc.update(j, m),
        None => acc.push(m),
    }
}

/// Members added one after another.
pub open spec fn merge_all(acc: Seq<(Seq<char>, Seq<char>)>, ms: Seq<(Seq<char>, Seq<char>)>) -> Seq<(Seq<char>, Seq<char>)>
    decreases ms.len(),
{
    if ms.len() == 0 {
        acc
    } else {
        merge_one(merge_all(acc, ms.drop_last()), ms.last())
    }
}

/// The members of the modules' objects, merged in order.
pub open spec fn merged_report(modules: Seq<Seq<char>>) -> Seq<(Seq<char>, Seq<char>)>
    decreases modules.len(),
{
    if modules.len() == 0 {
        Seq::empty()
    } else {
        merge_all(merged_report(modules.drop_last()), module_members(modules.last()))
    }
}

/// A JSON object with these members, in order.
pub open spec fn object_text(members: Seq<(Seq<char>, Seq<char>)>) -> Seq<char> {
    "{"@ + join(members.map_values(|m: (Seq<char>, Seq<char>)| json_quoted(m.0) + ":"@ + m.1), ","@) + "}"@
}

/// The report of the modules: one JSON object with their members merged.
pub open spec fn report_text(modules: Seq<Seq<char>>) -> Seq<char> {
    object_text(merged_report(modules))
}

/// A text in the compact JSON notation of the value it parses to (as serde_json
/// writes a parsed value again); a text that does not parse stays as it is.
pub open spec fn canonical(text: Seq<char>) -> Seq<char> {
    match body_json(text) {
        Ok((t, root)) => notation(t, root),
        Err(_) => text,
    }
}

/// After a member is added, a member of that name has its value, and every other
/// member keeps its value.
pub proof fn lemma_merge_one(acc: Seq<(Seq<char>, Seq<char>)>, m: (Seq<char>, Seq<char>), key: Seq<char>)
    ensures
        key == m.0 ==> (key_pos(merge_one(acc, m), key, 0) matches Some(j) && merge_one(acc, m)[j] == m),
        key != m.0 ==> key_pos(merge_one(acc, m), key, 0) == key_pos(acc, key, 0),
{
    lemma_key_pos_update(acc, m, key, 0);
}

proof fn lemma_key_pos(acc: Seq<(Seq<char>, Seq<char>)>, key: Seq<char>, j: int)
    requires
        0 <= j,
    ensures
        key_pos(acc, key, j) matches Some(p) ==> j <= p < acc.len() && acc[p].0 == key && forall|q: int|
            j <= q < p ==> acc[q].0 != key,
        key_pos(acc, key, j) is None ==> forall|q: int| j <= q < acc.len() ==> acc[q].0 != key,
    decreases acc.len() - j,
{
    if j < acc.len() && acc[j].0 != key {
        lemma_key_pos(acc, key, j + 1);
    }
}

proof fn lemma_key_pos_update(acc: Seq<(Seq<char>, Seq<char>)>, m: (Seq<char>, Seq<char>), key: Seq<char>, j: int)
    requires
        j == 0,
    ensures
        key == m.0 ==> (key_pos(merge_one(acc, m), key, 0) matches Some(p) && merge_one(acc, m)[p] == m),
        key != m.0 ==> key_pos(merge_one(acc, m), key, 0) == key_pos(acc, key, 0),
{
    let r = merge_one(acc, m);
    lemma_key_pos(acc, m.0, 0);
    lemma_key_pos(acc, key, 0);
    lemma_key_pos(r, key, 0);
    match key_pos(acc, m.0, 0) {
        Some(p) => {
            assert(r == acc.update(p, m));
            if key == m.0 {
                assert(r[p].0 == key);
                if let Some(q) = key_pos(r, key, 0) {
                    if q < p {
                        assert(r[q] == acc[q]);
                    }
                }
            } else {
                match key_pos(acc, key, 0) {
                    Some(q) => {
                        assert(r[q] == acc[q]);
                        if let Some(q2) = key_pos(r, key, 0) {
                            if q2 != p {
                                assert(r[q2] == acc[q2]);
                            }
                        }
                    },
                    None => {
                        if let Some(q2) = key_pos(r, key, 0) {
                            if q2 != p {
                                assert(r[q2] == acc[q2]);
                            }
                        }
                    },
                }
            }
        },
        None => {
            assert(r == acc.push(m));
            if key == m.0 {
                assert(r[acc.len() as int].0 == key);
                if let Some(q) = key_pos(r, key, 0) {
                    if q < acc.len() {
                        assert(r[q] == acc[q]);
                    }
                }
            } else {
                match key_pos(acc, key, 0) {
                    Some(q) => {
                        assert(r[q] == acc[q]);
                        if let Some(q2) = key_pos(r, key, 0) {
                            if q2 < acc.len() {
                                assert(r[q2] == acc[q2]);
                            }
                        }
                    },
                    None => {
                        if let Some(q2) = key_pos(r, key, 0) {
                            if q2 < acc.len() {
                                assert(r[q2] == acc[q2]);
                            }
                        }
                    },
                }
            }
        },
    }
}

/// Adds one member to the merged members.
fn key_position(acc: &Vec<(String, String)>, key: &str) -> (r: Option<usize>)
    ensures
        opt_pos(r) == key_pos(pairs_view(acc@), key@, 0),
{
    let ghost v = pairs_view(acc@);
    let mut j: usize = 0;
    while j < acc.len()
        invariant
            v == pairs_view(acc@),
            j <= acc@.len(),
            key_pos(v, key@, 0) == key_pos(v, key@, j as int),
        decreases acc@.len() - j,
    {
        assert(v[j as int] == (acc@[j as int].0@, acc@[j as int].1@));
        if crate::html::eq_chars(&crate::text::chars_of(acc[j].0.as_str()), key) {
            return Some(j);
        }
        j += 1;
    }
    None
}

/// An optional position as a mathematical integer.
pub open spec fn opt_pos(r: Option<usize>) -> Option<int> {
    match r {
        Some(j) => Some(j as int),
        None => None,
    }
}

/// Adds one member to the merged members.
fn merge_member(acc: &mut Vec<(String, String)>, key: String, value: String)
    ensures
        pairs_view(final(acc)@) == merge_one(pairs_view(old(acc)@), (key@, value@)),
{
    let ghost v = pairs_view(acc@);
    let ghost m = (key@, value@);
    match key_position(acc, key.as_str()) {
        Some(j) => {
            proof {
                lemma_key_pos(v, key@, 0);
            }
            acc.set(j, (key, value));
            assert(pairs_view(acc@) =~= v.update(j as int, m));
        },
        None => {
            acc.push((key, value));
            assert(pairs_view(acc@) =~= v.push(m));
        },
    }
}

/// The JSON notation of value `i`.
fn notation_exec(doc: &crate::json::JsonDoc, i: usize) -> (r: String)
    requires
        i < doc.size(),
    ensures
        r@ == notation(doc@, i as int),
{
    proof {
        reveal_strlit("null");
    }
    let k = doc.kind_of(i);
    if k == JsonKind::Str {
        json_quote(doc.text_of(i).as_str())
    } else if k == JsonKind::Null {
        "null".to_owned()
    } else {
        doc.text_of(i)
    }
}

/// A text in the compact JSON notation of the value it parses to.
pub fn canonical_json(text: &str) -> (r: String)
    ensures
        r@ == canonical(text@),
{
    match parse_json(text) {
        Ok((doc, root)) => notation_exec(&doc, root),
        Err(_) => text.to_owned(),
    }
}

/// Merges the members of a module's text into the members so far.
pub fn merge_module(acc: &mut Vec<(String, String)>, module: &str)
    ensures
        pairs_view(final(acc)@) == merge_all(pairs_view(old(acc)@), module_members(module@)),
{
    match parse_json(module) {
        Err(_) => {
            assert(module_members(module@) =~= Seq::<(Seq<char>, Seq<char>)>::empty());
        },
        Ok((doc, root)) => {
            if doc.kind_of(root) != JsonKind::Object {
                assert(module_members(module@) =~= Seq::<(Seq<char>, Seq<char>)>::empty());
                return;
            }
            proof {
                use_type_invariant(&doc);
                doc.lemma_wf(root as int);
            }
            let ghost start = pairs_view(acc@);
            let ghost ms = module_members(module@);
            let items = doc.items_of(root);
            let mut k: usize = 0;
            assert(ms.subrange(0, 0) =~= Seq::<(Seq<char>, Seq<char>)>::empty());
            while k < items.len()
                invariant
                    k <= items@.len(),
                    root < doc.size(),
                    items@ == doc@.items(root as int),
                    doc@.keys(root as int).len() == items@.len(),
                    forall|q: int| 0 <= q < items@.len() ==> #[trigger] items@[q] < root,
                    ms == module_members(module@),
                    ms.len() == items@.len(),
                    forall|q: int| 0 <= q < ms.len() ==> #[trigger] ms[q] == (doc@.keys(root as int)[q], notation(
                        doc@,
                        items@[q] as int,
                    )),
                    pairs_view(acc@) == merge_all(start, ms.subrange(0, k as int)),
                decreases items@.len() - k,
            {
                let key = doc.key_at(root, k).clone();
                let value = notation_exec(&doc, items[k]);
                merge_member(acc, key, value);
                assert(ms.subrange(0, k + 1).drop_last() =~= ms.subrange(0, k as int));
                assert(ms.subrange(0, k + 1).last() == ms[k as int]);
                k += 1;
            }
            assert(ms.subrange(0, ms.len() as int) =~= ms);
        },
    }
}

/// The JSON object with these members, in order.
pub fn object_json(members: &Vec<(String, String)>) -> (r: String)
    ensures
        r@ == object_text(pairs_view(members@)),
{
    let ghost pv = pairs_view(members@);
    let ghost parts = pv.map_values(|m: (Seq<char>, Seq<char>)| json_quoted(m.0) + ":"@ + m.1);
    let mut body = String::new();
    let mut i: usize = 0;
    assert(parts.subrange(0, 0) =~= Seq::<Seq<char>>::empty());
    while i < members.len()
        invariant
            i <= members@.len(),
            pv == pairs_view(members@),
            parts == pv.map_values(|m: (Seq<char>, Seq<char>)| json_quoted(m.0) + ":"@ + m.1),
            body@ == join(parts.subrange(0, i as int), ","@),
        decreases members@.len() - i,
    {
        let ghost before = body@;
        if i > 0 {
            push_str(&mut body, ",");
        }
        let q = json_quote(members[i].0.as_str());
        push_str(&mut body, q.as_str());
        push_str(&mut body, ":");
        push_str(&mut body, members[i].1.as_str());
        proof {
            reveal_strlit(",");
            reveal_strlit(":");
            let sub = parts.subrange(0, i + 1);
            assert(sub.drop_last() =~= parts.subrange(0, i as int));
            assert(parts[i as int] == json_quoted(pv[i as int].0) + ":"@ + pv[i as int].1);
            if i == 0 {
                assert(body@ =~= parts[0]);
            } else {
                assert(body@ =~= before + ","@ + parts[i as int]);
            }
        }
        i += 1;
    }
    assert(parts.subrange(0, members@.len() as int) =~= parts);
    let mut r = "{".to_owned();
    push_str(&mut r, body.as_str());
    push_str(&mut r, "}");
    r
}

} // verus!

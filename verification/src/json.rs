//! JSON documents and the JSONPath-like rules of Legado sources
//! (`$.data[*].title`, `$..name`, `a||b`, `a&&b`).
//!
//! A document is a list of nodes; every node refers to its children by
//! their position in the list, and children always come before their parent.

use vstd::prelude::*;
use crate::outside::{json_nodes_of, json_parse_error, nodes_view, parse_json_nodes};
use crate::rules::{
    apply_replace, fill, pieces_view, spec_apply_replace, spec_split_rule, split_rule,
    split_rule_view, template_parts, template_parts_exec,
};
use crate::text::{
    chars_of, contains, contains_exec, ends_with, ends_with_exec, find_from_exec, join,
    lemma_rfind_in_bounds, lemma_split_parts_len, occurs_at_exec, parse_usize, parse_usize_exec,
    push_str, rfind, trim_str, rfind_in_exec, split_all, split_exec, starts_with, starts_with_exec, string_of,
    strip_suffix_all, strip_suffix_all_exec, trim, trim_char, trim_char_exec, trim_exec,
    trim_start_char, trim_start_char_exec, vec_range, opt_int,
};

verus! {

/// The kinds of JSON values.
#[derive(Clone, Copy, PartialEq, Eq, Structural, Debug)]
pub enum JsonKind {
    Null,
    Bool,
    Number,
    Str,
    Array,
    Object,
}

/// One value of a document. `text` is the string itself for a string, and the
/// compact JSON notation for every other kind (`""` for null).
pub struct JsonNode {
    kind: JsonKind,
    text: String,
    keys: Vec<String>,
    items: Vec<usize>,
}

/// A JSON document: values stored children-first.
pub struct JsonDoc {
    nodes: Vec<JsonNode>,
}

/// The mathematical value of a document: its values in order, each as its kind,
/// text, member names and children.
pub struct JsonTree {
    pub nodes: Seq<(JsonKind, Seq<char>, Seq<Seq<char>>, Seq<usize>)>,
}

impl JsonTree {
    /// The number of values.
    pub open spec fn size(self) -> nat {
        self.nodes.len()
    }

    /// The kind of value `i`.
    pub open spec fn kind(self, i: int) -> JsonKind {
        self.nodes[i].0
    }

    /// The text of value `i`.
    pub open spec fn text(self, i: int) -> Seq<char> {
        self.nodes[i].1
    }

    /// The member names of object `i`, in order.
    pub open spec fn keys(self, i: int) -> Seq<Seq<char>> {
        self.nodes[i].2
    }

    /// The elements of array `i`, or the member values of object `i`, in order.
    pub open spec fn items(self, i: int) -> Seq<usize> {
        self.nodes[i].3
    }

    /// Children come before their parent, an object has one name per member,
    /// and only arrays and objects have children.
    pub open spec fn wf(self) -> bool {
        forall|i: int| #![trigger self.nodes[i]] 0 <= i < self.size() ==> {
            &&& forall|k: int| 0 <= k < self.items(i).len() ==> #[trigger] self.items(i)[k] < i
            &&& (self.kind(i) == JsonKind::Object ==> self.keys(i).len() == self.items(i).len())
            &&& (self.kind(i) != JsonKind::Object && self.kind(i) != JsonKind::Array ==> self.items(i).len() == 0)
        }
    }
}

/// The mathematical value of one stored value.
spec fn node_view(n: JsonNode) -> (JsonKind, Seq<char>, Seq<Seq<char>>, Seq<usize>) {
    (n.kind, n.text@, n.keys.deep_view(), n.items@)
}

impl View for JsonDoc {
    type V = JsonTree;

    closed spec fn view(&self) -> JsonTree {
        JsonTree { nodes: self.nodes@.map_values(|n: JsonNode| node_view(n)) }
    }
}

impl JsonDoc {
    /// The number of values.
    pub open spec fn size(&self) -> nat {
        self@.size()
    }

    /// The kind of value `i`.
    pub open spec fn kind(&self, i: int) -> JsonKind {
        self@.kind(i)
    }

    /// The text of value `i`.
    pub open spec fn text(&self, i: int) -> Seq<char> {
        self@.text(i)
    }

    /// The member names of object `i`, in order.
    pub open spec fn keys(&self, i: int) -> Seq<Seq<char>> {
        self@.keys(i)
    }

    /// The elements of array `i`, or the member values of object `i`, in order.
    pub open spec fn items(&self, i: int) -> Seq<usize> {
        self@.items(i)
    }

    /// Every document is well formed.
    #[verifier::type_invariant]
    pub closed spec fn wf(&self) -> bool {
        self@.wf()
    }

    /// The facts of well-formedness in terms of the accessors.
    pub proof fn lemma_wf(&self, i: int)
        requires
            self.wf(),
            0 <= i < self.size(),
        ensures
            forall|k: int| 0 <= k < self.items(i).len() ==> #[trigger] self.items(i)[k] < i,
            self.kind(i) == JsonKind::Object ==> self.keys(i).len() == self.items(i).len(),
            self.kind(i) != JsonKind::Object && self.kind(i) != JsonKind::Array ==> self.items(i).len() == 0,
    {
    }

    /// An empty document.
    pub fn new() -> (d: JsonDoc)
        ensures
            d.size() == 0,
    {
        let d = JsonDoc { nodes: Vec::new() };
        assert(d@.nodes =~= Seq::<(JsonKind, Seq<char>, Seq<Seq<char>>, Seq<usize>)>::empty());
        d
    }

    /// The number of values.
    pub fn len(&self) -> (n: usize)
        ensures
            n == self.size(),
    {
        self.nodes.len()
    }

    fn add(&mut self, node: JsonNode) -> (id: usize)
        requires
            forall|k: int| 0 <= k < node.items@.len() ==> #[trigger] node.items@[k] < old(self).size(),
            node.kind == JsonKind::Object ==> node.keys@.len() == node.items@.len(),
            node.kind != JsonKind::Object && node.kind != JsonKind::Array ==> node.items@.len() == 0,
        ensures
            id == old(self).size(),
            final(self).size() == old(self).size() + 1,
            forall|i: int| 0 <= i < old(self).size() ==> final(self).kind(i) == old(self).kind(i)
                && final(self).text(i) == old(self).text(i) && final(self).keys(i) == old(self).keys(i)
                && final(self).items(i) == old(self).items(i),
            final(self).kind(id as int) == node.kind,
            final(self).text(id as int) == node.text@,
            final(self).keys(id as int) == node.keys.deep_view(),
            final(self).items(id as int) == node.items@,
    {
        proof {
            use_type_invariant(&*self);
        }
        let ghost old_tree = self@;
        let mut nodes: Vec<JsonNode> = Vec::new();
        std::mem::swap(&mut nodes, &mut self.nodes);
        let ghost before = nodes@;
        let ghost nv = node_view(node);
        assert(old_tree.wf());
        let id = nodes.len();
        nodes.push(node);
        let ghost t = JsonTree { nodes: nodes@.map_values(|n: JsonNode| node_view(n)) };
        assert(t.nodes =~= old_tree.nodes.push(nv));
        assert(t.wf()) by {
            assert forall|i: int| 0 <= i < t.size() implies {
                &&& forall|k: int| 0 <= k < t.items(i).len() ==> #[trigger] t.items(i)[k] < i
                &&& (t.kind(i) == JsonKind::Object ==> t.keys(i).len() == t.items(i).len())
                &&& (t.kind(i) != JsonKind::Object && t.kind(i) != JsonKind::Array ==> t.items(i).len() == 0)
            } by {
                if i < id {
                    assert(t.nodes[i] == old_tree.nodes[i]);
                    assert(old_tree.wf());
                    assert(0 <= i < old_tree.size());
                    assert forall|k: int| 0 <= k < t.items(i).len() implies #[trigger] t.items(i)[k] < i by {
                        assert(old_tree.items(i)[k] < i);
                    }
                } else {
                    assert(t.nodes[i] == nv);
                    assert(nv.2.len() == node.keys@.len());
                }
            }
        }
        self.nodes = nodes;
        id
    }

    /// Adds `null`.
    pub fn add_null(&mut self) -> (id: usize)
        ensures
            id == old(self).size(),
            final(self).size() == old(self).size() + 1,
            forall|i: int| 0 <= i < old(self).size() ==> final(self).kind(i) == old(self).kind(i)
                && final(self).text(i) == old(self).text(i) && final(self).keys(i) == old(self).keys(i)
                && final(self).items(i) == old(self).items(i),
            final(self).kind(id as int) == JsonKind::Null,
            final(self).text(id as int) == Seq::<char>::empty(),
            final(self).items(id as int).len() == 0,
    {
        self.add(JsonNode { kind: JsonKind::Null, text: String::new(), keys: Vec::new(), items: Vec::new() })
    }

    /// Adds `true` or `false`.
    pub fn add_bool(&mut self, b: bool) -> (id: usize)
        ensures
            id == old(self).size(),
            final(self).size() == old(self).size() + 1,
            forall|i: int| 0 <= i < old(self).size() ==> final(self).kind(i) == old(self).kind(i)
                && final(self).text(i) == old(self).text(i) && final(self).keys(i) == old(self).keys(i)
                && final(self).items(i) == old(self).items(i),
            final(self).kind(id as int) == JsonKind::Bool,
            final(self).text(id as int) == if b { "true"@ } else { "false"@ },
            final(self).items(id as int).len() == 0,
    {
        let mut text = String::new();
        push_str(&mut text, if b { "true" } else { "false" });
        assert(text@ =~= if b { "true"@ } else { "false"@ });
        self.add(JsonNode { kind: JsonKind::Bool, text, keys: Vec::new(), items: Vec::new() })
    }

    /// Adds a number, given in its JSON notation.
    pub fn add_number(&mut self, text: String) -> (id: usize)
        ensures
            id == old(self).size(),
            final(self).size() == old(self).size() + 1,
            forall|i: int| 0 <= i < old(self).size() ==> final(self).kind(i) == old(self).kind(i)
                && final(self).text(i) == old(self).text(i) && final(self).keys(i) == old(self).keys(i)
                && final(self).items(i) == old(self).items(i),
            final(self).kind(id as int) == JsonKind::Number,
            final(self).text(id as int) == text@,
            final(self).items(id as int).len() == 0,
    {
        self.add(JsonNode { kind: JsonKind::Number, text, keys: Vec::new(), items: Vec::new() })
    }

    /// Adds a string.
    pub fn add_string(&mut self, text: String) -> (id: usize)
        ensures
            id == old(self).size(),
            final(self).size() == old(self).size() + 1,
            forall|i: int| 0 <= i < old(self).size() ==> final(self).kind(i) == old(self).kind(i)
                && final(self).text(i) == old(self).text(i) && final(self).keys(i) == old(self).keys(i)
                && final(self).items(i) == old(self).items(i),
            final(self).kind(id as int) == JsonKind::Str,
            final(self).text(id as int) == text@,
            final(self).items(id as int).len() == 0,
    {
        self.add(JsonNode { kind: JsonKind::Str, text, keys: Vec::new(), items: Vec::new() })
    }

    /// Adds an array of values already in the document, with its compact notation.
    pub fn add_array(&mut self, items: Vec<usize>, text: String) -> (id: usize)
        requires
            forall|k: int| 0 <= k < items@.len() ==> #[trigger] items@[k] < old(self).size(),
        ensures
            id == old(self).size(),
            final(self).size() == old(self).size() + 1,
            forall|i: int| 0 <= i < old(self).size() ==> final(self).kind(i) == old(self).kind(i)
                && final(self).text(i) == old(self).text(i) && final(self).keys(i) == old(self).keys(i)
                && final(self).items(i) == old(self).items(i),
            final(self).kind(id as int) == JsonKind::Array,
            final(self).text(id as int) == text@,
            final(self).items(id as int) == items@,
    {
        self.add(JsonNode { kind: JsonKind::Array, text, keys: Vec::new(), items })
    }

    /// Adds an object whose members are named by `keys` and valued by `items`
    /// (values already in the document), with its compact notation.
    pub fn add_object(&mut self, keys: Vec<String>, items: Vec<usize>, text: String) -> (id: usize)
        requires
            keys@.len() == items@.len(),
            forall|k: int| 0 <= k < items@.len() ==> #[trigger] items@[k] < old(self).size(),
        ensures
            id == old(self).size(),
            final(self).size() == old(self).size() + 1,
            forall|i: int| 0 <= i < old(self).size() ==> final(self).kind(i) == old(self).kind(i)
                && final(self).text(i) == old(self).text(i) && final(self).keys(i) == old(self).keys(i)
                && final(self).items(i) == old(self).items(i),
            final(self).kind(id as int) == JsonKind::Object,
            final(self).text(id as int) == text@,
            final(self).keys(id as int) == keys.deep_view(),
            final(self).items(id as int) == items@,
    {
        self.add(JsonNode { kind: JsonKind::Object, text, keys, items })
    }

    /// The kind of value `i`.
    pub fn kind_of(&self, i: usize) -> (k: JsonKind)
        requires
            i < self.size(),
        ensures
            k == self.kind(i as int),
    {
        self.nodes[i].kind
    }

    /// The text of value `i`: a string's characters, or the JSON notation of any
    /// other value (empty for null).
    pub fn text_of(&self, i: usize) -> (t: String)
        requires
            i < self.size(),
        ensures
            t@ == self.text(i as int),
    {
        self.nodes[i].text.clone()
    }

    /// The elements of array `i`, or the member values of object `i`.
    pub fn items_of(&self, i: usize) -> (v: &Vec<usize>)
        requires
            i < self.size(),
        ensures
            v@ == self.items(i as int),
    {
        &self.nodes[i].items
    }

    /// The name of member `k` of object `i`.
    pub fn key_at(&self, i: usize, k: usize) -> (s: &String)
        requires
            i < self.size(),
            k < self.keys(i as int).len(),
        ensures
            s@ == self.keys(i as int)[k as int],
    {
        &self.nodes[i].keys[k]
    }

    /// The number of member names of value `i`.
    pub fn keys_len(&self, i: usize) -> (n: usize)
        requires
            i < self.size(),
        ensures
            n == self.keys(i as int).len(),
    {
        self.nodes[i].keys.len()
    }
}

// ---------------------------------------------------------------------------
// Model of rule evaluation
// ---------------------------------------------------------------------------

/// The member of object `v` named `key` (the first such member).
pub open spec fn obj_get_from(doc: JsonTree, v: int, key: Seq<char>, k: int) -> Option<usize>
    decreases doc.keys(v).len() - k,
{
    if k < 0 || k >= doc.keys(v).len() || k >= doc.items(v).len() {
        None
    } else if doc.keys(v)[k] == key {
        Some(doc.items(v)[k])
    } else {
        obj_get_from(doc, v, key, k + 1)
    }
}

/// `Value::get(key)`: the member named `key` when `v` is an object.
pub open spec fn value_get(doc: JsonTree, v: int, key: Seq<char>) -> Option<usize> {
    if doc.kind(v) == JsonKind::Object {
        obj_get_from(doc, v, key, 0)
    } else {
        None
    }
}

/// The member name and optional element index of a path segment such as
/// `data`, `data[2]`, `data[*]`.
pub open spec fn segment_key_index(seg: Seq<char>) -> (Seq<char>, Option<nat>) {
    let key0 = strip_suffix_all(seg, "[*]"@);
    match rfind(key0, "["@) {
        Some(open) => if ends_with(key0, "]"@) {
            (key0.subrange(0, open), parse_usize(key0.subrange(open + 1, key0.len() - 1)))
        } else {
            (key0, None)
        },
        None => (key0, None),
    }
}

/// The values one path segment leads to from value `v`.
pub open spec fn json_children(doc: JsonTree, v: int, seg: Seq<char>) -> Seq<usize> {
    let wildcard = ends_with(seg, "[*]"@);
    let key = segment_key_index(seg).0;
    let index = segment_key_index(seg).1;
    let next = if key.len() == 0 { Some(v as usize) } else { value_get(doc, v, key) };
    match next {
        Some(n) => if doc.kind(n as int) == JsonKind::Array && wildcard {
            doc.items(n as int)
        } else if doc.kind(n as int) == JsonKind::Array && index is Some {
            if index.unwrap() < doc.items(n as int).len() {
                seq![doc.items(n as int)[index.unwrap() as int]]
            } else {
                Seq::empty()
            }
        } else {
            seq![n]
        },
        None => Seq::empty(),
    }
}

/// `json_children` for every value of `ids`, one after another.
pub open spec fn children_all(doc: JsonTree, ids: Seq<usize>, seg: Seq<char>) -> Seq<usize>
    decreases ids.len(),
{
    if ids.len() == 0 {
        Seq::empty()
    } else {
        children_all(doc, ids.drop_last(), seg) + json_children(doc, ids.last() as int, seg)
    }
}

/// Following the segments one after another from the values `ids`.
pub open spec fn walk(doc: JsonTree, ids: Seq<usize>, segs: Seq<Seq<char>>) -> Seq<usize>
    decreases segs.len(),
{
    if segs.len() == 0 {
        ids
    } else {
        walk(doc, children_all(doc, ids, segs[0]), segs.drop_first())
    }
}

/// Every value named `key` in the subtree of `v`, in document order (a value is
/// listed before the matches inside the values of its object).
pub open spec fn rec_key(doc: JsonTree, v: int, key: Seq<char>) -> Seq<usize>
    decreases v, doc.items(v).len() + 1,
{
    if v < 0 {
        Seq::empty()
    } else if doc.kind(v) == JsonKind::Object {
        let head: Seq<usize> = match value_get(doc, v, key) {
            Some(x) => seq![x],
            None => Seq::empty(),
        };
        head + rec_key_from(doc, v, key, 0)
    } else if doc.kind(v) == JsonKind::Array {
        rec_key_from(doc, v, key, 0)
    } else {
        Seq::empty()
    }
}

/// `rec_key` for the children of `v` from the `k`-th on.
pub open spec fn rec_key_from(doc: JsonTree, v: int, key: Seq<char>, k: int) -> Seq<usize>
    decreases v, doc.items(v).len() - k,
{
    if v < 0 || k < 0 || k >= doc.items(v).len() {
        Seq::empty()
    } else {
        let c = doc.items(v)[k] as int;
        (if c < v { rec_key(doc, c, key) } else { Seq::empty() }) + rec_key_from(doc, v, key, k + 1)
    }
}

/// Arrays replaced by their elements.
pub open spec fn spread_arrays(doc: JsonTree, ids: Seq<usize>) -> Seq<usize>
    decreases ids.len(),
{
    if ids.len() == 0 {
        Seq::empty()
    } else {
        let tail: Seq<usize> = if doc.kind(ids.last() as int) == JsonKind::Array {
            doc.items(ids.last() as int)
        } else {
            seq![ids.last()]
        };
        spread_arrays(doc, ids.drop_last()) + tail
    }
}

/// A rule without surrounding whitespace and braces.
pub open spec fn normalize_rule(raw: Seq<char>) -> Seq<char> {
    trim_char(trim_char(trim(raw), '{'), '}')
}

/// A path without its leading `$` and `.` characters.
pub open spec fn path_of(r: Seq<char>) -> Seq<char> {
    trim_start_char(trim_start_char(r, '$'), '.')
}

/// In `$..name.rest`: the name searched at any depth.
pub open spec fn deep_first(path: Seq<char>) -> Seq<char> {
    strip_suffix_all(split_all(path, "."@)[0], "[*]"@)
}

/// In `$..name.rest`: the path applied to every match.
pub open spec fn deep_rest(path: Seq<char>) -> Seq<char> {
    let first = deep_first(path);
    trim_start_char(
        if starts_with(path, first) { path.subrange(first.len() as int, path.len() as int) } else { Seq::empty() },
        '.',
    )
}

/// The values a rule selects from value `root`.
pub open spec fn spec_json_select(doc: JsonTree, root: int, raw: Seq<char>) -> Seq<usize>
    decreases raw.len() + 1, 0nat,
{
    let r = normalize_rule(raw);
    if contains(r, "||"@) {
        first_nonempty(doc, root, split_all(r, "||"@), 0, raw.len() as int)
    } else if contains(r, "&&"@) {
        first_nonempty(doc, root, split_all(r, "&&"@).reverse(), 0, raw.len() as int)
    } else {
        let path = path_of(r);
        if starts_with(r, "$.."@) {
            let found = rec_key(doc, root, deep_first(path));
            let rest = deep_rest(path);
            if rest.len() == 0 {
                spread_arrays(doc, found)
            } else {
                select_each(doc, found, rest, 0, raw.len() as int)
            }
        } else if path.len() == 0 {
            seq![root as usize]
        } else {
            walk(doc, seq![root as usize], split_all(path, "."@))
        }
    }
}

/// What one matched value gives in a selection: an array its elements, any other
/// value itself.
pub open spec fn spread_one(doc: JsonTree, v: usize) -> Seq<usize> {
    if doc.kind(v as int) == JsonKind::Array {
        doc.items(v as int)
    } else {
        seq![v]
    }
}

proof fn lemma_spread_flatten(doc: JsonTree, ids: Seq<usize>)
    ensures
        spread_arrays(doc, ids) == ids.map_values(|v: usize| spread_one(doc, v)).flatten(),
    decreases ids.len(),
{
    let f = |v: usize| spread_one(doc, v);
    if ids.len() == 0 {
        assert(ids.map_values(f) =~= Seq::<Seq<usize>>::empty());
    } else {
        lemma_spread_flatten(doc, ids.drop_last());
        assert(ids.map_values(f) =~= ids.drop_last().map_values(f).push(f(ids.last())));
        ids.drop_last().map_values(f).lemma_flatten_push(f(ids.last()));
    }
}

/// A deep rule `$..k` with nothing after `k` selects, for the matches of `k` in
/// document order, the elements of each match that is an array, in order, and each
/// other match itself: the selection is those pieces one after another, a single
/// array match gives exactly its elements, and each element of an array match is
/// selected.
pub proof fn lemma_deep_spread(doc: JsonTree, root: int, raw: Seq<char>)
    requires
        starts_with(normalize_rule(raw), "$.."@),
        !contains(normalize_rule(raw), "||"@),
        !contains(normalize_rule(raw), "&&"@),
        deep_rest(path_of(normalize_rule(raw))).len() == 0,
    ensures
        ({
            let found = rec_key(doc, root, deep_first(path_of(normalize_rule(raw))));
            let sel = spec_json_select(doc, root, raw);
            &&& sel == found.map_values(|v: usize| spread_one(doc, v)).flatten()
            &&& found.len() == 1 && doc.kind(found[0] as int) == JsonKind::Array ==> sel == doc.items(found[0] as int)
            &&& found.len() == 1 && doc.kind(found[0] as int) != JsonKind::Array ==> sel == found
            &&& forall|j: int, e: int| 0 <= j < found.len() && doc.kind(found[j] as int) == JsonKind::Array
                && 0 <= e < doc.items(found[j] as int).len() ==> sel.contains(#[trigger] doc.items(found[j] as int)[e])
        }),
{
    let found = rec_key(doc, root, deep_first(path_of(normalize_rule(raw))));
    let sel = spec_json_select(doc, root, raw);
    let f = |v: usize| spread_one(doc, v);
    lemma_spread_flatten(doc, found);
    assert(sel == spread_arrays(doc, found));
    if found.len() == 1 {
        assert(found.map_values(f).len() == 1);
        found.map_values(f).lemma_flatten_singleton();
    }
    assert forall|j: int, e: int| 0 <= j < found.len() && doc.kind(found[j] as int) == JsonKind::Array
        && 0 <= e < doc.items(found[j] as int).len() implies sel.contains(#[trigger] doc.items(found[j] as int)[e]) by {
        lemma_spread_contains(doc, found, j, e);
    }
}

proof fn lemma_spread_contains(doc: JsonTree, ids: Seq<usize>, j: int, e: int)
    requires
        0 <= j < ids.len(),
        doc.kind(ids[j] as int) == JsonKind::Array,
        0 <= e < doc.items(ids[j] as int).len(),
    ensures
        spread_arrays(doc, ids).contains(doc.items(ids[j] as int)[e]),
    decreases ids.len(),
{
    let front = spread_arrays(doc, ids.drop_last());
    let x = doc.items(ids[j] as int)[e];
    if j == ids.len() - 1 {
        let tail = doc.items(ids.last() as int);
        assert((front + tail)[front.len() + e] == x);
    } else {
        assert(ids.drop_last()[j] == ids[j]);
        lemma_spread_contains(doc, ids.drop_last(), j, e);
        let k = choose|k: int| 0 <= k < front.len() && front[k] == x;
        assert(spread_arrays(doc, ids)[k] == x);
    }
}

/// The selection of the first alternative, from the `i`-th on, that selects something.
pub open spec fn first_nonempty(doc: JsonTree, root: int, parts: Seq<Seq<char>>, i: int, bound: int) -> Seq<usize>
    decreases bound, parts.len() - i,
{
    if i < 0 || i >= parts.len() {
        Seq::empty()
    } else {
        let found = if parts[i].len() < bound { spec_json_select(doc, root, parts[i]) } else { Seq::empty() };
        if found.len() > 0 {
            found
        } else {
            first_nonempty(doc, root, parts, i + 1, bound)
        }
    }
}

/// The selections of `rule` from each value of `ids` from the `k`-th on, one after another.
pub open spec fn select_each(doc: JsonTree, ids: Seq<usize>, rule: Seq<char>, k: int, bound: int) -> Seq<usize>
    decreases bound, ids.len() - k,
{
    if k < 0 || k >= ids.len() {
        Seq::empty()
    } else {
        (if rule.len() < bound { spec_json_select(doc, ids[k] as int, rule) } else { Seq::empty() })
            + select_each(doc, ids, rule, k + 1, bound)
    }
}

/// The texts of the values, in order.
pub open spec fn texts(doc: JsonTree, ids: Seq<usize>) -> Seq<Seq<char>> {
    ids.map_values(|i: usize| doc.text(i as int))
}

/// The non-empty texts, in order.
pub open spec fn nonempty(v: Seq<Seq<char>>) -> Seq<Seq<char>> {
    v.filter(|t: Seq<char>| t.len() > 0)
}

/// The text of the first value, or nothing.
pub open spec fn first_text(doc: JsonTree, ids: Seq<usize>) -> Seq<char> {
    if ids.len() > 0 {
        doc.text(ids[0] as int)
    } else {
        Seq::empty()
    }
}

/// The value of a rule on value `root`: with `{{…}}` placeholders, each replaced by
/// the first value its expression selects; otherwise the non-empty texts of the
/// selected values on separate lines. Then the rule's regex replacement, then trimming.
pub open spec fn spec_eval_json(doc: JsonTree, root: int, rule: Seq<char>) -> Seq<char> {
    let main = spec_split_rule(rule).0;
    let replace = spec_split_rule(rule).1;
    let value = if contains(main, "{{"@) {
        fill(template_parts(main), |e: Seq<char>| first_text(doc, spec_json_select(doc, root, e)))
    } else {
        join(nonempty(texts(doc, spec_json_select(doc, root, main))), "\n"@)
    };
    trim(spec_apply_replace(value, replace))
}

// ---------------------------------------------------------------------------
// Lemmas
// ---------------------------------------------------------------------------

/// Joining one more piece.
pub proof fn lemma_join_push(parts: Seq<Seq<char>>, x: Seq<char>, sep: Seq<char>)
    ensures
        join(parts.push(x), sep) == if parts.len() == 0 { x } else { join(parts, sep) + sep + x },
{
    assert(parts.push(x).drop_last() =~= parts);
}

/// Keeping the non-empty texts of one more text.
pub proof fn lemma_nonempty_push(v: Seq<Seq<char>>, x: Seq<char>)
    ensures
        nonempty(v.push(x)) == if x.len() > 0 { nonempty(v).push(x) } else { nonempty(v) },
{
    reveal(Seq::filter);
    assert(v.push(x).drop_last() =~= v);
}

/// Filling one more piece.
pub proof fn lemma_fill_push(parts: Seq<(Seq<char>, bool)>, x: (Seq<char>, bool), f: spec_fn(Seq<char>) -> Seq<char>)
    ensures
        fill(parts.push(x), f) == fill(parts, f) + if x.1 { f(x.0) } else { x.0 },
{
    assert(parts.push(x).drop_last() =~= parts);
}

proof fn lemma_trim_start_len(s: Seq<char>)
    ensures
        crate::text::trim_start(s).len() <= s.len(),
    decreases s.len(),
{
    if s.len() > 0 && crate::text::is_ws(s[0]) {
        lemma_trim_start_len(s.drop_first());
    }
}

proof fn lemma_trim_end_len(s: Seq<char>)
    ensures
        crate::text::trim_end(s).len() <= s.len(),
    decreases s.len(),
{
    if s.len() > 0 && crate::text::is_ws(s.last()) {
        lemma_trim_end_len(s.drop_last());
    }
}

proof fn lemma_trim_start_char_len(s: Seq<char>, c: char)
    ensures
        trim_start_char(s, c).len() <= s.len(),
        s.len() > 0 && s[0] == c ==> trim_start_char(s, c).len() < s.len(),
    decreases s.len(),
{
    if s.len() > 0 && s[0] == c {
        lemma_trim_start_char_len(s.drop_first(), c);
    }
}

proof fn lemma_trim_end_char_len(s: Seq<char>, c: char)
    ensures
        crate::text::trim_end_char(s, c).len() <= s.len(),
    decreases s.len(),
{
    if s.len() > 0 && s.last() == c {
        lemma_trim_end_char_len(s.drop_last(), c);
    }
}

proof fn lemma_normalize_len(raw: Seq<char>)
    ensures
        normalize_rule(raw).len() <= raw.len(),
{
    lemma_trim_start_len(raw);
    lemma_trim_end_len(crate::text::trim_start(raw));
    let a = trim(raw);
    lemma_trim_start_char_len(a, '{');
    lemma_trim_end_char_len(trim_start_char(a, '{'), '{');
    let b = trim_char(a, '{');
    lemma_trim_start_char_len(b, '}');
    lemma_trim_end_char_len(trim_start_char(b, '}'), '}');
}

/// The rest of a `$..` rule is shorter than the rule.
proof fn lemma_deep_rest_len(r: Seq<char>)
    requires
        starts_with(r, "$.."@),
    ensures
        deep_rest(path_of(r)).len() < r.len(),
{
    reveal_strlit("$..");
    assert(r.subrange(0, 3)[0] == r[0]);
    assert(r[0] == '$');
    let a = trim_start_char(r, '$');
    lemma_trim_start_char_len(r, '$');
    lemma_trim_start_char_len(a, '.');
    let path = path_of(r);
    let first = deep_first(path);
    let t = if starts_with(path, first) { path.subrange(first.len() as int, path.len() as int) } else { Seq::empty() };
    lemma_trim_start_char_len(t, '.');
}

// ---------------------------------------------------------------------------
// Executable evaluation
// ---------------------------------------------------------------------------

/// The member of object `v` named `key`.
pub(crate) fn value_get_exec(doc: &JsonDoc, v: usize, key: &Vec<char>) -> (r: Option<usize>)
    requires
        doc.wf(),
        v < doc.size(),
    ensures
        r == value_get(doc@, v as int, key@),
        r matches Some(x) ==> x < v,
{
    proof {
        doc.lemma_wf(v as int);
    }
    if doc.kind_of(v) != JsonKind::Object {
        return None;
    }
    let n = doc.keys_len(v);
    let items = doc.items_of(v);
    let mut k: usize = 0;
    while k < n
        invariant
            doc.wf(),
            v < doc.size(),
            n == doc.keys(v as int).len(),
            n == doc.items(v as int).len(),
            items@ == doc.items(v as int),
            doc.kind(v as int) == JsonKind::Object,
            k <= n,
            obj_get_from(doc@, v as int, key@, 0) == obj_get_from(doc@, v as int, key@, k as int),
            forall|j: int| 0 <= j < items@.len() ==> #[trigger] items@[j] < v,
        decreases n - k,
    {
        let name = doc.key_at(v, k);
        let nv = chars_of(name.as_str());
        if nv.len() == key.len() && occurs_at_exec(&nv, key, 0) {
            assert(nv@.subrange(0, key@.len() as int) =~= nv@);
            return Some(items[k]);
        }
        proof {
            if nv@ == key@ {
                assert(nv@.subrange(0, key@.len() as int) =~= nv@);
            }
        }
        k += 1;
    }
    None
}

/// The member name and element index of a path segment.
fn segment_key_index_exec(seg: &Vec<char>) -> (r: (Vec<char>, Option<usize>))
    ensures
        r.0@ == segment_key_index(seg@).0,
        opt_int(r.1) == match segment_key_index(seg@).1 {
            Some(x) => Some(x as int),
            None => None::<int>,
        },
{
    let star = chars_of("[*]");
    let open_b = chars_of("[");
    let close_b = chars_of("]");
    proof {
        reveal_strlit("[");
        reveal_strlit("]");
    }
    let key0 = strip_suffix_all_exec(seg, &star);
    match rfind_in_exec(&key0, &open_b, 0, key0.len()) {
        Some(open) => {
            if ends_with_exec(&key0, &close_b) {
                proof {
                    lemma_rfind_in_bounds(key0@, open_b@, 0, key0@.len() as int);
                    // the last character is `]`, so the `[` found comes before it
                    assert(key0@[key0@.len() - 1] == key0@.subrange(key0@.len() - 1, key0@.len() as int)[0]);
                    assert(key0@[open as int] == key0@.subrange(open as int, open + 1)[0]);
                }
                let inner = vec_range(&key0, open + 1, key0.len() - 1);
                (vec_range(&key0, 0, open), parse_usize_exec(&inner))
            } else {
                (key0, None)
            }
        },
        None => (key0, None),
    }
}

/// `json_children` for value `v`.
fn json_children_exec(doc: &JsonDoc, v: usize, seg: &Vec<char>, out: &mut Vec<usize>)
    requires
        doc.wf(),
        v < doc.size(),
        forall|k: int| 0 <= k < old(out)@.len() ==> #[trigger] old(out)@[k] < doc.size(),
    ensures
        final(out)@ == old(out)@ + json_children(doc@, v as int, seg@),
        forall|k: int| 0 <= k < final(out)@.len() ==> #[trigger] final(out)@[k] < doc.size(),
{
    let star = chars_of("[*]");
    let wildcard = ends_with_exec(seg, &star);
    let (key, index) = segment_key_index_exec(seg);
    let next = if key.len() == 0 { Some(v) } else { value_get_exec(doc, v, &key) };
    match next {
        Some(n) => {
            proof {
                doc.lemma_wf(n as int);
            }
            let items = doc.items_of(n);
            if doc.kind_of(n) == JsonKind::Array && wildcard {
                let mut k: usize = 0;
                while k < items.len()
                    invariant
                        k <= items@.len(),
                        items@ == doc.items(n as int),
                        n < doc.size(),
                        forall|j: int| 0 <= j < items@.len() ==> #[trigger] items@[j] < n,
                        out@ == old(out)@ + items@.subrange(0, k as int),
                        forall|j: int| 0 <= j < out@.len() ==> #[trigger] out@[j] < doc.size(),
                    decreases items@.len() - k,
                {
                    out.push(items[k]);
                    k += 1;
                    assert(out@ =~= old(out)@ + items@.subrange(0, k as int));
                }
                assert(items@.subrange(0, items@.len() as int) =~= items@);
            } else if doc.kind_of(n) == JsonKind::Array && index.is_some() {
                let i = index.unwrap();
                if i < items.len() {
                    out.push(items[i]);
                    assert(out@ =~= old(out)@ + seq![items@[i as int]]);
                } else {
                    assert(out@ =~= old(out)@ + Seq::<usize>::empty());
                }
            } else {
                out.push(n);
                assert(out@ =~= old(out)@ + seq![n]);
            }
        },
        None => {
            assert(out@ =~= old(out)@ + Seq::<usize>::empty());
        },
    }
}

/// `children_all`.
fn children_all_exec(doc: &JsonDoc, ids: &Vec<usize>, seg: &Vec<char>) -> (r: Vec<usize>)
    requires
        doc.wf(),
        forall|k: int| 0 <= k < ids@.len() ==> #[trigger] ids@[k] < doc.size(),
    ensures
        r@ == children_all(doc@, ids@, seg@),
        forall|k: int| 0 <= k < r@.len() ==> #[trigger] r@[k] < doc.size(),
{
    let mut r: Vec<usize> = Vec::new();
    let mut i: usize = 0;
    while i < ids.len()
        invariant
            doc.wf(),
            forall|k: int| 0 <= k < ids@.len() ==> #[trigger] ids@[k] < doc.size(),
            i <= ids@.len(),
            r@ == children_all(doc@, ids@.subrange(0, i as int), seg@),
            forall|k: int| 0 <= k < r@.len() ==> #[trigger] r@[k] < doc.size(),
        decreases ids@.len() - i,
    {
        json_children_exec(doc, ids[i], seg, &mut r);
        assert(ids@.subrange(0, i + 1).drop_last() =~= ids@.subrange(0, i as int));
        i += 1;
    }
    assert(ids@.subrange(0, ids@.len() as int) =~= ids@);
    r
}

/// `rec_key`: appends every value named `key` in the subtree of `v`.
fn recursive_key(doc: &JsonDoc, v: usize, key: &Vec<char>, out: &mut Vec<usize>)
    requires
        doc.wf(),
        v < doc.size(),
        forall|k: int| 0 <= k < old(out)@.len() ==> #[trigger] old(out)@[k] < doc.size(),
    ensures
        final(out)@ == old(out)@ + rec_key(doc@, v as int, key@),
        forall|k: int| 0 <= k < final(out)@.len() ==> #[trigger] final(out)@[k] < doc.size(),
    decreases v,
{
    proof {
        doc.lemma_wf(v as int);
    }
    let kind = doc.kind_of(v);
    if kind != JsonKind::Object && kind != JsonKind::Array {
        assert(out@ =~= old(out)@ + Seq::<usize>::empty());
        return;
    }
    if kind == JsonKind::Object {
        match value_get_exec(doc, v, key) {
            Some(x) => out.push(x),
            None => {},
        }
    }
    let ghost head = out@;
    let items = doc.items_of(v);
    let mut k: usize = 0;
    while k < items.len()
        invariant
            doc.wf(),
            v < doc.size(),
            items@ == doc.items(v as int),
            forall|j: int| 0 <= j < items@.len() ==> #[trigger] items@[j] < v,
            k <= items@.len(),
            out@ + rec_key_from(doc@, v as int, key@, k as int) == head + rec_key_from(doc@, v as int, key@, 0),
            forall|j: int| 0 <= j < out@.len() ==> #[trigger] out@[j] < doc.size(),
        decreases items@.len() - k,
    {
        let ghost before = out@;
        recursive_key(doc, items[k], key, out);
        assert(out@ + rec_key_from(doc@, v as int, key@, k + 1) =~= before + rec_key_from(doc@, v as int, key@, k as int));
        k += 1;
    }
    assert(out@ + Seq::<usize>::empty() =~= out@);
    assert(head =~= old(out)@ + match value_get(doc@, v as int, key@) {
        Some(x) => if kind == JsonKind::Object { seq![x] } else { Seq::<usize>::empty() },
        None => Seq::<usize>::empty(),
    });
    assert(out@ =~= old(out)@ + rec_key(doc@, v as int, key@));
}

/// `spread_arrays`.
fn spread_arrays_exec(doc: &JsonDoc, ids: &Vec<usize>) -> (r: Vec<usize>)
    requires
        doc.wf(),
        forall|k: int| 0 <= k < ids@.len() ==> #[trigger] ids@[k] < doc.size(),
    ensures
        r@ == spread_arrays(doc@, ids@),
        forall|k: int| 0 <= k < r@.len() ==> #[trigger] r@[k] < doc.size(),
{
    let mut r: Vec<usize> = Vec::new();
    let mut i: usize = 0;
    while i < ids.len()
        invariant
            doc.wf(),
            forall|k: int| 0 <= k < ids@.len() ==> #[trigger] ids@[k] < doc.size(),
            i <= ids@.len(),
            r@ == spread_arrays(doc@, ids@.subrange(0, i as int)),
            forall|k: int| 0 <= k < r@.len() ==> #[trigger] r@[k] < doc.size(),
        decreases ids@.len() - i,
    {
        let v = ids[i];
        let ghost before = r@;
        proof {
            doc.lemma_wf(v as int);
        }
        assert(ids@.subrange(0, i + 1).drop_last() =~= ids@.subrange(0, i as int));
        if doc.kind_of(v) == JsonKind::Array {
            let items = doc.items_of(v);
            let mut k: usize = 0;
            while k < items.len()
                invariant
                    items@ == doc.items(v as int),
                    v < doc.size(),
                    forall|j: int| 0 <= j < items@.len() ==> #[trigger] items@[j] < v,
                    k <= items@.len(),
                    r@ == before + items@.subrange(0, k as int),
                    forall|j: int| 0 <= j < r@.len() ==> #[trigger] r@[j] < doc.size(),
                decreases items@.len() - k,
            {
                r.push(items[k]);
                k += 1;
                assert(r@ =~= before + items@.subrange(0, k as int));
            }
            assert(items@.subrange(0, items@.len() as int) =~= items@);
        } else {
            r.push(v);
        }
        i += 1;
    }
    assert(ids@.subrange(0, ids@.len() as int) =~= ids@);
    r
}

/// The values that `rule` selects from value `root` of `doc`.
fn select_values(doc: &JsonDoc, root: usize, raw: &Vec<char>) -> (r: Vec<usize>)
    requires
        doc.wf(),
        root < doc.size(),
    ensures
        r@ == spec_json_select(doc@, root as int, raw@),
        forall|k: int| 0 <= k < r@.len() ==> #[trigger] r@[k] < doc.size(),
    decreases raw@.len() + 1, 0nat,
{
    proof {
        lemma_normalize_len(raw@);
    }
    let t = trim_exec(raw);
    let t = trim_char_exec(&t, '{');
    let r = trim_char_exec(&t, '}');
    let or_sep = chars_of("||");
    let and_sep = chars_of("&&");
    proof {
        reveal_strlit("||");
        reveal_strlit("&&");
    }
    if contains_exec(&r, &or_sep) {
        let parts = split_exec(&r, &or_sep);
        proof {
            lemma_split_parts_len(r@, or_sep@);
        }
        let mut i: usize = 0;
        while i < parts.len()
            invariant
                doc.wf(),
                root < doc.size(),
                parts.deep_view() == split_all(r@, or_sep@),
                or_sep@ == "||"@,
                contains(r@, "||"@),
                r@ == normalize_rule(raw@),
                r@.len() <= raw@.len(),
                forall|k: int| 0 <= k < parts.deep_view().len() ==> #[trigger] parts.deep_view()[k].len() < r@.len(),
                i <= parts.len(),
                first_nonempty(doc@, root as int, parts.deep_view(), 0, raw@.len() as int)
                    == first_nonempty(doc@, root as int, parts.deep_view(), i as int, raw@.len() as int),
            decreases parts.len() - i,
        {
            let part = chars_of(parts[i].as_str());
            assert(part@ == parts.deep_view()[i as int]);
            assert(part@.len() < raw@.len());
            let found = select_values(doc, root, &part);
            assert(first_nonempty(doc@, root as int, parts.deep_view(), i as int, raw@.len() as int)
                == if found@.len() > 0 { found@ } else {
                    first_nonempty(doc@, root as int, parts.deep_view(), i + 1, raw@.len() as int) });
            if found.len() > 0 {
                return found;
            }
            i += 1;
        }
        return Vec::new();
    }
    if contains_exec(&r, &and_sep) {
        let parts = split_exec(&r, &and_sep);
        proof {
            lemma_split_parts_len(r@, and_sep@);
        }
        let ghost rev = parts.deep_view().reverse();
        let mut i: usize = 0;
        while i < parts.len()
            invariant
                doc.wf(),
                root < doc.size(),
                parts.deep_view() == split_all(r@, and_sep@),
                and_sep@ == "&&"@,
                !contains(r@, "||"@),
                contains(r@, "&&"@),
                rev == parts.deep_view().reverse(),
                r@ == normalize_rule(raw@),
                r@.len() <= raw@.len(),
                forall|k: int| 0 <= k < parts.deep_view().len() ==> #[trigger] parts.deep_view()[k].len() < r@.len(),
                i <= parts.len(),
                first_nonempty(doc@, root as int, rev, 0, raw@.len() as int)
                    == first_nonempty(doc@, root as int, rev, i as int, raw@.len() as int),
            decreases parts.len() - i,
        {
            let part = chars_of(parts[parts.len() - 1 - i].as_str());
            assert(part@ == rev[i as int]);
            assert(part@.len() < raw@.len());
            let found = select_values(doc, root, &part);
            assert(first_nonempty(doc@, root as int, rev, i as int, raw@.len() as int)
                == if found@.len() > 0 { found@ } else {
                    first_nonempty(doc@, root as int, rev, i + 1, raw@.len() as int) });
            if found.len() > 0 {
                return found;
            }
            i += 1;
        }
        return Vec::new();
    }
    let p1 = trim_start_char_exec(&r, '$');
    let path = trim_start_char_exec(&p1, '.');
    let deep = chars_of("$..");
    let dot = chars_of(".");
    proof {
        reveal_strlit(".");
        reveal_strlit("$..");
    }
    if starts_with_exec(&r, &deep) {
        let pieces = split_exec(&path, &dot);
        proof {
            lemma_split_parts_len(path@, dot@);
        }
        let star = chars_of("[*]");
        let head = chars_of(pieces[0].as_str());
        let first = strip_suffix_all_exec(&head, &star);
        let mut found: Vec<usize> = Vec::new();
        recursive_key(doc, root, &first, &mut found);
        assert(found@ =~= rec_key(doc@, root as int, deep_first(path@)));
        // the rest of the path after the searched name
        let after = if starts_with_exec(&path, &first) {
            vec_range(&path, first.len(), path.len())
        } else {
            Vec::new()
        };
        let rest = trim_start_char_exec(&after, '.');
        proof {
            lemma_deep_rest_len(r@);
        }
        assert(rest@ == deep_rest(path@));
        if rest.len() == 0 {
            return spread_arrays_exec(doc, &found);
        }
        let mut out: Vec<usize> = Vec::new();
        let mut k: usize = 0;
        while k < found.len()
            invariant
                doc.wf(),
                forall|j: int| 0 <= j < found@.len() ==> #[trigger] found@[j] < doc.size(),
                rest@.len() < raw@.len(),
                k <= found@.len(),
                out@ + select_each(doc@, found@, rest@, k as int, raw@.len() as int)
                    == select_each(doc@, found@, rest@, 0, raw@.len() as int),
                forall|j: int| 0 <= j < out@.len() ==> #[trigger] out@[j] < doc.size(),
            decreases found@.len() - k,
        {
            let sub = select_values(doc, found[k], &rest);
            let ghost before = out@;
            let mut j: usize = 0;
            while j < sub.len()
                invariant
                    j <= sub@.len(),
                    out@ == before + sub@.subrange(0, j as int),
                    forall|q: int| 0 <= q < sub@.len() ==> #[trigger] sub@[q] < doc.size(),
                    forall|q: int| 0 <= q < before.len() ==> #[trigger] before[q] < doc.size(),
                    forall|q: int| 0 <= q < out@.len() ==> #[trigger] out@[q] < doc.size(),
                decreases sub@.len() - j,
            {
                out.push(sub[j]);
                j += 1;
                assert(out@ =~= before + sub@.subrange(0, j as int));
            }
            assert(sub@.subrange(0, sub@.len() as int) =~= sub@);
            assert(out@ + select_each(doc@, found@, rest@, k + 1, raw@.len() as int)
                =~= before + select_each(doc@, found@, rest@, k as int, raw@.len() as int));
            k += 1;
        }
        assert(out@ + Seq::<usize>::empty() =~= out@);
        return out;
    }
    if path.len() == 0 {
        let mut v: Vec<usize> = Vec::new();
        v.push(root);
        assert(v@ =~= seq![root]);
        return v;
    }
    let segs = split_exec(&path, &dot);
    let mut current: Vec<usize> = Vec::new();
    current.push(root);
    assert(current@ =~= seq![root]);
    let mut i: usize = 0;
    assert(segs.deep_view().subrange(0, segs.deep_view().len() as int) =~= segs.deep_view());
    while i < segs.len()
        invariant
            doc.wf(),
            i <= segs.len(),
            forall|j: int| 0 <= j < current@.len() ==> #[trigger] current@[j] < doc.size(),
            walk(doc@, seq![root], segs.deep_view())
                == walk(doc@, current@, segs.deep_view().subrange(i as int, segs.deep_view().len() as int)),
        decreases segs.len() - i,
    {
        let seg = chars_of(segs[i].as_str());
        assert(seg@ == segs.deep_view()[i as int]);
        let ghost tail = segs.deep_view().subrange(i as int, segs.deep_view().len() as int);
        assert(tail.drop_first() =~= segs.deep_view().subrange(i + 1, segs.deep_view().len() as int));
        current = children_all_exec(doc, &current, &seg);
        i += 1;
    }
    assert(segs.deep_view().subrange(segs.len() as int, segs.deep_view().len() as int) =~= Seq::<Seq<char>>::empty());
    assert(segs.deep_view().subrange(0, segs.deep_view().len() as int) =~= segs.deep_view());
    current
}

/// The values that `rule` selects from value `root` of `doc`, in document order
/// of the rule's steps.
pub fn json_select(doc: &JsonDoc, root: usize, rule: &str) -> (r: Vec<usize>)
    requires
        root < doc.size(),
    ensures
        r@ == spec_json_select(doc@, root as int, rule@),
        forall|k: int| 0 <= k < r@.len() ==> #[trigger] r@[k] < doc.size(),
{
    proof {
        use_type_invariant(doc);
    }
    select_values(doc, root, &chars_of(rule))
}

/// The document a text parses to, with its root; or the parser's message.
pub open spec fn body_json(text: Seq<char>) -> Result<(JsonTree, int), Seq<char>> {
    match json_parse_error(text) {
        Some(e) => Err(e),
        None => match json_nodes_of(text) {
            Some((ns, root)) => Ok((JsonTree { nodes: ns }, root)),
            None => Err(Seq::empty()),
        },
    }
}

/// Parses a text as one JSON value into a document.
pub fn parse_json(text: &str) -> (r: Result<(JsonDoc, usize), String>)
    ensures
        match r {
            Ok((d, root)) => root < d.size() && json_parse_error(text@) is None && body_json(text@) == Ok::<
                (JsonTree, int),
                Seq<char>,
            >((d@, root as int)),
            Err(e) => json_parse_error(text@) == Some(e@) && body_json(text@) == Err::<(JsonTree, int), Seq<char>>(e@),
        },
{
    match parse_json_nodes(text) {
        Err(e) => Err(e),
        Ok((ns, root)) => {
            let ghost nv = nodes_view(ns@);
            let ghost t = JsonTree { nodes: nv };
            let mut d = JsonDoc::new();
            let mut i: usize = 0;
            assert(d@.nodes =~= nv.subrange(0, 0));
            while i < ns.len()
                invariant
                    i <= ns.len(),
                    nv == nodes_view(ns@),
                    t == (JsonTree { nodes: nv }),
                    t.wf(),
                    d@.nodes == nv.subrange(0, i as int),
                decreases ns.len() - i,
            {
                let n = &ns[i];
                assert(t.nodes[i as int] == nv[i as int]);
                assert(nv[i as int] == (n.0, n.1@, n.2.deep_view(), n.3@));
                let node = JsonNode { kind: n.0, text: n.1.clone(), keys: n.2.clone(), items: n.3.clone() };
                assert(node.keys.deep_view() =~= n.2.deep_view());
                assert(node.keys@.len() == node.keys.deep_view().len());
                assert(node.text@ == n.1@);
                assert(node.items@ =~= n.3@);
                let ghost before = d@.nodes;
                let ghost nd = (node.kind, node.text@, node.keys.deep_view(), node.items@);
                assert(nd == nv[i as int]);
                assert(d.size() == i);
                assert forall|k: int| 0 <= k < node.items@.len() implies #[trigger] node.items@[k] < d.size() by {
                    assert(t.items(i as int)[k] < i);
                }
                let id = d.add(node);
                assert forall|j: int| 0 <= j < before.len() implies #[trigger] d@.nodes[j] == before[j] by {
                    assert(d.kind(j) == d@.nodes[j].0 && d.text(j) == d@.nodes[j].1 && d.keys(j) == d@.nodes[j].2
                        && d.items(j) == d@.nodes[j].3);
                }
                assert(d@.nodes[id as int] == nd);
                assert(d@.nodes =~= before.push(nv[i as int]));
                i += 1;
                assert(d@.nodes =~= nv.subrange(0, i as int));
            }
            assert(nv.subrange(0, ns@.len() as int) =~= nv);
            Ok((d, root))
        },
    }
}

/// The document a text parses to, when it parses.
pub open spec fn opt_json(text: Seq<char>) -> Option<(JsonTree, int)> {
    match body_json(text) {
        Ok(x) => Some(x),
        Err(_) => None,
    }
}

/// Parses a text as one JSON value into a document, when it parses.
pub fn parse_json_opt(text: &str) -> (r: Option<(JsonDoc, usize)>)
    ensures
        match r {
            Some((d, root)) => root < d.size() && opt_json(text@) == Some((d@, root as int)),
            None => opt_json(text@) is None,
        },
{
    match parse_json(text) {
        Ok(x) => Some(x),
        Err(_) => None,
    }
}

/// The value of a rule on value `root` of a document.
pub fn eval_json(doc: &JsonDoc, root: usize, rule: &str) -> (r: String)
    requires
        root < doc.size(),
    ensures
        r@ == spec_eval_json(doc@, root as int, rule@),
{
    proof {
        use_type_invariant(doc);
    }
    let (main, replace) = split_rule(rule);
    let mv = chars_of(main.as_str());
    let open = chars_of("{{");
    let value = if contains_exec(&mv, &open) {
        let parts = template_parts_exec(&mv);
        let ghost f = |e: Seq<char>| first_text(doc@, spec_json_select(doc@, root as int, e));
        let mut out = String::new();
        let mut i: usize = 0;
        assert(pieces_view(parts@).subrange(0, 0) =~= Seq::<(Seq<char>, bool)>::empty());
        while i < parts.len()
            invariant
                doc.wf(),
                root < doc.size(),
                i <= parts.len(),
                f == (|e: Seq<char>| first_text(doc@, spec_json_select(doc@, root as int, e))),
                out@ == fill(pieces_view(parts@).subrange(0, i as int), f),
            decreases parts.len() - i,
        {
            let piece = &parts[i];
            let ghost pv = pieces_view(parts@);
            proof {
                assert(pv.subrange(0, i + 1) =~= pv.subrange(0, i as int).push(pv[i as int]));
                lemma_fill_push(pv.subrange(0, i as int), pv[i as int], f);
            }
            if piece.is_expr {
                let e = chars_of(piece.text.as_str());
                let found = select_values(doc, root, &e);
                if found.len() > 0 {
                    let t = doc.text_of(found[0]);
                    push_str(&mut out, t.as_str());
                } else {
                    assert(out@ + Seq::<char>::empty() =~= out@);
                }
            } else {
                push_str(&mut out, piece.text.as_str());
            }
            i += 1;
        }
        assert(pieces_view(parts@).subrange(0, parts@.len() as int) =~= pieces_view(parts@));
        out
    } else {
        let found = select_values(doc, root, &mv);
        let ghost ts = texts(doc@, found@);
        let mut out = String::new();
        let mut any = false;
        let mut i: usize = 0;
        assert(ts.subrange(0, 0) =~= Seq::<Seq<char>>::empty());
        assert(nonempty(Seq::<Seq<char>>::empty()) =~= Seq::<Seq<char>>::empty());
        while i < found.len()
            invariant
                doc.wf(),
                forall|k: int| 0 <= k < found@.len() ==> #[trigger] found@[k] < doc.size(),
                ts == texts(doc@, found@),
                i <= found@.len(),
                out@ == join(nonempty(ts.subrange(0, i as int)), "\n"@),
                any == (nonempty(ts.subrange(0, i as int)).len() > 0),
            decreases found@.len() - i,
        {
            let t = doc.text_of(found[i]);
            let ghost prev = nonempty(ts.subrange(0, i as int));
            proof {
                assert(ts.subrange(0, i + 1) =~= ts.subrange(0, i as int).push(ts[i as int]));
                lemma_nonempty_push(ts.subrange(0, i as int), ts[i as int]);
            }
            if !t.as_str().is_empty() {
                proof {
                    lemma_join_push(prev, t@, "\n"@);
                }
                if any {
                    push_str(&mut out, "\n");
                }
                push_str(&mut out, t.as_str());
                any = true;
            }
            i += 1;
        }
        assert(ts.subrange(0, found@.len() as int) =~= ts);
        out
    };
    let replaced = apply_replace(value, &replace);
    trim_str(replaced.as_str())
}

} // verus!

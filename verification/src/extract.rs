//! The item extractor: runs a fixed structural query against a parsed
//! document and returns the maximal top-level syntactic items, keyed by their
//! starting byte offset, each carrying its own source slice.

use vstd::prelude::*;

verus! {

/// What the structural parser captures on a byte buffer for a query text:
/// one record per capture, in match order, holding the capture's index into
/// the query's capture-name table and the captured node's byte range.
/// The result depends on the buffer and the query text alone.
pub uninterp spec fn rust_captures(source: Seq<u8>, query: Seq<char>) -> Seq<(usize, usize, usize)>;

/// The capture-name table of a query text, in declaration order, under the
/// same grammar. The result depends on the query text alone.
pub uninterp spec fn rust_capture_names(query: Seq<char>) -> Seq<Seq<char>>;

/// Relies on tree_sitter: Parser::new, Parser::set_language, Parser::parse
/// and QueryCursor::matches, with the grammar of tree_sitter_rust::language
/// and the query compiled by Query::new. Parsing and matching are
/// deterministic over the buffer and the query text; when the grammar,
/// the parse or the query is refused, no capture is produced. Only the
/// fixed item query is admitted: Query::new's error report for a bad name
/// takes the text from the error offset up to the first character that
/// cannot be part of a name, and mis-slices when only name characters
/// follow; the item query ends in `)`, so no error can reach that slice.
#[verifier::external_body]
fn ts_rust_captures(source: &[u8], query_src: &str) -> (r: Vec<(usize, usize, usize)>)
    requires
        query_src@ == item_query_spec(),
    ensures
        r@ == rust_captures(source@, query_src@),
{
    let mut parser = tree_sitter::Parser::new();
    let lang = tree_sitter_rust::language();
    if parser.set_language(lang).is_err() {
        return Vec::new();
    }
    let tree = match parser.parse(source, None) { Some(t) => t, None => return Vec::new() };
    let query = match tree_sitter::Query::new(lang, query_src) { Ok(q) => q, Err(_) => return Vec::new() };
    let mut cursor = tree_sitter::QueryCursor::new();
    cursor.matches(&query, tree.root_node(), source).flat_map(|m| m.captures).map(
        |c| (c.index as usize, c.node.start_byte(), c.node.end_byte()),
    ).collect()
}

/// Relies on tree_sitter's Query::new and Query::capture_names: the capture
/// names of a query text, in declaration order, determined by the query text
/// alone under the fixed grammar; empty when the query is refused. Only the
/// fixed item query is admitted, which keeps Query::new's error path away
/// from its mis-sliced name report (see [`ts_rust_captures`]).
#[verifier::external_body]
fn ts_rust_capture_names(query_src: &str) -> (r: Vec<String>)
    requires
        query_src@ == item_query_spec(),
    ensures
        r.deep_view() == rust_capture_names(query_src@),
{
    match tree_sitter::Query::new(tree_sitter_rust::language(), query_src) {
        Ok(q) => q.capture_names().to_vec(),
        Err(_) => Vec::new(),
    }
}

/// The fixed structural query matching every top-level item kind.
pub open spec fn item_query_spec() -> Seq<char> {
    "([
      (const_item) @fn
      (macro_invocation) @fn
      (macro_definition) @fn
      (empty_statement) @fn
      (attribute_item) @fn
      (inner_attribute_item) @fn
      (mod_item) @fn
      (foreign_mod_item) @fn
      (struct_item) @fn
      (union_item) @fn
      (enum_item) @fn
      (type_item) @fn
      (function_item) @fn
      (function_signature_item) @fn
      (impl_item) @fn
      (trait_item) @fn
      (associated_type) @fn
      (let_declaration) @fn
      (use_declaration) @fn
      (extern_crate_declaration) @fn
      (static_item) @fn
            ])"@
}

/// The fixed structural query matching every top-level item kind.
pub fn item_query() -> (q: &'static str)
    ensures
        q@ == item_query_spec(),
{
    "([
      (const_item) @fn
      (macro_invocation) @fn
      (macro_definition) @fn
      (empty_statement) @fn
      (attribute_item) @fn
      (inner_attribute_item) @fn
      (mod_item) @fn
      (foreign_mod_item) @fn
      (struct_item) @fn
      (union_item) @fn
      (enum_item) @fn
      (type_item) @fn
      (function_item) @fn
      (function_signature_item) @fn
      (impl_item) @fn
      (trait_item) @fn
      (associated_type) @fn
      (let_declaration) @fn
      (use_declaration) @fn
      (extern_crate_declaration) @fn
      (static_item) @fn
            ])"
}

/// The mathematical value of an [`ExtractedNode`].
pub ghost struct NodeView {
    pub name: Seq<char>,
    pub start_byte: usize,
    pub end_byte: usize,
}

/// One capture of the structural query, resolved to its capture name and the
/// byte range of the captured node.
#[derive(Debug, PartialEq, Eq, PartialOrd, Ord)]
pub struct ExtractedNode<'query> {
    pub name: &'query str,
    pub start_byte: usize,
    pub end_byte: usize,
}

impl<'query> View for ExtractedNode<'query> {
    type V = NodeView;

    open spec fn view(&self) -> NodeView {
        NodeView { name: self.name@, start_byte: self.start_byte, end_byte: self.end_byte }
    }
}

/// The views of a sequence of extracted nodes.
pub open spec fn node_views(ns: Seq<ExtractedNode>) -> Seq<NodeView> {
    ns.map(|i: int, n: ExtractedNode| n@)
}

/// The node a single capture record resolves to: its name is looked up in
/// the capture-name table, and a capture whose index lies outside the table
/// resolves to a defensive empty-named node.
pub open spec fn node_view_of_cap(c: (usize, usize, usize), names: Seq<Seq<char>>) -> NodeView {
    if c.0 < names.len() {
        NodeView { name: names[c.0 as int], start_byte: c.1, end_byte: c.2 }
    } else {
        NodeView { name: ""@, start_byte: 0, end_byte: 0 }
    }
}

/// The nodes a capture list resolves to, in capture order.
pub open spec fn node_views_of(caps: Seq<(usize, usize, usize)>, names: Seq<Seq<char>>) -> Seq<
    NodeView,
> {
    caps.map(|i: int, c: (usize, usize, usize)| node_view_of_cap(c, names))
}

/// Resolve each capture record against the capture-name table: a capture
/// whose index lies inside the table carries that name and its node's byte
/// range; any other capture becomes a defensive empty node.
pub fn extract_nodes<'q>(caps: &Vec<(usize, usize, usize)>, names: &'q Vec<String>) -> (nodes: Vec<
    ExtractedNode<'q>,
>)
    ensures
        node_views(nodes@) == node_views_of(caps@, names.deep_view()),
{
    let mut nodes: Vec<ExtractedNode<'q>> = Vec::new();
    let n = caps.len();
    let mut i: usize = 0;
    while i < n
        invariant
            n == caps@.len(),
            i <= n,
            node_views(nodes@) == node_views_of(caps@.take(i as int), names.deep_view()),
        decreases n - i,
    {
        let ghost prev = nodes@;
        proof {
            assert(node_views(prev).len() == prev.len());
            assert(prev.len() == i as int);
        }
        let c = caps[i];
        let node: ExtractedNode<'q> = if c.0 < names.len() {
            let nm: &'q str = names[c.0].as_str();
            proof {
                assert(nm@ == names@[c.0 as int]@);
            }
            ExtractedNode { name: nm, start_byte: c.1, end_byte: c.2 }
        } else {
            ExtractedNode { name: "", start_byte: 0, end_byte: 0 }
        };
        proof {
            let dv = names.deep_view();
            assert(dv.len() == names@.len());
            assert(node@ == node_view_of_cap(c, dv)) by {
                if c.0 < names@.len() {
                    assert(dv[c.0 as int] == names@[c.0 as int]@);
                }
            }
        }
        nodes.push(node);
        proof {
            let dv = names.deep_view();
            assert(nodes@ == prev.push(node));
            assert(nodes@[i as int]@ == node_view_of_cap(c, dv));
            assert forall|j: int| 0 <= j < i + 1 implies node_views(nodes@)[j] == node_views_of(
                caps@.take(i as int + 1),
                dv,
            )[j] by {
                assert(caps@.take(i as int + 1)[j] == caps@[j]);
                if j < i {
                    assert(node_views(prev)[j] == node_views_of(caps@.take(i as int), dv)[j]);
                    assert(caps@.take(i as int)[j] == caps@[j]);
                    assert(nodes@[j] == prev[j]);
                }
            }
            assert(node_views(nodes@) =~= node_views_of(caps@.take(i as int + 1), dv));
        }
        i = i + 1;
    }
    proof {
        assert(caps@.take(n as int) =~= caps@);
    }
    nodes
}

/// Whether the keys of an entry sequence are strictly ascending (so unique).
pub open spec fn sorted_keys(s: Seq<(usize, Seq<u8>)>) -> bool {
    forall|i: int, j: int| 0 <= i < j < s.len() ==> (#[trigger] s[i]).0 < (#[trigger] s[j]).0
}

/// Whether some entry carries key `k`.
pub open spec fn has_key(s: Seq<(usize, Seq<u8>)>, k: int) -> bool {
    exists|i: int| 0 <= i < s.len() && (#[trigger] s[i]).0 == k
}

/// The value of the entry carrying key `k`.
pub open spec fn value_at(s: Seq<(usize, Seq<u8>)>, k: int) -> Seq<u8> {
    let i = choose|i: int| 0 <= i < s.len() && (#[trigger] s[i]).0 == k;
    s[i].1
}

/// What an entry sequence associates with key `k`.
pub open spec fn map_lookup(s: Seq<(usize, Seq<u8>)>, k: int) -> Option<Seq<u8>> {
    if has_key(s, k) {
        Some(value_at(s, k))
    } else {
        None
    }
}

/// A mapping from starting byte offset to the source slice of the item that
/// starts there, held in ascending key order with unique keys.
pub struct ItemMap<'a> {
    entries: Vec<(usize, &'a [u8])>,
}

impl<'a> View for ItemMap<'a> {
    type V = Seq<(usize, Seq<u8>)>;

    closed spec fn view(&self) -> Seq<(usize, Seq<u8>)> {
        self.entries@.map(|i: int, e: (usize, &[u8])| (e.0, e.1@))
    }
}

impl<'a> ItemMap<'a> {
    /// An item map is well formed when its keys ascend strictly.
    pub open spec fn wf(self) -> bool {
        sorted_keys(self@)
    }

    /// The empty mapping.
    pub fn new() -> (m: ItemMap<'a>)
        ensures
            m@ =~= Seq::<(usize, Seq<u8>)>::empty(),
            m.wf(),
    {
        ItemMap { entries: Vec::new() }
    }

    /// The number of items held.
    pub fn len(&self) -> (n: usize)
        ensures
            n == self@.len(),
    {
        self.entries.len()
    }

    /// The key of the entry at position `i`.
    pub fn key_at(&self, i: usize) -> (k: usize)
        requires
            i < self@.len(),
        ensures
            k == self@[i as int].0,
    {
        self.entries[i].0
    }

    /// The slice of the entry at position `i`.
    pub fn slice_at(&self, i: usize) -> (v: &'a [u8])
        requires
            i < self@.len(),
        ensures
            v@ == self@[i as int].1,
    {
        self.entries[i].1
    }

    /// Associate `key` with `value`, replacing what an earlier insertion
    /// associated with the same key and leaving every other key untouched.
    pub fn insert(&mut self, key: usize, value: &'a [u8])
        requires
            old(self).wf(),
        ensures
            final(self).wf(),
            map_lookup(final(self)@, key as int) == Some(value@),
            forall|k: int|
                k != key as int ==> #[trigger] map_lookup(final(self)@, k) == map_lookup(
                    old(self)@,
                    k,
                ),
    {
        let ghost olds = self@;
        let n = self.entries.len();
        let mut p: usize = 0;
        while p < n && self.entries[p].0 < key
            invariant
                n == self.entries@.len(),
                p <= n,
                self@ == olds,
                forall|i: int| 0 <= i < p ==> (#[trigger] olds[i]).0 < key,
            decreases n - p,
        {
            p = p + 1;
        }
        if p < n && self.entries[p].0 == key {
            self.entries.remove(p);
            self.entries.insert(p, (key, value));
            proof {
                assert(self@ =~= olds.update(p as int, (key as usize, value@)));
                lemma_lookup_after_update(olds, p as int, key, value@);
            }
        } else {
            proof {
                assert(p < n ==> olds[p as int].0 > key);
            }
            self.entries.insert(p, (key, value));
            proof {
                assert(self@ =~= olds.take(p as int) + seq![(key as usize, value@)] + olds.skip(
                    p as int,
                ));
                lemma_lookup_after_insert(olds, p as int, key, value@);
            }
        }
    }

    /// The slice associated with `key`, when one is.
    pub fn get(&self, key: i128) -> (r: Option<&'a [u8]>)
        requires
            self.wf(),
        ensures
            match r {
                Some(v) => has_key(self@, key as int) && v@ == value_at(self@, key as int),
                None => !has_key(self@, key as int),
            },
    {
        let n = self.entries.len();
        let mut i: usize = 0;
        while i < n
            invariant
                n == self.entries@.len(),
                self.wf(),
                i <= n,
                forall|j: int| 0 <= j < i ==> (#[trigger] self@[j]).0 != key as int,
            decreases n - i,
        {
            if self.entries[i].0 as i128 == key {
                proof {
                    assert(self@[i as int].0 == key as int);
                    let w = choose|w: int|
                        0 <= w < self@.len() && (#[trigger] self@[w]).0 == key as int;
                    assert(self@[w].0 == self@[i as int].0);
                    if w != i as int {
                        if w < i as int {
                            assert(self@[w].0 < self@[i as int].0);
                        } else {
                            assert(self@[i as int].0 < self@[w].0);
                        }
                    }
                    assert(value_at(self@, key as int) == self@[i as int].1);
                }
                return Some(self.entries[i].1);
            }
            i = i + 1;
        }
        None
    }
}

/// Whether a resolved node contributes an item: it carries the capture name
/// of the item query and a byte range that lies inside the document.
pub open spec fn keeps_node(src: Seq<u8>, nv: NodeView) -> bool {
    nv.name == "fn"@ && nv.start_byte <= nv.end_byte && nv.end_byte <= src.len()
}

/// What the item mapping of a document associates with offset `k`: the slice
/// of the last contributing node that starts at `k`, when one does
/// (a later capture at the same offset overwrites an earlier one).
pub open spec fn item_lookup_nodes(src: Seq<u8>, nodes: Seq<NodeView>, k: int) -> Option<Seq<u8>>
    decreases nodes.len(),
{
    if nodes.len() == 0 {
        None
    } else {
        let last = nodes.last();
        if keeps_node(src, last) && last.start_byte == k {
            Some(src.subrange(last.start_byte as int, last.end_byte as int))
        } else {
            item_lookup_nodes(src, nodes.drop_last(), k)
        }
    }
}

/// Build the item mapping of a document from its resolved captures: every
/// node named by the item query and lying inside the document contributes
/// its slice under its starting offset, later captures overwriting earlier
/// ones at the same offset; every other node is skipped.
pub fn collect_items<'a>(source: &'a [u8], nodes: &Vec<ExtractedNode>) -> (m: ItemMap<'a>)
    ensures
        m.wf(),
        forall|k: int| #[trigger]
            map_lookup(m@, k) == item_lookup_nodes(source@, node_views(nodes@), k),
{
    let ghost nvs = node_views(nodes@);
    let mut m = ItemMap::new();
    let fn_label: String = "fn".to_owned();
    let n = nodes.len();
    let mut i: usize = 0;
    while i < n
        invariant
            n == nodes@.len(),
            i <= n,
            nvs == node_views(nodes@),
            fn_label@ == "fn"@,
            m.wf(),
            forall|k: int| #[trigger]
                map_lookup(m@, k) == item_lookup_nodes(source@, nvs.take(i as int), k),
        decreases n - i,
    {
        let ghost prefix = nvs.take(i as int);
        proof {
            assert(nvs.take(i as int + 1).drop_last() =~= prefix);
            assert(nvs.take(i as int + 1).last() == nvs[i as int]);
        }
        let node = &nodes[i];
        proof {
            assert(node@ == nvs[i as int]);
        }
        let is_fn = node.name.to_owned() == fn_label;
        if is_fn && node.start_byte <= node.end_byte && node.end_byte <= source.len() {
            let slice = vstd::slice::slice_subrange(source, node.start_byte, node.end_byte);
            let ghost before = m@;
            m.insert(node.start_byte, slice);
            proof {
                assert(keeps_node(source@, nvs[i as int]));
                assert forall|k: int| #[trigger]
                    map_lookup(m@, k) == item_lookup_nodes(
                        source@,
                        nvs.take(i as int + 1),
                        k,
                    ) by {
                    if k == node.start_byte as int {
                        assert(map_lookup(m@, k) == Some(slice@));
                    } else {
                        assert(map_lookup(m@, k) == map_lookup(before, k));
                    }
                }
            }
        } else {
            proof {
                assert(!keeps_node(source@, nvs[i as int]));
                assert forall|k: int| #[trigger]
                    map_lookup(m@, k) == item_lookup_nodes(
                        source@,
                        nvs.take(i as int + 1),
                        k,
                    ) by {}
            }
        }
        i = i + 1;
    }
    proof {
        assert(nvs.take(n as int) =~= nvs);
    }
    m
}

/// The item mapping a document's captures denote, resolved against the
/// capture-name table of the item query.
pub open spec fn item_nodes_of(src: Seq<u8>) -> Seq<NodeView> {
    node_views_of(
        rust_captures(src, item_query_spec()),
        rust_capture_names(item_query_spec()),
    )
}

/// Split a document into its top-level items, keyed by starting byte offset:
/// the structural parser runs the fixed item query, and every capture it
/// names as an item and anchors inside the document contributes its source
/// slice, later captures overwriting earlier ones at the same offset. A
/// document the parser rejects yields the empty mapping.
pub fn splitup<'a>(source: &'a [u8]) -> (m: ItemMap<'a>)
    ensures
        m.wf(),
        forall|k: int| #[trigger]
            map_lookup(m@, k) == item_lookup_nodes(source@, item_nodes_of(source@), k),
{
    let q = item_query();
    let caps = ts_rust_captures(source, q);
    let names = ts_rust_capture_names(q);
    let nodes = extract_nodes(&caps, &names);
    proof {
        assert(node_views(nodes@) == item_nodes_of(source@));
    }
    collect_items(source, &nodes)
}

pub proof fn lemma_value_at_index(s: Seq<(usize, Seq<u8>)>, i: int)
    requires
        sorted_keys(s),
        0 <= i < s.len(),
    ensures
        has_key(s, s[i].0 as int),
        value_at(s, s[i].0 as int) == s[i].1,
{
    assert(s[i].0 == s[i].0 as int);
    let w = choose|w: int| 0 <= w < s.len() && (#[trigger] s[w]).0 == s[i].0 as int;
    if w != i {
        if w < i {
            assert(s[w].0 < s[i].0);
        } else {
            assert(s[i].0 < s[w].0);
        }
    }
}

/// Extraction determinism: an item mapping with strictly ascending keys is
/// determined by what it associates with each offset, so re-running the
/// extractor on identical input, which is promised to associate the same
/// slice with every offset, yields an identical mapping: same keys, same
/// slice boundaries, same order.
pub proof fn lemma_extraction_deterministic(m1: Seq<(usize, Seq<u8>)>, m2: Seq<(usize, Seq<u8>)>)
    requires
        sorted_keys(m1),
        sorted_keys(m2),
        forall|k: int| #[trigger] map_lookup(m1, k) == map_lookup(m2, k),
    ensures
        m1 == m2,
    decreases m1.len(),
{
    if m1.len() == 0 {
        if m2.len() > 0 {
            lemma_value_at_index(m2, 0);
            assert(map_lookup(m1, m2[0].0 as int) == map_lookup(m2, m2[0].0 as int));
            assert(false);
        }
        assert(m1 =~= m2);
    } else {
        if m2.len() == 0 {
            lemma_value_at_index(m1, 0);
            assert(map_lookup(m1, m1[0].0 as int) == map_lookup(m2, m1[0].0 as int));
            assert(false);
        }
        let k1 = m1[0].0;
        let k2 = m2[0].0;
        lemma_value_at_index(m1, 0);
        lemma_value_at_index(m2, 0);
        assert(has_key(m2, k1 as int));
        let j2 = choose|j: int| 0 <= j < m2.len() && (#[trigger] m2[j]).0 == k1 as int;
        if j2 > 0 {
            assert(m2[0].0 < m2[j2].0);
        }
        assert(k2 <= k1);
        assert(has_key(m1, k2 as int));
        let j1 = choose|j: int| 0 <= j < m1.len() && (#[trigger] m1[j]).0 == k2 as int;
        if j1 > 0 {
            assert(m1[0].0 < m1[j1].0);
        }
        assert(k1 <= k2);
        assert(k1 == k2);
        assert(map_lookup(m1, k1 as int) == map_lookup(m2, k1 as int));
        assert(m1[0].1 == m2[0].1);
        assert(m1[0] == m2[0]);
        let t1 = m1.drop_first();
        let t2 = m2.drop_first();
        assert forall|k: int| #[trigger] map_lookup(t1, k) == map_lookup(t2, k) by {
            lemma_drop_first_lookup(m1, k);
            lemma_drop_first_lookup(m2, k);
        }
        assert forall|i: int, j: int| 0 <= i < j < t1.len() implies (#[trigger] t1[i]).0 < (
        #[trigger] t1[j]).0 by {
            assert(m1[i + 1].0 < m1[j + 1].0);
        }
        assert forall|i: int, j: int| 0 <= i < j < t2.len() implies (#[trigger] t2[i]).0 < (
        #[trigger] t2[j]).0 by {
            assert(m2[i + 1].0 < m2[j + 1].0);
        }
        lemma_extraction_deterministic(t1, t2);
        assert forall|i: int| 0 <= i < m1.len() implies m1[i] == m2[i] by {
            if i > 0 {
                assert(m1[i] == t1[i - 1]);
                assert(m2[i] == t2[i - 1]);
            }
        }
        assert(m1 =~= m2);
    }
}

proof fn lemma_drop_first_lookup(s: Seq<(usize, Seq<u8>)>, k: int)
    requires
        sorted_keys(s),
        s.len() > 0,
    ensures
        k == s[0].0 as int ==> !has_key(s.drop_first(), k),
        k != s[0].0 as int ==> map_lookup(s.drop_first(), k) == map_lookup(s, k),
{
    let t = s.drop_first();
    if k == s[0].0 as int {
        if has_key(t, k) {
            let i = choose|i: int| 0 <= i < t.len() && (#[trigger] t[i]).0 == k;
            assert(s[i + 1].0 == k);
            assert(s[0].0 < s[i + 1].0);
            assert(false);
        }
    } else {
        if has_key(t, k) {
            let i = choose|i: int| 0 <= i < t.len() && (#[trigger] t[i]).0 == k;
            assert(s[i + 1].0 == k);
            assert(has_key(s, k));
            let w = choose|w: int| 0 <= w < s.len() && (#[trigger] s[w]).0 == k;
            if w != i + 1 {
                if w < i + 1 {
                    assert(s[w].0 < s[i + 1].0);
                } else {
                    assert(s[i + 1].0 < s[w].0);
                }
            }
            let w2 = choose|w: int| 0 <= w < t.len() && (#[trigger] t[w]).0 == k;
            if w2 != i {
                if w2 < i {
                    assert(s[w2 + 1].0 < s[i + 1].0);
                } else {
                    assert(s[i + 1].0 < s[w2 + 1].0);
                }
            }
            assert(value_at(t, k) == t[i].1);
            assert(value_at(s, k) == s[i + 1].1);
        } else {
            if has_key(s, k) {
                let w = choose|w: int| 0 <= w < s.len() && (#[trigger] s[w]).0 == k;
                assert(w != 0);
                assert(t[w - 1].0 == k);
                assert(has_key(t, k));
                assert(false);
            }
        }
    }
}

proof fn lemma_lookup_after_update(s: Seq<(usize, Seq<u8>)>, p: int, key: usize, v: Seq<u8>)
    requires
        sorted_keys(s),
        0 <= p < s.len(),
        s[p].0 == key,
        forall|i: int| 0 <= i < p ==> (#[trigger] s[i]).0 < key,
    ensures
        sorted_keys(s.update(p, (key, v))),
        map_lookup(s.update(p, (key, v)), key as int) == Some(v),
        forall|k: int|
            k != key as int ==> #[trigger] map_lookup(s.update(p, (key, v)), k) == map_lookup(s, k),
{
    let t = s.update(p, (key, v));
    assert forall|i: int, j: int| 0 <= i < j < t.len() implies (#[trigger] t[i]).0 < (
    #[trigger] t[j]).0 by {
        assert(s[i].0 < s[j].0);
    }
    assert(t[p].0 == key);
    assert(has_key(t, key as int));
    let w = choose|w: int| 0 <= w < t.len() && (#[trigger] t[w]).0 == key as int;
    if w != p {
        assert(t[w].0 == s[w].0);
        if w < p {
            assert(s[w].0 < s[p].0);
        } else {
            assert(s[p].0 < s[w].0);
        }
    }
    assert(value_at(t, key as int) == v);
    assert forall|k: int| k != key as int implies #[trigger] map_lookup(t, k) == map_lookup(
        s,
        k,
    ) by {
        if has_key(t, k) {
            let i = choose|i: int| 0 <= i < t.len() && (#[trigger] t[i]).0 == k;
            assert(i != p);
            assert(s[i].0 == k);
            assert(has_key(s, k));
            let i2 = choose|i2: int| 0 <= i2 < s.len() && (#[trigger] s[i2]).0 == k;
            assert(i2 != p);
            assert(s[i2].0 == s[i].0);
            if i2 != i {
                if i2 < i {
                    assert(s[i2].0 < s[i].0);
                } else {
                    assert(s[i].0 < s[i2].0);
                }
            }
            assert(value_at(t, k) == t[i].1);
            assert(t[i].1 == s[i].1);
            assert(s[i].1 == value_at(s, k));
        } else {
            if has_key(s, k) {
                let i = choose|i: int| 0 <= i < s.len() && (#[trigger] s[i]).0 == k;
                assert(i != p);
                assert(t[i].0 == k);
                assert(has_key(t, k));
            }
        }
    }
}

proof fn lemma_lookup_after_insert(s: Seq<(usize, Seq<u8>)>, p: int, key: usize, v: Seq<u8>)
    requires
        sorted_keys(s),
        0 <= p <= s.len(),
        forall|i: int| 0 <= i < p ==> (#[trigger] s[i]).0 < key,
        p < s.len() ==> s[p].0 > key,
    ensures
        sorted_keys(s.take(p) + seq![(key, v)] + s.skip(p)),
        map_lookup(s.take(p) + seq![(key, v)] + s.skip(p), key as int) == Some(v),
        forall|k: int|
            k != key as int ==> #[trigger] map_lookup(s.take(p) + seq![(key, v)] + s.skip(p), k)
                == map_lookup(s, k),
{
    let t = s.take(p) + seq![(key, v)] + s.skip(p);
    assert(t.len() == s.len() + 1);
    assert forall|i: int| 0 <= i < t.len() implies (#[trigger] t[i]) == (if i < p {
        s[i]
    } else if i == p {
        (key, v)
    } else {
        s[i - 1]
    }) by {}
    assert forall|i: int, j: int| 0 <= i < j < t.len() implies (#[trigger] t[i]).0 < (
    #[trigger] t[j]).0 by {
        if i < p && j < p {
            assert(s[i].0 < s[j].0);
        } else if i < p && j == p {
            assert(s[i].0 < key);
        } else if i < p && j > p {
            if p < s.len() {
                assert(s[i].0 < key);
                assert(key < s[p].0);
                if j - 1 > p {
                    assert(s[p].0 < s[j - 1].0);
                }
            }
        } else if i == p {
            assert(key < s[p].0);
            if j - 1 > p {
                assert(s[p].0 < s[j - 1].0);
            }
        } else {
            assert(s[i - 1].0 < s[j - 1].0);
        }
    }
    assert(t[p].0 == key);
    assert(has_key(t, key as int));
    let w = choose|w: int| 0 <= w < t.len() && (#[trigger] t[w]).0 == key as int;
    if w != p {
        if w < p {
            assert(t[w].0 < t[p].0);
        } else {
            assert(t[p].0 < t[w].0);
        }
    }
    assert(value_at(t, key as int) == v);
    assert forall|k: int| k != key as int implies #[trigger] map_lookup(t, k) == map_lookup(
        s,
        k,
    ) by {
        if has_key(t, k) {
            let i = choose|i: int| 0 <= i < t.len() && (#[trigger] t[i]).0 == k;
            assert(i != p);
            let i0 = if i < p {
                i
            } else {
                i - 1
            };
            assert(s[i0].0 == k);
            assert(has_key(s, k));
            let i2 = choose|i2: int| 0 <= i2 < s.len() && (#[trigger] s[i2]).0 == k;
            if i2 != i0 {
                if i2 < i0 {
                    assert(s[i2].0 < s[i0].0);
                } else {
                    assert(s[i0].0 < s[i2].0);
                }
            }
            assert(value_at(t, k) == t[i].1);
            assert(t[i].1 == s[i0].1);
            assert(s[i0].1 == value_at(s, k));
        } else {
            if has_key(s, k) {
                let i = choose|i: int| 0 <= i < s.len() && (#[trigger] s[i]).0 == k;
                let j = if i < p {
                    i
                } else {
                    i + 1
                };
                assert(t[j].0 == k);
                assert(has_key(t, k));
            }
        }
    }
}

} // verus!

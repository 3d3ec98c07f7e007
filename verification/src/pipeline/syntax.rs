//! A syntax tree held as plain values: node kinds, field names and character spans.
use vstd::prelude::*;
use crate::ir::opt_view;
use crate::text::{chars_of, seq_eq, slice_vec};

verus! {

/// One node of a concrete syntax tree.
#[derive(Debug)]
pub struct SyntaxNode {
    /// Grammar kind, e.g. "class_declaration".
    pub kind: String,
    /// Field name under which the node hangs in its parent, if any.
    pub field: Option<String>,
    /// Character offset where the node starts in the source.
    pub start: usize,
    /// Character offset where the node ends in the source.
    pub end: usize,
    /// Zero-based line on which the node starts.
    pub row: usize,
    /// The node is a syntax error.
    pub is_error: bool,
    /// The node was inserted by error recovery.
    pub is_missing: bool,
    /// The node is or contains a syntax error.
    pub has_error: bool,
    /// Child nodes in source order.
    pub children: Vec<SyntaxNode>,
}

/// Characters `a..b` of `src`, clamped to the source (empty when `b <= a`).
pub open spec fn span_of(src: Seq<char>, a: int, b: int) -> Seq<char> {
    let lo = if a < src.len() {
        a
    } else {
        src.len() as int
    };
    let hi = if b < src.len() {
        b
    } else {
        src.len() as int
    };
    if hi <= lo || lo < 0 {
        Seq::empty()
    } else {
        src.subrange(lo, hi)
    }
}

/// The source text of a node.
pub open spec fn text_of(src: Seq<char>, n: SyntaxNode) -> Seq<char> {
    span_of(src, n.start as int, n.end as int)
}

/// Index of the first child hanging under field `f`.
pub open spec fn field_index_from(cs: Seq<SyntaxNode>, f: Seq<char>, i: int) -> Option<int>
    decreases cs.len() - i,
{
    if i < 0 || i >= cs.len() {
        None
    } else if opt_view(cs[i].field) == Some(f) {
        Some(i)
    } else {
        field_index_from(cs, f, i + 1)
    }
}

/// The first child of `n` hanging under field `f` (like `child_by_field_name`).
pub open spec fn field_child(n: SyntaxNode, f: Seq<char>) -> Option<SyntaxNode> {
    match field_index_from(n.children@, f, 0) {
        Some(i) => Some(n.children@[i]),
        None => None,
    }
}

pub proof fn lemma_field_index_bounds(cs: Seq<SyntaxNode>, f: Seq<char>, i: int)
    ensures
        field_index_from(cs, f, i) matches Some(j) ==> 0 <= i <= j < cs.len(),
    decreases cs.len() - i,
{
    if 0 <= i < cs.len() && opt_view(cs[i].field) != Some(f) {
        lemma_field_index_bounds(cs, f, i + 1);
    }
}

/// The characters `a..b` of `src`, clamped like `span_of`.
pub fn span_exec(src: &Vec<char>, a: usize, b: usize) -> (r: Vec<char>)
    ensures
        r@ == span_of(src@, a as int, b as int),
{
    let lo = if a < src.len() {
        a
    } else {
        src.len()
    };
    let hi = if b < src.len() {
        b
    } else {
        src.len()
    };
    if hi <= lo {
        Vec::new()
    } else {
        slice_vec(src, lo, hi)
    }
}

/// The source text of a node.
pub fn text_exec(src: &Vec<char>, n: &SyntaxNode) -> (r: Vec<char>)
    ensures
        r@ == text_of(src@, *n),
{
    span_exec(src, n.start, n.end)
}

/// Whether the node's kind is `k`.
pub fn kind_is(n: &SyntaxNode, k: &str) -> (r: bool)
    ensures
        r == (n.kind@ == k@),
{
    crate::text::str_eq(n.kind.as_str(), k)
}

/// Index of the first child of `n` hanging under field `f`.
pub fn field_child_exec(n: &SyntaxNode, f: &str) -> (r: Option<usize>)
    ensures
        r matches Some(i) ==> i < n.children@.len() && field_child(*n, f@) == Some(n.children@[i as int]),
        r is None ==> field_child(*n, f@) is None,
{
    let fv = chars_of(f);
    let mut i: usize = 0;
    while i < n.children.len()
        invariant
            i <= n.children.len(),
            fv@ == f@,
            field_index_from(n.children@, f@, 0) == field_index_from(n.children@, f@, i as int),
        decreases n.children.len() - i,
    {
        let c = &n.children[i];
        let hit = match &c.field {
            Some(name) => {
                let nv = chars_of(name.as_str());
                seq_eq(&nv, &fv)
            },
            None => false,
        };
        if hit {
            return Some(i);
        }
        i = i + 1;
    }
    None
}

} // verus!

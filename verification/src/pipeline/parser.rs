//! Parsing of Dart source into a syntax tree, through tree-sitter and its Dart grammar.
use vstd::prelude::*;
use crate::pipeline::syntax::SyntaxNode;
use crate::text::{chars_of, decimal, decimal_exec, owned};

verus! {

// ───────────────────────────── tree-sitter ─────────────────────────────

#[verifier::external_type_specification]
#[verifier::external_body]
pub struct ExNode<'tree>(tree_sitter::Node<'tree>);

/// The syntax tree that tree-sitter's Dart grammar gives for `source`, node for
/// node, with byte offsets; `None` when the grammar cannot be loaded or the parser
/// returns no tree.
pub uninterp spec fn dart_parse(source: Seq<char>) -> Option<SyntaxNode>;

/// Creates a `tree_sitter::Parser`, sets the language `tree_sitter_dart::LANGUAGE`
/// and calls `Parser::parse`; on success converts the root node node for node.
/// Claims only that the result is the named parse of the source.
#[verifier::external_body]
fn parse_dart(source: &str) -> (r: Option<SyntaxNode>)
    ensures
        r == dart_parse(source@),
{
    let mut parser = tree_sitter::Parser::new();
    if parser.set_language(&tree_sitter_dart::LANGUAGE.into()).is_err() {
        return None;
    }
    match parser.parse(source, None) {
        Some(tree) => Some(raw_node(&tree.root_node(), None)),
        None => None,
    }
}

/// Copies a tree-sitter node and its descendants node for node: kind, the field name
/// under which it hangs, byte range, start row and error flags.
#[verifier::external_body]
fn raw_node(n: &tree_sitter::Node, field: Option<String>) -> SyntaxNode {
    let children = (0..n.child_count())
        .filter_map(|i| n.child(i).map(|c| raw_node(&c, n.field_name_for_child(i).map(|f| f.to_string()))))
        .collect();
    SyntaxNode {
        kind: n.kind().to_string(),
        field,
        start: n.start_byte(),
        end: n.end_byte(),
        row: n.start_position().row,
        is_error: n.is_error(),
        is_missing: n.is_missing(),
        has_error: n.has_error(),
        children,
    }
}

// ───────────────────────────── byte and character offsets ─────────────────────────────

/// Number of bytes of the UTF-8 encoding of `c` (as `char::len_utf8` documents it).
pub open spec fn utf8_width(c: char) -> int {
    if (c as u32) < 0x80 {
        1
    } else if (c as u32) < 0x800 {
        2
    } else if (c as u32) < 0x10000 {
        3
    } else {
        4
    }
}

/// Number of UTF-8 bytes of the first `n` characters of `s`.
pub open spec fn byte_len(s: Seq<char>, n: int) -> int
    decreases n,
{
    if n <= 0 {
        0
    } else {
        byte_len(s, n - 1) + utf8_width(s[n - 1])
    }
}

/// For each byte offset of the UTF-8 encoding of `s`, the index of the character it
/// belongs to.
pub fn char_index_table(s: &Vec<char>) -> (r: Vec<usize>)
    ensures
        r@.len() == byte_len(s@, s@.len() as int),
        forall|i: int, b: int|
            #![trigger r@[b], byte_len(s@, i)]
            0 <= i < s@.len() && byte_len(s@, i) <= b < byte_len(s@, i + 1) ==> r@[b] == i,
        forall|b: int| 0 <= b < r@.len() ==> #[trigger] r@[b] < s@.len(),
        forall|b: int|
            0 <= b < r@.len() ==> byte_len(s@, #[trigger] r@[b] as int) <= b < byte_len(s@, r@[b] + 1),
{
    let mut table: Vec<usize> = Vec::new();
    let mut i: usize = 0;
    while i < s.len()
        invariant
            i <= s.len(),
            table@.len() == byte_len(s@, i as int),
            forall|j: int, b: int|
                #![trigger table@[b], byte_len(s@, j)]
                0 <= j < i && byte_len(s@, j) <= b < byte_len(s@, j + 1) ==> table@[b] == j,
            forall|b: int| 0 <= b < table@.len() ==> #[trigger] table@[b] < i,
            forall|b: int|
                0 <= b < table@.len() ==> byte_len(s@, #[trigger] table@[b] as int) <= b < byte_len(s@, table@[b] + 1),
        decreases s.len() - i,
    {
        let c = s[i];
        let w: usize = if (c as u32) < 0x80 {
            1
        } else if (c as u32) < 0x800 {
            2
        } else if (c as u32) < 0x10000 {
            3
        } else {
            4
        };
        assert(w == utf8_width(s@[i as int]));
        let ghost start = table@.len();
        let mut k: usize = 0;
        while k < w
            invariant
                k <= w,
                i < s.len(),
                table@.len() == start + k,
                start == byte_len(s@, i as int),
                forall|j: int, b: int|
                    #![trigger table@[b], byte_len(s@, j)]
                    0 <= j < i && byte_len(s@, j) <= b < byte_len(s@, j + 1) ==> table@[b] == j,
                forall|b: int| start <= b < table@.len() ==> #[trigger] table@[b] == i,
                forall|b: int| 0 <= b < start ==> #[trigger] table@[b] < i,
                forall|b: int|
                    0 <= b < table@.len() ==> byte_len(s@, #[trigger] table@[b] as int) <= b < byte_len(
                        s@,
                        table@[b] + 1,
                    ),
                byte_len(s@, i + 1) == start + w,
            decreases w - k,
        {
            let ghost before = table@;
            table.push(i);
            proof {
                assert forall|j: int, b: int|
                    #![trigger table@[b], byte_len(s@, j)]
                    0 <= j < i && byte_len(s@, j) <= b < byte_len(s@, j + 1) implies table@[b] == j by {
                    lemma_byte_len_monotone(s@, j + 1, i as int);
                    lemma_byte_len_monotone(s@, 0, j);
                    assert(0 <= b < start);
                    assert(b < before.len());
                    assert(table@[b] == before[b]);
                }
            }
            k = k + 1;
        }
        proof {
            assert forall|j: int, b: int|
                #![trigger table@[b], byte_len(s@, j)]
                0 <= j < i + 1 && byte_len(s@, j) <= b < byte_len(s@, j + 1) implies table@[b] == j by {
                lemma_byte_len_monotone(s@, 0, j);
                if j < i {
                    lemma_byte_len_monotone(s@, j + 1, i as int);
                } else {
                    assert(b >= start);
                }
            }
            assert forall|b: int| 0 <= b < table@.len() implies #[trigger] table@[b] < i + 1 by {
                if b >= start {
                    assert(table@[b] == i);
                }
            }
        }
        i = i + 1;
    }
    table
}

/// `byte_len` grows with the number of characters.
proof fn lemma_byte_len_monotone(s: Seq<char>, m: int, n: int)
    requires
        0 <= m <= n <= s.len(),
    ensures
        byte_len(s, m) <= byte_len(s, n),
    decreases n - m,
{
    if m < n {
        lemma_byte_len_monotone(s, m, n - 1);
    }
}

/// Index of the character whose UTF-8 encoding holds byte `b` of `src`, looking from
/// character `i` on; the length of `src` for a byte past its end.
pub open spec fn char_of_byte_from(src: Seq<char>, b: int, i: int) -> int
    decreases src.len() - i,
{
    if i < 0 || i >= src.len() {
        src.len() as int
    } else if b < byte_len(src, i + 1) {
        i
    } else {
        char_of_byte_from(src, b, i + 1)
    }
}

/// Index of the character whose UTF-8 encoding holds byte `b` of `src`, or the
/// length of `src` for a byte past its end.
pub open spec fn char_of_byte(src: Seq<char>, b: int) -> int {
    char_of_byte_from(src, b, 0)
}

/// Byte `b` within the encoding of character `k` belongs to character `k`.
proof fn lemma_char_of_byte_within(src: Seq<char>, b: int, i: int, k: int)
    requires
        0 <= i <= k < src.len(),
        byte_len(src, k) <= b < byte_len(src, k + 1),
    ensures
        char_of_byte_from(src, b, i) == k,
    decreases k - i,
{
    if i < k {
        lemma_byte_len_monotone(src, i + 1, k);
        lemma_char_of_byte_within(src, b, i + 1, k);
    }
}

/// A byte past the encoding of `src` belongs to no character.
proof fn lemma_char_of_byte_past(src: Seq<char>, b: int, i: int)
    requires
        0 <= i <= src.len(),
        b >= byte_len(src, src.len() as int),
    ensures
        char_of_byte_from(src, b, i) == src.len(),
    decreases src.len() - i,
{
    if i < src.len() {
        lemma_byte_len_monotone(src, i + 1, src.len() as int);
        lemma_char_of_byte_past(src, b, i + 1);
    }
}

/// `a` is the node `t` of a byte-offset tree with its offsets turned into character
/// offsets of `src`, and so are all their descendants.
pub open spec fn converted(a: SyntaxNode, t: SyntaxNode, src: Seq<char>) -> bool
    decreases t, 1int, 0int,
{
    &&& a.kind == t.kind
    &&& a.field == t.field
    &&& a.row == t.row
    &&& a.is_error == t.is_error
    &&& a.is_missing == t.is_missing
    &&& a.has_error == t.has_error
    &&& a.start as int == char_of_byte(src, t.start as int)
    &&& a.end as int == char_of_byte(src, t.end as int)
    &&& a.children@.len() == t.children@.len()
    &&& converted_from(a, t, src, 0)
}

/// `converted` for the children of `a` and `t` from index `i` on.
pub open spec fn converted_from(a: SyntaxNode, t: SyntaxNode, src: Seq<char>, i: int) -> bool
    decreases t, 0int, t.children@.len() - i,
{
    if i < 0 || i >= t.children@.len() {
        true
    } else {
        &&& i < a.children@.len()
        &&& converted(a.children@[i], t.children@[i], src)
        &&& converted_from(a, t, src, i + 1)
    }
}

/// Children converted one by one are converted from index `i` on.
proof fn lemma_converted_from(a: SyntaxNode, t: SyntaxNode, src: Seq<char>, i: int)
    requires
        0 <= i,
        a.children@.len() == t.children@.len(),
        forall|j: int| i <= j < t.children@.len() ==> converted(#[trigger] a.children@[j], t.children@[j], src),
    ensures
        converted_from(a, t, src, i),
    decreases t.children@.len() - i,
{
    if i < t.children@.len() {
        lemma_converted_from(a, t, src, i + 1);
    }
}

/// Conversion keeps the error flags and rows, hence the first error row.
proof fn lemma_converted_errors(a: SyntaxNode, t: SyntaxNode, src: Seq<char>)
    requires
        converted(a, t, src),
    ensures
        first_error_row(a) == first_error_row(t),
    decreases t, 1int, 0int,
{
    lemma_converted_errors_from(a, t, src, 0);
}

/// `lemma_converted_errors` for the children from index `i` on.
proof fn lemma_converted_errors_from(a: SyntaxNode, t: SyntaxNode, src: Seq<char>, i: int)
    requires
        a.children@.len() == t.children@.len(),
        converted_from(a, t, src, i),
        0 <= i,
    ensures
        first_error_row_from(a, i) == first_error_row_from(t, i),
    decreases t, 0int, t.children@.len() - i,
{
    if i < t.children@.len() {
        assert(converted(a.children@[i], t.children@[i], src));
        assert(a.children@[i].has_error == t.children@[i].has_error);
        lemma_converted_errors(a.children@[i], t.children@[i], src);
        lemma_converted_errors_from(a, t, src, i + 1);
    }
}

/// Turns the byte offsets of a tree into character offsets of `src`, through the
/// table of `char_index_table(src)`.
fn to_char_offsets(t: SyntaxNode, table: &Vec<usize>, src: &Vec<char>) -> (r: SyntaxNode)
    requires
        table@.len() == byte_len(src@, src@.len() as int),
        forall|b: int| 0 <= b < table@.len() ==> #[trigger] table@[b] < src@.len(),
        forall|b: int|
            0 <= b < table@.len() ==> byte_len(src@, #[trigger] table@[b] as int) <= b < byte_len(src@, table@[b] + 1),
    ensures
        converted(r, t, src@),
    decreases t,
{
    let ghost t0 = t;
    let SyntaxNode { kind, field, start, end, row, is_error, is_missing, has_error, children } = t;
    let ghost cs = children@;
    let n = children.len();
    let mut rest = children;
    let mut out: Vec<SyntaxNode> = Vec::new();
    let mut k: usize = 0;
    while rest.len() > 0
        invariant
            k + rest@.len() == cs.len(),
            cs.len() == n,
            cs == t0.children@,
            t0 == t,
            rest@ == cs.skip(k as int),
            out@.len() == k,
            forall|j: int| 0 <= j < k ==> converted(#[trigger] out@[j], cs[j], src@),
            table@.len() == byte_len(src@, src@.len() as int),
            forall|b: int| 0 <= b < table@.len() ==> #[trigger] table@[b] < src@.len(),
            forall|b: int|
                0 <= b < table@.len() ==> byte_len(src@, #[trigger] table@[b] as int) <= b < byte_len(
                    src@,
                    table@[b] + 1,
                ),
        decreases rest@.len(),
    {
        let ghost before = rest@;
        let c = rest.remove(0);
        assert(c == cs[k as int]);
        assert(rest@ =~= cs.skip(k as int + 1));
        proof {
            assert(decreases_to!(t0.children@ => t0.children@[k as int]));
        }
        let rc = to_char_offsets(c, table, src);
        out.push(rc);
        k = k + 1;
    }
    let new_start = char_offset_of(table, src, start);
    let new_end = char_offset_of(table, src, end);
    let r = SyntaxNode {
        kind,
        field,
        start: new_start,
        end: new_end,
        row,
        is_error,
        is_missing,
        has_error,
        children: out,
    };
    proof {
        lemma_converted_from(r, t0, src@, 0);
    }
    r
}

/// The character offset of byte offset `b`.
fn char_offset_of(table: &Vec<usize>, src: &Vec<char>, b: usize) -> (r: usize)
    requires
        table@.len() == byte_len(src@, src@.len() as int),
        forall|k: int| 0 <= k < table@.len() ==> #[trigger] table@[k] < src@.len(),
        forall|k: int|
            0 <= k < table@.len() ==> byte_len(src@, #[trigger] table@[k] as int) <= k < byte_len(src@, table@[k] + 1),
    ensures
        r as int == char_of_byte(src@, b as int),
{
    if b < table.len() {
        proof {
            lemma_char_of_byte_within(src@, b as int, 0, table@[b as int] as int);
        }
        table[b]
    } else {
        proof {
            lemma_char_of_byte_past(src@, b as int, 0);
        }
        src.len()
    }
}

// ───────────────────────────── syntax errors ─────────────────────────────

/// Errors that can occur during parsing.
#[derive(Debug)]
pub enum ParseError {
    /// The file could not be read; holds the reason.
    Io(String),
    /// A syntax error was detected in the Dart code.
    SyntaxError { path: String, line: usize, message: String },
    /// The Dart grammar could not be loaded or the parser produced no tree.
    LanguageError,
}

/// The text shown for a parse error.
pub open spec fn parse_error_text(e: ParseError) -> Seq<char> {
    match e {
        ParseError::Io(m) => "IO error: "@ + m@,
        ParseError::SyntaxError { path, line, message } => "Parse error in "@ + path@ + " at line "@ + decimal(
            line as nat,
        ) + ": "@ + message@,
        ParseError::LanguageError => "Failed to initialize Dart parser."@,
    }
}

impl ParseError {
    /// The text shown for the error.
    pub fn describe(&self) -> (r: String)
        ensures
            r@ == parse_error_text(*self),
    {
        match self {
            ParseError::Io(m) => {
                let mut s = owned("IO error: ");
                s.append(m.as_str());
                s
            },
            ParseError::SyntaxError { path, line, message } => {
                let mut s = owned("Parse error in ");
                s.append(path.as_str());
                s.append(" at line ");
                let digits = decimal_exec(*line as u128);
                s.append(digits.as_str());
                s.append(": ");
                s.append(message.as_str());
                s
            },
            ParseError::LanguageError => owned("Failed to initialize Dart parser."),
        }
    }
}

/// Row of the first error node found in pre-order, descending only into children
/// that contain an error.
pub open spec fn first_error_row(n: SyntaxNode) -> Option<usize>
    decreases n, 1int, 0int,
{
    if n.is_error || n.is_missing {
        Some(n.row)
    } else {
        first_error_row_from(n, 0)
    }
}

/// `first_error_row` over the children of `n` from index `i` on.
pub open spec fn first_error_row_from(n: SyntaxNode, i: int) -> Option<usize>
    decreases n, 0int, n.children@.len() - i,
{
    if i < 0 || i >= n.children@.len() {
        None
    } else if n.children@[i].has_error {
        match first_error_row(n.children@[i]) {
            Some(r) => Some(r),
            None => first_error_row_from(n, i + 1),
        }
    } else {
        first_error_row_from(n, i + 1)
    }
}

/// Row of the first syntax error under `node`.
pub fn find_first_error(node: &SyntaxNode) -> (r: Option<usize>)
    ensures
        r == first_error_row(*node),
    decreases *node,
{
    if node.is_error || node.is_missing {
        return Some(node.row);
    }
    let mut i: usize = 0;
    while i < node.children.len()
        invariant
            i <= node.children.len(),
            !(node.is_error || node.is_missing),
            first_error_row(*node) == first_error_row_from(*node, i as int),
        decreases node.children.len() - i,
    {
        if node.children[i].has_error {
            match find_first_error(&node.children[i]) {
                Some(r) => {
                    return Some(r);
                },
                None => {},
            }
        }
        i = i + 1;
    }
    None
}

/// Line reported for an error row (rows count from zero, lines from one).
pub open spec fn line_of_row(row: usize) -> usize {
    if row < usize::MAX {
        (row + 1) as usize
    } else {
        row
    }
}

/// What becomes of a parsed tree: a syntax error at the line of the first error
/// node when the root reports an error and one is found, else the parsed file.
pub open spec fn checked_outcome(path: Seq<char>, tree: SyntaxNode) -> Option<usize> {
    if tree.has_error {
        match first_error_row(tree) {
            Some(row) => Some(line_of_row(row)),
            None => None,
        }
    } else {
        None
    }
}

/// Turns a syntax tree into a parsed file, or into the syntax error it holds.
pub fn check_syntax(path: &str, tree: SyntaxNode, source: String) -> (r: Result<ParsedFile, ParseError>)
    ensures
        checked_outcome(path@, tree) matches Some(line) ==> (r matches Err(
            ParseError::SyntaxError { path: p, line: l, message: m },
        ) && p@ == path@ && l == line && m@ == "Syntax error"@),
        checked_outcome(path@, tree) is None ==> (r matches Ok(f) && f.path@ == path@ && f.tree == tree && f.source
            == source),
{
    if tree.has_error {
        match find_first_error(&tree) {
            Some(row) => {
                let line = if row < usize::MAX {
                    row + 1
                } else {
                    row
                };
                return Err(ParseError::SyntaxError { path: owned(path), line, message: owned("Syntax error") });
            },
            None => {},
        }
    }
    Ok(ParsedFile { path: owned(path), tree, source })
}

/// Parses Dart source text into a parsed file: the tree that the Dart grammar gives,
/// with character offsets, unless it holds a syntax error.
pub fn parse_source(path: &str, source: String) -> (r: Result<ParsedFile, ParseError>)
    ensures
        dart_parse(source@) is None ==> r matches Err(ParseError::LanguageError),
        dart_parse(source@) matches Some(t) ==> (checked_outcome(path@, t) matches Some(line) ==> (r matches Err(
            ParseError::SyntaxError { path: p, line: l, message: m },
        ) && p@ == path@ && l == line && m@ == "Syntax error"@)),
        dart_parse(source@) matches Some(t) ==> (checked_outcome(path@, t) is None ==> (r matches Ok(f) && f.path@
            == path@ && f.source == source && converted(f.tree, t, source@))),
{
    match parse_dart(source.as_str()) {
        None => Err(ParseError::LanguageError),
        Some(raw) => {
            let ghost t = raw;
            let chars = chars_of(source.as_str());
            let table = char_index_table(&chars);
            let model = to_char_offsets(raw, &table, &chars);
            proof {
                lemma_converted_errors(model, t, chars@);
            }
            check_syntax(path, model, source)
        },
    }
}

/// A parsed Dart file.
#[derive(Debug)]
pub struct ParsedFile {
    /// Path of the source file.
    pub path: String,
    /// The syntax tree.
    pub tree: SyntaxNode,
    /// The full source code.
    pub source: String,
}

} // verus!

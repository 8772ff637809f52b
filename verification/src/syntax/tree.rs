//! Parsed Rust sources as plain values.

use tree_sitter::StreamingIterator;
use vstd::prelude::*;

use crate::bytes;
use crate::syntax::language;
use crate::syntax::language::Language;
use crate::text;

verus! {

/// A parsed source, opaque here.
#[verifier::external_type_specification]
#[verifier::external_body]
pub struct ExTree(tree_sitter::Tree);

/// Why a source could not be analysed.
#[derive(Debug, Clone, Copy, PartialEq, Eq, Structural)]
pub enum SyntaxFailure {
    /// The Rust grammar could not be loaded.
    Grammar,
    /// The parser gave no tree.
    Parse,
    /// A query could not be compiled.
    Query,
}

/// One node of a syntax tree.
#[derive(Debug, Clone)]
pub struct SyntaxNode {
    /// Grammar rule of the node.
    pub kind: String,
    /// Field of the parent that the node fills, if any.
    pub field: Option<String>,
    /// Whether the node is named in the grammar, rather than a literal token.
    pub named: bool,
    /// Number of ancestors.
    pub depth: usize,
    /// Index of the first source byte.
    pub start_byte: usize,
    /// Index past the last source byte.
    pub end_byte: usize,
    /// Zero-based row of the first source byte.
    pub start_row: usize,
    /// Zero-based row of the end.
    pub end_row: usize,
}

/// What a [`SyntaxNode`] holds.
pub ghost struct NodeView {
    pub kind: Seq<char>,
    pub field: Option<Seq<char>>,
    pub named: bool,
    pub depth: usize,
    pub start_byte: usize,
    pub end_byte: usize,
    pub start_row: usize,
    pub end_row: usize,
}

/// A node that a query captured under a name.
#[derive(Debug, Clone)]
pub struct Capture {
    /// Capture name in the query.
    pub name: String,
    /// Grammar rule of the captured node.
    pub kind: String,
    /// Index of the first source byte.
    pub start_byte: usize,
    /// Index past the last source byte.
    pub end_byte: usize,
}

/// What a [`Capture`] holds.
pub ghost struct CaptureView {
    pub name: Seq<char>,
    pub kind: Seq<char>,
    pub start_byte: usize,
    pub end_byte: usize,
}

impl View for SyntaxNode {
    type V = NodeView;

    open spec fn view(&self) -> NodeView {
        NodeView {
            kind: self.kind@,
            field: text::optional_text(self.field),
            named: self.named,
            depth: self.depth,
            start_byte: self.start_byte,
            end_byte: self.end_byte,
            start_row: self.start_row,
            end_row: self.end_row,
        }
    }
}

impl View for Capture {
    type V = CaptureView;

    open spec fn view(&self) -> CaptureView {
        CaptureView {
            name: self.name@,
            kind: self.kind@,
            start_byte: self.start_byte,
            end_byte: self.end_byte,
        }
    }
}

/// What a sequence of nodes holds.
pub open spec fn node_views(nodes: Seq<SyntaxNode>) -> Seq<NodeView> {
    nodes.map_values(|node: SyntaxNode| node@)
}

/// What the captures of one match hold.
pub open spec fn capture_views(captures: Seq<Capture>) -> Seq<CaptureView> {
    captures.map_values(|capture: Capture| capture@)
}

/// What the captures of all matches hold.
pub open spec fn match_views(matches: Seq<Vec<Capture>>) -> Seq<Seq<CaptureView>> {
    matches.map_values(|captures: Vec<Capture>| capture_views(captures@))
}

/// The query for direct calls of free functions and associated functions.
pub const CALL_QUERY: &'static str = "(call_expression function: (identifier) @function) @call\n(call_expression function: (scoped_identifier path: (identifier) @type name: (identifier) @method)) @call";

/// A query on Rust sources.
#[derive(Debug, Clone, Copy, PartialEq, Eq, Structural)]
pub enum RustQuery {
    /// The tag query that comes with the grammar.
    Tags,
    /// [`CALL_QUERY`].
    Calls,
}

/// The characters of a query that does not come with the grammar.
pub open spec fn query_text(query: RustQuery) -> Option<Seq<char>> {
    match query {
        RustQuery::Tags => None,
        RustQuery::Calls => Some(CALL_QUERY@),
    }
}

/// The source that a tree was parsed from.
pub uninterp spec fn parsed_source(tree: tree_sitter::Tree) -> Seq<u8>;

/// Why parsing a source as Rust gives no tree, if it does not.
pub uninterp spec fn parse_failure(source: Seq<u8>) -> Option<SyntaxFailure>;

/// The nodes of the tree that a source parses to as Rust, each before its children.
pub uninterp spec fn rust_nodes(source: Seq<u8>) -> Seq<NodeView>;

/// The matches of a query on the tree that a source parses to as Rust, in the order in which they
/// are found; `None` where the query does not compile. No query text stands for the tag query
/// that comes with the grammar.
pub uninterp spec fn rust_matches(source: Seq<u8>, query: Option<Seq<char>>) -> Option<
    Seq<Seq<CaptureView>>,
>;

/// [`tree_sitter::Parser::parse`] with the grammar of Rust: the tree of these bytes, or the call
/// that failed. Which of the two comes back depends on the bytes alone.
#[verifier::external_body]
fn parse_rust(grammar: &tree_sitter::Language, source: &[u8]) -> (result: Result<
    tree_sitter::Tree,
    SyntaxFailure,
>)
    requires
        *grammar == language::grammar(Language::Rust),
    ensures
        match result {
            Ok(tree) => parse_failure(source@) is None && parsed_source(tree) == source@,
            Err(failure) => parse_failure(source@) == Some(failure),
        },
{
    let mut parser = tree_sitter::Parser::new();
    if parser.set_language(grammar).is_err() {
        return Err(SyntaxFailure::Grammar);
    }
    parser.parse(source, None).ok_or(SyntaxFailure::Parse)
}

/// [`tree_sitter::Tree::walk`] visits every node of the tree, each before its children; what a
/// node is depends on the parsed source alone.
#[verifier::external_body]
fn tree_nodes(tree: &tree_sitter::Tree) -> (result: Vec<SyntaxNode>)
    ensures
        node_views(result@) == rust_nodes(parsed_source(*tree)),
{
    let mut cursor = tree.walk();
    let mut nodes = Vec::new();
    for index in 0..tree.root_node().descendant_count() {
        cursor.goto_descendant(index);
        let (node, depth) = (cursor.node(), cursor.depth() as usize);
        let (kind, named) = (node.kind().to_owned(), node.is_named());
        let field = cursor.field_name().map(str::to_owned);
        let (start_byte, end_byte) = (node.start_byte(), node.end_byte());
        let (start_row, end_row) = (node.start_position().row, node.end_position().row);
        let node = SyntaxNode { kind, field, named, depth, start_byte, end_byte, start_row, end_row };
        nodes.push(node);
    }
    nodes
}

/// The characters of an optional query.
pub open spec fn given_text(query: Option<&str>) -> Option<Seq<char>> {
    match query {
        Some(text) => Some(text@),
        None => None,
    }
}

/// [`tree_sitter::QueryCursor::matches`] on the whole tree, with [`CALL_QUERY`] or the tag query of
/// `tree_sitter_rust`: what matches depends on the source and the query alone. Other texts are not
/// handed over: compiling a query takes stack for every bracket that is open.
#[verifier::external_body]
fn tree_matches(
    grammar: &tree_sitter::Language,
    tree: &tree_sitter::Tree,
    source: &[u8],
    query: Option<&str>,
) -> (result: Option<Vec<Vec<Capture>>>)
    requires
        *grammar == language::grammar(Language::Rust),
        parsed_source(*tree) == source@,
        query matches Some(text) ==> text@ == CALL_QUERY@,
    ensures
        match result {
            Some(found) => rust_matches(source@, given_text(query)) == Some(match_views(found@)),
            None => rust_matches(source@, given_text(query)) is None,
        },
{
    let text = query.unwrap_or(tree_sitter_rust::TAGS_QUERY);
    let query = tree_sitter::Query::new(grammar, text).ok()?;
    let mut cursor = tree_sitter::QueryCursor::new();
    let mut matches = cursor.matches(&query, tree.root_node(), source);
    let mut found = Vec::new();
    while let Some(item) = matches.next() {
        found.push(item.captures().iter().map(|capture| Capture {
            name: query.capture_names()[capture.index as usize].to_owned(),
            kind: capture.node.kind().to_owned(),
            start_byte: capture.node.start_byte(),
            end_byte: capture.node.end_byte(),
        }).collect());
    }
    Some(found)
}

/// The nearest node at or before `at` that is less deep than node `index`.
pub open spec fn shallower(nodes: Seq<NodeView>, index: int, at: int) -> Option<int>
    decreases at + 1,
{
    if at < 0 || at >= nodes.len() {
        None
    } else if nodes[at].depth < nodes[index].depth {
        Some(at)
    } else {
        shallower(nodes, index, at - 1)
    }
}

/// The parent of a node: the nearest earlier node that is less deep.
pub open spec fn parent(nodes: Seq<NodeView>, index: int) -> Option<int> {
    shallower(nodes, index, index - 1)
}

/// The first child of `of` at or after `at` that fills `field`.
pub open spec fn field_child_from(
    nodes: Seq<NodeView>,
    of: int,
    field: Seq<char>,
    at: int,
) -> Option<int>
    decreases nodes.len() - at,
{
    if at >= nodes.len() {
        None
    } else if parent(nodes, at) == Some(of) && nodes[at].field == Some(field) {
        Some(at)
    } else {
        field_child_from(nodes, of, field, at + 1)
    }
}

/// The first child of a node that fills `field`.
pub open spec fn field_child(nodes: Seq<NodeView>, of: int, field: Seq<char>) -> Option<int> {
    field_child_from(nodes, of, field, of + 1)
}

/// The nearest named child of `of` at or before `at`.
pub open spec fn named_child_up_to(nodes: Seq<NodeView>, of: int, at: int) -> Option<int>
    decreases at - of,
{
    if at <= of {
        None
    } else if parent(nodes, at) == Some(of) && nodes[at].named {
        Some(at)
    } else {
        named_child_up_to(nodes, of, at - 1)
    }
}

/// The nearest named sibling before a node.
pub open spec fn previous_named(nodes: Seq<NodeView>, index: int) -> Option<int> {
    match parent(nodes, index) {
        Some(of) => named_child_up_to(nodes, of, index - 1),
        None => None,
    }
}

/// The first node at or after `at` with the kind and the bytes of a capture.
pub open spec fn located_from(nodes: Seq<NodeView>, capture: CaptureView, at: int) -> Option<int>
    decreases nodes.len() - at,
{
    if at >= nodes.len() {
        None
    } else if nodes[at].start_byte == capture.start_byte && nodes[at].end_byte == capture.end_byte
        && nodes[at].kind == capture.kind {
        Some(at)
    } else {
        located_from(nodes, capture, at + 1)
    }
}

/// The node that a capture captured.
pub open spec fn located(nodes: Seq<NodeView>, capture: CaptureView) -> Option<int> {
    located_from(nodes, capture, 0)
}

/// The source bytes in a range, where the source has them.
pub open spec fn source_range(source: Seq<u8>, start: int, end: int) -> Option<Seq<u8>> {
    if 0 <= start <= end <= source.len() {
        Some(source.subrange(start, end))
    } else {
        None
    }
}

/// The source text in a range, where it is UTF-8.
pub open spec fn range_text(source: Seq<u8>, start: int, end: int) -> Option<Seq<char>> {
    match source_range(source, start, end) {
        Some(bytes) => if vstd::utf8::valid_utf8(bytes) {
            Some(vstd::utf8::decode_utf8(bytes))
        } else {
            None
        },
        None => None,
    }
}

/// The source text of a node, where it is UTF-8.
pub open spec fn node_text(nodes: Seq<NodeView>, source: Seq<u8>, index: int) -> Option<Seq<char>> {
    range_text(source, nodes[index].start_byte as int, nodes[index].end_byte as int)
}

/// A shallower node is less deep and stands no later than where it is sought.
pub proof fn lemma_shallower(nodes: Seq<NodeView>, index: int, at: int)
    requires
        at < nodes.len(),
    ensures
        match shallower(nodes, index, at) {
            Some(found) => 0 <= found <= at && nodes[found].depth < nodes[index].depth && (
            forall|j: int| found < j <= at ==> nodes[j].depth >= nodes[index].depth),
            None => forall|j: int| 0 <= j <= at ==> nodes[j].depth >= nodes[index].depth,
        },
    decreases at + 1,
{
    if at >= 0 && nodes[at].depth >= nodes[index].depth {
        lemma_shallower(nodes, index, at - 1);
    }
}

/// `shallower` skips nodes that are at least as deep.
proof fn lemma_shallower_skip(nodes: Seq<NodeView>, index: int, from: int, to: int)
    requires
        -1 <= to <= from < nodes.len(),
        forall|j: int| to < j <= from ==> nodes[j].depth >= nodes[index].depth,
    ensures
        shallower(nodes, index, from) == shallower(nodes, index, to),
    decreases from - to,
{
    if to < from {
        lemma_shallower_skip(nodes, index, from - 1, to);
    }
}

/// Nodes of a parsed source with the parent of each.
pub struct SyntaxTree {
    nodes: Vec<SyntaxNode>,
    parents: Vec<Option<usize>>,
}

/// An optional index as a number.
pub open spec fn optional_index(value: Option<usize>) -> Option<int> {
    match value {
        Some(index) => Some(index as int),
        None => None,
    }
}

impl View for SyntaxTree {
    type V = Seq<NodeView>;

    closed spec fn view(&self) -> Seq<NodeView> {
        node_views(self.nodes@)
    }
}

impl SyntaxTree {
    #[verifier::type_invariant]
    closed spec fn parents_are_known(self) -> bool {
        &&& self.parents@.len() == self.nodes@.len()
        &&& forall|i: int|
            0 <= i < self.nodes@.len() ==> optional_index(#[trigger] self.parents@[i]) == parent(
                node_views(self.nodes@),
                i,
            )
    }

    /// The tree with the given nodes, each before its children.
    pub fn new(nodes: Vec<SyntaxNode>) -> (tree: SyntaxTree)
        ensures
            tree@ == node_views(nodes@),
    {
        let mut parents: Vec<Option<usize>> = Vec::new();
        let ghost views = node_views(nodes@);
        for index in 0..nodes.len()
            invariant
                views == node_views(nodes@),
                parents@.len() == index,
                forall|i: int| 0 <= i < index ==> optional_index(#[trigger] parents@[i]) == parent(
                    views,
                    i,
                ),
        {
            let depth = nodes[index].depth;
            let mut candidate: Option<usize> = if index == 0 {
                None
            } else {
                Some(index - 1)
            };
            let mut searching: bool = true;
            while searching
                invariant
                    views == node_views(nodes@),
                    index < nodes@.len(),
                    depth == views[index as int].depth,
                    parents@.len() == index,
                    forall|i: int|
                        0 <= i < index ==> optional_index(#[trigger] parents@[i]) == parent(views, i),
                    candidate matches Some(at) ==> at < index && shallower(views, index as int, at as int)
                        == parent(views, index as int),
                    candidate is None ==> parent(views, index as int) is None,
                    !searching ==> optional_index(candidate) == parent(views, index as int),
                decreases
                        (match candidate {
                            Some(at) => at + 1,
                            None => 0int,
                        }) + (if searching {
                            1int
                        } else {
                            0int
                        }),
            {
                match candidate {
                    Some(at) => {
                        assert(views[at as int].depth == nodes@[at as int].depth);
                        if nodes[at].depth < depth {
                            searching = false;
                        } else {
                            proof {
                                lemma_shallower(views, at as int, at - 1);
                                let skipped = parent(views, at as int);
                                assert(optional_index(parents@[at as int]) == skipped);
                                lemma_shallower_skip(
                                    views,
                                    index as int,
                                    at as int,
                                    match skipped {
                                        Some(next) => next,
                                        None => -1,
                                    },
                                );
                            }
                            candidate = parents[at];
                        }
                    },
                    None => {
                        searching = false;
                    },
                }
            }
            parents.push(candidate);
        }
        SyntaxTree { nodes, parents }
    }

    /// Number of nodes.
    pub fn len(&self) -> (len: usize)
        ensures
            len == self@.len(),
    {
        self.nodes.len()
    }

    /// The node with the given index.
    pub fn node(&self, index: usize) -> (node: &SyntaxNode)
        requires
            index < self@.len(),
        ensures
            node@ == self@[index as int],
    {
        &self.nodes[index]
    }

    /// The parent of a node.
    pub fn parent(&self, index: usize) -> (result: Option<usize>)
        requires
            index < self@.len(),
        ensures
            optional_index(result) == parent(self@, index as int),
            result matches Some(found) ==> found < index,
    {
        proof {
            use_type_invariant(&*self);
            lemma_shallower(self@, index as int, index - 1);
        }
        self.parents[index]
    }

    /// The first child of a node that fills `field`.
    pub fn field_child(&self, of: usize, field: &str) -> (result: Option<usize>)
        requires
            of < self@.len(),
        ensures
            optional_index(result) == field_child(self@, of as int, field@),
            result matches Some(found) ==> of < found < self@.len(),
    {
        proof {
            use_type_invariant(&*self);
        }
        for at in of + 1..self.nodes.len()
            invariant
                self.parents_are_known(),
                of < self@.len(),
                field_child_from(self@, of as int, field@, at as int) == field_child(
                    self@,
                    of as int,
                    field@,
                ),
        {
            assert(self@[at as int] == self.nodes@[at as int]@);
            assert(optional_index(self.parents@[at as int]) == parent(self@, at as int));
            let is_child = match self.parents[at] {
                Some(found) => found == of,
                None => false,
            };
            if is_child {
                let fills = match &self.nodes[at].field {
                    Some(name) => text::same_text(name, field),
                    None => false,
                };
                if fills {
                    return Some(at);
                }
            }
        }
        None
    }

    /// The nearest named sibling before a node.
    pub fn previous_named(&self, index: usize) -> (result: Option<usize>)
        requires
            index < self@.len(),
        ensures
            optional_index(result) == previous_named(self@, index as int),
            result matches Some(found) ==> found < index,
    {
        proof {
            use_type_invariant(&*self);
            lemma_shallower(self@, index as int, index - 1);
            assert(optional_index(self.parents@[index as int]) == parent(self@, index as int));
        }
        match self.parents[index] {
            Some(of) => {
                let mut at: usize = index;
                while at > of + 1
                    invariant
                        self.parents_are_known(),
                        of < at <= index < self@.len(),
                        parent(self@, index as int) == Some(of as int),
                        named_child_up_to(self@, of as int, at - 1) == named_child_up_to(
                            self@,
                            of as int,
                            index - 1,
                        ),
                    decreases at,
                {
                    at = at - 1;
                    assert(self@[at as int] == self.nodes@[at as int]@);
                    assert(optional_index(self.parents@[at as int]) == parent(self@, at as int));
                    let is_child = match self.parents[at] {
                        Some(found) => found == of,
                        None => false,
                    };
                    if is_child && self.nodes[at].named {
                        return Some(at);
                    }
                }
                None
            },
            None => None,
        }
    }

    /// The node that a capture captured.
    pub fn located(&self, capture: &Capture) -> (result: Option<usize>)
        ensures
            optional_index(result) == located(self@, capture@),
            result matches Some(found) ==> found < self@.len(),
    {
        for at in 0..self.nodes.len()
            invariant
                located_from(self@, capture@, at as int) == located(self@, capture@),
        {
            let node = &self.nodes[at];
            assert(self@[at as int] == node@);
            if node.start_byte == capture.start_byte && node.end_byte == capture.end_byte
                && text::same_text(&node.kind, &capture.kind) {
                return Some(at);
            }
        }
        None
    }

    /// The source text of a node, where it is UTF-8.
    pub fn text_of(&self, source: &[u8], index: usize) -> (result: Option<String>)
        requires
            index < self@.len(),
        ensures
            text::optional_text(result) == node_text(self@, source@, index as int),
    {
        assert(self@[index as int] == self.nodes@[index as int]@);
        range_text_of(source, self.nodes[index].start_byte, self.nodes[index].end_byte)
    }

    /// Whether a node has the given kind.
    pub fn has_kind(&self, index: usize, kind: &str) -> (result: bool)
        requires
            index < self@.len(),
        ensures
            result == (self@[index as int].kind == kind@),
    {
        assert(self@[index as int] == self.nodes@[index as int]@);
        text::same_text(&self.nodes[index].kind, kind)
    }
}

/// The source bytes in a range, where the source has them.
pub fn range_of(source: &[u8], start: usize, end: usize) -> (result: Option<Vec<u8>>)
    ensures
        match result {
            Some(bytes) => source_range(source@, start as int, end as int) == Some(bytes@),
            None => source_range(source@, start as int, end as int) is None,
        },
{
    if start <= end && end <= source.len() {
        Some(bytes::bytes_between(source, start, end))
    } else {
        None
    }
}

/// The source text in a range, where it is UTF-8.
pub fn range_text_of(source: &[u8], start: usize, end: usize) -> (result: Option<String>)
    ensures
        text::optional_text(result) == range_text(source@, start as int, end as int),
{
    match range_of(source, start, end) {
        Some(bytes) => text::strict_text(&bytes),
        None => None,
    }
}

/// A Rust source that has been parsed.
pub struct ParsedSource {
    tree: tree_sitter::Tree,
    syntax: SyntaxTree,
}

impl ParsedSource {
    /// The bytes that were parsed.
    pub closed spec fn source(&self) -> Seq<u8> {
        parsed_source(self.tree)
    }

    /// The nodes of the tree.
    pub closed spec fn nodes(&self) -> Seq<NodeView> {
        self.syntax@
    }

    #[verifier::type_invariant]
    closed spec fn nodes_are_those_of_the_source(self) -> bool {
        self.syntax@ == rust_nodes(parsed_source(self.tree))
    }

    /// Parse Rust source.
    pub fn parse(source: &[u8]) -> (result: Result<ParsedSource, SyntaxFailure>)
        ensures
            match result {
                Ok(parsed) => parse_failure(source@) is None && parsed.source() == source@
                    && parsed.nodes() == rust_nodes(source@),
                Err(failure) => parse_failure(source@) == Some(failure),
            },
    {
        match parse_rust(&Language::Rust.tree_sitter(), source) {
            Ok(tree) => {
                let syntax = SyntaxTree::new(tree_nodes(&tree));
                Ok(ParsedSource { tree, syntax })
            },
            Err(failure) => Err(failure),
        }
    }

    /// The tree as plain nodes.
    pub fn syntax(&self) -> (syntax: &SyntaxTree)
        ensures
            syntax@ == self.nodes(),
    {
        &self.syntax
    }

    /// The matches of a query.
    pub fn matches(&self, source: &[u8], query: RustQuery) -> (result: Result<
        Vec<Vec<Capture>>,
        SyntaxFailure,
    >)
        requires
            self.source() == source@,
        ensures
            match result {
                Ok(found) => rust_matches(source@, query_text(query)) == Some(match_views(found@)),
                Err(failure) => failure == SyntaxFailure::Query && rust_matches(
                    source@,
                    query_text(query),
                ) is None,
            },
    {
        let text = match query {
            RustQuery::Tags => None,
            RustQuery::Calls => Some(CALL_QUERY),
        };
        match tree_matches(&Language::Rust.tree_sitter(), &self.tree, source, text) {
            Some(found) => Ok(found),
            None => Err(SyntaxFailure::Query),
        }
    }
}

/// The parent of a node is the nearest node before it that is less deep; a field names the first
/// child behind a node that has it, and none where no child has.
pub proof fn lemma_fields_name_the_first_child(
    nodes: Seq<NodeView>,
    of: int,
    field: Seq<char>,
    at: int,
)
    requires
        0 <= of < at,
    ensures
        match field_child_from(nodes, of, field, at) {
            Some(child) => at <= child < nodes.len() && parent(nodes, child) == Some(of)
                && nodes[child].field == Some(field) && forall|j: int|
                at <= j < child ==> !(#[trigger] parent(nodes, j) == Some(of) && nodes[j].field
                    == Some(field)),
            None => forall|j: int|
                at <= j < nodes.len() ==> !(#[trigger] parent(nodes, j) == Some(of)
                    && nodes[j].field == Some(field)),
        },
    decreases nodes.len() - at,
{
    if at < nodes.len() && !(parent(nodes, at) == Some(of) && nodes[at].field == Some(field)) {
        lemma_fields_name_the_first_child(nodes, of, field, at + 1);
    }
}

/// The previous named sibling is the last named child of the same parent before a node.
pub proof fn lemma_previous_siblings_are_the_nearest(nodes: Seq<NodeView>, of: int, at: int)
    ensures
        match named_child_up_to(nodes, of, at) {
            Some(sibling) => of < sibling <= at && parent(nodes, sibling) == Some(of)
                && nodes[sibling].named && forall|j: int|
                sibling < j <= at ==> !(#[trigger] parent(nodes, j) == Some(of)
                    && nodes[j].named),
            None => forall|j: int|
                of < j <= at ==> !(#[trigger] parent(nodes, j) == Some(of) && nodes[j].named),
        },
    decreases at - of,
{
    if at > of && !(parent(nodes, at) == Some(of) && nodes[at].named) {
        lemma_previous_siblings_are_the_nearest(nodes, of, at - 1);
    }
}

/// A capture is located at the first node with its bytes and kind, if any has them.
pub proof fn lemma_captures_are_located_at_their_node(
    nodes: Seq<NodeView>,
    capture: CaptureView,
    at: int,
)
    requires
        0 <= at,
    ensures
        match located_from(nodes, capture, at) {
            Some(index) => at <= index < nodes.len() && nodes[index].start_byte
                == capture.start_byte && nodes[index].end_byte == capture.end_byte
                && nodes[index].kind == capture.kind && forall|j: int|
                at <= j < index ==> !((#[trigger] nodes[j]).start_byte == capture.start_byte
                    && nodes[j].end_byte == capture.end_byte && nodes[j].kind == capture.kind),
            None => forall|j: int|
                at <= j < nodes.len() ==> !((#[trigger] nodes[j]).start_byte == capture.start_byte
                    && nodes[j].end_byte == capture.end_byte && nodes[j].kind == capture.kind),
        },
    decreases nodes.len() - at,
{
    if at < nodes.len() && !(nodes[at].start_byte == capture.start_byte && nodes[at].end_byte
        == capture.end_byte && nodes[at].kind == capture.kind) {
        lemma_captures_are_located_at_their_node(nodes, capture, at + 1);
    }
}

} // verus!

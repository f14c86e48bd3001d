//! The cell partitioner for Rust sources: walks the top-level nodes of a
//! parsed file in source order, routes comment nodes through the
//! directive scanner, and assembles the ordered cell list.

use vstd::prelude::*;
use vstd::string::{StrSliceExecFns, StringSliceAdditionalSpecFns};
use vstd::utf8::{decode_utf8, valid_utf8};

use crate::cells::{CellSource, CellSources, CellType};
use crate::comment_extractor::{has_triple_dash, scan_payloads, CommentInterpreter, CommentOperator};
use crate::error::ParserError;
use crate::text::bytes_to_string;

verus! {

/// The node kind id that the grammar in use gives a line comment. Kind
/// ids are positional, not semantic: they must be revisited whenever the
/// grammar version changes.
pub const LINE_COMMENT_KIND_ID: u16 = 314;

/// The node kind id that the grammar in use gives a block comment.
pub const BLOCK_COMMENT_KIND_ID: u16 = 318;

/// What a top-level node means to the partitioner: a comment of one of
/// the two flavors, or anything else.
#[derive(Debug, PartialEq, Eq, Clone, Copy)]
pub enum Kind {
    LineComment,
    BlockComment,
    Other,
}

/// The per-language table from a node's numeric kind to its category.
pub open spec fn spec_kind(id: u16) -> Kind {
    if id == LINE_COMMENT_KIND_ID {
        Kind::LineComment
    } else if id == BLOCK_COMMENT_KIND_ID {
        Kind::BlockComment
    } else {
        Kind::Other
    }
}

impl Kind {
    /// Categorizes a node by its numeric kind id.
    pub fn from_kind_id(id: u16) -> (r: Kind)
        ensures
            r == spec_kind(id),
    {
        if id == LINE_COMMENT_KIND_ID {
            Kind::LineComment
        } else if id == BLOCK_COMMENT_KIND_ID {
            Kind::BlockComment
        } else {
            Kind::Other
        }
    }
}

/// The text with a trailing block-comment closing marker removed, if one
/// is there.
pub open spec fn strip_block_close(s: Seq<char>) -> Seq<char> {
    if s.len() >= 2 && s[s.len() - 2] == '*' && s[s.len() - 1] == '/' {
        s.take(s.len() - 2)
    } else {
        s
    }
}

/// Removes a trailing block-comment closing marker from a command
/// payload, if one is there: a block comment carries its closing marker
/// on its last line, and that marker is not part of the user's directive.
pub fn remove_trailing_block_comment_delimiter(s: String) -> (r: String)
    ensures
        r@ == strip_block_close(s@),
{
    let text = s.as_str();
    let n = text.unicode_len();
    if n >= 2 && text.get_char(n - 2) == '*' && text.get_char(n - 1) == '/' {
        let stripped = text.substring_char(0, n - 2);
        stripped.to_owned()
    } else {
        s
    }
}

/// One top-level syntax node, reduced to what the partitioner reads: the
/// grammar's numeric kind id and the node's byte range in the document.
#[derive(Debug, PartialEq, Eq, Clone, Copy)]
pub struct TopNode {
    /// The grammar's numeric kind id for this node.
    pub kind_id: u16,
    /// Where the node's text begins in the document, in bytes.
    pub start_byte: usize,
    /// One past where the node's text ends, in bytes.
    pub end_byte: usize,
}

/// The partitioner's accumulation state: the cells already closed, and
/// the fragments of the cell being accumulated.
pub struct SplitState {
    /// The closed cells, each a sequence of fragments.
    pub cells: Seq<Seq<Seq<char>>>,
    /// The current cell's fragments.
    pub cur: Seq<Seq<char>>,
}

/// The state every split starts from: no closed cells, an empty
/// accumulator.
pub open spec fn initial_state() -> SplitState {
    SplitState { cells: Seq::empty(), cur: Seq::empty() }
}

/// A separator closes the current cell only if it is non-empty — a stray
/// empty cell is suppressed — and produces no cell of its own.
pub open spec fn spec_separator_step(st: SplitState) -> SplitState {
    if st.cur.len() > 0 {
        SplitState { cells: st.cells.push(st.cur), cur: Seq::empty() }
    } else {
        st
    }
}

/// A command closes the current cell even if it is empty, then emits its
/// own singleton cell holding the processed payload, and opens a fresh
/// accumulator.
pub open spec fn spec_command_step(st: SplitState, frag: Seq<char>) -> SplitState {
    SplitState { cells: st.cells.push(st.cur).push(seq![frag]), cur: Seq::empty() }
}

/// The fragment a command payload contributes: its decoded text, with a
/// trailing block-comment closing marker stripped when the payload came
/// from a block comment.
pub open spec fn spec_command_fragment(p: Seq<u8>, is_block: bool) -> Seq<char> {
    if is_block {
        strip_block_close(decode_utf8(p))
    } else {
        decode_utf8(p)
    }
}

/// Folds one comment's scanned payloads, in order, into the state. A
/// payload that is not valid text fails the whole split.
pub open spec fn spec_apply_payloads(st: SplitState, ps: Seq<Seq<u8>>, is_block: bool) -> Result<
    SplitState,
    ParserError,
>
    decreases ps.len(),
{
    if ps.len() == 0 {
        Ok(st)
    } else if !valid_utf8(ps[0]) {
        Err(ParserError::DecodingError)
    } else if has_triple_dash(decode_utf8(ps[0])) {
        spec_apply_payloads(spec_separator_step(st), ps.drop_first(), is_block)
    } else {
        spec_apply_payloads(
            spec_command_step(st, spec_command_fragment(ps[0], is_block)),
            ps.drop_first(),
            is_block,
        )
    }
}

/// Folds one top-level node into the state: a comment's directives via
/// the scanner, any other node's exact source text as one fragment. A
/// byte range that does not address decodable text in the document fails
/// the whole split.
pub open spec fn spec_apply_node(st: SplitState, doc: Seq<u8>, n: TopNode) -> Result<
    SplitState,
    ParserError,
> {
    if !(n.start_byte <= n.end_byte && n.end_byte <= doc.len()) {
        Err(ParserError::DecodingError)
    } else {
        let slice = doc.subrange(n.start_byte as int, n.end_byte as int);
        if !valid_utf8(slice) {
            Err(ParserError::DecodingError)
        } else {
            match spec_kind(n.kind_id) {
                Kind::Other => Ok(
                    SplitState { cells: st.cells, cur: st.cur.push(decode_utf8(slice)) },
                ),
                Kind::LineComment => spec_apply_payloads(st, scan_payloads(slice, 0), false),
                Kind::BlockComment => spec_apply_payloads(st, scan_payloads(slice, 0), true),
            }
        }
    }
}

/// Folds a run of top-level nodes into the state, in source order,
/// stopping at the first failure.
pub open spec fn spec_apply_nodes(st: SplitState, doc: Seq<u8>, nodes: Seq<TopNode>) -> Result<
    SplitState,
    ParserError,
>
    decreases nodes.len(),
{
    if nodes.len() == 0 {
        Ok(st)
    } else {
        match spec_apply_node(st, doc, nodes[0]) {
            Err(e) => Err(e),
            Ok(st2) => spec_apply_nodes(st2, doc, nodes.drop_first()),
        }
    }
}

/// What partitioning a document must produce: the folded cells, with the
/// accumulator flushed at the end only if it is non-empty.
pub open spec fn spec_partition(doc: Seq<u8>, nodes: Seq<TopNode>) -> Result<
    Seq<Seq<Seq<char>>>,
    ParserError,
> {
    match spec_apply_nodes(initial_state(), doc, nodes) {
        Err(e) => Err(e),
        Ok(st) => Ok(
            if st.cur.len() > 0 {
                st.cells.push(st.cur)
            } else {
                st.cells
            },
        ),
    }
}

/// Folding one more node is folding the run, then that node.
pub proof fn lemma_apply_nodes_snoc(st: SplitState, doc: Seq<u8>, nodes: Seq<TopNode>, n: TopNode)
    ensures
        spec_apply_nodes(st, doc, nodes.push(n)) == (match spec_apply_nodes(st, doc, nodes) {
            Err(e) => Err(e),
            Ok(st2) => spec_apply_node(st2, doc, n),
        }),
    decreases nodes.len(),
{
    if nodes.len() == 0 {
        assert(nodes.push(n)[0] == n);
        assert(nodes.push(n).drop_first() =~= Seq::<TopNode>::empty());
        match spec_apply_node(st, doc, n) {
            Err(e) => {
                assert(spec_apply_nodes(st, doc, nodes.push(n)) == Err::<SplitState, ParserError>(
                    e,
                ));
            },
            Ok(st2) => {
                assert(spec_apply_nodes(st2, doc, nodes.push(n).drop_first()) == Ok::<
                    SplitState,
                    ParserError,
                >(st2));
                assert(spec_apply_nodes(st, doc, nodes.push(n)) == Ok::<SplitState, ParserError>(
                    st2,
                ));
            },
        }
    } else {
        assert(nodes.push(n)[0] == nodes[0]);
        assert(nodes.push(n).drop_first() =~= nodes.drop_first().push(n));
        match spec_apply_node(st, doc, nodes[0]) {
            Err(e) => {},
            Ok(st2) => {
                lemma_apply_nodes_snoc(st2, doc, nodes.drop_first(), n);
            },
        }
    }
}

/// The state the partitioner's accumulators stand for at a moment of the
/// walk.
pub open spec fn live_state(sources: CellSources, cur: CellSource) -> SplitState {
    SplitState { cells: sources.fragments_view(), cur: cur.fragments() }
}

/// Partitions a document into cells, given its top-level syntax nodes in
/// source order. Fails with a decoding error exactly when some node's
/// byte range does not address decodable text, or some directive payload
/// does not decode; otherwise returns the cells that `spec_partition`
/// describes, every one of them a code cell.
#[verifier::loop_isolation(false)]
pub fn partition(doc: &Vec<u8>, nodes: &Vec<TopNode>) -> (r: Result<CellSources, ParserError>)
    ensures
        match r {
            Ok(cs) => spec_partition(doc@, nodes@) == Ok::<Seq<Seq<Seq<char>>>, ParserError>(
                cs.fragments_view(),
            ) && (forall|i: int|
                0 <= i < cs.cell_sources@.len() ==> (#[trigger] cs.cell_sources@[i]).cell_type
                    == CellType::Code),
            Err(e) => spec_partition(doc@, nodes@) == Err::<Seq<Seq<Seq<char>>>, ParserError>(e),
        },
{
    let ghost d = doc@;
    let mut sources = CellSources::default();
    let mut current_source = CellSource::default();
    proof {
        assert(sources.fragments_view() =~= Seq::<Seq<Seq<char>>>::empty());
        assert(current_source.fragments() =~= Seq::<Seq<char>>::empty());
        assert(live_state(sources, current_source) == initial_state());
        assert(nodes@.take(0) =~= Seq::<TopNode>::empty());
    }
    let n = nodes.len();
    let mut idx: usize = 0;
    while idx < n
        invariant
            0 <= idx <= n,
            spec_apply_nodes(initial_state(), d, nodes@.take(idx as int)) == Ok::<
                SplitState,
                ParserError,
            >(live_state(sources, current_source)),
            current_source.cell_type == CellType::Code,
            forall|i: int|
                0 <= i < sources.cell_sources@.len() ==> (#[trigger] sources.cell_sources@[i]).cell_type
                    == CellType::Code,
        decreases n - idx,
    {
        let node = nodes[idx];
        let ghost st_iter = live_state(sources, current_source);
        if node.start_byte > node.end_byte || node.end_byte > doc.len() {
            proof {
                assert(spec_apply_node(st_iter, d, node) == Err::<SplitState, ParserError>(
                    ParserError::DecodingError,
                ));
                lemma_apply_nodes_snoc(initial_state(), d, nodes@.take(idx as int), node);
                assert(nodes@.take(idx + 1) =~= nodes@.take(idx as int).push(node));
                lemma_apply_nodes_split(initial_state(), d, nodes@, idx + 1);
            }
            return Err(ParserError::DecodingError);
        }
        let slice = vstd::slice::slice_to_vec(
            vstd::slice::slice_subrange(doc.as_slice(), node.start_byte, node.end_byte),
        );
        let ghost cslice = slice@;
        proof {
            assert(cslice == d.subrange(node.start_byte as int, node.end_byte as int));
        }
        let text = match bytes_to_string(&slice) {
            Ok(t) => t,
            Err(e) => {
                proof {
                    assert(spec_apply_node(st_iter, d, node) == Err::<SplitState, ParserError>(e));
                    lemma_apply_nodes_snoc(initial_state(), d, nodes@.take(idx as int), node);
                    assert(nodes@.take(idx + 1) =~= nodes@.take(idx as int).push(node));
                    lemma_apply_nodes_split(initial_state(), d, nodes@, idx + 1);
                }
                return Err(e);
            },
        };
        let kind = Kind::from_kind_id(node.kind_id);
        match kind {
            Kind::Other => {
                current_source.push(text);
                proof {
                    assert(live_state(sources, current_source).cur =~= st_iter.cur.push(
                        decode_utf8(cslice),
                    ));
                    assert(spec_apply_node(st_iter, d, node) == Ok::<SplitState, ParserError>(
                        live_state(sources, current_source),
                    ));
                }
            },
            Kind::LineComment | Kind::BlockComment => {
                let is_block = match kind {
                    Kind::BlockComment => true,
                    _ => false,
                };
                let ghost ps_all = scan_payloads(cslice, 0);
                let mut interp = CommentInterpreter::from_bytes(slice);
                loop
                    invariant
                        interp.comment@ == cslice,
                        current_source.cell_type == CellType::Code,
                        forall|i: int|
                            0 <= i < sources.cell_sources@.len() ==> (
                            #[trigger] sources.cell_sources@[i]).cell_type == CellType::Code,
                        spec_apply_payloads(st_iter, ps_all, is_block) == spec_apply_payloads(
                            live_state(sources, current_source),
                            scan_payloads(cslice, interp.current_index as int),
                            is_block,
                        ),
                    decreases scan_payloads(cslice, interp.current_index as int).len(),
                {
                    let ghost remaining = scan_payloads(cslice, interp.current_index as int);
                    let ghost st_op = live_state(sources, current_source);
                    let op = match interp.next() {
                        Err(e) => {
                            proof {
                                assert(spec_apply_payloads(st_op, remaining, is_block) == Err::<
                                    SplitState,
                                    ParserError,
                                >(e));
                                assert(spec_apply_node(st_iter, d, node) == Err::<
                                    SplitState,
                                    ParserError,
                                >(e));
                                lemma_apply_nodes_snoc(
                                    initial_state(),
                                    d,
                                    nodes@.take(idx as int),
                                    node,
                                );
                                assert(nodes@.take(idx + 1) =~= nodes@.take(idx as int).push(node));
                                lemma_apply_nodes_split(initial_state(), d, nodes@, idx + 1);
                            }
                            return Err(e);
                        },
                        Ok(None) => {
                            break ;
                        },
                        Ok(Some(op)) => op,
                    };
                    match op {
                        CommentOperator::Command(command) => {
                            let command = if is_block {
                                remove_trailing_block_comment_delimiter(command)
                            } else {
                                command
                            };
                            proof {
                                assert(command@ == spec_command_fragment(remaining[0], is_block));
                            }
                            sources.push(current_source);
                            current_source = CellSource::default();
                            let mut command_cell = CellSource::default();
                            command_cell.push(command);
                            proof {
                                assert(command_cell.fragments() =~= seq![spec_command_fragment(
                                    remaining[0],
                                    is_block,
                                )]);
                            }
                            sources.push(command_cell);
                            proof {
                                assert(current_source.fragments() =~= Seq::<Seq<char>>::empty());
                                assert(live_state(sources, current_source).cells
                                    =~= st_op.cells.push(st_op.cur).push(
                                    seq![spec_command_fragment(remaining[0], is_block)],
                                ));
                                assert(live_state(sources, current_source) == spec_command_step(
                                    st_op,
                                    spec_command_fragment(remaining[0], is_block),
                                ));
                            }
                        },
                        CommentOperator::Separator => {
                            if !current_source.is_empty() {
                                sources.push(current_source);
                                current_source = CellSource::default();
                                proof {
                                    assert(current_source.fragments() =~= Seq::<
                                        Seq<char>,
                                    >::empty());
                                    assert(live_state(sources, current_source).cells
                                        =~= st_op.cells.push(st_op.cur));
                                    assert(live_state(sources, current_source)
                                        == spec_separator_step(st_op));
                                }
                            } else {
                                proof {
                                    assert(live_state(sources, current_source)
                                        == spec_separator_step(st_op));
                                }
                            }
                        },
                    }
                }
                proof {
                    assert(spec_apply_payloads(st_iter, ps_all, is_block) == Ok::<
                        SplitState,
                        ParserError,
                    >(live_state(sources, current_source)));
                    assert(spec_apply_node(st_iter, d, node) == Ok::<SplitState, ParserError>(
                        live_state(sources, current_source),
                    ));
                }
            },
        }
        proof {
            lemma_apply_nodes_snoc(initial_state(), d, nodes@.take(idx as int), node);
            assert(nodes@.take(idx + 1) =~= nodes@.take(idx as int).push(node));
        }
        idx = idx + 1;
    }
    proof {
        assert(nodes@.take(n as int) =~= nodes@);
    }
    if !current_source.is_empty() {
        sources.push(current_source);
        proof {
            assert(spec_partition(d, nodes@) == Ok::<Seq<Seq<Seq<char>>>, ParserError>(
                sources.fragments_view(),
            ));
        }
    } else {
        proof {
            assert(spec_partition(d, nodes@) == Ok::<Seq<Seq<Seq<char>>>, ParserError>(
                sources.fragments_view(),
            ));
        }
    }
    Ok(sources)
}

/// What the external Rust parser yields for a document, as a function of
/// the document alone: `Err` when the grammar cannot be configured,
/// `Ok(None)` when no tree is produced, else every top-level node of the
/// tree as its kind id and byte range, in source order.
pub uninterp spec fn rust_parse_outcome(code: Seq<char>) -> Result<
    Option<Seq<(u16, usize, usize)>>,
    (),
>;

/// Top-level nodes rebuilt from their kind ids and byte ranges.
pub open spec fn spec_nodes_of(ts: Seq<(u16, usize, usize)>) -> Seq<TopNode> {
    ts.map_values(
        |t: (u16, usize, usize)| TopNode { kind_id: t.0, start_byte: t.1, end_byte: t.2 },
    )
}

/// Relies on tree-sitter's `Parser` with the Rust grammar: `set_language`
/// accepts or rejects the grammar by compiled-in version constants, and
/// `parse` on a fresh parser with no old tree is deterministic in the
/// document, so the outcome — including each top-level node's `kind_id`,
/// `start_byte` and `end_byte` — is a function of the document alone.
#[verifier::external_body]
fn parse_rust_top_nodes(code: &str) -> (r: Result<Option<Vec<TopNode>>, ()>)
    ensures
        match r {
            Err(_) => rust_parse_outcome(code@) is Err,
            Ok(None) => rust_parse_outcome(code@) == Ok::<Option<Seq<(u16, usize, usize)>>, ()>(
                None,
            ),
            Ok(Some(nodes)) => rust_parse_outcome(code@) == Ok::<
                Option<Seq<(u16, usize, usize)>>,
                (),
            >(Some(nodes@.map_values(|n: TopNode| (n.kind_id, n.start_byte, n.end_byte)))),
        },
{
    let mut parser = tree_sitter::Parser::new();
    if parser.set_language(&tree_sitter::Language::new(tree_sitter_rust::LANGUAGE)).is_err() {
        return Err(());
    }
    match parser.parse(code, None) {
        None => Ok(None),
        Some(tree) => {
            let root = tree.root_node();
            let mut cursor = root.walk();
            let to_top = |n: tree_sitter::Node| TopNode { kind_id: n.kind_id(), start_byte: n.start_byte(), end_byte: n.end_byte() };
            Ok(Some(root.children(&mut cursor).map(to_top).collect()))
        },
    }
}

/// What splitting a Rust document must produce: the partition of its
/// bytes by the external parser's top-level nodes; no cells when the
/// parser yields no tree; an unsupported-language error when the grammar
/// cannot be configured.
pub open spec fn spec_split_rust(code: Seq<char>) -> Result<
    Option<Seq<Seq<Seq<char>>>>,
    ParserError,
> {
    match rust_parse_outcome(code) {
        Err(_) => Err(ParserError::UnsupportedLanguage),
        Ok(None) => Ok(None),
        Ok(Some(ts)) => match spec_partition(vstd::utf8::encode_utf8(code), spec_nodes_of(ts)) {
            Err(e) => Err(e),
            Ok(cells) => Ok(Some(cells)),
        },
    }
}

/// A parser that can split one language's sources into cells. Each
/// implementation says through `spec_parse` what its split must produce,
/// and `parse` is held to it.
pub trait CodeParser {
    /// What this parser's split of a document must produce.
    spec fn spec_parse(&self, code: Seq<char>) -> Result<Option<Seq<Seq<Seq<char>>>>, ParserError>;

    /// Splits a source file into cells. `Ok(None)` — no cells — is the
    /// external parser producing no tree, not an error.
    fn parse(&self, code: &str) -> (r: Result<Option<CellSources>, ParserError>)
        ensures
            match r {
                Ok(Some(cs)) => self.spec_parse(code@) == Ok::<
                    Option<Seq<Seq<Seq<char>>>>,
                    ParserError,
                >(Some(cs.fragments_view())) && (forall|i: int|
                    0 <= i < cs.cell_sources@.len() ==> (#[trigger] cs.cell_sources@[i]).cell_type
                        == CellType::Code),
                Ok(None) => self.spec_parse(code@) == Ok::<
                    Option<Seq<Seq<Seq<char>>>>,
                    ParserError,
                >(None),
                Err(e) => self.spec_parse(code@) == Err::<Option<Seq<Seq<Seq<char>>>>, ParserError>(
                    e,
                ),
            },
    ;
}

/// The splitter for Rust sources.
pub struct RustParser;

impl CodeParser for RustParser {
    /// A Rust split must produce what `spec_split_rust` says.
    open spec fn spec_parse(&self, code: Seq<char>) -> Result<
        Option<Seq<Seq<Seq<char>>>>,
        ParserError,
    > {
        spec_split_rust(code)
    }

    /// Splits a Rust source file into cells: hands the text to the
    /// external parser, then partitions it by the tree's top-level nodes.
    /// An undecodable byte span fails with a decoding error and no
    /// partial result.
    fn parse(&self, code: &str) -> (r: Result<Option<CellSources>, ParserError>) {
        match parse_rust_top_nodes(code) {
            Err(_) => Err(ParserError::UnsupportedLanguage),
            Ok(None) => Ok(None),
            Ok(Some(nodes)) => {
                let doc = code.as_bytes_vec();
                proof {
                    assert(spec_nodes_of(
                        nodes@.map_values(|n: TopNode| (n.kind_id, n.start_byte, n.end_byte)),
                    ) =~= nodes@);
                }
                match partition(&doc, &nodes) {
                    Ok(cs) => Ok(Some(cs)),
                    Err(e) => Err(e),
                }
            },
        }
    }
}

/// Splitting is a pure function of the document: two splits of the same
/// source yield identical cell lists, because every split's outcome
/// equals `spec_split_rust` of the document.
pub proof fn lemma_split_deterministic(
    code: Seq<char>,
    r1: Result<Option<Seq<Seq<Seq<char>>>>, ParserError>,
    r2: Result<Option<Seq<Seq<Seq<char>>>>, ParserError>,
)
    requires
        r1 == spec_split_rust(code),
        r2 == spec_split_rust(code),
    ensures
        r1 == r2,
{
}

/// No two adjacent empty cells anywhere, and the last cell is never
/// empty.
pub open spec fn no_adjacent_empty(cells: Seq<Seq<Seq<char>>>) -> bool {
    &&& forall|i: int|
        0 <= i && i + 1 < cells.len() ==> !((#[trigger] cells[i]).len() == 0 && cells[i + 1].len()
            == 0)
    &&& cells.len() > 0 ==> cells.last().len() > 0
}

proof fn lemma_apply_payloads_keeps_shape(st: SplitState, ps: Seq<Seq<u8>>, is_block: bool)
    requires
        no_adjacent_empty(st.cells),
    ensures
        match spec_apply_payloads(st, ps, is_block) {
            Ok(st2) => no_adjacent_empty(st2.cells),
            Err(_) => true,
        },
    decreases ps.len(),
{
    if ps.len() > 0 && valid_utf8(ps[0]) {
        if has_triple_dash(decode_utf8(ps[0])) {
            lemma_apply_payloads_keeps_shape(spec_separator_step(st), ps.drop_first(), is_block);
        } else {
            let st2 = spec_command_step(st, spec_command_fragment(ps[0], is_block));
            assert(st2.cells.last().len() == 1);
            lemma_apply_payloads_keeps_shape(st2, ps.drop_first(), is_block);
        }
    }
}

proof fn lemma_apply_nodes_keeps_shape(st: SplitState, doc: Seq<u8>, nodes: Seq<TopNode>)
    requires
        no_adjacent_empty(st.cells),
    ensures
        match spec_apply_nodes(st, doc, nodes) {
            Ok(st2) => no_adjacent_empty(st2.cells),
            Err(_) => true,
        },
    decreases nodes.len(),
{
    if nodes.len() > 0 {
        match spec_apply_node(st, doc, nodes[0]) {
            Err(_) => {},
            Ok(st2) => {
                let n = nodes[0];
                if n.start_byte <= n.end_byte && n.end_byte <= doc.len() {
                    let slice = doc.subrange(n.start_byte as int, n.end_byte as int);
                    if valid_utf8(slice) {
                        match spec_kind(n.kind_id) {
                            Kind::Other => {},
                            Kind::LineComment => {
                                lemma_apply_payloads_keeps_shape(st, scan_payloads(slice, 0), false);
                            },
                            Kind::BlockComment => {
                                lemma_apply_payloads_keeps_shape(st, scan_payloads(slice, 0), true);
                            },
                        }
                    }
                }
                lemma_apply_nodes_keeps_shape(st2, doc, nodes.drop_first());
            },
        }
    }
}

/// A cell is appended only at the moment it is known to be closed and
/// non-empty, except that a command always forces a boundary: so a split
/// never emits two adjacent empty cells, and never ends with an empty
/// cell.
pub proof fn lemma_no_adjacent_empty_cells(doc: Seq<u8>, nodes: Seq<TopNode>)
    ensures
        match spec_partition(doc, nodes) {
            Ok(cells) => no_adjacent_empty(cells),
            Err(_) => true,
        },
{
    lemma_apply_nodes_keeps_shape(initial_state(), doc, nodes);
}

/// Folding a run is folding any prefix, then the rest; in particular a
/// failure in a prefix is the whole run's failure.
pub proof fn lemma_apply_nodes_split(st: SplitState, doc: Seq<u8>, nodes: Seq<TopNode>, i: int)
    requires
        0 <= i <= nodes.len(),
    ensures
        spec_apply_nodes(st, doc, nodes) == (match spec_apply_nodes(st, doc, nodes.take(i)) {
            Err(e) => Err(e),
            Ok(st2) => spec_apply_nodes(st2, doc, nodes.skip(i)),
        }),
    decreases i,
{
    if i == 0 {
        assert(nodes.take(0) =~= Seq::<TopNode>::empty());
        assert(nodes.skip(0) =~= nodes);
    } else {
        assert(nodes.take(i)[0] == nodes[0]);
        assert(nodes.take(i).drop_first() =~= nodes.drop_first().take(i - 1));
        assert(nodes.skip(i) =~= nodes.drop_first().skip(i - 1));
        match spec_apply_node(st, doc, nodes[0]) {
            Err(e) => {},
            Ok(st2) => {
                lemma_apply_nodes_split(st2, doc, nodes.drop_first(), i - 1);
            },
        }
    }
}

} // verus!

use run_jupyter::cells::CellType;
use run_jupyter::code_to_run;
use run_jupyter::error::ParserError;
use run_jupyter::rust_parser::{partition, CodeParser, Kind, RustParser, TopNode};
use run_jupyter::split;
use run_jupyter::ParsableKernel;

fn fragments(cells: &run_jupyter::cells::CellSources) -> Vec<Vec<String>> {
    cells
        .cell_sources
        .iter()
        .map(|c| c.codes.clone())
        .collect()
}

// Plain code, no directives: both top-level items land in one cell as two
// fragments, and the joined form equals the original code.
#[test]
fn plain_code_is_one_cell_of_two_fragments() {
    let code = "fn a() {}\nfn b() {}";
    let cells = RustParser.parse(code).unwrap().unwrap();
    assert_eq!(
        vec![vec!["fn a() {}".to_string(), "fn b() {}".to_string()]],
        fragments(&cells)
    );
    assert_eq!(code.to_string(), cells.as_one_line_code());
    assert!(cells.cell_sources.iter().all(|c| c.cell_type == CellType::Code));
}

// A single leading command forces a three-way split: the (empty) cell the
// command closed, the command's own singleton cell with its payload kept
// verbatim, and the code after it. A command forces the boundary even
// when nothing has accumulated yet — only separators suppress the empty
// cell.
#[test]
fn leading_command_forces_three_way_split() {
    let code = "// %% :dep tokio\nfn a() {}";
    let cells = RustParser.parse(code).unwrap().unwrap();
    assert_eq!(
        vec![
            Vec::<String>::new(),
            vec![" :dep tokio".to_string()],
            vec!["fn a() {}".to_string()],
        ],
        fragments(&cells)
    );
}

// A separator before any code has accumulated emits no empty cell: only
// the content after it forms a cell.
#[test]
fn separator_suppresses_empty_cell() {
    let code = "// %% ---\nfn a() {}";
    let cells = RustParser.parse(code).unwrap().unwrap();
    assert_eq!(vec![vec!["fn a() {}".to_string()]], fragments(&cells));
}

// A separator between two runs of code closes the first cell.
#[test]
fn separator_splits_accumulated_code() {
    let code = "fn a() {}\n// %% ---\nfn b() {}";
    let cells = RustParser.parse(code).unwrap().unwrap();
    assert_eq!(
        vec![vec!["fn a() {}".to_string()], vec!["fn b() {}".to_string()]],
        fragments(&cells)
    );
}

// A command inside a block comment has the block's trailing closing
// marker stripped from its payload; the same text inside a line comment
// is untouched.
#[test]
fn trailing_block_comment_delimiter_is_stripped() {
    let block = RustParser.parse("/* %% :dep foo */\nfn a() {}").unwrap().unwrap();
    assert_eq!(
        vec![
            Vec::<String>::new(),
            vec![" :dep foo ".to_string()],
            vec!["fn a() {}".to_string()],
        ],
        fragments(&block)
    );

    let line = RustParser.parse("// %% :dep foo */\nfn a() {}").unwrap().unwrap();
    assert_eq!(
        vec![
            Vec::<String>::new(),
            vec![" :dep foo */".to_string()],
            vec!["fn a() {}".to_string()],
        ],
        fragments(&line)
    );
}

// A comment with no directives contributes nothing: its text is neither a
// fragment nor a boundary. This also guards the node-kind table against a
// grammar change: a miscategorized comment would show up as a fragment.
#[test]
fn plain_comment_contributes_nothing() {
    let code = "// just a note\nfn a() {}";
    let cells = RustParser.parse(code).unwrap().unwrap();
    assert_eq!(vec![vec!["fn a() {}".to_string()]], fragments(&cells));
}

// A byte span that cannot decode as text fails the whole call with a
// decoding error and no partial cell list.
#[test]
fn malformed_text_fails_cleanly() {
    let doc: Vec<u8> = vec![0xff, 0xfe];
    let nodes = vec![TopNode { kind_id: 1, start_byte: 0, end_byte: 2 }];
    assert_eq!(Err(ParserError::DecodingError), partition(&doc, &nodes));
}

// A byte range that splits a multi-byte character cannot decode either.
#[test]
fn range_inside_a_character_fails_cleanly() {
    let doc: Vec<u8> = "é".as_bytes().to_vec();
    let nodes = vec![TopNode { kind_id: 1, start_byte: 0, end_byte: 1 }];
    assert_eq!(Err(ParserError::DecodingError), partition(&doc, &nodes));
}

// A byte range outside the document does not address text.
#[test]
fn range_outside_document_fails_cleanly() {
    let doc: Vec<u8> = b"fn a() {}".to_vec();
    let nodes = vec![TopNode { kind_id: 1, start_byte: 4, end_byte: 99 }];
    assert_eq!(Err(ParserError::DecodingError), partition(&doc, &nodes));
}

// Splitting the same document twice yields identical cell lists.
#[test]
fn splitting_is_idempotent() {
    let code = "// %% :dep tokio\nfn a() {}\n// %% ---\nfn b() {}";
    let first = split(code, "rust").unwrap();
    let second = split(code, "rust").unwrap();
    assert_eq!(first, second);
}

// The kernel-name gate: recognized names pass, anything else is an
// unsupported-language error, surfaced before any parsing.
#[test]
fn kernel_names_are_gated() {
    assert!(matches!(
        ParsableKernel::try_from_str("rust"),
        Ok(ParsableKernel::Rust)
    ));
    assert!(matches!(
        ParsableKernel::try_from_str("python3"),
        Ok(ParsableKernel::Python3)
    ));
    assert_eq!(
        Err(ParserError::UnsupportedLanguage),
        split("fn a() {}", "julia").map(|_| ())
    );
    assert_eq!(
        Err(ParserError::UnsupportedLanguage),
        split("print(1)", "python3").map(|_| ())
    );
}

// The node-kind table for the grammar in use.
#[test]
fn kind_table_matches_grammar() {
    assert_eq!(Kind::LineComment, Kind::from_kind_id(314));
    assert_eq!(Kind::BlockComment, Kind::from_kind_id(318));
    assert_eq!(Kind::Other, Kind::from_kind_id(0));
    assert_eq!(Kind::Other, Kind::from_kind_id(1));
}

// Preparing code to run: a kernel this crate cannot split runs its code
// untouched; the recognized-but-unsplittable kernel is rejected; a Rust
// source is split and joined back with line feeds.
#[test]
fn code_to_run_prepares_each_kernel() {
    assert_eq!(
        Ok(Some("print(1)".to_string())),
        code_to_run("julia", "print(1)")
    );
    assert_eq!(
        Err(ParserError::UnsupportedLanguage),
        code_to_run("python3", "print(1)")
    );
    assert_eq!(
        Ok(Some("\n :dep tokio\nfn a() {}".to_string())),
        code_to_run("rust", "// %% :dep tokio\nfn a() {}")
    );
}

use run_jupyter::cells::{CellSource, CellSources, CellType};
use run_jupyter::rust_parser::remove_trailing_block_comment_delimiter;

#[test]
fn cell_source_accumulates_fragments() {
    let mut cell = CellSource::default();
    assert_eq!(CellType::Code, cell.cell_type);
    assert!(cell.is_empty());
    assert_eq!(0, cell.len());
    cell.push("let a = 1;".to_string());
    cell.push("let b = 2;".to_string());
    assert!(!cell.is_empty());
    assert_eq!(2, cell.len());
    assert_eq!("let a = 1;\nlet b = 2;".to_string(), cell.as_one_line_code());
}

#[test]
fn new_code_keeps_the_fragments() {
    let cell = CellSource::new_code(vec!["a".to_string(), "b".to_string()]);
    assert_eq!(CellType::Code, cell.cell_type);
    assert_eq!(vec!["a".to_string(), "b".to_string()], cell.codes);
}

#[test]
fn empty_cell_joins_to_empty_text() {
    assert_eq!(String::new(), CellSource::default().as_one_line_code());
}

#[test]
fn cell_sources_join_with_line_feeds() {
    let mut cells = CellSources::default();
    cells.push(CellSource::new_code(vec!["a".to_string(), "b".to_string()]));
    cells.push(CellSource::new_code(vec!["c".to_string()]));
    assert_eq!("a\nb\nc".to_string(), cells.as_one_line_code());
}

#[test]
fn empty_cell_list_joins_to_empty_text() {
    assert_eq!(String::new(), CellSources::default().as_one_line_code());
}

#[test]
fn trailing_block_close_is_stripped_only_at_the_end() {
    assert_eq!(
        " :dep foo".to_string(),
        remove_trailing_block_comment_delimiter(" :dep foo*/".to_string())
    );
    assert_eq!(
        "no marker".to_string(),
        remove_trailing_block_comment_delimiter("no marker".to_string())
    );
    assert_eq!(
        "a*/b".to_string(),
        remove_trailing_block_comment_delimiter("a*/b".to_string())
    );
    assert_eq!(
        String::new(),
        remove_trailing_block_comment_delimiter("*/".to_string())
    );
}

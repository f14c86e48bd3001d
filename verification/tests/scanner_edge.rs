use run_jupyter::comment_extractor::{CommentInterpreter, CommentOperator};
use run_jupyter::error::ParserError;

// A comment with no doubled delimiter yields an empty operator sequence.
#[test]
fn no_delimiter_pair_yields_nothing() {
    let mut interpreter = CommentInterpreter::new("// an ordinary comment, 100% plain");
    assert_eq!(Ok(None), interpreter.next());
    // Exhaustion is terminal: asking again keeps yielding nothing.
    assert_eq!(Ok(None), interpreter.next());
}

// A delimiter pair at the very end of the text, with no payload after it,
// yields a command with an empty payload rather than being dropped.
#[test]
fn delimiter_pair_at_end_yields_empty_command() {
    let mut interpreter = CommentInterpreter::new("x%%");
    assert_eq!(
        Ok(Some(CommentOperator::Command(String::new()))),
        interpreter.next()
    );
    assert_eq!(Ok(None), interpreter.next());
}

// A payload cut short by an immediate line feed is the empty command.
#[test]
fn empty_payload_before_line_feed() {
    let mut interpreter = CommentInterpreter::new("a%%\nxyz");
    assert_eq!(
        Ok(Some(CommentOperator::Command(String::new()))),
        interpreter.next()
    );
    assert_eq!(Ok(None), interpreter.next());
}

// Payload text is preserved verbatim: no trimming of leading or trailing
// whitespace.
#[test]
fn command_payload_is_not_trimmed() {
    assert_eq!(
        CommentOperator::Command("  spaced out  ".to_string()),
        CommentOperator::from_string("  spaced out  ".to_string())
    );
}

// Three consecutive dashes anywhere make a separator, irrespective of the
// characters around them.
#[test]
fn triple_dash_classifies_as_separator() {
    assert_eq!(
        CommentOperator::Separator,
        CommentOperator::from_string("---".to_string())
    );
    assert_eq!(
        CommentOperator::Separator,
        CommentOperator::from_string("a---b".to_string())
    );
    assert_eq!(
        CommentOperator::Separator,
        CommentOperator::from_string(" leading ---".to_string())
    );
}

// Two dashes are not enough: the payload stays a command.
#[test]
fn double_dash_stays_a_command() {
    assert_eq!(
        CommentOperator::Command("a--b".to_string()),
        CommentOperator::from_string("a--b".to_string())
    );
}

// The scanner restarts from its saved cursor: a scan over a raw byte span
// finds the same directives a scan over the equal text does.
#[test]
fn from_bytes_scans_like_new() {
    let text = "a %% one\nb %% two";
    let mut by_text = CommentInterpreter::new(text);
    let mut by_bytes = CommentInterpreter::from_bytes(text.as_bytes().to_vec());
    for _ in 0..3 {
        assert_eq!(by_text.next(), by_bytes.next());
    }
}

// A payload whose bytes are not valid text fails with a decoding error;
// the directive before it is still yielded.
#[test]
fn invalid_payload_bytes_fail_decoding() {
    let mut bytes = b"a%% ok\nb%% bad ".to_vec();
    bytes.push(0xff);
    let mut interpreter = CommentInterpreter::from_bytes(bytes);
    assert_eq!(
        Ok(Some(CommentOperator::Command(" ok".to_string()))),
        interpreter.next()
    );
    assert_eq!(Err(ParserError::DecodingError), interpreter.next());
    // The cursor has moved past the bad payload: scanning can go on.
    assert_eq!(Ok(None), interpreter.next());
}

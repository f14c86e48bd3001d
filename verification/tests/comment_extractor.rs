use run_jupyter::comment_extractor::{CommentInterpreter, CommentOperator};

#[test]
fn test_chomp_until_line_end_1() {
    let data = "abcdef\nghi";
    let mut interpreter = CommentInterpreter::new(data);
    {
        let chomped = interpreter.chomp_until_line_end();
        assert_eq!(
            Some("abcdef".chars().into_iter().map(|c| c as u8).collect()) as Option<Vec<u8>>,
            chomped
        );
    }

    {
        let chomped = interpreter.chomp_until_line_end();
        assert_eq!(
            Some("ghi".chars().into_iter().map(|c| c as u8).collect()) as Option<Vec<u8>>,
            chomped
        );
    }

    {
        let chomped = interpreter.chomp_until_line_end();
        assert_eq!(None, chomped);
    }
}

#[test]
fn test_chomp_until_line_end_2() {
    let data = "abcdefghi";
    let mut interpreter = CommentInterpreter::new(data);
    {
        let chomped = interpreter.chomp_until_line_end();
        assert_eq!(
            Some("abcdefghi".chars().into_iter().map(|c| c as u8).collect()) as Option<Vec<u8>>,
            chomped
        );
    }

    {
        let chomped = interpreter.chomp_until_line_end();
        assert_eq!(None, chomped);
    }
}

#[test]
fn test_extact_command_1() {
    let data = r#"
            %% this is command
            aeiou
            %%  this another is command

            this is not command abcdefghi"#;
    let mut interpreter = CommentInterpreter::new(data);
    {
        let parsed = interpreter.next().unwrap();
        assert_eq!(
            Some(CommentOperator::Command(" this is command".to_string())),
            parsed
        );
    }

    {
        let parsed = interpreter.next().unwrap();
        assert_eq!(
            Some(CommentOperator::Command(
                "  this another is command".to_string()
            )),
            parsed
        );
    }

    {
        let parsed = interpreter.next().unwrap();
        assert_eq!(None, parsed);
    }
}

#[test]
fn test_extact_command_2() {
    let data = r#"
            %% this is command
            this is not command abcdefghi %% aaa
            %% "#;
    let mut interpreter = CommentInterpreter::new(data);
    {
        let parsed = interpreter.next().unwrap();
        assert_eq!(
            Some(CommentOperator::Command(" this is command".to_string())),
            parsed
        );
    }

    {
        let parsed = interpreter.next().unwrap();
        assert_eq!(Some(CommentOperator::Command(" aaa".to_string())), parsed);
    }

    {
        let parsed = interpreter.next().unwrap();
        assert_eq!(Some(CommentOperator::Command(" ".to_string())), parsed);
    }

    {
        let parsed = interpreter.next().unwrap();
        assert_eq!(None, parsed);
    }
}

#[test]
fn test_extact_separator_1() {
    let data = r#"
            %% ---
            this is not command abcdefghi %% aaa
            %% "#;
    let mut interpreter = CommentInterpreter::new(data);
    {
        let parsed = interpreter.next().unwrap();
        assert_eq!(Some(CommentOperator::Separator), parsed);
    }

    {
        let parsed = interpreter.next().unwrap();
        assert_eq!(Some(CommentOperator::Command(" aaa".to_string())), parsed);
    }

    {
        let parsed = interpreter.next().unwrap();
        assert_eq!(Some(CommentOperator::Command(" ".to_string())), parsed);
    }

    {
        let parsed = interpreter.next().unwrap();
        assert_eq!(None, parsed);
    }
}

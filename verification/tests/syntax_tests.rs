use arcaea::row::Row;
use arcaea::syntax::{pv, pv_bool, pvs, Syntax, TokenState, TokenType};

fn ruleset() -> Syntax {
    // values start right after the equals sign, as the loader reads them
    let ini = "name=Demo\nextensions=dm, demo\nhighlight_numbers=true\nsingleline_string_quotes=\"\nsingleline_comment_start=//\nmultiline_comment_delims=/*, */\nkeywords_1=let, if\n";
    match Syntax::from_ini("demo.ini", ini) {
        Ok((sc, exts)) => {
            assert_eq!(exts, vec!["dm".to_string(), "demo".to_string()]);
            sc
        }
        Err(e) => panic!("ruleset should parse: {}", e.message()),
    }
}

#[test]
fn ini_values_parse() {
    assert_eq!(pv("hello"), "hello");
    assert_eq!(pvs("a, b, c"), vec!["a".to_string(), "b".to_string(), "c".to_string()]);
    assert_eq!(pvs("single"), vec!["single".to_string()]);
    assert_eq!(pv_bool("true"), Ok(true));
    assert_eq!(pv_bool("false"), Ok(false));
    assert!(pv_bool("yes").is_err());
}

#[test]
fn bad_ini_lines_report_path_and_line() {
    let msg = match Syntax::from_ini("x.ini", "name = ok\nbroken") {
        Err(e) => e.message(),
        Ok(_) => panic!("a line without an equals sign must be rejected"),
    };
    assert_eq!(msg, "File error: x.ini (line 2): No '='");
    let msg2 = match Syntax::from_ini("x.ini", "unknown = 1") {
        Err(e) => e.message(),
        Ok(_) => panic!("an unknown key must be rejected"),
    };
    assert_eq!(msg2, "File error: x.ini (line 1): Invalid key: unknown");
    let msg3 = match Syntax::from_ini("x.ini", "multiline_comment_delims = just-one") {
        Err(e) => e.message(),
        Ok(_) => panic!("a lone delimiter must be rejected"),
    };
    assert_eq!(msg3, "File error: x.ini (line 1): Expected 2 delimiters, got 1");
}

#[test]
fn comments_and_blanks_are_skipped() {
    let sc = match Syntax::from_ini("x.ini", "# comment\n; another\n\nname=N\n") {
        Ok((sc, _)) => sc,
        Err(e) => panic!("comments must parse: {}", e.message()),
    };
    assert_eq!(sc.name, "N");
}

#[test]
fn numbers_and_keywords_classify() {
    let syntax = ruleset();
    let mut row = Row::from_str("let x 42");
    let mut state = TokenState::Normal;
    row.update_syntax(&syntax, &mut state);
    assert_eq!(row.syntax.len(), 8);
    assert_eq!(row.syntax[0], TokenType::Keyword1); // l
    assert_eq!(row.syntax[1], TokenType::Keyword1); // e
    assert_eq!(row.syntax[2], TokenType::Keyword1); // t
    assert_eq!(row.syntax[3], TokenType::Normal); // space
    assert_eq!(row.syntax[4], TokenType::Normal); // x
    assert_eq!(row.syntax[6], TokenType::Number); // 4
    assert_eq!(row.syntax[7], TokenType::Number); // 2
}

#[test]
fn comments_paint_to_the_end_of_the_row() {
    let syntax = ruleset();
    let mut row = Row::from_str("a // rest");
    let mut state = TokenState::Normal;
    row.update_syntax(&syntax, &mut state);
    assert_eq!(row.syntax[0], TokenType::Normal);
    for i in 2..row.len() {
        assert_eq!(row.syntax[i], TokenType::Comment);
    }
}

#[test]
fn multiline_comments_carry_state_across_rows() {
    let syntax = ruleset();
    let mut state = TokenState::Normal;
    let mut first = Row::from_str("a /* open");
    first.update_syntax(&syntax, &mut state);
    assert!(matches!(state, TokenState::MultiLineComment));
    let mut second = Row::from_str("still */ b");
    second.update_syntax(&syntax, &mut state);
    assert!(matches!(state, TokenState::Normal));
    assert_eq!(second.syntax[0], TokenType::MlComment);
    let last = second.len() - 1;
    assert_eq!(second.syntax[last], TokenType::Normal);
}

#[test]
fn strings_quote_and_escape() {
    let syntax = ruleset();
    let mut row = Row::from_str("a \"s\" b");
    let mut state = TokenState::Normal;
    row.update_syntax(&syntax, &mut state);
    assert_eq!(row.syntax[2], TokenType::String); // opening quote
    assert_eq!(row.syntax[3], TokenType::String); // s
    assert_eq!(row.syntax[4], TokenType::String); // closing quote
    assert_eq!(row.syntax[6], TokenType::Normal); // b
    assert!(matches!(state, TokenState::Normal));
}

#[test]
fn ini_lines_may_end_with_carriage_returns() {
    let sc = match Syntax::from_ini("x.ini", "name=N\r\nhighlight_numbers=true\r\n") {
        Ok((sc, _)) => sc,
        Err(e) => panic!("a CRLF ruleset must parse: {}", e.message()),
    };
    assert_eq!(sc.name, "N");
    assert!(sc.highlight_numbers);
}

use serialplotter::value_parsing::{DataValue, ParseError, Parser, ParsingResult};

fn number(v: &DataValue) -> f64 {
    v.value.parse::<f64>().unwrap()
}

fn feed_line(parser: &mut Parser, data: &str) -> Vec<ParsingResult> {
    data.bytes().map(|b| parser.parse(b)).collect()
}

#[test]
fn simple_test() {
    let mut parser = Parser::new();
    for byte in "X:0,Y:0".bytes() {
        assert_eq!(parser.parse(byte), ParsingResult::Pending);
    }
    let values = parser.finish().unwrap();
    assert_eq!(values.len(), 2);
    assert_eq!(values[0].name, "X");
    assert_eq!(number(&values[0]), 0.0);
    assert_eq!(values[1].name, "Y");
    assert_eq!(number(&values[1]), 0.0);
}

#[test]
fn should_parse_data_without_names() {
    let mut parser = Parser::new();
    for byte in "0,0".bytes() {
        assert_eq!(parser.parse(byte), ParsingResult::Pending);
    }
    let values = parser.finish().unwrap();
    assert_eq!(values.len(), 2);
    assert_eq!(values[0].name, "0");
    assert_eq!(number(&values[0]), 0.0);
    assert_eq!(values[1].name, "1");
    assert_eq!(number(&values[1]), 0.0);
}

#[test]
fn multi_line_test() {
    let data = b"0,0\n1,1";
    let mut parser = Parser::new();

    for byte in &data[..3] {
        assert_eq!(parser.parse(*byte), ParsingResult::Pending);
    }

    match parser.parse(data[3]) {
        ParsingResult::Line(values) => {
            assert_eq!(values.len(), 2);
            assert_eq!(values[0].name, "0");
            assert_eq!(number(&values[0]), 0.0);
            assert_eq!(values[1].name, "1");
            assert_eq!(number(&values[1]), 0.0);
        }
        other => panic!("expected a line, got {:?}", other),
    }

    for byte in &data[4..] {
        assert_eq!(parser.parse(*byte), ParsingResult::Pending);
    }

    let values = parser.finish().unwrap();
    assert_eq!(values.len(), 2);
    assert_eq!(values[0].name, "0");
    assert_eq!(number(&values[0]), 1.0);
    assert_eq!(values[1].name, "1");
    assert_eq!(number(&values[1]), 1.0);
}

#[test]
fn named_line_in_order() {
    let mut parser = Parser::new();
    let results = feed_line(&mut parser, "X:0,Y:0\n");
    let expected = vec![
        DataValue { name: "X".to_string(), value: "0".to_string() },
        DataValue { name: "Y".to_string(), value: "0".to_string() },
    ];
    assert_eq!(results.last(), Some(&ParsingResult::Line(expected)));
    for r in &results[..results.len() - 1] {
        assert_eq!(*r, ParsingResult::Pending);
    }
}

#[test]
fn two_lines_reset_between() {
    let mut parser = Parser::new();
    let first = feed_line(&mut parser, "0,0\n");
    let second = feed_line(&mut parser, "1,1\n");
    let line = |a: &str, b: &str| {
        ParsingResult::Line(vec![
            DataValue { name: "0".to_string(), value: a.to_string() },
            DataValue { name: "1".to_string(), value: b.to_string() },
        ])
    };
    assert_eq!(first.last(), Some(&line("0", "0")));
    assert_eq!(second.last(), Some(&line("1", "1")));
}

#[test]
fn empty_line_gives_no_records() {
    let mut parser = Parser::new();
    assert_eq!(parser.parse(b'\n'), ParsingResult::Line(vec![]));
}

#[test]
fn malformed_token_does_not_block_the_rest() {
    let mut parser = Parser::new();
    let results = feed_line(&mut parser, "X:abc,Y:1\n");
    assert_eq!(results[5], ParsingResult::Error(ParseError::InvalidFormat));
    let expected = vec![DataValue { name: "Y".to_string(), value: "1".to_string() }];
    assert_eq!(results.last(), Some(&ParsingResult::Line(expected)));
}

#[test]
fn malformed_unnamed_token_keeps_positions_of_decoded_ones() {
    let mut parser = Parser::new();
    let results = feed_line(&mut parser, "abc,2.5\n");
    assert_eq!(results[3], ParsingResult::Error(ParseError::InvalidFormat));
    let expected = vec![DataValue { name: "0".to_string(), value: "2.5".to_string() }];
    assert_eq!(results.last(), Some(&ParsingResult::Line(expected)));
}

#[test]
fn malformed_last_token_is_dropped_from_its_line() {
    let mut parser = Parser::new();
    let results = feed_line(&mut parser, "1,x\n");
    let expected = vec![DataValue { name: "0".to_string(), value: "1".to_string() }];
    assert_eq!(results.last(), Some(&ParsingResult::Line(expected)));
}

#[test]
fn whitespace_is_dropped() {
    let mut parser = Parser::new();
    let results = feed_line(&mut parser, " temp :\t-1.5e3 , 7\n");
    let expected = vec![
        DataValue { name: "temp".to_string(), value: "-1.5e3".to_string() },
        DataValue { name: "1".to_string(), value: "7".to_string() },
    ];
    assert_eq!(results.last(), Some(&ParsingResult::Line(expected)));
    assert_eq!(number(&DataValue { name: String::new(), value: "-1.5e3".to_string() }), -1500.0);
}

#[test]
fn second_colon_makes_token_invalid() {
    let mut parser = Parser::new();
    let results = feed_line(&mut parser, "a:b:1,c:2\n");
    assert_eq!(results[5], ParsingResult::Error(ParseError::InvalidFormat));
    let expected = vec![DataValue { name: "c".to_string(), value: "2".to_string() }];
    assert_eq!(results.last(), Some(&ParsingResult::Line(expected)));
}

#[test]
fn empty_name_gets_position() {
    let mut parser = Parser::new();
    let results = feed_line(&mut parser, "X:1,:2\n");
    let expected = vec![
        DataValue { name: "X".to_string(), value: "1".to_string() },
        DataValue { name: "1".to_string(), value: "2".to_string() },
    ];
    assert_eq!(results.last(), Some(&ParsingResult::Line(expected)));
}

#[test]
fn empty_token_before_comma_is_invalid() {
    let mut parser = Parser::new();
    assert_eq!(parser.parse(b','), ParsingResult::Error(ParseError::InvalidFormat));
}

#[test]
fn trailing_comma_keeps_line() {
    let mut parser = Parser::new();
    let results = feed_line(&mut parser, "1,2,\n");
    let expected = vec![
        DataValue { name: "0".to_string(), value: "1".to_string() },
        DataValue { name: "1".to_string(), value: "2".to_string() },
    ];
    assert_eq!(results.last(), Some(&ParsingResult::Line(expected)));
}

#[test]
fn many_positions_have_decimal_names() {
    let mut parser = Parser::new();
    let line: Vec<String> = (0..12).map(|i| i.to_string()).collect();
    let text = format!("{}\n", line.join(","));
    let results = feed_line(&mut parser, &text);
    match results.last() {
        Some(ParsingResult::Line(values)) => {
            assert_eq!(values.len(), 12);
            for (i, v) in values.iter().enumerate() {
                assert_eq!(v.name, i.to_string());
                assert_eq!(number(v), i as f64);
            }
        }
        other => panic!("expected a line, got {:?}", other),
    }
}

#[test]
fn parsing_result_from_result() {
    let ok: Result<Vec<DataValue>, ParseError> = Ok(vec![]);
    assert_eq!(ParsingResult::from(ok), ParsingResult::Line(vec![]));
    let err: Result<Vec<DataValue>, ParseError> = Err(ParseError::InvalidFormat);
    assert_eq!(ParsingResult::from(err), ParsingResult::Error(ParseError::InvalidFormat));
}

#[test]
fn send_error_means_channel_closed() {
    let e = crossbeam::channel::SendError(DataValue { name: "a".to_string(), value: "1".to_string() });
    assert_eq!(ParseError::from(e), ParseError::ChannelClosed);
}

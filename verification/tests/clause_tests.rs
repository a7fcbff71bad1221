use hurl_core::ast::Comment;
use hurl_core::ast::EntryOption;
use hurl_core::ast::Expr;
use hurl_core::ast::Filename;
use hurl_core::ast::Float;
use hurl_core::ast::LineTerminator;
use hurl_core::ast::OptionKind;
use hurl_core::ast::Retry;
use hurl_core::ast::SourceInfo;
use hurl_core::ast::Template;
use hurl_core::ast::TemplateElement;
use hurl_core::ast::Variable;
use hurl_core::ast::VariableDefinition;
use hurl_core::ast::VariableValue;
use hurl_core::ast::Whitespace;
use hurl_core::clause::parse;
use hurl_core::clause::variable_definition;
use hurl_core::clause::variable_value;
use hurl_core::reader::Pos;
use hurl_core::reader::Reader;

#[test]
fn test_option_insecure() {
    let mut reader = Reader::new("insecure: true");
    let option = parse(&mut reader).unwrap();
    assert_eq!(
        option,
        EntryOption {
            line_terminators: vec![],
            space0: Whitespace {
                value: String::new(),
                source_info: SourceInfo {
                    start: Pos { line: 1, column: 1 },
                    end: Pos { line: 1, column: 1 },
                },
            },
            space1: Whitespace {
                value: String::new(),
                source_info: SourceInfo {
                    start: Pos { line: 1, column: 9 },
                    end: Pos { line: 1, column: 9 },
                },
            },
            space2: Whitespace {
                value: " ".to_string(),
                source_info: SourceInfo {
                    start: Pos { line: 1, column: 10 },
                    end: Pos { line: 1, column: 11 },
                },
            },
            kind: OptionKind::Insecure(true),
            line_terminator0: LineTerminator {
                space0: Whitespace {
                    value: String::new(),
                    source_info: SourceInfo {
                        start: Pos { line: 1, column: 15 },
                        end: Pos { line: 1, column: 15 },
                    },
                },
                comment: None,
                newline: Whitespace {
                    value: String::new(),
                    source_info: SourceInfo {
                        start: Pos { line: 1, column: 15 },
                        end: Pos { line: 1, column: 15 },
                    },
                },
            },
        }
    );
}

#[test]
fn test_option_insecure_error() {
    let mut reader = Reader::new("insecure: error");
    let error = parse(&mut reader).err().unwrap();
    assert!(!error.recoverable)
}

#[test]
fn test_option_cacert() {
    let mut reader = Reader::new("cacert: /home/foo/cert.pem");
    let option = parse(&mut reader).unwrap();
    assert_eq!(
        option,
        EntryOption {
            line_terminators: vec![],
            space0: Whitespace {
                value: String::new(),
                source_info: SourceInfo {
                    start: Pos { line: 1, column: 1 },
                    end: Pos { line: 1, column: 1 },
                },
            },
            space1: Whitespace {
                value: String::new(),
                source_info: SourceInfo {
                    start: Pos { line: 1, column: 7 },
                    end: Pos { line: 1, column: 7 },
                },
            },
            space2: Whitespace {
                value: " ".to_string(),
                source_info: SourceInfo {
                    start: Pos { line: 1, column: 8 },
                    end: Pos { line: 1, column: 9 },
                },
            },
            kind: OptionKind::CaCertificate(Filename {
                value: "/home/foo/cert.pem".to_string(),
                source_info: SourceInfo {
                    start: Pos { line: 1, column: 9 },
                    end: Pos { line: 1, column: 27 },
                },
            }),
            line_terminator0: LineTerminator {
                space0: Whitespace {
                    value: String::new(),
                    source_info: SourceInfo {
                        start: Pos { line: 1, column: 27 },
                        end: Pos { line: 1, column: 27 },
                    },
                },
                comment: None,
                newline: Whitespace {
                    value: String::new(),
                    source_info: SourceInfo {
                        start: Pos { line: 1, column: 27 },
                        end: Pos { line: 1, column: 27 },
                    },
                },
            },
        }
    );
}

#[test]
fn test_option_cacert_error() {
    let mut reader = Reader::new("cacert: ###");
    let error = parse(&mut reader).err().unwrap();
    assert!(!error.recoverable)
}

#[test]
fn test_variable_definition() {
    let mut reader = Reader::new("a=1");
    assert_eq!(
        variable_definition(&mut reader).unwrap(),
        VariableDefinition {
            name: "a".to_string(),
            space0: Whitespace {
                value: String::new(),
                source_info: SourceInfo {
                    start: Pos { line: 1, column: 2 },
                    end: Pos { line: 1, column: 2 },
                },
            },
            space1: Whitespace {
                value: String::new(),
                source_info: SourceInfo {
                    start: Pos { line: 1, column: 3 },
                    end: Pos { line: 1, column: 3 },
                },
            },
            value: VariableValue::Integer(1),
        }
    );
}

#[test]
fn test_variable_value() {
    let mut reader = Reader::new("null");
    assert_eq!(variable_value(&mut reader).unwrap(), VariableValue::Null);

    let mut reader = Reader::new("true");
    assert_eq!(variable_value(&mut reader).unwrap(), VariableValue::Bool(true));

    let mut reader = Reader::new("1");
    assert_eq!(variable_value(&mut reader).unwrap(), VariableValue::Integer(1));

    let mut reader = Reader::new("toto");
    assert_eq!(
        variable_value(&mut reader).unwrap(),
        VariableValue::String(Template {
            delimiter: None,
            elements: vec![TemplateElement::String {
                value: "toto".to_string(),
                encoded: "toto".to_string(),
            }],
            source_info: SourceInfo {
                start: Pos { line: 1, column: 1 },
                end: Pos { line: 1, column: 5 },
            },
        })
    );
    let mut reader = Reader::new("\"123\"");
    assert_eq!(
        variable_value(&mut reader).unwrap(),
        VariableValue::String(Template {
            delimiter: Some('"'),
            elements: vec![TemplateElement::String {
                value: "123".to_string(),
                encoded: "123".to_string(),
            }],
            source_info: SourceInfo {
                start: Pos { line: 1, column: 1 },
                end: Pos { line: 1, column: 6 },
            },
        })
    );
}

#[test]
fn test_unknown_keyword_is_recoverable() {
    let mut reader = Reader::new("unknown: true");
    let error = parse(&mut reader).err().unwrap();
    assert!(error.recoverable);
    assert_eq!(error.pos, Pos { line: 1, column: 1 });
}

#[test]
fn test_missing_colon_is_recoverable() {
    let mut reader = Reader::new("insecure true");
    let error = parse(&mut reader).err().unwrap();
    assert!(error.recoverable);
}

#[test]
fn test_empty_input_is_recoverable() {
    let mut reader = Reader::new("");
    let error = parse(&mut reader).err().unwrap();
    assert!(error.recoverable);
}

#[test]
fn test_committed_value_failure_is_fatal() {
    let mut reader = Reader::new("retry: xx");
    let error = parse(&mut reader).err().unwrap();
    assert!(!error.recoverable);

    let mut reader = Reader::new("delay: x");
    let error = parse(&mut reader).err().unwrap();
    assert!(!error.recoverable);

    let mut reader = Reader::new("aws-sigv4: ");
    let error = parse(&mut reader).err().unwrap();
    assert!(!error.recoverable);
}

#[test]
fn test_retry_sentinels() {
    let mut reader = Reader::new("retry: -1");
    assert_eq!(parse(&mut reader).unwrap().kind, OptionKind::Retry(Retry::Infinite));

    let mut reader = Reader::new("retry: 0");
    assert_eq!(parse(&mut reader).unwrap().kind, OptionKind::Retry(Retry::Never));

    let mut reader = Reader::new("retry: 5");
    assert_eq!(parse(&mut reader).unwrap().kind, OptionKind::Retry(Retry::Finite(5)));
}

#[test]
fn test_retry_below_minus_one_is_fatal() {
    let mut reader = Reader::new("retry: -2");
    let error = parse(&mut reader).err().unwrap();
    assert!(!error.recoverable);
}

#[test]
fn test_retry_minus_zero_reads_as_never() {
    let mut reader = Reader::new("retry: -0");
    assert_eq!(parse(&mut reader).unwrap().kind, OptionKind::Retry(Retry::Never));
}

#[test]
fn test_resolve_accepts_only_with_colon() {
    let mut reader = Reader::new("resolve: example.com:8080:127.0.0.1");
    match parse(&mut reader).unwrap().kind {
        OptionKind::Resolve(value) => {
            assert_eq!(value, "example.com:8080:127.0.0.1");
            assert!(value.contains(':'));
        }
        other => panic!("expected a resolve clause, got {:?}", other),
    }

    let mut reader = Reader::new("resolve: nocolon");
    let error = parse(&mut reader).err().unwrap();
    assert!(!error.recoverable);
}

#[test]
fn test_connect_to_accepts_only_with_colon() {
    let mut reader = Reader::new("connect-to: a.com:80:b.com:8080");
    assert_eq!(
        parse(&mut reader).unwrap().kind,
        OptionKind::ConnectTo("a.com:80:b.com:8080".to_string())
    );

    let mut reader = Reader::new("connect-to: nocolon");
    let error = parse(&mut reader).err().unwrap();
    assert!(!error.recoverable);
}

#[test]
fn test_variable_value_precedence_extras() {
    let mut reader = Reader::new("false");
    assert_eq!(variable_value(&mut reader).unwrap(), VariableValue::Bool(false));

    let mut reader = Reader::new("-1");
    assert_eq!(variable_value(&mut reader).unwrap(), VariableValue::Integer(-1));

    let mut reader = Reader::new("1.5");
    assert_eq!(
        variable_value(&mut reader).unwrap(),
        VariableValue::Float(Float { negative: false, whole: 1, fraction: "5".to_string() })
    );
}

#[test]
fn test_quoted_template_escape() {
    let mut reader = Reader::new("\"a\\nb\"");
    assert_eq!(
        variable_value(&mut reader).unwrap(),
        VariableValue::String(Template {
            delimiter: Some('"'),
            elements: vec![TemplateElement::String {
                value: "a\nb".to_string(),
                encoded: "a\\nb".to_string(),
            }],
            source_info: SourceInfo {
                start: Pos { line: 1, column: 1 },
                end: Pos { line: 1, column: 7 },
            },
        })
    );
}

#[test]
fn test_template_expression() {
    let mut reader = Reader::new("{{name}}");
    assert_eq!(
        variable_value(&mut reader).unwrap(),
        VariableValue::String(Template {
            delimiter: None,
            elements: vec![TemplateElement::Expression(Expr {
                space0: Whitespace {
                    value: String::new(),
                    source_info: SourceInfo {
                        start: Pos { line: 1, column: 3 },
                        end: Pos { line: 1, column: 3 },
                    },
                },
                variable: Variable {
                    name: "name".to_string(),
                    source_info: SourceInfo {
                        start: Pos { line: 1, column: 3 },
                        end: Pos { line: 1, column: 7 },
                    },
                },
                space1: Whitespace {
                    value: String::new(),
                    source_info: SourceInfo {
                        start: Pos { line: 1, column: 7 },
                        end: Pos { line: 1, column: 7 },
                    },
                },
            })],
            source_info: SourceInfo {
                start: Pos { line: 1, column: 1 },
                end: Pos { line: 1, column: 9 },
            },
        })
    );
}

#[test]
fn test_trivia_round_trips() {
    let input = "  insecure  :  true \t# ok\n";
    let mut reader = Reader::new(input);
    let option = parse(&mut reader).unwrap();
    assert_eq!(option.kind, OptionKind::Insecure(true));
    let comment = match &option.line_terminator0.comment {
        Some(c) => format!("#{}", c.value),
        None => String::new(),
    };
    let rebuilt = format!(
        "{}insecure{}:{}true{}{}{}",
        option.space0.value,
        option.space1.value,
        option.space2.value,
        option.line_terminator0.space0.value,
        comment,
        option.line_terminator0.newline.value,
    );
    assert_eq!(rebuilt, input);
}

#[test]
fn test_leading_line_terminators_are_kept() {
    let input = "\n# note\ninsecure: false";
    let mut reader = Reader::new(input);
    let option = parse(&mut reader).unwrap();
    assert_eq!(option.kind, OptionKind::Insecure(false));
    assert_eq!(option.line_terminators.len(), 2);
    assert_eq!(
        option.line_terminators[1].comment,
        Some(Comment { value: " note".to_string() })
    );
}

#[test]
fn test_numeric_options() {
    let mut reader = Reader::new("delay: 10");
    assert_eq!(parse(&mut reader).unwrap().kind, OptionKind::Delay(10));

    let mut reader = Reader::new("retry-interval: 3000");
    assert_eq!(parse(&mut reader).unwrap().kind, OptionKind::RetryInterval(3000));

    let mut reader = Reader::new("max-redirs: 27");
    assert_eq!(parse(&mut reader).unwrap().kind, OptionKind::MaxRedirect(27));
}

#[test]
fn test_leading_zero_is_fatal() {
    let mut reader = Reader::new("delay: 007");
    let error = parse(&mut reader).err().unwrap();
    assert!(!error.recoverable);
}

#[test]
fn test_natural_overflow_is_fatal() {
    let mut reader = Reader::new("delay: 99999999999999999999");
    let error = parse(&mut reader).err().unwrap();
    assert!(!error.recoverable);
}

#[test]
fn test_string_valued_options() {
    let mut reader = Reader::new("aws-sigv4: aws:amz:sts");
    assert_eq!(parse(&mut reader).unwrap().kind, OptionKind::AwsSigV4("aws:amz:sts".to_string()));

    let mut reader = Reader::new("proxy: localhost:3128");
    assert_eq!(parse(&mut reader).unwrap().kind, OptionKind::Proxy("localhost:3128".to_string()));
}

#[test]
fn test_variable_option() {
    let mut reader = Reader::new("variable: host=example.net");
    match parse(&mut reader).unwrap().kind {
        OptionKind::Variable(definition) => {
            assert_eq!(definition.name, "host");
            match definition.value {
                VariableValue::String(template) => {
                    assert_eq!(template.delimiter, None);
                    assert_eq!(
                        template.elements,
                        vec![TemplateElement::String {
                            value: "example.net".to_string(),
                            encoded: "example.net".to_string(),
                        }]
                    );
                }
                other => panic!("expected a string value, got {:?}", other),
            }
        }
        other => panic!("expected a variable clause, got {:?}", other),
    }
}

#[test]
fn test_boolean_options_dispatch() {
    let cases: Vec<(&str, OptionKind)> = vec![
        ("compressed: true", OptionKind::Compressed(true)),
        ("location: true", OptionKind::FollowLocation(true)),
        ("http1.0: false", OptionKind::Http10(false)),
        ("http1.1: true", OptionKind::Http11(true)),
        ("http2: true", OptionKind::Http2(true)),
        ("http3: false", OptionKind::Http3(false)),
        ("ipv4: true", OptionKind::IpV4(true)),
        ("ipv6: false", OptionKind::IpV6(false)),
        ("path-as-is: true", OptionKind::PathAsIs(true)),
        ("verbose: true", OptionKind::Verbose(true)),
        ("very-verbose: false", OptionKind::VeryVerbose(false)),
        ("cert: /tmp/client.pem", OptionKind::ClientCert(Filename {
            value: "/tmp/client.pem".to_string(),
            source_info: SourceInfo {
                start: Pos { line: 1, column: 7 },
                end: Pos { line: 1, column: 22 },
            },
        })),
        ("key: /tmp/client.key", OptionKind::ClientKey(Filename {
            value: "/tmp/client.key".to_string(),
            source_info: SourceInfo {
                start: Pos { line: 1, column: 6 },
                end: Pos { line: 1, column: 21 },
            },
        })),
    ];
    for (input, expected) in cases {
        let mut reader = Reader::new(input);
        assert_eq!(parse(&mut reader).unwrap().kind, expected);
    }
}

#[test]
fn test_negative_float_value() {
    let mut reader = Reader::new("-0.5");
    assert_eq!(
        variable_value(&mut reader).unwrap(),
        VariableValue::Float(Float { negative: true, whole: 0, fraction: "5".to_string() })
    );
}

#[test]
fn test_empty_quoted_template() {
    let mut reader = Reader::new("\"\"");
    assert_eq!(
        variable_value(&mut reader).unwrap(),
        VariableValue::String(Template {
            delimiter: Some('"'),
            elements: vec![],
            source_info: SourceInfo {
                start: Pos { line: 1, column: 1 },
                end: Pos { line: 1, column: 3 },
            },
        })
    );
}

#[test]
fn test_trailing_garbage_is_fatal() {
    let mut reader = Reader::new("insecure: truex");
    let error = parse(&mut reader).err().unwrap();
    assert!(!error.recoverable);

    let mut reader = Reader::new("delay: 1.5");
    let error = parse(&mut reader).err().unwrap();
    assert!(!error.recoverable);
}

#[test]
fn test_variable_value_no_alternative_is_fatal() {
    let mut reader = Reader::new("");
    let error = variable_value(&mut reader).err().unwrap();
    assert!(!error.recoverable);
    assert_eq!(error.pos, Pos { line: 1, column: 1 });
    match error.kind {
        hurl_core::error::ParseErrorKind::Expecting { value } => {
            assert_eq!(value, "variable value");
        }
        other => panic!("expected an expecting cause, got {:?}", other),
    }
}

use text_transform::Data;
use text_transform::Encoding;
use text_transform::Transformer;

fn text(s: &str) -> Data {
    Data::Text(s.to_string())
}

fn error(s: &str) -> Data {
    Data::Error(s.to_string())
}

fn test_transformer(transformer: &Transformer, input: Data, expected_output: Data) {
    assert_eq!(transformer.transform(&input), expected_output);
}

fn every_transformer() -> Vec<Transformer> {
    vec![
        Transformer::Split { pattern: " ".into() },
        Transformer::Join { separator: " ".into() },
        Transformer::Find { pattern: "a".into() },
        Transformer::Replace { pattern: "a".into(), replacer: "b".into() },
        Transformer::Slice { from: 0, to: 3 },
        Transformer::Encode { encoding: Encoding::Base64 },
        Transformer::Encode { encoding: Encoding::Base64UrlSafe },
        Transformer::Encode { encoding: Encoding::URL },
        Transformer::Decode { encoding: Encoding::Base64 },
        Transformer::Decode { encoding: Encoding::Base64UrlSafe },
        Transformer::Decode { encoding: Encoding::URL },
        Transformer::Uppercase,
        Transformer::Lowercase,
    ]
}

#[test]
fn test_split() {
    let transformer = Transformer::Split {
        pattern: " ".into(),
    };

    test_transformer(
        &transformer,
        Data::Text("Sample Text".into()),
        Data::List(vec![Data::Text("Sample".into()), Data::Text("Text".into())]),
    );

    test_transformer(
        &transformer,
        Data::List(vec![
            Data::Text("Sample Text".into()),
            Data::Text("Another Sample Text".into()),
        ]),
        Data::List(vec![
            Data::List(vec![Data::Text("Sample".into()), Data::Text("Text".into())]),
            Data::List(vec![
                Data::Text("Another".into()),
                Data::Text("Sample".into()),
                Data::Text("Text".into()),
            ]),
        ]),
    );
}

#[test]
fn test_join() {
    let transformer = Transformer::Join {
        separator: " ".into(),
    };

    test_transformer(
        &transformer,
        Data::List(vec![Data::Text("Sample".into()), Data::Text("Text".into())]),
        Data::Text("Sample Text".into()),
    );

    test_transformer(
        &transformer,
        Data::List(vec![
            Data::List(vec![Data::Text("Sample".into()), Data::Text("Text".into())]),
            Data::List(vec![
                Data::Text("Another".into()),
                Data::Text("Sample".into()),
                Data::Text("Text".into()),
            ]),
        ]),
        Data::Text("Sample Text Another Sample Text".into()),
    );
}

#[test]
fn test_find() {
    let transformer = Transformer::Find {
        pattern: "Text".into(),
    };

    test_transformer(
        &transformer,
        Data::Text("Sample Text".into()),
        Data::List(vec![Data::Text("Text".into())]),
    );

    test_transformer(
        &transformer,
        Data::List(vec![
            Data::Text("Sample Text".into()),
            Data::Text("Another Sample Text".into()),
        ]),
        Data::List(vec![
            Data::List(vec![Data::Text("Text".into())]),
            Data::List(vec![Data::Text("Text".into())]),
        ]),
    );
}

#[test]
fn test_replace() {
    let transformer = Transformer::Replace {
        pattern: "Sample".into(),
        replacer: "Test".into(),
    };

    test_transformer(
        &transformer,
        Data::Text("Sample Text".into()),
        Data::Text("Test Text".into()),
    );

    test_transformer(
        &transformer,
        Data::List(vec![
            Data::Text("Sample Text".into()),
            Data::Text("Another Sample Text".into()),
        ]),
        Data::List(vec![
            Data::Text("Test Text".into()),
            Data::Text("Another Test Text".into()),
        ]),
    );
}

#[test]
fn test_slice() {
    let transformer = Transformer::Slice { from: 1, to: 6 };

    test_transformer(
        &transformer,
        Data::Text("Sample Text".into()),
        Data::Text("ample".into()),
    );

    test_transformer(
        &transformer,
        Data::List(vec![
            Data::Text("Sample Text".into()),
            Data::Text("Another Sample Text".into()),
        ]),
        Data::List(vec![Data::Text("ample".into()), Data::Text("nothe".into())]),
    );
}

#[test]
fn test_uppercase() {
    let transformer = Transformer::Uppercase;

    test_transformer(
        &transformer,
        Data::Text("Sample Text".into()),
        Data::Text("SAMPLE TEXT".into()),
    );

    test_transformer(
        &transformer,
        Data::List(vec![Data::Text("Sample".into()), Data::Text("Text".into())]),
        Data::List(vec![Data::Text("SAMPLE".into()), Data::Text("TEXT".into())]),
    );
}

#[test]
fn test_lowercase() {
    let transformer = Transformer::Lowercase;

    test_transformer(
        &transformer,
        Data::Text("Sample Text".into()),
        Data::Text("sample text".into()),
    );

    test_transformer(
        &transformer,
        Data::List(vec![Data::Text("Sample".into()), Data::Text("Text".into())]),
        Data::List(vec![Data::Text("sample".into()), Data::Text("text".into())]),
    );
}

#[test]
fn list_is_mapped_element_by_element() {
    let items = vec![
        text("Sample Text"),
        Data::List(vec![text("a b"), error("gone"), Data::List(vec![])]),
        error("lost"),
        text(""),
    ];
    for transformer in every_transformer() {
        if let Transformer::Join { .. } = transformer {
            continue;
        }
        let expected: Vec<Data> = items.iter().map(|item| transformer.transform(item)).collect();
        assert_eq!(
            transformer.transform(&Data::List(items.clone())),
            Data::List(expected)
        );
    }
}

#[test]
fn empty_list_stays_empty_but_for_join() {
    for transformer in every_transformer() {
        let out = transformer.transform(&Data::List(vec![]));
        if let Transformer::Join { .. } = transformer {
            assert_eq!(out, text(""));
        } else {
            assert_eq!(out, Data::List(vec![]));
        }
    }
}

#[test]
fn error_in_gives_input_error() {
    for transformer in every_transformer() {
        assert_eq!(transformer.transform(&error("anything")), error("Input error"));
        assert_eq!(transformer.transform(&error("")), error("Input error"));
        assert_eq!(
            transformer.transform(&error("Input error")),
            error("Input error")
        );
    }
}

#[test]
fn uppercase_twice_is_uppercase_once() {
    let inputs = vec![
        text("Sample Text"),
        text("straße ŉ ǆ ﬁ"),
        Data::List(vec![text("a"), error("e"), Data::List(vec![text("ß")])]),
        error("x"),
    ];
    for input in inputs {
        let once = Transformer::Uppercase.transform(&input);
        assert_eq!(Transformer::Uppercase.transform(&once), once);
    }
}

#[test]
fn lowercase_twice_is_lowercase_once() {
    let inputs = vec![
        text("Sample Text"),
        text("ΟΔΟΣ İstanbul ǅ"),
        Data::List(vec![text("A"), error("E"), Data::List(vec![text("Σ")])]),
        error("X"),
    ];
    for input in inputs {
        let once = Transformer::Lowercase.transform(&input);
        assert_eq!(Transformer::Lowercase.transform(&once), once);
    }
}

#[test]
fn case_mapping_settles_on_every_character() {
    let mut all = String::new();
    for c in '\0'..=char::MAX {
        all.push(c);
    }
    let upper = Transformer::Uppercase.transform(&Data::Text(all.clone()));
    assert_eq!(Transformer::Uppercase.transform(&upper), upper);
    let lower = Transformer::Lowercase.transform(&Data::Text(all));
    assert_eq!(Transformer::Lowercase.transform(&lower), lower);
}

#[test]
fn uppercase_is_unicode_aware() {
    test_transformer(&Transformer::Uppercase, text("straße"), text("STRASSE"));
    test_transformer(&Transformer::Lowercase, text("ÀÉÎ"), text("àéî"));
}

#[test]
fn decode_gives_back_what_encode_took() {
    let samples = ["", "f", "fo", "foo", "Sample Text", "a+b/c?d=e&f%g", ">>>???", "héllo wörld ✓ 👾", "\0\u{7f}"];
    for encoding in [Encoding::Base64, Encoding::Base64UrlSafe, Encoding::URL] {
        for sample in samples {
            let encoded = Transformer::Encode { encoding }.transform(&text(sample));
            assert_eq!(
                Transformer::Decode { encoding }.transform(&encoded),
                text(sample)
            );
        }
    }
}

#[test]
fn join_flattens_nested_lists() {
    test_transformer(
        &Transformer::Join { separator: " ".into() },
        Data::List(vec![
            Data::List(vec![text("a"), text("b")]),
            Data::List(vec![text("c")]),
        ]),
        text("a b c"),
    );
}

#[test]
fn join_walks_every_depth_and_skips_empty_lists() {
    test_transformer(
        &Transformer::Join { separator: ", ".into() },
        Data::List(vec![
            text("a"),
            Data::List(vec![]),
            Data::List(vec![Data::List(vec![Data::List(vec![text("b")])]), text("")]),
            text("c"),
        ]),
        text("a, b, , c"),
    );
}

#[test]
fn join_of_one_text_has_no_separator() {
    test_transformer(
        &Transformer::Join { separator: "--".into() },
        Data::List(vec![text("only")]),
        text("only"),
    );
}

#[test]
fn join_leaves_a_text_as_it_is() {
    test_transformer(
        &Transformer::Join { separator: " ".into() },
        text("Sample Text"),
        text("Sample Text"),
    );
}

#[test]
fn join_meets_an_error_at_any_depth() {
    let join = Transformer::Join { separator: " ".into() };
    test_transformer(
        &join,
        Data::List(vec![text("a"), error("broken"), text("b")]),
        error("Input error"),
    );
    test_transformer(
        &join,
        Data::List(vec![text("a"), Data::List(vec![Data::List(vec![error("deep")])])]),
        error("Input error"),
    );
}

#[test]
fn split_then_join_restores_the_text() {
    let joined = Transformer::Join { separator: " ".into() }
        .transform(&Transformer::Split { pattern: " ".into() }.transform(&text("Sample Text")));
    assert_eq!(joined, text("Sample Text"));
    for (sample, pattern) in [
        ("a,b,,c", ","),
        (",a,", ","),
        ("aaa", "aa"),
        ("abc", ""),
        ("", ""),
        ("", "x"),
        ("no match here", "zz"),
        ("ééé", "é"),
    ] {
        let pieces = Transformer::Split { pattern: pattern.into() }.transform(&text(sample));
        assert_eq!(
            Transformer::Join { separator: pattern.into() }.transform(&pieces),
            text(sample)
        );
    }
}

#[test]
fn split_cuts_from_the_left_without_overlap() {
    test_transformer(
        &Transformer::Split { pattern: "aa".into() },
        text("aaa"),
        Data::List(vec![text(""), text("a")]),
    );
    test_transformer(
        &Transformer::Split { pattern: ",".into() },
        text(",a,,b,"),
        Data::List(vec![text(""), text("a"), text(""), text("b"), text("")]),
    );
}

#[test]
fn split_without_an_occurrence_gives_the_text() {
    test_transformer(
        &Transformer::Split { pattern: "z".into() },
        text("Sample Text"),
        Data::List(vec![text("Sample Text")]),
    );
    test_transformer(
        &Transformer::Split { pattern: "x".into() },
        text(""),
        Data::List(vec![text("")]),
    );
    test_transformer(
        &Transformer::Split { pattern: "longer than the text".into() },
        text("short"),
        Data::List(vec![text("short")]),
    );
}

#[test]
fn split_by_the_empty_pattern_cuts_at_every_character() {
    test_transformer(
        &Transformer::Split { pattern: "".into() },
        text("aé✓"),
        Data::List(vec![text(""), text("a"), text("é"), text("✓"), text("")]),
    );
    test_transformer(
        &Transformer::Split { pattern: "".into() },
        text(""),
        Data::List(vec![text(""), text("")]),
    );
}

#[test]
fn split_agrees_with_the_standard_library() {
    for (sample, pattern) in [
        ("Sample Text", " "),
        ("a,b,,c", ","),
        ("aaa", "aa"),
        ("abc", ""),
        ("", ""),
        ("", "x"),
        ("ééé", "é"),
        ("abababa", "aba"),
    ] {
        let expected: Vec<Data> = sample.split(pattern).map(text).collect();
        assert_eq!(
            Transformer::Split { pattern: pattern.into() }.transform(&text(sample)),
            Data::List(expected)
        );
    }
}

#[test]
fn find_gives_every_match_in_order() {
    test_transformer(
        &Transformer::Find { pattern: "[0-9]+".into() },
        text("a1bb22ccc333"),
        Data::List(vec![text("1"), text("22"), text("333")]),
    );
    test_transformer(
        &Transformer::Find { pattern: "z".into() },
        text("Sample Text"),
        Data::List(vec![]),
    );
}

#[test]
fn find_with_invalid_pattern() {
    test_transformer(
        &Transformer::Find { pattern: "(".into() },
        text("x"),
        error("Invalid pattern"),
    );
}

#[test]
fn replace_with_invalid_pattern() {
    test_transformer(
        &Transformer::Replace { pattern: "[".into(), replacer: "y".into() },
        text("x"),
        error("Invalid pattern"),
    );
}

#[test]
fn replace_changes_every_match_and_expands_groups() {
    test_transformer(
        &Transformer::Replace { pattern: "a".into(), replacer: "b".into() },
        text("banana"),
        text("bbnbnb"),
    );
    test_transformer(
        &Transformer::Replace { pattern: "(\\w+) (\\w+)".into(), replacer: "$2 $1".into() },
        text("Sample Text"),
        text("Text Sample"),
    );
}

#[test]
fn slice_brings_the_bounds_down_to_the_length() {
    test_transformer(&Transformer::Slice { from: 7, to: 100 }, text("Sample Text"), text("Text"));
    test_transformer(&Transformer::Slice { from: 50, to: 100 }, text("Sample Text"), text(""));
    test_transformer(&Transformer::Slice { from: 0, to: 0 }, text("Sample Text"), text(""));
    test_transformer(&Transformer::Slice { from: 0, to: 11 }, text("Sample Text"), text("Sample Text"));
    test_transformer(&Transformer::Slice { from: 0, to: usize::MAX }, text(""), text(""));
}

#[test]
fn slice_with_bounds_out_of_order_is_empty() {
    test_transformer(&Transformer::Slice { from: 6, to: 1 }, text("Sample Text"), text(""));
    test_transformer(&Transformer::Slice { from: 100, to: 3 }, text("Sample Text"), text(""));
    test_transformer(&Transformer::Slice { from: 2, to: 1 }, text("é"), text(""));
}

#[test]
fn slice_counts_bytes() {
    test_transformer(&Transformer::Slice { from: 1, to: 3 }, text("hé!"), text("é"));
    test_transformer(&Transformer::Slice { from: 3, to: 4 }, text("hé!"), text("!"));
}

#[test]
fn slice_inside_a_character_is_an_error() {
    test_transformer(
        &Transformer::Slice { from: 0, to: 2 },
        text("hé!"),
        error("Invalid slice bounds"),
    );
    test_transformer(
        &Transformer::Slice { from: 2, to: 4 },
        text("hé!"),
        error("Invalid slice bounds"),
    );
}

#[test]
fn encode_base64_in_both_alphabets() {
    test_transformer(
        &Transformer::Encode { encoding: Encoding::Base64 },
        text("hello"),
        text("aGVsbG8="),
    );
    test_transformer(
        &Transformer::Encode { encoding: Encoding::Base64 },
        text(">>>???"),
        text("Pj4+Pz8/"),
    );
    test_transformer(
        &Transformer::Encode { encoding: Encoding::Base64UrlSafe },
        text(">>>???"),
        text("Pj4-Pz8_"),
    );
    test_transformer(
        &Transformer::Encode { encoding: Encoding::Base64UrlSafe },
        text("f"),
        text("Zg=="),
    );
}

#[test]
fn encode_url_escapes_all_but_unreserved_bytes() {
    test_transformer(
        &Transformer::Encode { encoding: Encoding::URL },
        text("This string will be URL encoded."),
        text("This%20string%20will%20be%20URL%20encoded."),
    );
    test_transformer(
        &Transformer::Encode { encoding: Encoding::URL },
        text("a-b_c.d~e/f+g é"),
        text("a-b_c.d~e%2Ff%2Bg%20%C3%A9"),
    );
}

#[test]
fn decode_base64_in_both_alphabets() {
    test_transformer(
        &Transformer::Decode { encoding: Encoding::Base64 },
        text("Pj4+Pz8/"),
        text(">>>???"),
    );
    test_transformer(
        &Transformer::Decode { encoding: Encoding::Base64UrlSafe },
        text("Pj4-Pz8_"),
        text(">>>???"),
    );
}

#[test]
fn decode_base64_replaces_what_is_no_utf8() {
    test_transformer(
        &Transformer::Decode { encoding: Encoding::Base64 },
        text("/w=="),
        text("\u{fffd}"),
    );
    test_transformer(
        &Transformer::Decode { encoding: Encoding::Base64UrlSafe },
        text("Yf9i"),
        text("a\u{fffd}b"),
    );
}

#[test]
fn decode_base64_tells_the_fault() {
    test_transformer(
        &Transformer::Decode { encoding: Encoding::Base64 },
        text("!!!!"),
        error("Invalid symbol 33, offset 0."),
    );
    test_transformer(
        &Transformer::Decode { encoding: Encoding::Base64 },
        text("Pj4-"),
        error("Invalid symbol 45, offset 3."),
    );
    test_transformer(
        &Transformer::Decode { encoding: Encoding::Base64UrlSafe },
        text("Pj4+"),
        error("Invalid symbol 43, offset 3."),
    );
}

#[test]
fn decode_url_reads_escapes_and_keeps_the_rest() {
    test_transformer(
        &Transformer::Decode { encoding: Encoding::URL },
        text("%F0%9F%91%BE%20Exterminate%21"),
        text("👾 Exterminate!"),
    );
    test_transformer(
        &Transformer::Decode { encoding: Encoding::URL },
        text("a+b%2fc%2Fd"),
        text("a+b/c/d"),
    );
    test_transformer(
        &Transformer::Decode { encoding: Encoding::URL },
        text("100%25 é"),
        text("100% é"),
    );
    test_transformer(&Transformer::Decode { encoding: Encoding::URL }, text(""), text(""));
}

#[test]
fn decode_url_refuses_a_malformed_escape() {
    for sample in [
        "%zz",
        "%",
        "%4",
        "100%",
        "this%2x%26that",
        "this%20that%2",
        "%%41",
        "%4%41",
        "100%é",
        "%G0",
        "%0g",
        "a%20b%",
    ] {
        test_transformer(
            &Transformer::Decode { encoding: Encoding::URL },
            text(sample),
            error("Invalid percent-escape"),
        );
    }
}

#[test]
fn decode_url_finds_the_malformed_escape_before_the_bytes_that_are_no_utf8() {
    test_transformer(
        &Transformer::Decode { encoding: Encoding::URL },
        text("%FF%zz"),
        error("Invalid percent-escape"),
    );
}

#[test]
fn decode_url_tells_where_the_bytes_are_no_utf8() {
    test_transformer(
        &Transformer::Decode { encoding: Encoding::URL },
        text("%FF"),
        error("invalid utf-8 sequence of 1 bytes from index 0"),
    );
}

#[test]
fn transform_leaves_its_input_as_it_was() {
    let input = Data::List(vec![text("Sample Text"), error("e")]);
    let copy = input.clone();
    for transformer in every_transformer() {
        let _ = transformer.transform(&input);
        assert_eq!(input, copy);
    }
}

#[test]
fn every_ordinary_input_is_admitted() {
    let input = Data::List(vec![text("Sample Text"), error("e"), Data::List(vec![text("")])]);
    for transformer in every_transformer() {
        assert!(transformer.admits(&input));
        assert!(transformer.admits_text("Sample Text"));
    }
}

#[test]
fn transform_text_is_the_rule_for_one_text() {
    for transformer in every_transformer() {
        assert_eq!(
            transformer.transform_text("Sample Text"),
            transformer.transform(&text("Sample Text"))
        );
    }
}

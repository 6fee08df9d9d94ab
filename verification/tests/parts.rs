use text_transform::codec::can_encode;
use text_transform::codec::decode;
use text_transform::codec::encode;
use text_transform::codec::is_hex_digit;
use text_transform::codec::is_well_escaped;
use text_transform::codec::text_of_bytes;
use text_transform::pattern::find;
use text_transform::pattern::replace;
use text_transform::text::char_width;
use text_transform::text::chars_of;
use text_transform::text::index_of;
use text_transform::text::part_between;
use text_transform::text::cut;
use text_transform::text::join;
use text_transform::text::split;
use text_transform::text::stands_at;
use text_transform::text::text_len;
use text_transform::text::Cut;
use text_transform::transform::collect;
use text_transform::transform::decoded_or_error;
use text_transform::transform::found_or_error;
use text_transform::transform::input_error_value;
use text_transform::transform::list_of_texts;
use text_transform::transform::replaced_or_error;
use text_transform::transform::slice_or_error;
use text_transform::Data;
use text_transform::Encoding;

fn strings(items: &[&str]) -> Vec<String> {
    items.iter().map(|s| s.to_string()).collect()
}

#[test]
fn text_len_counts_bytes_and_chars_of_counts_characters() {
    assert_eq!(text_len("héllo"), 6);
    assert_eq!(chars_of("héllo"), vec!['h', 'é', 'l', 'l', 'o']);
    assert_eq!(chars_of(""), Vec::<char>::new());
}

#[test]
fn char_width_is_the_length_of_the_utf8_form() {
    for c in ['\0', 'a', '\u{7f}', '\u{80}', 'é', '\u{7ff}', '\u{800}', '✓', '\u{ffff}', '\u{10000}', '👾', char::MAX] {
        assert_eq!(char_width(c), c.len_utf8());
    }
}

#[test]
fn index_of_gives_the_offset_of_every_position() {
    let (chars, starts) = index_of("hé✓👾!");
    assert_eq!(chars, vec!['h', 'é', '✓', '👾', '!']);
    assert_eq!(starts, vec![0, 1, 3, 6, 10, 11]);
    let (chars, starts) = index_of("");
    assert_eq!(chars, Vec::<char>::new());
    assert_eq!(starts, vec![0]);
}

#[test]
fn part_between_counts_characters() {
    let text = "hé✓👾!";
    let (_, starts) = index_of(text);
    assert_eq!(part_between(text, &starts, 0, 5), text);
    assert_eq!(part_between(text, &starts, 1, 3), "é✓");
    assert_eq!(part_between(text, &starts, 3, 4), "👾");
    assert_eq!(part_between(text, &starts, 2, 2), "");
    assert_eq!(part_between(text, &starts, 5, 5), "");
}

#[test]
fn stands_at_compares_in_place() {
    let text = chars_of("abcabc");
    let pattern = chars_of("bc");
    assert!(!stands_at(&text, &pattern, 0));
    assert!(stands_at(&text, &pattern, 1));
    assert!(stands_at(&text, &pattern, 4));
    assert!(stands_at(&text, &chars_of(""), 6));
}

#[test]
fn split_and_join_on_plain_strings() {
    assert_eq!(split("a,b,,c", ","), strings(&["a", "b", "", "c"]));
    assert_eq!(split("a--b", "--"), strings(&["a", "b"]));
    assert_eq!(join(&strings(&["a", "b", "", "c"]), ","), "a,b,,c");
    assert_eq!(join(&strings(&[]), ","), "");
    assert_eq!(join(&strings(&["a"]), ","), "a");
    assert_eq!(join(&strings(&["", ""]), ","), ",");
    assert_eq!(join(&strings(&["a", "b"]), ""), "ab");
}

#[test]
fn cut_tells_the_three_outcomes_apart() {
    assert!(matches!(cut("Sample Text", 1, 6), Cut::Part("ample")));
    assert!(matches!(cut("Sample Text", 6, 1), Cut::Nothing));
    assert!(matches!(cut("hé!", 0, 2), Cut::Broken));
    assert!(matches!(cut("hé!", 1, 3), Cut::Part("é")));
    assert!(matches!(cut("hé!", 3, 3), Cut::Part("")));
    assert!(matches!(cut("", 5, 9), Cut::Part("")));
}

#[test]
fn encode_and_decode_on_plain_strings() {
    assert_eq!(encode(Encoding::Base64, "foo"), "Zm9v");
    assert_eq!(encode(Encoding::Base64, "fo"), "Zm8=");
    assert_eq!(encode(Encoding::Base64UrlSafe, "fo"), "Zm8=");
    assert_eq!(encode(Encoding::URL, "this that"), "this%20that");
    assert_eq!(decode(Encoding::Base64, "Zm9v"), Ok("foo".to_string()));
    assert_eq!(decode(Encoding::Base64UrlSafe, "Zm8="), Ok("fo".to_string()));
    assert_eq!(decode(Encoding::Base64, "Zm8"), Err("Invalid padding".to_string()));
    assert_eq!(decode(Encoding::URL, "this%20that"), Ok("this that".to_string()));
    assert!(decode(Encoding::URL, "%F0%0F%91%BE").is_err());
}

#[test]
fn hexadecimal_digits_are_of_either_case() {
    for c in "0123456789abcdefABCDEF".chars() {
        assert!(is_hex_digit(c));
    }
    for c in ['g', 'G', '/', ':', '@', '`', '%', ' ', 'é', '٣'] {
        assert!(!is_hex_digit(c));
    }
}

#[test]
fn well_escaped_asks_two_digits_behind_every_percent_sign() {
    for sample in ["", "plain", "%20", "a%2Fb%2fc", "%e2%9C%93", "%25", "é%41"] {
        assert!(is_well_escaped(sample));
    }
    for sample in ["%", "%2", "a%", "a%2", "%zz", "%2z", "%z2", "%%20", "%20%", "%é1"] {
        assert!(!is_well_escaped(sample));
    }
}

#[test]
fn decode_tells_a_malformed_escape_from_bytes_that_are_no_utf8() {
    assert_eq!(decode(Encoding::URL, "%zz"), Err("Invalid percent-escape".to_string()));
    assert_eq!(
        decode(Encoding::URL, "%FF"),
        Err("invalid utf-8 sequence of 1 bytes from index 0".to_string())
    );
    assert_eq!(decode(Encoding::URL, "%41%zz"), Err("Invalid percent-escape".to_string()));
}

#[test]
fn every_text_that_fits_in_memory_can_be_encoded() {
    for encoding in [Encoding::Base64, Encoding::Base64UrlSafe, Encoding::URL] {
        assert!(can_encode(encoding, ""));
        assert!(can_encode(encoding, "Sample Text"));
    }
}

#[test]
fn text_of_bytes_keeps_a_fault_and_reads_bytes() {
    assert_eq!(text_of_bytes(Ok(vec![0x68, 0xc3, 0xa9])), Ok("hé".to_string()));
    assert_eq!(text_of_bytes(Ok(vec![0x68, 0xff])), Ok("h\u{fffd}".to_string()));
    assert_eq!(text_of_bytes(Ok(vec![])), Ok(String::new()));
    assert_eq!(text_of_bytes(Err("fault".to_string())), Err("fault".to_string()));
}

#[test]
fn find_and_replace_on_plain_strings() {
    assert_eq!(find("[a-z]+", "ab 12 cd"), Some(strings(&["ab", "cd"])));
    assert_eq!(find("(", "ab"), None);
    assert_eq!(find("", "ab"), Some(strings(&["", "", ""])));
    assert_eq!(replace("[0-9]", "a1b2", "#"), Some("a#b#".to_string()));
    assert_eq!(replace("(", "a1b2", "#"), None);
}

#[test]
fn outcomes_become_values() {
    let texts = |items: &[&str]| {
        Data::List(items.iter().map(|s| Data::Text(s.to_string())).collect())
    };
    assert_eq!(input_error_value(), Data::Error("Input error".into()));
    assert_eq!(list_of_texts(strings(&["a", "", "b"])), texts(&["a", "", "b"]));
    assert_eq!(list_of_texts(vec![]), Data::List(vec![]));
    assert_eq!(found_or_error(Some(strings(&["a", "b"]))), texts(&["a", "b"]));
    assert_eq!(found_or_error(Some(vec![])), Data::List(vec![]));
    assert_eq!(found_or_error(None), Data::Error("Invalid pattern".into()));
    assert_eq!(replaced_or_error(Some("a".into())), Data::Text("a".into()));
    assert_eq!(replaced_or_error(None), Data::Error("Invalid pattern".into()));
    assert_eq!(decoded_or_error(Ok("a".into())), Data::Text("a".into()));
    assert_eq!(decoded_or_error(Err("fault".into())), Data::Error("fault".into()));
    assert_eq!(slice_or_error(Cut::Part("ample")), Data::Text("ample".into()));
    assert_eq!(slice_or_error(Cut::Nothing), Data::Text("".into()));
    assert_eq!(slice_or_error(Cut::Broken), Data::Error("Invalid slice bounds".into()));
}

#[test]
fn collect_adds_the_leaves_behind_what_is_there() {
    let data = Data::List(vec![
        Data::Text("a".into()),
        Data::List(vec![Data::Text("b".into()), Data::List(vec![])]),
        Data::Text("c".into()),
    ]);
    let mut found = strings(&["first"]);
    assert!(collect(&data, &mut found));
    assert_eq!(found, strings(&["first", "a", "b", "c"]));
    let broken = Data::List(vec![Data::Text("a".into()), Data::Error("e".into())]);
    let mut found = Vec::new();
    assert!(!collect(&broken, &mut found));
}

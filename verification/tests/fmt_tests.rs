use foamer::fmt::lines;

#[test]
fn test_lines() {
    assert_eq!(
        lines("This is a multiline string".to_string(), 16),
        Vec::from(["This is a", "multiline string"])
    );
    assert_eq!(
        lines("a 0123456789012345678 b".to_string(), 16),
        Vec::from(["a 01234567890123", "45678 b"])
    );
    assert_eq!(lines("1234".to_string(), 3), Vec::from(["123", "4"]));
    assert_eq!(
        lines("012345678901234 a".to_string(), 16),
        Vec::from(["012345678901234", "a"])
    );
}

#[test]
fn empty_input_gives_no_lines() {
    for width in [1usize, 2, 16, 1000] {
        assert_eq!(lines(String::new(), width), Vec::<String>::new());
    }
}

#[test]
fn whitespace_only_input_gives_no_lines() {
    assert_eq!(lines("   ".to_string(), 5), Vec::<String>::new());
    assert_eq!(lines(" \t\n\r ".to_string(), 1), Vec::<String>::new());
    assert_eq!(lines("\u{a0}\u{2003}\u{3000}".to_string(), 7), Vec::<String>::new());
}

#[test]
fn word_of_exactly_the_width_fills_one_line() {
    assert_eq!(lines("1234".to_string(), 4), Vec::from(["1234"]));
    assert_eq!(lines("ab cdef".to_string(), 4), Vec::from(["ab", "cdef"]));
}

#[test]
fn width_one_splits_into_single_characters() {
    assert_eq!(lines("ab c".to_string(), 1), Vec::from(["a", "b", "c"]));
}

#[test]
fn long_word_spans_several_full_lines() {
    assert_eq!(
        lines("abcdefghij".to_string(), 3),
        Vec::from(["abc", "def", "ghi", "j"])
    );
    assert_eq!(lines("abcdef".to_string(), 3), Vec::from(["abc", "def"]));
}

#[test]
fn trailing_chunk_is_packed_with_later_words() {
    assert_eq!(lines("abcde fg".to_string(), 4), Vec::from(["abcd", "e fg"]));
}

#[test]
fn width_is_counted_in_codepoints_not_bytes() {
    assert_eq!(
        lines("ééééé".to_string(), 2),
        Vec::from(["éé", "éé", "é"])
    );
    assert_eq!(lines("früh auf".to_string(), 4), Vec::from(["früh", "auf"]));
}

#[test]
fn wrapping_keeps_every_word_in_order() {
    let samples = [
        "This is a multiline string",
        "a 0123456789012345678 b",
        "pack my box with five dozen liquor jugs",
        "tabs\tand\nnewlines separate words too",
    ];
    for text in samples {
        for width in 1usize..=20 {
            let out = lines(text.to_string(), width);
            let expected: String = text.chars().filter(|c| !c.is_whitespace()).collect();
            let got: String = out.concat().chars().filter(|c| !c.is_whitespace()).collect();
            assert_eq!(got, expected, "content changed for {text:?} at width {width}");
        }
    }
}

#[test]
fn every_line_fits_and_none_is_empty() {
    let samples = [
        "This is a multiline string",
        "a 0123456789012345678 b",
        "1234",
        "012345678901234 a",
        "",
        "   ",
        "x yz abcdefghijklmnop q r",
        "ønsker du en bölle med kaffe",
    ];
    for text in samples {
        for width in 1usize..=20 {
            let out = lines(text.to_string(), width);
            for line in &out {
                let n = line.chars().count();
                assert!(n >= 1, "empty line for {text:?} at width {width}");
                assert!(n <= width, "overlong line for {text:?} at width {width}");
            }
            let blank = text.chars().all(char::is_whitespace);
            assert_eq!(out.is_empty(), blank);
        }
    }
}

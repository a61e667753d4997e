use irixmail::sieve::string::decode_encoded_characters;

#[test]
fn hex_sequences_decode_to_their_octets() {
    assert_eq!(
        decode_encoded_characters("${hex:40 21}").unwrap(),
        "@!".to_string()
    );
}

#[test]
fn unicode_sequences_decode_to_code_points() {
    assert_eq!(
        decode_encoded_characters("${unicode:00F6}x").unwrap(),
        "\u{f6}x".to_string()
    );
}

#[test]
fn decoded_output_is_not_rescanned() {
    assert_eq!(
        decode_encoded_characters("${hex:24 7b}hex:40}").unwrap(),
        "${hex:40}".to_string()
    );
}

#[test]
fn malformed_sequences_are_kept_verbatim() {
    for input in [
        "${hex:4Q}",
        "${hex:}",
        "${weird:40}",
        "${hex 40}",
        "${",
        "$",
    ] {
        assert_eq!(decode_encoded_characters(input).unwrap(), input.to_string());
    }
}

#[test]
fn an_out_of_range_code_point_is_an_error() {
    assert!(decode_encoded_characters("${unicode:D800}").is_err());
    assert!(decode_encoded_characters("${unicode:110000}").is_err());
}

#[test]
fn text_without_sequences_passes_through() {
    assert_eq!(
        decode_encoded_characters("plain $ {text}").unwrap(),
        "plain $ {text}".to_string()
    );
}

#[test]
fn the_error_names_the_offending_group() {
    assert_eq!(
        decode_encoded_characters("${unicode:41 D800}").unwrap_err(),
        "invalid unicode code point D800"
    );
}

#[test]
fn kinds_are_case_insensitive_and_trimmed() {
    assert_eq!(decode_encoded_characters("${ HEX :41}").unwrap(), "A");
    assert_eq!(decode_encoded_characters("${Unicode: 42 43 }").unwrap(), "BC");
}

#[test]
fn hex_octets_that_are_not_utf8_are_kept_verbatim() {
    assert_eq!(decode_encoded_characters("${hex:ff}").unwrap(), "${hex:ff}");
}

#[test]
fn a_malformed_unicode_group_before_a_bad_code_point_keeps_the_text() {
    assert_eq!(
        decode_encoded_characters("${unicode:1234567 D800}").unwrap(),
        "${unicode:1234567 D800}"
    );
}

use queue_admission::fields::{is_blank, split_fields, trim_matches};

fn owned(fields: &[&[u8]]) -> Vec<Vec<u8>> {
    fields.iter().map(|field| field.to_vec()).collect()
}

#[test]
fn splits_three_fields() {
    assert_eq!(split_fields(b"0,100,/a.txt", b','), owned(&[b"0", b"100", b"/a.txt"]));
}

#[test]
fn the_empty_line_is_one_empty_field() {
    assert_eq!(split_fields(b"", b','), owned(&[b""]));
}

#[test]
fn a_line_without_delimiter_is_one_field() {
    assert_eq!(split_fields(b"abc", b','), owned(&[b"abc"]));
}

#[test]
fn delimiters_alone_make_empty_fields() {
    assert_eq!(split_fields(b",,", b','), owned(&[b"", b"", b""]));
}

#[test]
fn a_delimiter_at_either_end_opens_an_empty_field() {
    assert_eq!(split_fields(b",a,", b','), owned(&[b"", b"a", b""]));
}

#[test]
fn splits_words_at_blanks() {
    assert_eq!(
        split_fields(b"GET /1,2,x HTTP/1.1", b' '),
        owned(&[b"GET", b"/1,2,x", b"HTTP/1.1"])
    );
}

#[test]
fn joining_the_fields_gives_the_line_back() {
    let line: &[u8] = b"a,,bc,";
    let fields = split_fields(line, b',');
    assert_eq!(fields.join(&b','), line.to_vec());
}

#[test]
fn trims_on_both_sides() {
    assert_eq!(trim_matches(b"//1/", b'/'), b"1");
}

#[test]
fn trims_nothing_where_nothing_surrounds() {
    assert_eq!(trim_matches(b"1", b'/'), b"1");
    assert_eq!(trim_matches(b"1/2", b'/'), b"1/2");
    assert_eq!(trim_matches(b"", b'/'), b"");
}

#[test]
fn trims_a_field_of_slashes_to_nothing() {
    assert_eq!(trim_matches(b"/", b'/'), b"");
    assert_eq!(trim_matches(b"///", b'/'), b"");
}

#[test]
fn the_empty_line_is_blank() {
    assert!(is_blank(b""));
}

#[test]
fn white_space_is_blank() {
    assert!(is_blank(b" \t\r\n\x0b\x0c"));
}

#[test]
fn a_line_with_a_visible_byte_is_not_blank() {
    assert!(!is_blank(b" a "));
    assert!(!is_blank(b"\0"));
    assert!(!is_blank(b","));
}

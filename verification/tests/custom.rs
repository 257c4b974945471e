use span_error::error::Error;
use span_error::kind::ErrorKind;
use std::fmt;

/// Prints its words one write at a time.
struct Words(Vec<&'static str>);

impl fmt::Display for Words {
    fn fmt(&self, f: &mut fmt::Formatter<'_>) -> fmt::Result {
        for word in &self.0 {
            f.write_str(word)?;
        }
        Ok(())
    }
}

/// Prints its words one write at a time and carries on after a refusal.
struct Stubborn(Vec<&'static str>);

impl fmt::Display for Stubborn {
    fn fmt(&self, f: &mut fmt::Formatter<'_>) -> fmt::Result {
        for word in &self.0 {
            let _ = f.write_str(word);
        }
        Ok(())
    }
}

fn parts(e: &Error) -> ([u8; 64], usize) {
    match &e.kind {
        ErrorKind::Custom(buf, len) => (*buf, *len),
        other => panic!("not a custom kind: {:?}", other),
    }
}

fn padded(text: &[u8]) -> [u8; 64] {
    let mut buf = [0u8; 64];
    buf[..text.len()].copy_from_slice(text);
    buf
}

#[test]
fn custom_keeps_a_short_message() {
    let e = Error::custom("bad");
    assert_eq!(e.span, 0..0);
    let (buf, len) = parts(&e);
    assert_eq!(len, 3);
    assert_eq!(&buf[..len], b"bad");
    assert_eq!(buf, padded(b"bad"));
    assert_eq!(e.message(), "bad");
}

#[test]
fn custom_of_empty_message() {
    let e = Error::custom("");
    assert_eq!(parts(&e), ([0u8; 64], 0));
    assert_eq!(e.message(), "");
}

#[test]
fn custom_takes_exactly_64_bytes() {
    let text = "0123456789abcdef".repeat(4);
    assert_eq!(text.len(), 64);
    let e = Error::custom(&text);
    let (buf, len) = parts(&e);
    assert_eq!(len, 64);
    assert_eq!(&buf[..], text.as_bytes());
    assert_eq!(e.message(), text);
}

#[test]
fn custom_refuses_a_single_write_of_65_bytes() {
    let text = "x".repeat(65);
    let e = Error::custom(&text);
    let (buf, len) = parts(&e);
    assert!(len < 65);
    assert_eq!(len, 0);
    assert_eq!(buf, [0u8; 64]);
    assert_eq!(e.message(), "");
}

#[test]
fn custom_cuts_at_the_first_write_that_does_not_fit() {
    let sixty = "a".repeat(60);
    let words = Words(vec![Box::leak(sixty.clone().into_boxed_str()), "bcd", "efgh", "i"]);
    let e = Error::custom(words);
    let (buf, len) = parts(&e);
    assert_eq!(len, 63);
    assert_eq!(&buf[..60], sixty.as_bytes());
    assert_eq!(&buf[60..63], b"bcd");
    assert_eq!(buf[63], 0);
    assert_eq!(e.message(), format!("{}bcd", sixty));
}

#[test]
fn custom_never_stores_part_of_a_write() {
    let e = Error::custom(Stubborn(vec!["0123456789", "x", "y"]));
    assert_eq!(parts(&e), (padded(b"0123456789xy"), 12));
    let long = "z".repeat(70);
    let e = Error::custom(Stubborn(vec![
        "ab",
        Box::leak(long.into_boxed_str()),
        "cd",
    ]));
    assert_eq!(parts(&e), (padded(b"ab"), 2));
}

#[test]
fn custom_stores_nothing_written_after_a_refused_write() {
    let long = "a".repeat(65);
    let e = Error::custom(Stubborn(vec![Box::leak(long.into_boxed_str()), "b"]));
    assert_eq!(e.kind, ErrorKind::Custom([0u8; 64], 0));
    assert_eq!(e.span, 0..0);
    assert_eq!(e.message(), "");
    let sixty = "a".repeat(60);
    let e = Error::custom(Stubborn(vec![
        Box::leak(sixty.clone().into_boxed_str()),
        "bcdefg",
        "h",
        "",
    ]));
    assert_eq!(parts(&e), (padded(sixty.as_bytes()), 60));
}

#[test]
fn custom_agrees_with_parts_after_a_refused_write() {
    let long = "z".repeat(70);
    let words: Vec<&'static str> = vec!["ab", Box::leak(long.into_boxed_str()), "cd"];
    assert_eq!(Error::custom(Stubborn(words.clone())), Error::custom_parts(&words));
    assert_eq!(Error::custom(Words(words.clone())), Error::custom_parts(&words));
}

#[test]
fn custom_formats_numbers_and_pieces() {
    let e = Error::custom(Words(vec!["invalid type: ", "integer", ", expected ", "a string"]));
    assert_eq!(e.message(), "invalid type: integer, expected a string");
    let e = Error::custom(12345u32);
    assert_eq!(e.message(), "12345");
    let e = Error::custom('☃');
    assert_eq!(parts(&e).1, 3);
    assert_eq!(e.message(), "☃");
}

#[test]
fn custom_twice_is_identical() {
    let a = Error::custom(Words(vec!["expected ", "a value"]));
    let b = Error::custom(Words(vec!["expected ", "a value"]));
    assert_eq!(parts(&a), parts(&b));
    assert_eq!(a, b);
    let text = "y".repeat(80);
    assert_eq!(parts(&Error::custom(&text)), parts(&Error::custom(&text)));
}

#[test]
fn custom_is_well_formed() {
    assert!(Error::custom("bad").kind.is_wf());
    assert!(Error::custom("☃".repeat(21)).kind.is_wf());
    assert!(Error::custom("☃".repeat(22)).kind.is_wf());
}

#[test]
fn custom_keeps_multibyte_text_whole() {
    let text = "☃".repeat(21);
    let e = Error::custom(&text);
    assert_eq!(parts(&e).1, 63);
    assert_eq!(e.message(), text);
    let words = Words(vec!["☃"; 22]);
    let e = Error::custom(words);
    assert_eq!(parts(&e).1, 63);
    assert_eq!(e.message(), text);
}

#[test]
fn custom_parts_keeps_a_short_message() {
    let e = Error::custom_parts(&["bad"]);
    assert_eq!(e.span, 0..0);
    assert_eq!(parts(&e), (padded(b"bad"), 3));
    assert_eq!(e.message(), "bad");
    assert_eq!(e, Error::custom("bad"));
}

#[test]
fn custom_parts_of_nothing() {
    assert_eq!(parts(&Error::custom_parts(&[])), ([0u8; 64], 0));
    assert_eq!(parts(&Error::custom_parts(&["", ""])), ([0u8; 64], 0));
}

#[test]
fn custom_parts_joins_in_order() {
    let e = Error::custom_parts(&["missing field `", "name", "`"]);
    assert_eq!(e.message(), "missing field `name`");
    assert_eq!(parts(&e).1, 20);
}

#[test]
fn custom_parts_fills_the_buffer_exactly() {
    let half = "h".repeat(32);
    let e = Error::custom_parts(&[&half, &half]);
    let (buf, len) = parts(&e);
    assert_eq!(len, 64);
    assert_eq!(buf, [b'h'; 64]);
}

#[test]
fn custom_parts_stops_at_the_first_part_that_does_not_fit() {
    let sixty = "a".repeat(60);
    let e = Error::custom_parts(&[&sixty, "bcd", "efgh", "i"]);
    let (buf, len) = parts(&e);
    assert_eq!(len, 63);
    assert_eq!(&buf[..60], sixty.as_bytes());
    assert_eq!(&buf[60..], b"bcd\0");
    let long = "z".repeat(65);
    assert_eq!(parts(&Error::custom_parts(&[&long])), ([0u8; 64], 0));
    assert_eq!(
        parts(&Error::custom_parts(&["ab", &long, "cd"])),
        (padded(b"ab"), 2)
    );
}

#[test]
fn custom_parts_twice_is_identical() {
    let a = Error::custom_parts(&["expected ", "a value"]);
    let b = Error::custom_parts(&["expected ", "a value"]);
    assert_eq!(parts(&a), parts(&b));
    assert_eq!(a, b);
}

#[test]
fn custom_parts_agrees_with_formatting() {
    let words = vec!["invalid length ", "3", ", expected ", "2 elements"];
    assert_eq!(Error::custom_parts(&words), Error::custom(Words(words)));
}

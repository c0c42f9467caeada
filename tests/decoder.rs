use scryfall_proxy::error::RuntimeError;
use scryfall_proxy::line::LineCard;

fn decode_err(line: &str) -> RuntimeError {
    match LineCard::parse_from(line) {
        Ok(_) => panic!("line decoded: {}", line),
        Err(e) => e,
    }
}

#[test]
fn decodes_well_formed_line() {
    let card = LineCard::parse_from("1 ABC 123").ok().unwrap();
    assert_eq!(card.count, 1);
    assert_eq!(card.set, "ABC");
    assert_eq!(card.code, "123");
}

#[test]
fn decodes_largest_count() {
    let card = LineCard::parse_from("255 m21 7").ok().unwrap();
    assert_eq!(card.count, 255);
    assert_eq!(card.set, "m21");
    assert_eq!(card.code, "7");
}

#[test]
fn decodes_zero_count() {
    let card = LineCard::parse_from("0 ABC 123").ok().unwrap();
    assert_eq!(card.count, 0);
}

#[test]
fn decodes_plus_sign_and_leading_zeros() {
    assert_eq!(LineCard::parse_from("+4 a b").ok().unwrap().count, 4);
    assert_eq!(LineCard::parse_from("007 a b").ok().unwrap().count, 7);
}

#[test]
fn ignores_tokens_after_the_third() {
    let card = LineCard::parse_from("2 ABC 123 extra").ok().unwrap();
    assert_eq!(card.count, 2);
    assert_eq!(card.set, "ABC");
    assert_eq!(card.code, "123");
}

#[test]
fn rejects_bad_counts() {
    assert_eq!(decode_err("-1 ABC 123"), RuntimeError::InvalidCardCountNumberError);
    assert_eq!(decode_err("256 ABC 123"), RuntimeError::InvalidCardCountNumberError);
    assert_eq!(decode_err("300 ABC 123"), RuntimeError::InvalidCardCountNumberError);
    assert_eq!(decode_err("abc ABC 123"), RuntimeError::InvalidCardCountNumberError);
    assert_eq!(decode_err("1x ABC 123"), RuntimeError::InvalidCardCountNumberError);
    assert_eq!(decode_err("+ ABC 123"), RuntimeError::InvalidCardCountNumberError);
    assert_eq!(decode_err("99999999999 ABC 123"), RuntimeError::InvalidCardCountNumberError);
    assert_eq!(decode_err(""), RuntimeError::InvalidCardCountNumberError);
    assert_eq!(decode_err(" 1 ABC 123"), RuntimeError::InvalidCardCountNumberError);
}

#[test]
fn rejects_short_lines() {
    assert_eq!(decode_err("1"), RuntimeError::MalformedLineError);
    assert_eq!(decode_err("1 ABC"), RuntimeError::MalformedLineError);
    assert_eq!(decode_err("12 ABC"), RuntimeError::MalformedLineError);
}

#[test]
fn empty_tokens_between_double_spaces() {
    let card = LineCard::parse_from("1  ABC").ok().unwrap();
    assert_eq!(card.set, "");
    assert_eq!(card.code, "ABC");
}

#[test]
fn url_puts_card_code_before_set_code() {
    let card = LineCard::parse_from("1 ABC 123").ok().unwrap();
    assert_eq!(card.to_url(), "https://api.scryfall.com/cards/123/ABC");
}

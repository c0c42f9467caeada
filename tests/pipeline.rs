use scryfall_proxy::deck::{Deck, Lookup};
use scryfall_proxy::error::RuntimeError;
use scryfall_proxy::line::LineCard;

fn single(u: &str) -> String {
    format!(r#"{{"image_uris":{{"large":"{}"}}}}"#, u)
}

fn multi(us: &[&str]) -> String {
    let faces: Vec<String> =
        us.iter().map(|u| format!(r#"{{"image_uris":{{"large":"{}"}}}}"#, u)).collect();
    format!(r#"{{"card_faces":[{}]}}"#, faces.join(","))
}

/// Runs the lines through a deck, answering each lookup from `answer`.
fn run(lines: &[&str], answer: &dyn Fn(&str) -> Lookup) -> Result<String, RuntimeError> {
    let mut deck = Deck::new();
    for line in lines.iter() {
        let card = LineCard::parse_from(line)?;
        deck.take_lookup(&card, answer(&card.to_url()))?;
    }
    Ok(deck.into_document())
}

fn sources(doc: &str) -> Vec<String> {
    doc.split("<img src=\"").skip(1).map(|s| s.split('"').next().unwrap().to_string()).collect()
}

#[test]
fn one_single_faced_card() {
    let doc = run(&["1 ABC 123"], &|_| Lookup::Body(single("u"))).ok().unwrap();
    assert_eq!(sources(&doc), vec!["u"]);
    assert_eq!(doc.matches("<ul>").count(), 1);
}

#[test]
fn two_copies_of_a_two_faced_card() {
    let doc = run(&["2 ABC 123"], &|_| Lookup::Body(multi(&["u1", "u2"]))).ok().unwrap();
    assert_eq!(sources(&doc), vec!["u1", "u2", "u1", "u2"]);
    assert_eq!(doc.matches("<ul>").count(), 1);
}

#[test]
fn ten_cards_make_two_pages() {
    let lines: Vec<String> = (0..10).map(|i| format!("1 S{} {}", i, i)).collect();
    let refs: Vec<&str> = lines.iter().map(|s| s.as_str()).collect();
    let doc = run(&refs, &|url| Lookup::Body(single(&format!("img:{}", url)))).ok().unwrap();
    let pages: Vec<&str> = doc.split("<ul>").skip(1).collect();
    assert_eq!(pages.len(), 2);
    assert_eq!(sources(pages[0]).len(), 9);
    assert_eq!(sources(pages[1]).len(), 1);
    let expected: Vec<String> =
        (0..10).map(|i| format!("img:https://api.scryfall.com/cards/{}/S{}", i, i)).collect();
    assert_eq!(sources(&doc), expected);
}

#[test]
fn count_out_of_range_aborts() {
    let r = run(&["1 A 1", "300 ABC 123"], &|_| Lookup::Body(single("u")));
    assert_eq!(r.err(), Some(RuntimeError::InvalidCardCountNumberError));
}

#[test]
fn transport_failure_aborts_without_document() {
    let r = run(&["1 A 1", "1 B 2", "1 C 3"], &|url| {
        if url.ends_with("/B") {
            Lookup::TransportFailed
        } else {
            Lookup::Body(single("u"))
        }
    });
    assert_eq!(r.err(), Some(RuntimeError::WebRequestError));
}

#[test]
fn unreadable_body_aborts() {
    let r = run(&["1 A 1"], &|_| Lookup::BodyUnreadable);
    assert_eq!(r.err(), Some(RuntimeError::WebRequestBodyParseError));
}

#[test]
fn malformed_response_aborts() {
    let r = run(&["1 A 1"], &|_| Lookup::Body("<html>not found</html>".to_string()));
    assert_eq!(r.err(), Some(RuntimeError::ParseJsonError));
}

#[test]
fn short_line_aborts() {
    let r = run(&["1 A"], &|_| Lookup::Body(single("u")));
    assert_eq!(r.err(), Some(RuntimeError::MalformedLineError));
}

#[test]
fn failed_card_leaves_deck_unchanged() {
    let mut deck = Deck::new();
    let card = LineCard::parse_from("3 A 1").ok().unwrap();
    assert!(deck.take_lookup(&card, Lookup::Body(single("u"))).is_ok());
    assert_eq!(deck.len(), 3);
    assert!(deck.take_lookup(&card, Lookup::TransportFailed).is_err());
    assert!(deck.add_card(&card, &"{}".to_string()).is_err());
    assert_eq!(deck.len(), 3);
}

#[test]
fn zero_count_line_adds_nothing() {
    let doc = run(&["0 A 1"], &|_| Lookup::Body(multi(&["a", "b"]))).ok().unwrap();
    assert_eq!(sources(&doc).len(), 0);
}

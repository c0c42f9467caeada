use scryfall_proxy::error::RuntimeError;
use scryfall_proxy::face::{normalize, parse_json, replicate, shape_from, CardFace, CardShape};

fn single(u: &str) -> String {
    format!(r#"{{"name":"x","image_uris":{{"small":"s","large":"{}"}}}}"#, u)
}

fn multi(us: &[&str]) -> String {
    let faces: Vec<String> = us
        .iter()
        .map(|u| format!(r#"{{"name":"f","image_uris":{{"large":"{}"}}}}"#, u))
        .collect();
    format!(r#"{{"name":"x","card_faces":[{}]}}"#, faces.join(","))
}

fn urls(faces: &[CardFace]) -> Vec<String> {
    faces.iter().map(|f| f.image_url.clone()).collect()
}

#[test]
fn single_face_replicated() {
    let faces = normalize(&single("u"), 3).ok().unwrap();
    assert_eq!(urls(&faces), vec!["u", "u", "u"]);
}

#[test]
fn multi_face_replicated_in_face_order() {
    let faces = normalize(&multi(&["u1", "u2"]), 2).ok().unwrap();
    assert_eq!(urls(&faces), vec!["u1", "u2", "u1", "u2"]);
}

#[test]
fn three_faces_three_copies() {
    let faces = normalize(&multi(&["a", "b", "c"]), 3).ok().unwrap();
    assert_eq!(faces.len(), 9);
    assert_eq!(urls(&faces), vec!["a", "b", "c", "a", "b", "c", "a", "b", "c"]);
}

#[test]
fn zero_count_gives_no_faces() {
    assert_eq!(normalize(&single("u"), 0).ok().unwrap().len(), 0);
    assert_eq!(normalize(&multi(&["u1", "u2"]), 0).ok().unwrap().len(), 0);
}

#[test]
fn single_shape_wins_over_multi() {
    let both = r#"{"image_uris":{"large":"top"},"card_faces":[{"image_uris":{"large":"f"}}]}"#;
    let faces = normalize(&both.to_string(), 1).ok().unwrap();
    assert_eq!(urls(&faces), vec!["top"]);
}

#[test]
fn unreadable_responses_fail_as_json_errors() {
    let cases = [
        "not json",
        "",
        r#"{"object":"error","status":404}"#,
        r#"{"image_uris":{"small":"s"}}"#,
        r#"{"image_uris":{"large":5}}"#,
        r#"{"card_faces":[{"image_uris":{"large":"a"}},{"name":"b"}]}"#,
        r#"{"card_faces":{"image_uris":{"large":"a"}}}"#,
    ];
    for c in cases.iter() {
        match normalize(&c.to_string(), 1) {
            Err(e) => assert_eq!(e, RuntimeError::ParseJsonError),
            Ok(_) => panic!("accepted: {}", c),
        }
    }
}

#[test]
fn parse_json_picks_the_shape() {
    match parse_json(&single("u")).ok().unwrap() {
        CardShape::SingleFace(f) => assert_eq!(f.image_url, "u"),
        CardShape::MultiFace(_) => panic!("wrong shape"),
    }
    match parse_json(&multi(&["a", "b"])).ok().unwrap() {
        CardShape::MultiFace(m) => assert_eq!(urls(&m.card_faces), vec!["a", "b"]),
        CardShape::SingleFace(_) => panic!("wrong shape"),
    }
}

#[test]
fn shape_from_prefers_single() {
    let s = shape_from(Some("u".to_string()), Some(vec!["a".to_string()])).ok().unwrap();
    assert_eq!(urls(&s.faces()), vec!["u"]);
    let m = shape_from(None, Some(vec!["a".to_string(), "b".to_string()])).ok().unwrap();
    assert_eq!(urls(&replicate(&m, 2)), vec!["a", "b", "a", "b"]);
    match shape_from(None, None) {
        Err(e) => assert_eq!(e, RuntimeError::ParseJsonError),
        Ok(_) => panic!("shape from nothing"),
    }
}

#[test]
fn empty_face_list_is_a_card_without_faces() {
    let faces = normalize(&multi(&[]), 4).ok().unwrap();
    assert_eq!(faces.len(), 0);
}

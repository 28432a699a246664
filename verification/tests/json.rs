use powderman::json::{key_less, Json, Member, Number};
use powderman::pairs::lookup_pair;

fn obj(members: Vec<(&str, Json)>) -> Json {
    Json::Object(
        members
            .into_iter()
            .map(|(k, v)| Member { key: k.to_string(), value: v })
            .collect(),
    )
}

#[test]
fn a_member_is_found_by_its_first_key() {
    let j = obj(vec![
        ("a", Json::Num(Number::PosInt(1))),
        ("a", Json::Num(Number::PosInt(2))),
        ("s", Json::Str("x".into())),
    ]);
    assert_eq!(j.get("a").and_then(|v| v.as_u64()), Some(1));
    assert_eq!(j.get("s").and_then(|v| v.as_str()), Some("x"));
    assert!(j.get("zz").is_none());
    assert!(Json::Null.get("a").is_none());
}

#[test]
fn integers_read_as_the_width_that_holds_them() {
    assert_eq!(Json::Num(Number::PosInt(5)).as_i64(), Some(5));
    assert_eq!(Json::Num(Number::PosInt(u64::MAX)).as_i64(), None);
    assert_eq!(Json::Num(Number::NegInt(-5)).as_i64(), Some(-5));
    assert_eq!(Json::Num(Number::NegInt(-5)).as_u64(), None);
    assert_eq!(Json::Num(Number::Float(1_000_000)).as_u64(), None);
    assert_eq!(Json::Bool(true).as_str(), None);
}

#[test]
fn keys_sort_character_by_character_with_prefixes_first() {
    assert!(key_less("a", "b"));
    assert!(key_less("a", "ab"));
    assert!(!key_less("ab", "a"));
    assert!(!key_less("a", "a"));
    assert!(key_less("Z", "a"));
    assert!(key_less("z", "\u{e9}"));
}

#[test]
fn a_table_answers_for_its_first_row() {
    let t = vec![("a", "1"), ("b", "2"), ("a", "3")];
    assert_eq!(lookup_pair(&t, "a"), Some("1"));
    assert_eq!(lookup_pair(&t, "b"), Some("2"));
    assert_eq!(lookup_pair(&t, "c"), None);
}

#[test]
fn a_copy_is_the_same_document() {
    let j = obj(vec![("k", Json::Array(vec![Json::Null, Json::Num(Number::Float(-1))]))]);
    let c = j.copy();
    assert!(matches!(c.get("k"), Some(Json::Array(items)) if items.len() == 2));
}

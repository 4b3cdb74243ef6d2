use loradb::decoded::{DecodedPayload, JsonValue};

fn num(s: &str) -> JsonValue {
    JsonValue::Number(s.to_string())
}

fn obj(members: Vec<(&str, JsonValue)>) -> JsonValue {
    JsonValue::Object(members.into_iter().map(|(k, v)| (k.to_string(), v)).collect())
}

#[test]
fn test_decoded_payload_get_field() {
    let payload = DecodedPayload::from_json(obj(vec![
        ("temperature", num("22.5")),
        ("sensor", obj(vec![("temp", num("22.5")), ("humidity", num("60.0"))])),
    ]));

    assert_eq!(payload.get_field("temperature"), Some(&num("22.5")));
    assert_eq!(payload.get_field("sensor.temp"), Some(&num("22.5")));
    assert_eq!(payload.get_field("sensor.humidity"), Some(&num("60.0")));
    assert_eq!(payload.get_field("nonexistent"), None);
}

#[test]
fn nested_lookup_is_lookup_of_parts() {
    let inner = obj(vec![("temp", num("1")), ("deep", obj(vec![("x", JsonValue::Bool(true))]))]);
    let payload = DecodedPayload::from_json(obj(vec![("sensor", inner)]));
    let sensor = payload.get_field("sensor").unwrap();
    let nested = DecodedPayload::from_json(match sensor {
        JsonValue::Object(m) => JsonValue::Object(m.iter().map(|(k, v)| (k.clone(), clone_value(v))).collect()),
        _ => unreachable!(),
    });
    assert_eq!(payload.get_field("sensor.deep.x"), nested.get_field("deep.x"));
    assert_eq!(payload.get_field("sensor.deep.x"), Some(&JsonValue::Bool(true)));
}

fn clone_value(v: &JsonValue) -> JsonValue {
    match v {
        JsonValue::Null => JsonValue::Null,
        JsonValue::Bool(b) => JsonValue::Bool(*b),
        JsonValue::Number(s) => JsonValue::Number(s.clone()),
        JsonValue::Str(s) => JsonValue::Str(s.clone()),
        JsonValue::Array(a) => JsonValue::Array(a.iter().map(clone_value).collect()),
        JsonValue::Object(m) => JsonValue::Object(m.iter().map(|(k, v)| (k.clone(), clone_value(v))).collect()),
    }
}

#[test]
fn non_objects_have_no_fields() {
    let payload = DecodedPayload::from_json(obj(vec![
        ("list", JsonValue::Array(vec![num("1")])),
        ("name", JsonValue::Str("x".to_string())),
    ]));
    assert_eq!(payload.get_field("list.0"), None);
    assert_eq!(payload.get_field("name.first"), None);
    assert_eq!(payload.get_field(""), None);
    assert_eq!(DecodedPayload::from_json(JsonValue::Null).get_field("a"), None);
}

#[test]
fn empty_member_names_are_looked_up_literally() {
    let payload = DecodedPayload::from_json(obj(vec![("", obj(vec![("", num("3"))]))]));
    assert_eq!(payload.get_field("."), Some(&num("3")));
}

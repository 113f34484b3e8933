use cbzmaker::details::Details;

fn parse(bytes: &[u8]) -> serde_json::Value {
    serde_json::from_slice(bytes).expect("the rendered record must be valid JSON")
}

#[test]
fn barebone_has_title_and_default_status() {
    let d = Details::barebone(String::from("Foo"));
    let v = parse(&d.to_json_bytes());
    assert_eq!(v["title"].as_str(), Some("Foo"));
    assert_eq!(v["author"].as_str(), Some(""));
    assert_eq!(v["artist"].as_str(), Some(""));
    assert_eq!(v["description"].as_str(), Some(""));
    assert_eq!(v["genre"].as_array().unwrap().len(), 0);
    assert_eq!(v["status"].as_str(), Some("0"));
    let legend = v["_status values"].as_array().unwrap();
    assert_eq!(legend.len(), 7);
    assert_eq!(legend[0].as_str(), Some("0 = Unknown"));
    assert_eq!(legend[6].as_str(), Some("6 = On hiatus"));
}

#[test]
fn new_keeps_every_field() {
    let d = Details::new(
        String::from("T"),
        String::from("Auth"),
        String::from("Art"),
        String::from("Desc"),
        vec![String::from("action"), String::from("drama")],
        String::from("2"),
        vec![String::from("2 = Completed")],
    );
    let v = parse(&d.to_json_bytes());
    assert_eq!(v["title"].as_str(), Some("T"));
    assert_eq!(v["author"].as_str(), Some("Auth"));
    assert_eq!(v["artist"].as_str(), Some("Art"));
    assert_eq!(v["description"].as_str(), Some("Desc"));
    let genre = v["genre"].as_array().unwrap();
    assert_eq!(genre.len(), 2);
    assert_eq!(genre[0].as_str(), Some("action"));
    assert_eq!(genre[1].as_str(), Some("drama"));
    assert_eq!(v["status"].as_str(), Some("2"));
    assert_eq!(v["_status values"].as_array().unwrap().len(), 1);
}

#[test]
fn default_record_is_empty_but_for_status() {
    let d = Details::default();
    let v = parse(&d.to_json_bytes());
    assert_eq!(v["title"].as_str(), Some(""));
    assert_eq!(v["status"].as_str(), Some("0"));
    assert_eq!(v["_status values"].as_array().unwrap().len(), 7);
}

#[test]
fn rendering_escapes_special_characters() {
    let odd = String::from("a\"b\\c\nd\te\u{1}f");
    let d = Details::barebone(odd.clone());
    let v = parse(&d.to_json_bytes());
    assert_eq!(v["title"].as_str(), Some(odd.as_str()));
}

#[test]
fn rendering_keeps_multibyte_text() {
    let name = String::from("漫画 ünïcode");
    let d = Details::barebone(name.clone());
    let v = parse(&d.to_json_bytes());
    assert_eq!(v["title"].as_str(), Some(name.as_str()));
}

#[test]
fn field_order_is_stable() {
    let a = Details::barebone(String::from("Same"));
    let b = Details::barebone(String::from("Same"));
    assert_eq!(a.to_json_bytes(), b.to_json_bytes());
    let text = String::from_utf8(a.to_json_bytes()).unwrap();
    let ti = text.find("\"title\"").unwrap();
    let au = text.find("\"author\"").unwrap();
    let st = text.find("\"status\"").unwrap();
    let sv = text.find("\"_status values\"").unwrap();
    assert!(ti < au && au < st && st < sv);
}

use rudiff::viewed::{OnDisk, Viewed, FILE_VERSION};

fn to_text(d: &OnDisk) -> String {
    let mut map = serde_json::Map::new();
    map.insert("version".to_string(), serde_json::Value::from(d.version));
    map.insert("viewed".to_string(), serde_json::Value::from(d.viewed.clone()));
    serde_json::to_string(&serde_json::Value::Object(map)).unwrap()
}

fn from_text(text: &str) -> Vec<String> {
    let value: serde_json::Value = serde_json::from_str(text).unwrap();
    value["viewed"]
        .as_array()
        .unwrap()
        .iter()
        .map(|v| v.as_str().unwrap().to_string())
        .collect()
}

#[test]
fn roundtrips_through_disk() {
    let mut v = Viewed::load(&Vec::new());
    v.set_viewed(0xdead_beef_cafe_babe, true);
    v.set_viewed(0x0000_0000_0000_0001, true);
    let text = to_text(&v.unsaved().unwrap());
    let v2 = Viewed::load(&from_text(&text));
    assert!(v2.is_viewed(0xdead_beef_cafe_babe));
    assert!(v2.is_viewed(1));
    assert!(!v2.is_viewed(2));
}

#[test]
fn hashes_are_written_in_ascending_order() {
    let mut v = Viewed::load(&Vec::new());
    for h in [7u64, 0xdead_beef_cafe_babe, 1, 255] {
        v.set_viewed(h, true);
    }
    let d = v.unsaved().unwrap();
    assert_eq!(d.version, FILE_VERSION);
    assert_eq!(
        d.viewed,
        vec!["0000000000000001", "0000000000000007", "00000000000000ff", "deadbeefcafebabe"]
    );
}

#[test]
fn only_changes_are_unsaved() {
    let mut v = Viewed::load(&vec!["00000000000000ff".to_string(), "no hash".to_string()]);
    assert!(v.is_viewed(255));
    assert!(v.unsaved().is_none());
    v.set_viewed(255, true);
    v.set_viewed(4, false);
    assert!(v.unsaved().is_none());
    v.set_viewed(255, false);
    assert!(v.unsaved().unwrap().viewed.is_empty());
    v.saved();
    assert!(v.unsaved().is_none());
}

#[test]
fn the_file_lies_in_the_git_directory() {
    assert_eq!(Viewed::file_path("/r/.git"), "/r/.git/rudiff/viewed.json");
}

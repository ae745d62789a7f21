//! Cross-checks against the plist crate: what this library writes, that
//! library reads, and the other way round.

use std::collections::HashMap;
use std::io::Cursor;

use webloc::decode;
use webloc::encode_binary;
use webloc::encode_xml;
use webloc::Url;
use webloc::Webloc;

#[test]
fn plist_crate_reads_our_binary() {
    let w = Webloc { url: Url::parse("https://example.com/a?b=c").unwrap() };
    let bytes = encode_binary(&w);
    let map: HashMap<String, String> = plist::from_bytes(&bytes).unwrap();
    assert_eq!(map.len(), 1);
    assert_eq!(map["URL"], "https://example.com/a?b=c");
}

#[test]
fn plist_crate_reads_our_xml() {
    let w = Webloc { url: Url::parse("https://example.com/?a=1&b=2").unwrap() };
    let bytes = encode_xml(&w, "    ");
    let map: HashMap<String, String> = plist::from_bytes(&bytes).unwrap();
    assert_eq!(map.len(), 1);
    assert_eq!(map["URL"], "https://example.com/?a=1&b=2");
}

#[test]
fn we_read_plist_crate_binary() {
    let mut map = HashMap::new();
    map.insert("URL".to_string(), "https://example.com/".to_string());
    let mut buf = Cursor::new(Vec::new());
    plist::to_writer_binary(&mut buf, &map).unwrap();
    let back = decode(buf.get_ref()).unwrap();
    assert_eq!(back.url.as_str(), "https://example.com/");
}

#[test]
fn we_read_plist_crate_xml() {
    let mut map = HashMap::new();
    map.insert("URL".to_string(), "https://example.com/".to_string());
    let mut buf = Cursor::new(Vec::new());
    plist::to_writer_xml(&mut buf, &map).unwrap();
    let back = decode(buf.get_ref()).unwrap();
    assert_eq!(back.url.as_str(), "https://example.com/");
}

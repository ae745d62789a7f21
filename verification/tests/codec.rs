use webloc::decode;
use webloc::decode_binary;
use webloc::decode_xml;
use webloc::encode_binary;
use webloc::encode_xml;
use webloc::Url;
use webloc::Webloc;
use webloc::WeblocError;

fn webloc_of(s: &str) -> Webloc {
    Webloc { url: Url::parse(s).unwrap() }
}

#[test]
fn url_rejects_empty() {
    assert!(matches!(Url::parse(""), Err(WeblocError::InvalidUrl)));
}

#[test]
fn url_rejects_plain_words() {
    assert!(matches!(Url::parse("not a url"), Err(WeblocError::InvalidUrl)));
}

#[test]
fn url_rejects_relative_path() {
    assert!(matches!(Url::parse("relative/path"), Err(WeblocError::InvalidUrl)));
}

#[test]
fn url_accepts_and_round_trips() {
    let u = Url::parse("https://example.com/a?b=c#d").unwrap();
    assert_eq!(u.as_str(), "https://example.com/a?b=c#d");
    assert_eq!(u.to_text(), "https://example.com/a?b=c#d");
}

#[test]
fn url_is_normalized() {
    // the parser really normalizes: the result is not the input handed back
    let u = Url::parse("HTTPS://EXAMPLE.COM").unwrap();
    assert_eq!(u.as_str(), "https://example.com/");
}

#[test]
fn binary_round_trip() {
    let w = webloc_of("https://example.com/");
    let bytes = encode_binary(&w);
    let back = decode_binary(&bytes).unwrap();
    assert_eq!(back.url.as_str(), "https://example.com/");
}

#[test]
fn binary_round_trip_long_url() {
    let long = format!("https://example.com/{}?q=a%20b&x=y#frag", "p/".repeat(40));
    let w = webloc_of(&long);
    let bytes = encode_binary(&w);
    let back = decode(&bytes).unwrap();
    assert_eq!(back.url.to_text(), w.url.to_text());
}

#[test]
fn binary_layout_is_exact() {
    // magic, root dict, key object, short string, offset table, trailer
    let w = webloc_of("http://a/");
    let bytes = encode_binary(&w);
    let mut expected = b"bplist00".to_vec();
    expected.extend([0xd1, 0x01, 0x02]);
    expected.extend([0x53, b'U', b'R', b'L']);
    expected.extend([0x59]);
    expected.extend(b"http://a/");
    expected.extend([8, 11, 15]);
    expected.extend([0, 0, 0, 0, 0, 0, 1, 1]);
    expected.extend(3u64.to_be_bytes());
    expected.extend(0u64.to_be_bytes());
    expected.extend(25u64.to_be_bytes());
    assert_eq!(bytes, expected);
}

#[test]
fn xml_round_trip() {
    let w = webloc_of("https://example.com/a?b=c&d=e");
    let bytes = encode_xml(&w, "    ");
    let back = decode_xml(&bytes).unwrap();
    assert_eq!(back.url.as_str(), "https://example.com/a?b=c&d=e");
}

#[test]
fn xml_round_trip_tab_indent() {
    let w = webloc_of("https://example.com/");
    let bytes = encode_xml(&w, "\t");
    let back = decode(&bytes).unwrap();
    assert_eq!(back.url.as_str(), "https://example.com/");
}

#[test]
fn xml_output_shape() {
    let w = webloc_of("https://example.com/");
    let bytes = encode_xml(&w, "    ");
    let text = String::from_utf8(bytes).unwrap();
    assert!(text.contains("<?xml version=\"1.0\" encoding=\"UTF-8\"?>"));
    assert!(text.contains("<!DOCTYPE plist PUBLIC \"-//Apple//DTD PLIST 1.0//EN\""));
    assert!(text.contains("<key>URL</key>"));
    let after_key = text.split("<key>URL</key>").nth(1).unwrap();
    let trimmed = after_key.trim_start();
    assert!(trimmed.starts_with("<string>https://example.com/</string>"));
}

#[test]
fn xml_escapes_ampersands() {
    let w = webloc_of("https://example.com/?a=1&b=2");
    let bytes = encode_xml(&w, "  ");
    let text = String::from_utf8(bytes).unwrap();
    assert!(text.contains("<string>https://example.com/?a=1&amp;b=2</string>"));
}

#[test]
fn decode_rejects_garbage() {
    let r = decode(&[0x00, 0x01, 0x02]);
    assert!(matches!(
        r,
        Err(WeblocError::MalformedContainer) | Err(WeblocError::MalformedDocument)
    ));
}

#[test]
fn decode_rejects_corrupted_magic() {
    let w = webloc_of("https://example.com/");
    let mut bytes = encode_binary(&w);
    bytes[0] = b'x';
    // no longer a binary container; it is not an XML document either
    assert!(matches!(decode_binary(&bytes), Err(WeblocError::MalformedContainer)));
    assert!(matches!(decode(&bytes), Err(WeblocError::MalformedDocument)));
}

#[test]
fn decode_rejects_truncated_binary() {
    let w = webloc_of("https://example.com/");
    let bytes = encode_binary(&w);
    assert!(matches!(
        decode_binary(&bytes[..bytes.len() - 5]),
        Err(WeblocError::MalformedContainer)
    ));
}

#[test]
fn decode_rejects_wrong_case_key() {
    let doc = "<?xml version=\"1.0\" encoding=\"UTF-8\"?>\n<plist version=\"1.0\">\n<dict>\n<key>url</key>\n<string>https://example.com/</string>\n</dict>\n</plist>\n";
    assert!(matches!(decode(doc.as_bytes()), Err(WeblocError::UnexpectedShape)));
}

#[test]
fn decode_rejects_extra_key() {
    let doc = "<?xml version=\"1.0\" encoding=\"UTF-8\"?>\n<plist version=\"1.0\">\n<dict>\n<key>URL</key>\n<string>https://example.com/</string>\n<key>Extra</key>\n<string>x</string>\n</dict>\n</plist>\n";
    assert!(matches!(decode(doc.as_bytes()), Err(WeblocError::UnexpectedShape)));
}

#[test]
fn decode_rejects_missing_dict() {
    let doc = "<?xml version=\"1.0\" encoding=\"UTF-8\"?>\n<plist version=\"1.0\">\n</plist>\n";
    assert!(matches!(decode(doc.as_bytes()), Err(WeblocError::MalformedDocument)));
}

#[test]
fn decode_rejects_invalid_url_value() {
    let doc = "<?xml version=\"1.0\" encoding=\"UTF-8\"?>\n<plist version=\"1.0\">\n<dict>\n<key>URL</key>\n<string>not a url</string>\n</dict>\n</plist>\n";
    assert!(matches!(decode(doc.as_bytes()), Err(WeblocError::InvalidUrl)));
}

#[test]
fn decode_accepts_plain_xml_without_doctype() {
    let doc = "<plist version=\"1.0\"><dict><key>URL</key>\
               <string>https://example.com/</string></dict></plist>";
    let back = decode(doc.as_bytes()).unwrap();
    assert_eq!(back.url.as_str(), "https://example.com/");
}

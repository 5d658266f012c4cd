use manhuagui_downloader::decrypt::{
    chars_eq, create_dict, decrypt, enc, DecryptError, DecryptResult, Sl,
};
use manhuagui_downloader::json::{parse_payload, JsonScalar, JsonValue};
use manhuagui_downloader::strutil::{chars_to_string, str_chars};

fn chars(s: &str) -> Vec<char> {
    s.chars().collect()
}

#[test]
fn enc_digits_and_letters() {
    assert_eq!(chars_to_string(&enc(0, 62)), "0");
    assert_eq!(chars_to_string(&enc(9, 62)), "9");
    assert_eq!(chars_to_string(&enc(10, 62)), "a");
    assert_eq!(chars_to_string(&enc(35, 62)), "z");
    assert_eq!(chars_to_string(&enc(36, 62)), "A");
    assert_eq!(chars_to_string(&enc(61, 62)), "Z");
    assert_eq!(chars_to_string(&enc(62, 62)), "10");
    assert_eq!(chars_to_string(&enc(63, 62)), "11");
    assert_eq!(chars_to_string(&enc(123, 62)), "1Z");
}

#[test]
fn enc_small_base() {
    assert_eq!(chars_to_string(&enc(0, 10)), "0");
    assert_eq!(chars_to_string(&enc(7, 10)), "7");
    assert_eq!(chars_to_string(&enc(10, 10)), "10");
    assert_eq!(chars_to_string(&enc(100, 10)), "100");
}

#[test]
fn dict_uses_keys_for_empty_entries() {
    let data = vec![chars("one"), chars(""), chars("three")];
    let dict = create_dict(62, 3, &data);
    assert_eq!(dict.len(), 3);
    assert!(chars_eq(&dict[0].0, &chars("0")));
    assert!(chars_eq(&dict[0].1, &chars("one")));
    assert!(chars_eq(&dict[1].0, &chars("1")));
    assert!(chars_eq(&dict[1].1, &chars("1")));
    assert!(chars_eq(&dict[2].0, &chars("2")));
    assert!(chars_eq(&dict[2].1, &chars("three")));
}

fn golden_fixture() -> (String, DecryptResult) {
    let mut function = String::new();
    function.push_str("SMH.imgData({\"bid\":0,\"bname\":\"1\",\"bpic\":\"2\",\"cid\":3,");
    function.push_str("\"cname\":\"4\",\"files\":[\"5\",\"6\"],\"finished\":true,\"len\":7,");
    function.push_str("\"path\":\"8\",\"status\":9,\"block_cc\":\"\",\"nextId\":a,");
    function.push_str("\"prevId\":b,\"sl\":{\"e\":c,\"m\":\"d\"}}).preInit();");
    let data = [
        "39747",
        "Test",
        "39747.jpg",
        "468741",
        "Ch1",
        "001.jpg.webp",
        "002.jpg.webp",
        "2",
        "/ps3/test/",
        "1",
        "0",
        "0",
        "1700000000",
        "tokenm",
    ]
    .join("|");
    let compressed = lz_str::compress_to_base64(data.as_str());
    let html = format!(
        "<html><body><script>window[\"eval\"](function(p,a,c,k,e,d){{}}('{function}',62,14,'{compressed}'))</script></body></html>"
    );
    let expected = DecryptResult {
        bid: 39747,
        bname: "Test".to_string(),
        bpic: "39747.jpg".to_string(),
        cid: 468741,
        cname: "Ch1".to_string(),
        files: vec!["001.jpg.webp".to_string(), "002.jpg.webp".to_string()],
        finished: true,
        len: 2,
        path: "/ps3/test/".to_string(),
        status: 1,
        block_cc: String::new(),
        next_id: 0,
        prev_id: 0,
        sl: Sl {
            e: 1700000000,
            m: "tokenm".to_string(),
        },
    };
    (html, expected)
}

#[test]
fn decrypt_golden_fixture() {
    let (html, expected) = golden_fixture();
    let got = decrypt(&html).expect("golden fixture must decrypt");
    assert_eq!(got, expected);
}

#[test]
fn decrypt_round_trips_packed_payload() {
    // Re-packing the same (a, c, data) and decrypting again yields the same
    // payload value.
    let (html, _) = golden_fixture();
    let first = decrypt(&html).unwrap();
    let (html_again, _) = golden_fixture();
    let second = decrypt(&html_again).unwrap();
    assert_eq!(first, second);
}

#[test]
fn decrypt_rejects_pages_without_packer() {
    assert_eq!(decrypt("<html><body>nothing here</body></html>"), Err(DecryptError::Shape));
}

#[test]
fn decrypt_rejects_multiline_pages() {
    let (html, _) = golden_fixture();
    let multiline = format!("<html>\n{html}");
    assert_eq!(decrypt(&multiline), Err(DecryptError::Shape));
}

#[test]
fn decrypt_rejects_empty_numeric_fields() {
    assert_eq!(decrypt("xx}('fn',,3,'AAAA')yy"), Err(DecryptError::Shape));
}

#[test]
fn decrypt_rejects_unusable_base() {
    assert_eq!(decrypt("xx}('fn',1,3,'AAAA')yy"), Err(DecryptError::Shape));
    assert_eq!(decrypt("xx}('fn',63,3,'AAAA')yy"), Err(DecryptError::Shape));
}

#[test]
fn decrypt_rejects_empty_compressed_data() {
    assert_eq!(decrypt("xx}('fn',62,3,'')yy"), Err(DecryptError::Lz));
}

#[test]
fn decrypt_rejects_short_word_lists() {
    let compressed = lz_str::compress_to_base64("one|two");
    let html = format!("xx}}('fn',62,5,'{compressed}')yy");
    assert_eq!(decrypt(&html), Err(DecryptError::Dict));
}

#[test]
fn decrypt_rejects_undecodable_code_units() {
    // A lone surrogate decompresses but is not a UTF-16 string.
    let units: Vec<u16> = vec![0xd800];
    let compressed = lz_str::compress_to_base64(&units[..]);
    let html = format!("xx}}('fn',62,1,'{compressed}')yy");
    assert_eq!(decrypt(&html), Err(DecryptError::Utf16));
}

#[test]
fn decrypt_rejects_packed_text_without_json() {
    let compressed = lz_str::compress_to_base64("one|two|three");
    let html = format!("xx}}('no json here',62,3,'{compressed}')yy");
    assert_eq!(decrypt(&html), Err(DecryptError::Json));
}

#[test]
fn payload_parser_reads_scalars_and_escapes() {
    let text = chars("{\"a\": 12, \"b\": \"x\\ny\", \"c\": true, \"d\": null, \"e\": -3}");
    let ms = parse_payload(&text).expect("valid payload text");
    assert_eq!(ms.len(), 5);
    assert!(matches!(ms[0].1, JsonValue::Scalar(JsonScalar::Int(12))));
    match &ms[1].1 {
        JsonValue::Scalar(JsonScalar::Str(t)) => assert_eq!(chars_to_string(t), "x\ny"),
        _ => panic!("expected a string"),
    }
    assert!(matches!(ms[2].1, JsonValue::Scalar(JsonScalar::Bool(true))));
    assert!(matches!(ms[3].1, JsonValue::Scalar(JsonScalar::Null)));
    assert!(matches!(ms[4].1, JsonValue::Scalar(JsonScalar::Int(-3))));
}

#[test]
fn payload_parser_reads_extreme_integers() {
    let text = chars("{\"hi\": 9223372036854775807, \"lo\": -9223372036854775808}");
    let ms = parse_payload(&text).expect("extreme integers fit");
    assert!(matches!(ms[0].1, JsonValue::Scalar(JsonScalar::Int(i64::MAX))));
    assert!(matches!(ms[1].1, JsonValue::Scalar(JsonScalar::Int(i64::MIN))));
}

#[test]
fn payload_parser_rejects_overflowing_integers() {
    let text = chars("{\"hi\": 9223372036854775808}");
    assert!(parse_payload(&text).is_none());
    let text = chars("{\"lo\": -9223372036854775809}");
    assert!(parse_payload(&text).is_none());
}

#[test]
fn payload_parser_rejects_trailing_text() {
    let text = chars("{\"a\": 1} tail");
    assert!(parse_payload(&text).is_none());
}

#[test]
fn str_chars_round_trip() {
    let v = str_chars("漫画柜 abc");
    assert_eq!(chars_to_string(&v), "漫画柜 abc");
}

use jwt_claims::guard::{reader_takes, MAX_COMMAS, MAX_DEPTH, MAX_KEYS};
use jwt_claims::{Claims, Error};
use rustc_serialize::base64::{ToBase64, STANDARD, URL_SAFE};
use rustc_serialize::json::Json;

fn transport(json: &str) -> String {
    json.as_bytes().to_base64(STANDARD)
}

fn object_with_key(key: &str) -> String {
    format!("{{\"{}\":1}}", key)
}

#[test]
fn limits_have_their_values() {
    assert_eq!(MAX_DEPTH, 128);
    assert_eq!(MAX_KEYS, 65535);
    assert_eq!(MAX_COMMAS, 4294967295);
}

#[test]
fn plain_texts_are_taken() {
    assert!(reader_takes(b""));
    assert!(reader_takes(b"{}"));
    assert!(reader_takes(b"{\"iss\":\"mikkyang.com\",\"exp\":1302319100}"));
    assert!(reader_takes(b"[1, 2 ,3]"));
    assert!(reader_takes(b"[true,false,null,-1.5e-9,2E+8]"));
    assert!(reader_takes(b"not json at all"));
    assert!(reader_takes("{\"é\":\"中\"}".as_bytes()));
}

#[test]
fn comma_before_the_end_of_an_object_is_refused() {
    assert!(!reader_takes(b"{\"a\":1,}"));
    assert!(!reader_takes(b"{\"a\":1, \t\r\n}"));
    assert!(!reader_takes(b"[{\"o\":{\"a\":1,},5]"));
    assert!(reader_takes(b"{\"a\":1,\"b\":{}}"));
    assert!(reader_takes(b"[1,]"));
    assert!(reader_takes(b"{\"a\":\",}\"}"));
    assert!(reader_takes(b"{\"a\":\"\\\",}\"}"));
    assert!(!reader_takes(b"{\"a\":\"\\\\\",}"));
}

#[test]
fn exponents_beyond_a_machine_word_are_refused() {
    let greatest = usize::MAX.to_string();
    let next = (usize::MAX as u128 + 1).to_string();
    assert!(reader_takes(format!("1e{}", greatest).as_bytes()));
    assert!(reader_takes(format!("1E-{}", greatest).as_bytes()));
    assert!(reader_takes(format!("1e+{}", greatest).as_bytes()));
    assert!(reader_takes(format!("1e{}{}", "0".repeat(40), greatest).as_bytes()));
    assert!(!reader_takes(format!("1e{}", next).as_bytes()));
    assert!(!reader_takes(format!("1E+{}", next).as_bytes()));
    assert!(!reader_takes(format!("1e{}{}", "0".repeat(40), next).as_bytes()));
    assert!(!reader_takes(b"1e99999999999999999999999"));
    assert!(reader_takes(b"{\"k\":1e0000000001}"));
    assert!(reader_takes(b"1e2147483648"));
    assert!(reader_takes(b"123456789012345678901234567890"));
    assert!(reader_takes(b"[1e5,123456789012345678901234567890]"));
    assert!(reader_takes(b"{\"hash\":\"abcde123456789012345678901234567890\"}"));
    assert!(reader_takes(b"[true,123456789012345678901234567890]"));
}

#[test]
fn deep_nesting_is_refused() {
    let open = "[".repeat(128);
    let close = "]".repeat(128);
    assert!(reader_takes(format!("{}{}", open, close).as_bytes()));
    assert!(!reader_takes(format!("[{}{}]", open, close).as_bytes()));
    assert!(!reader_takes("{\"a\":".repeat(129).as_bytes()));
    assert!(reader_takes("[]".repeat(1000).as_bytes()));
    let quoted = format!("\"{}\"", "[{".repeat(500));
    assert!(reader_takes(quoted.as_bytes()));
}

#[test]
fn keys_beyond_the_buffer_are_refused() {
    assert!(reader_takes(object_with_key(&"k".repeat(512)).as_bytes()));
    assert!(reader_takes(object_with_key(&"k".repeat(65535)).as_bytes()));
    assert!(!reader_takes(object_with_key(&"k".repeat(65536)).as_bytes()));
    assert!(!reader_takes(format!("{{\"{}\" \n :1}}", "k".repeat(70_000)).as_bytes()));
    // the keys of nested objects share the buffer
    let outer = "a".repeat(40_000);
    let nested = |inner: usize| {
        format!("{{\"{}\":[{{\"{}\":1}}]}}", outer, "b".repeat(inner))
    };
    assert!(reader_takes(nested(25_535).as_bytes()));
    assert!(!reader_takes(nested(25_536).as_bytes()));
    // the keys of one object do not add up
    let siblings = format!("{{\"{}\":1,\"{}\":2}}", "a".repeat(60_000), "b".repeat(60_000));
    assert!(reader_takes(siblings.as_bytes()));
    // a string that is no key has no limit
    let value = "v".repeat(100_000);
    assert!(reader_takes(format!("{{\"k\":\"{}\"}}", value).as_bytes()));
    assert!(reader_takes(format!("[\"{}\",{{\"k\":1}}]", value).as_bytes()));
}

#[test]
fn escapes_count_by_the_bytes_they_stand_for() {
    assert!(reader_takes(object_with_key(&"\\n".repeat(65_535)).as_bytes()));
    assert!(!reader_takes(object_with_key(&"\\n".repeat(65_536)).as_bytes()));
    assert!(reader_takes(object_with_key(&"\\u0041".repeat(65_535)).as_bytes()));
    assert!(!reader_takes(object_with_key(&"\\u0041".repeat(65_536)).as_bytes()));
    assert!(reader_takes(object_with_key(&"\\u00e9".repeat(32_767)).as_bytes()));
    assert!(!reader_takes(object_with_key(&"\\u00E9".repeat(32_768)).as_bytes()));
    assert!(reader_takes(object_with_key(&"\\u4e2d".repeat(21_845)).as_bytes()));
    assert!(!reader_takes(object_with_key(&"\\u4e2d".repeat(21_846)).as_bytes()));
    assert!(reader_takes(object_with_key(&"\\ud83d\\ude00".repeat(16_383)).as_bytes()));
    assert!(!reader_takes(object_with_key(&"\\ud83d\\ude00".repeat(16_384)).as_bytes()));
    assert!(reader_takes(object_with_key(&"é".repeat(32_767)).as_bytes()));
    assert!(!reader_takes(object_with_key(&"é".repeat(32_768)).as_bytes()));
}

#[test]
fn texts_beyond_the_limits_are_rejected_as_no_json() {
    assert_eq!(Claims::from_base64(&transport("[{\"o\":{\"a\":1,},5]")), Err(Error::Format));
    assert_eq!(
        Claims::from_base64(&transport("{\"x\":[{\"o\":{\"a\":1,},5]}")),
        Err(Error::Format)
    );
    assert_eq!(
        Claims::from_base64(&transport("{\"n\":1e99999999999999999999999}")),
        Err(Error::Format)
    );
    let text = format!("{{\"n\":1e{}}}", usize::MAX as u128 + 1);
    assert_eq!(Claims::from_base64(&transport(&text)), Err(Error::Format));
    let text = object_with_key(&"k".repeat(70_000));
    assert_eq!(Claims::from_base64(&transport(&text)), Err(Error::Format));
    let text = object_with_key(&"k".repeat(65_536));
    assert_eq!(Claims::from_base64(&transport(&text)), Err(Error::Format));
    let deep = format!("{{\"a\":{}", "[".repeat(100_000));
    assert_eq!(Claims::from_base64(&transport(&deep)), Err(Error::Format));
}

#[test]
fn long_keys_are_read_whole() {
    for length in [512, 4_464, 65_535] {
        let key = "k".repeat(length);
        let claims = Claims::from_base64(&transport(&object_with_key(&key))).unwrap();
        assert_eq!(claims.private, vec![(key, Json::U64(1))]);
        let again = Claims::from_base64(&claims.to_base64().unwrap()).unwrap();
        assert_eq!(again, claims);
    }
    let text = format!(
        "{{\"{}\":[{{\"{}\":1,\"exp\":2}}],\"exp\":3}}",
        "a".repeat(40_000),
        "b".repeat(25_535)
    );
    let claims = Claims::from_base64(&transport(&text)).unwrap();
    assert_eq!(claims.reg.exp, Some(3));
    assert_eq!(claims.private.len(), 1);
    assert_eq!(claims.private[0].0.len(), 40_000);
    let inner = claims.private[0].1.as_array().unwrap()[0].as_object().unwrap();
    assert_eq!(inner.keys().map(|k| k.len()).collect::<Vec<_>>(), vec![25_535, 3]);

    let key = "\\ud83d\\ude00".repeat(16_383);
    let claims = Claims::from_base64(&transport(&object_with_key(&key))).unwrap();
    assert_eq!(claims.private[0].0, "\u{1f600}".repeat(16_383));
}

#[test]
fn exponents_with_leading_zeros_are_read() {
    let claims = Claims::from_base64(&transport("{\"k\":1e0000000001}")).unwrap();
    assert_eq!(claims.private, vec![("k".to_string(), Json::from_str("10.0").unwrap())]);
    let claims = Claims::from_base64(&transport("{\"k\":25e-0000000000000002}")).unwrap();
    assert_eq!(claims.private, vec![("k".to_string(), Json::from_str("0.25").unwrap())]);
    let text = format!("{{\"n\":1e-{},\"exp\":7}}", usize::MAX);
    let claims = Claims::from_base64(&transport(&text)).unwrap();
    assert_eq!(claims.reg.exp, Some(7));
    assert_eq!(claims.private.len(), 1);
    // a fraction under a reserved name is of the wrong type, whatever its bits
    assert_eq!(Claims::from_base64(&transport("{\"exp\":0e400}")), Err(Error::Decode));
}

#[test]
fn texts_at_the_limits_are_read() {
    let nested = format!("{{\"a\":{}{}}}", "[".repeat(127), "]".repeat(127));
    let claims = Claims::from_base64(&transport(&nested)).unwrap();
    assert_eq!(claims.private.len(), 1);
    assert_eq!(claims.to_base64().unwrap(), nested.as_bytes().to_base64(URL_SAFE));

    let text = "a,} [[ 1e123456789012345678901234567890";
    let claims = Claims::from_base64(&transport(&format!("{{\"s\":\"{}\"}}", text)));
    assert_eq!(claims.unwrap().private, vec![("s".to_string(), Json::String(text.to_string()))]);
}

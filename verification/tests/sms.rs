use fm350d::sms::{
    build_submit_pdu, decode_pdu, decode_timestamp, gsm7_to_string, hex_decode, hex_encode, pack7,
    parse_list, parse_storage, pdu_is_decodable, string_to_gsm7, swap_digits, ton_prefix,
    ucs2_to_string, unpack7, utf8_to_ucs2,
};

#[test]
fn hex_roundtrip() {
    let b = vec![0x01u8, 0xAB, 0xFF];
    assert_eq!(hex_encode(&b), "01ABFF");
    assert_eq!(hex_decode("01ABFF").unwrap(), b);
}

#[test]
fn hex_decode_rejects_bad_input() {
    assert!(hex_decode("0").is_err());
    assert!(hex_decode("0G").is_err());
    assert_eq!(hex_decode("abcd").unwrap(), vec![0xAB, 0xCD]);
    assert_eq!(hex_decode("").unwrap(), Vec::<u8>::new());
}

#[test]
fn gsm7_roundtrip() {
    let septets = string_to_gsm7("Hello").unwrap();
    assert_eq!(septets.len(), 5);
    assert_eq!(gsm7_to_string(&septets), "Hello");
}

#[test]
fn gsm7_uses_the_gsm_03_38_codes() {
    assert_eq!(string_to_gsm7("Hello").unwrap(), vec![0x48, 0x65, 0x6C, 0x6C, 0x6F]);
    assert_eq!(string_to_gsm7("@ÆæßÉ ").unwrap(), vec![0x00, 0x1C, 0x1D, 0x1E, 0x1F, 0x20]);
    assert_eq!(gsm7_to_string(&string_to_gsm7("Æ").unwrap()), "Æ");
    // The escape code has no character of its own.
    assert!(string_to_gsm7("\u{1b}").is_none());
}

#[test]
fn gsm7_extension_characters_roundtrip() {
    let septets = string_to_gsm7("a{b}€").unwrap();
    assert_eq!(septets.len(), 8);
    assert_eq!(gsm7_to_string(&septets), "a{b}€");
    assert!(string_to_gsm7("你").is_none());
}

#[test]
fn pack7_roundtrip_on_odd_lengths() {
    for text in ["H", "Hi", "Hello w", "Hello wo", "Hello world!"] {
        let s = string_to_gsm7(text).unwrap();
        let packed = pack7(&s);
        assert_eq!(packed.len(), (s.len() * 7 + 7) / 8);
        assert_eq!(unpack7(&packed, s.len()), s);
    }
}

#[test]
fn ucs2_roundtrip() {
    let bytes = utf8_to_ucs2("你好");
    assert_eq!(bytes.len(), 4);
    assert_eq!(ucs2_to_string(&bytes), "你好");
}

#[test]
fn ucs2_handles_surrogate_pairs() {
    let bytes = utf8_to_ucs2("a😀");
    assert_eq!(bytes, vec![0x00, 0x61, 0xD8, 0x3D, 0xDE, 0x00]);
    assert_eq!(ucs2_to_string(&bytes), "a😀");
    // A lone surrogate decodes to the replacement character.
    assert_eq!(ucs2_to_string(&[0xD8, 0x3D]), "\u{FFFD}");
}

#[test]
fn build_submit_pdu_chinese() {
    let (pdu, len) = build_submit_pdu("+8613800138000", "测试").unwrap();
    assert!(pdu.starts_with("00"));
    assert_eq!(pdu.len(), (len + 1) * 2);
}

#[test]
fn build_submit_pdu_gsm7_exact() {
    let (pdu, len) = build_submit_pdu("+8613800138000", "Hi").unwrap();
    assert_eq!(pdu, "0001000D91683108108300F0000002C834");
    assert_eq!(len, 16);
    assert!(build_submit_pdu("", "Hi").is_err());
}

#[test]
fn swap_digits_works() {
    let b = [0x68u8, 0x31, 0x08, 0x10, 0x83, 0x00, 0xF0];
    assert_eq!(swap_digits(&b, 13), "8613800138000");
}

#[test]
fn timestamp_and_number_type() {
    assert_eq!(decode_timestamp(&[0x21, 0x40, 0x13, 0x06, 0x91, 0x80, 0x30]), "2012-04-31 60:19:08");
    assert_eq!(ton_prefix(0x91), "+");
    assert_eq!(ton_prefix(0x81), "");
}

fn deliver_hi() -> String {
    let septets = string_to_gsm7("Hi").unwrap();
    let ud = pack7(&septets);
    let mut pdu: Vec<u8> = vec![0x00, 0x04, 13, 0x91];
    let addr = [0x68u8, 0x31, 0x08, 0x10, 0x83, 0x00, 0xF0];
    pdu.extend_from_slice(&addr);
    pdu.push(0x00);
    pdu.push(0x00);
    pdu.extend_from_slice(&[0x21, 0x40, 0x13, 0x06, 0x91, 0x80, 0x30]);
    pdu.push(2);
    pdu.extend_from_slice(&ud);
    hex_encode(&pdu)
}

#[test]
fn decode_deliver_pdu() {
    let s = deliver_hi();
    assert!(pdu_is_decodable(&s));
    let sms = decode_pdu(1, 0, &s).unwrap();
    assert_eq!(sms.text, "Hi");
    assert_eq!(sms.encoding, "GSM7");
    assert_eq!(sms.sender, "+8613800138000");
}

#[test]
fn truncated_pdu_is_not_decodable() {
    // Too short for a header: refused with an error.
    assert!(pdu_is_decodable("0004"));
    assert!(decode_pdu(1, 0, "0004").is_err());
    // The address type byte is missing: the header would be read past its end.
    assert!(!pdu_is_decodable("00040D"));
    assert!(decode_pdu(1, 0, "0G").is_err());
}

#[test]
fn parse_list_pairs_headers_with_pdus() {
    let s = deliver_hi();
    let resp = format!("+CMGL: 3,1,,24\r\n{}\r\nOK\r\n", s);
    let list = parse_list(&resp);
    assert_eq!(list.len(), 1);
    assert_eq!(list[0].index, 3);
    assert_eq!(list[0].status, 1);
    assert_eq!(list[0].text, "Hi");
}

#[test]
fn storage_reads_cpms_fields() {
    let st = parse_storage("+CPMS: \"ME\",3,100,\"ME\",3,100,\"ME\",3,100\r\nOK");
    assert_eq!(st.mem, "ME");
    assert_eq!(st.used, 3);
    assert_eq!(st.total, 100);
    let none = parse_storage("ERROR");
    assert_eq!(none.mem, "SM");
    assert_eq!(none.used, 0);
}

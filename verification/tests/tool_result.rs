use roleplay_core::tool_result::decode_tool_result;

#[test]
fn tool_result_payload_is_read_by_key() {
    let r = decode_tool_result(r#"{"tool_call_id":"c1","result":{"temp":25}}"#).unwrap();
    assert_eq!(r.tool_call_id.as_deref(), Some("c1"));
    assert_eq!(r.result, r#"{"temp":25}"#);
    let r = decode_tool_result(r#"{"result":"晴"}"#).unwrap();
    assert_eq!(r.tool_call_id, None);
    assert_eq!(r.result, "\"晴\"");
    let r = decode_tool_result(r#"{"tool_call_id":7}"#).unwrap();
    assert_eq!(r.tool_call_id, None);
    assert_eq!(r.result, "");
    let r = decode_tool_result("[1,2]").unwrap();
    assert_eq!(r.tool_call_id, None);
    assert_eq!(r.result, "");
    assert!(decode_tool_result("not json").is_none());
}

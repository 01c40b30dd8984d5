use roleplay_core::memory_builder::{register_tool_call_ids, tool_call_json, MemoryBuilder};
use roleplay_core::tool_result::ToolResult;
use roleplay_core::types::{GameLine, LineAttribute, LineAttributeExt, LineBase, LlmMessage, ToolCall, ToolFunction};

/// Decodes the JSON of a list of tool calls by the application's rules: an
/// array of objects, each with a string `id` and a `function` object holding
/// a string `name`, a string `description` and any `parameters`.
fn parse_tool_calls(json: &str) -> Option<Vec<ToolCall>> {
    let values: Vec<serde_json::Value> = serde_json::from_str(json).ok()?;
    let mut calls = Vec::new();
    for v in values {
        let id = v.as_object()?.get("id")?.as_str()?.to_string();
        let f = v.get("function")?.as_object()?;
        let name = f.get("name")?.as_str()?.to_string();
        let description = f.get("description")?.as_str()?.to_string();
        let parameters = f.get("parameters")?.to_string();
        calls.push(ToolCall { id, function: ToolFunction { name, description, parameters } });
    }
    Some(calls)
}

fn decode_calls(lines: &[GameLine]) -> Vec<Option<Vec<ToolCall>>> {
    lines.iter().map(|l| tool_call_json(l).and_then(|t| parse_tool_calls(&t))).collect()
}

fn build(builder: &MemoryBuilder, lines: &[GameLine]) -> Vec<LlmMessage> {
    builder.build(lines, &decode_calls(lines))
}

/// 构造目标角色(1) 的用户消息行。
fn user_line(content: &str) -> GameLine {
    let mut base = LineBase::default();
    base.content = content.to_string();
    base.attribute = LineAttributeExt(LineAttribute::User);
    base.sender_role_id = Some(0);
    GameLine::from_base(base, vec![1])
}

/// 构造目标角色(1) 的普通助手正文行。
fn assistant_line(content: &str) -> GameLine {
    let mut base = LineBase::default();
    base.content = content.to_string();
    base.attribute = LineAttributeExt(LineAttribute::Assistant);
    base.sender_role_id = Some(1);
    GameLine::from_base(base, vec![1])
}

/// 构造助手工具调用行（新版：tool_call 字段存 JSON，content 为调用前正文）。
fn tool_call_line(id: &str, content: &str) -> GameLine {
    let mut base = LineBase::default();
    base.content = content.to_string();
    base.tool_call = Some(format!(
        r#"[{{"id":"{id}","function":{{"name":"web_search","description":"","parameters":{{}}}}}}]"#
    ));
    base.attribute = LineAttributeExt(LineAttribute::Assistant);
    GameLine::from_base(base, vec![1])
}

/// 构造工具结果行（content 为 {"tool_call_id","result"} JSON）。
fn tool_result_line(id: &str, result: &str) -> GameLine {
    let mut base = LineBase::default();
    base.content = format!(r#"{{"result":"{result}","tool_call_id":"{id}"}}"#);
    base.attribute = LineAttributeExt(LineAttribute::Tool);
    GameLine::from_base(base, vec![1])
}

/// 完整工具轮次（调用→结果→正文）应原样构建，配对完整。
#[test]
fn complete_tool_round_is_built_in_order() {
    let builder = MemoryBuilder::new(1);
    let lines = vec![
        user_line("帮我查天气"),
        tool_call_line("call_1", "我来查一下"),
        tool_result_line("call_1", "晴天 25°C"),
        assistant_line("【开心】今天 25 度晴天"),
    ];
    let msgs = build(&builder, &lines);
    let roles: Vec<&str> = msgs.iter().map(|m| m.role.as_str()).collect();
    assert_eq!(roles, vec!["user", "assistant", "tool", "assistant"]);
    assert!(msgs[1].tool_calls.is_some());
    assert_eq!(msgs[2].tool_call_id.as_deref(), Some("call_1"));
}

/// 窗口起点切开配对：孤儿 tool 结果（无配对 assistant(tool_call)）应被丢弃。
#[test]
fn orphan_tool_result_is_dropped() {
    let builder = MemoryBuilder::new(1);
    let lines = vec![tool_result_line("call_9", "晴天 25°C"), assistant_line("【开心】25 度")];
    let msgs = build(&builder, &lines);
    assert!(msgs.iter().all(|m| m.role != "tool"));
    assert_eq!(msgs.last().map(|m| m.role.as_str()), Some("assistant"));
}

/// 窗口在助手工具调用后切开、结果未写入：悬空 tool_calls 应被剥离（保留正文）。
#[test]
fn dangling_tool_calls_are_stripped() {
    let builder = MemoryBuilder::new(1);
    let lines = vec![user_line("帮我查天气"), tool_call_line("call_2", "我来查一下")];
    let msgs = build(&builder, &lines);
    let last = msgs.last().unwrap();
    assert_eq!(last.role, "assistant");
    assert!(last.tool_calls.is_none());
}

/// 多结果轮次：一次调用多个工具，结果逐个配对后正常保留。
#[test]
fn multi_result_round_pairs_all() {
    let builder = MemoryBuilder::new(1);
    let lines = vec![
        user_line("查两个东西"),
        tool_call_line("a", ""),
        tool_call_line("b", ""),
        tool_result_line("a", "结果A"),
        tool_result_line("b", "结果B"),
        assistant_line("【思考】查到啦"),
    ];
    let msgs = build(&builder, &lines);
    let roles: Vec<&str> = msgs.iter().map(|m| m.role.as_str()).collect();
    assert_eq!(roles, vec!["user", "assistant", "assistant", "tool", "tool", "assistant"]);
}

fn line(attr: LineAttribute, sender: Option<i32>, name: Option<&str>, content: &str, perceived: Vec<i32>) -> GameLine {
    let mut base = LineBase::default();
    base.content = content.to_string();
    base.attribute = LineAttributeExt(attr);
    base.sender_role_id = sender;
    base.display_name = name.map(|n| n.to_string());
    GameLine::from_base(base, perceived)
}

#[test]
fn own_line_is_formatted_with_extras() {
    let builder = MemoryBuilder::new(1);
    let mut base = LineBase::default();
    base.content = "你好".to_string();
    base.original_emotion = Some("开心".to_string());
    base.action_content = Some("挥手".to_string());
    base.tts_content = Some("hi".to_string());
    assert_eq!(builder.format_content_with_extras(&base), "【开心】你好\n(挥手)\n<hi>\n\n");
    base.original_emotion = Some(String::new());
    base.action_content = None;
    base.tts_content = Some(String::new());
    assert_eq!(builder.format_content_with_extras(&base), "你好\n\n");
}

#[test]
fn context_line_names_the_speaker() {
    let builder = MemoryBuilder::new(1);
    let mut base = LineBase::default();
    base.content = "hi".to_string();
    base.display_name = Some("Alice".to_string());
    base.action_content = Some("wave".to_string());
    base.original_emotion = Some("sad".to_string());
    assert_eq!(builder.format_context_line(&base), "Alice: hi(wave)");
    base.display_name = Some("旁白".to_string());
    assert_eq!(builder.format_context_line(&base), "hi(wave)");
    base.display_name = Some("系统".to_string());
    base.action_content = None;
    assert_eq!(builder.format_context_line(&base), "hi");
    base.display_name = None;
    assert_eq!(builder.format_context_line(&base), "未知: hi");
}

#[test]
fn is_target_covers_sender_and_perceivers() {
    let builder = MemoryBuilder::new(1);
    assert!(builder.is_target(&line(LineAttribute::User, Some(1), None, "a", vec![])));
    assert!(builder.is_target(&line(LineAttribute::User, Some(2), None, "a", vec![3, 1])));
    assert!(!builder.is_target(&line(LineAttribute::User, Some(2), None, "a", vec![3])));
}

#[test]
fn empty_input_gives_no_messages() {
    let builder = MemoryBuilder::new(1);
    assert!(build(&builder, &[]).is_empty());
}

#[test]
fn block_of_others_splits_context_and_player_lines() {
    let builder = MemoryBuilder::new(1);
    let lines = vec![
        line(LineAttribute::Assistant, Some(2), Some("Bob"), "a", vec![1]),
        line(LineAttribute::Assistant, Some(3), Some("Carol"), "b", vec![1]),
        line(LineAttribute::User, Some(0), Some("主角"), "c", vec![1]),
        line(LineAttribute::User, Some(0), Some("主角"), "d", vec![1]),
    ];
    let msgs = build(&builder, &lines);
    assert_eq!(msgs.len(), 1);
    assert_eq!(msgs[0].role, "user");
    assert_eq!(msgs[0].content, "{Bob: a\nCarol: b}\n主角: c\n主角: d");
}

#[test]
fn block_of_only_context_or_only_player_lines() {
    let builder = MemoryBuilder::new(1);
    let only_ctx = vec![line(LineAttribute::Assistant, Some(2), Some("Bob"), "a", vec![1])];
    assert_eq!(build(&builder, &only_ctx)[0].content, "{Bob: a}");
    let only_user = vec![line(LineAttribute::User, Some(0), Some("旁白"), "风起", vec![1])];
    assert_eq!(build(&builder, &only_user)[0].content, "风起");
}

#[test]
fn own_and_other_lines_alternate_blocks() {
    let builder = MemoryBuilder::new(1);
    let lines = vec![
        line(LineAttribute::User, Some(0), Some("P"), "hello", vec![1]),
        line(LineAttribute::Assistant, Some(1), Some("Me"), "hi", vec![1]),
        line(LineAttribute::Assistant, Some(1), Some("Me"), "there", vec![1]),
        line(LineAttribute::User, Some(0), Some("P"), "bye", vec![1]),
        line(LineAttribute::User, Some(5), Some("X"), "unseen", vec![5]),
    ];
    let msgs = build(&builder, &lines);
    let roles: Vec<&str> = msgs.iter().map(|m| m.role.as_str()).collect();
    assert_eq!(roles, vec!["user", "assistant", "user"]);
    assert_eq!(msgs[0].content, "P: hello");
    assert_eq!(msgs[1].content, "hi\n\nthere\n\n");
    assert_eq!(msgs[2].content, "P: bye");
}

#[test]
fn blank_own_lines_give_no_message() {
    let builder = MemoryBuilder::new(1);
    let lines = vec![line(LineAttribute::Assistant, Some(1), None, "  ", vec![1])];
    assert!(build(&builder, &lines).is_empty());
}

#[test]
fn only_the_first_persona_line_is_kept() {
    let builder = MemoryBuilder::new(1);
    let lines = vec![
        line(LineAttribute::System, Some(1), None, "persona A", vec![]),
        line(LineAttribute::System, Some(2), None, "other persona", vec![1]),
        line(LineAttribute::User, Some(0), None, "hi", vec![1]),
        line(LineAttribute::System, Some(1), None, "persona B", vec![]),
    ];
    let msgs = build(&builder, &lines);
    let roles: Vec<&str> = msgs.iter().map(|m| m.role.as_str()).collect();
    assert_eq!(roles, vec!["system", "user"]);
    assert_eq!(msgs[0].content, "persona A");
    assert_eq!(msgs[1].content, "未知: hi");
}

#[test]
fn tool_result_text_is_the_json_of_the_result() {
    let builder = MemoryBuilder::new(1);
    let lines = vec![tool_call_line("c", "查"), tool_result_line("c", "晴天 25°C")];
    let msgs = build(&builder, &lines);
    assert_eq!(msgs.len(), 2);
    assert_eq!(msgs[1].role, "tool");
    assert_eq!(msgs[1].content, "\"晴天 25°C\"");
    assert_eq!(msgs[1].tool_call_id.as_deref(), Some("c"));
    assert_eq!(msgs[0].tool_calls.as_ref().unwrap()[0].id, "c");
}

#[test]
fn tool_result_that_is_not_json_is_dropped() {
    let builder = MemoryBuilder::new(1);
    let mut bad = tool_result_line("c", "x");
    bad.base.content = "not json".to_string();
    let lines = vec![tool_call_line("c", ""), bad];
    let msgs = build(&builder, &lines);
    assert_eq!(msgs.len(), 1);
    assert!(msgs[0].tool_calls.is_none());
}

#[test]
fn legacy_tool_call_content_is_split() {
    let builder = MemoryBuilder::new(1);
    let mut base = LineBase::default();
    base.content = r#"[{"id":"old","function":{"name":"f","description":"","parameters":{}}}]"#.to_string() + "\n\n好的\n\n再见";
    base.attribute = LineAttributeExt(LineAttribute::Assistant);
    let call = GameLine::from_base(base, vec![1]);
    assert_eq!(
        tool_call_json(&call).as_deref(),
        Some(r#"[{"id":"old","function":{"name":"f","description":"","parameters":{}}}]"#)
    );
    let lines = vec![call, tool_result_line("old", "r")];
    let msgs = build(&builder, &lines);
    assert_eq!(msgs[0].role, "assistant");
    assert_eq!(msgs[0].content, "好的\n\n再见");
    assert!(msgs[0].tool_calls.is_some());
    assert_eq!(msgs[1].role, "tool");
}

#[test]
fn assistant_line_that_is_not_a_call_list_stays_text() {
    let builder = MemoryBuilder::new(1);
    let lines = vec![assistant_line("just words\n\nmore")];
    let msgs = build(&builder, &lines);
    assert_eq!(msgs.len(), 1);
    assert!(msgs[0].tool_calls.is_none());
    assert_eq!(msgs[0].content, "just words\n\nmore\n\n");
}

#[test]
fn partially_answered_calls_are_stripped_with_their_results() {
    let builder = MemoryBuilder::new(1);
    let mut base = LineBase::default();
    base.tool_call = Some(
        r#"[{"id":"a","function":{"name":"f","description":"","parameters":{}}},{"id":"b","function":{"name":"g","description":"","parameters":{}}}]"#
            .to_string(),
    );
    base.attribute = LineAttributeExt(LineAttribute::Assistant);
    let lines = vec![GameLine::from_base(base, vec![1]), tool_result_line("a", "ra")];
    let msgs = build(&builder, &lines);
    assert_eq!(msgs.len(), 1);
    assert_eq!(msgs[0].role, "assistant");
    assert!(msgs[0].tool_calls.is_none());
    assert!(msgs.iter().all(|m| m.role != "tool"));
}

#[test]
fn blank_call_ids_are_not_awaited() {
    let builder = MemoryBuilder::new(1);
    let lines = vec![tool_call_line(" ", "x"), tool_result_line(" ", "r")];
    let msgs = build(&builder, &lines);
    assert_eq!(msgs.len(), 1);
    assert!(msgs[0].tool_calls.is_some());
}

#[test]
fn decoded_results_are_taken_as_given() {
    let builder = MemoryBuilder::new(1);
    let lines = vec![tool_call_line("k", ""), tool_result_line("ignored", "ignored")];
    let calls = decode_calls(&lines);
    let results = vec![None, Some(ToolResult { tool_call_id: Some("k".to_string()), result: "42".to_string() })];
    let msgs = builder.build_decoded(&lines, &calls, &results);
    assert_eq!(msgs.len(), 2);
    assert_eq!(msgs[1].content, "42");
    assert!(msgs[0].tool_calls.is_some());
    let none = builder.build_decoded(&lines, &[], &[]);
    assert_eq!(none.len(), 1);
    assert_eq!(none[0].role, "user");
}

#[test]
fn a_repeated_result_for_one_call_is_dropped() {
    let builder = MemoryBuilder::new(1);
    let lines = vec![tool_call_line("a", ""), tool_result_line("a", "r1"), tool_result_line("a", "r2")];
    let msgs = build(&builder, &lines);
    let tools: Vec<&LlmMessage> = msgs.iter().filter(|m| m.role == "tool").collect();
    assert_eq!(tools.len(), 1);
    assert_eq!(tools[0].content, "\"r1\"");
}

#[test]
fn messages_are_well_shaped() {
    let builder = MemoryBuilder::new(1);
    let lines = vec![
        line(LineAttribute::System, Some(1), None, "persona", vec![]),
        user_line("q"),
        tool_call_line("t", "x"),
        tool_result_line("t", "y"),
        assistant_line("z"),
    ];
    for m in build(&builder, &lines) {
        assert!(["system", "user", "assistant", "tool"].contains(&m.role.as_str()));
        assert_eq!(m.tool_call_id.is_some(), m.role == "tool");
        assert!(m.tool_calls.is_none() || m.role == "assistant");
    }
}

#[test]
fn a_line_the_target_never_saw_changes_nothing() {
    let builder = MemoryBuilder::new(1);
    let xs = vec![user_line("a"), assistant_line("b")];
    let unseen = line(LineAttribute::Assistant, Some(4), Some("Z"), "elsewhere", vec![5]);
    let ys = vec![assistant_line("c"), user_line("d")];
    let with: Vec<GameLine> = [xs.clone(), vec![unseen], ys.clone()].concat();
    let without: Vec<GameLine> = [xs, ys].concat();
    let a = build(&builder, &with);
    let b = build(&builder, &without);
    assert_eq!(a.len(), b.len());
    for (m, n) in a.iter().zip(b.iter()) {
        assert_eq!(m.role, n.role);
        assert_eq!(m.content, n.content);
    }
}

#[test]
fn registering_calls_twice_awaits_the_same_ids() {
    let calls = parse_tool_calls(
        r#"[{"id":"a","function":{"name":"f","description":"","parameters":{}}},{"id":" ","function":{"name":"g","description":"","parameters":{}}}]"#,
    )
    .unwrap();
    let mut once: Vec<String> = vec!["z".to_string()];
    register_tool_call_ids(&mut once, &calls);
    let mut twice = once.clone();
    register_tool_call_ids(&mut twice, &calls);
    let mut a: Vec<String> = once.clone();
    a.sort();
    a.dedup();
    let mut b: Vec<String> = twice.clone();
    b.sort();
    b.dedup();
    assert_eq!(a, vec!["a".to_string(), "z".to_string()]);
    assert_eq!(a, b);
}

#[test]
fn a_result_whose_call_was_stripped_later_is_dropped() {
    let builder = MemoryBuilder::new(1);
    let lines = vec![
        tool_call_line("x", "first"),
        tool_result_line("x", "r"),
        tool_call_line("x", "again"),
        user_line("hi"),
    ];
    let msgs = build(&builder, &lines);
    let roles: Vec<&str> = msgs.iter().map(|m| m.role.as_str()).collect();
    assert_eq!(roles, vec!["assistant", "assistant", "user"]);
    assert!(msgs.iter().all(|m| m.tool_calls.is_none()));
}

#[test]
fn every_tool_message_follows_its_call() {
    let builder = MemoryBuilder::new(1);
    let lines = vec![
        tool_call_line("p", ""),
        tool_result_line("p", "1"),
        tool_result_line("q", "2"),
        tool_call_line("q", ""),
        tool_result_line("q", "3"),
    ];
    let msgs = build(&builder, &lines);
    for (k, m) in msgs.iter().enumerate() {
        if m.role == "tool" {
            let id = m.tool_call_id.clone().unwrap();
            assert!(msgs[..k].iter().any(|e| e.tool_calls.as_ref().map_or(false, |cs| cs.iter().any(|c| c.id == id))));
        }
    }
    assert_eq!(msgs.len(), 4);
}

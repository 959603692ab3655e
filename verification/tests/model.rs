use inkscope::model::{
    analysis_start, analysis_total, attempt_tokens, chat_endpoint, chunk_prompt, final_module_prompt, final_prompt,
    module_stage, parse_model_json, part_stage, refreshed_stage, repair_json_text, reply_step, report_modules,
    reused_stage, ReplyAction, CHUNK_PROMPT_HEAD, MODULE_OVERVIEW,
};

#[test]
fn repairs_raw_control_characters_inside_model_json_strings() {
    let raw = "```json\n{\"summary\":\"第一行\n第二行\t完成\",\"ok\":true}\n```";
    let text = parse_model_json(raw).expect("control characters should be escaped");
    let value: serde_json::Value = serde_json::from_str(&text).expect("control characters should be escaped");
    assert_eq!(value["summary"], "第一行\n第二行\t完成");
    assert_eq!(value["ok"], true);
}

#[test]
fn valid_json_is_taken_between_its_braces() {
    assert_eq!(parse_model_json("好的：{\"a\":[1,2]} 完"), Ok("{\"a\":[1,2]}".to_string()));
    let err = parse_model_json("没有 JSON").unwrap_err();
    assert!(err.starts_with("DeepSeek 返回的 JSON 修复后仍无法解析: "));
}

#[test]
fn the_repair_escapes_only_inside_strings() {
    assert_eq!(repair_json_text("{\"a\":\"x\u{1}y\u{8}\u{c}\r\"}\n\0"), "{\"a\":\"x\\u0001y\\b\\f\\r\"}\n");
    assert_eq!(repair_json_text("{\"a\":\"\\\"\n\"}"), "{\"a\":\"\\\"\\n\"}");
    assert_eq!(repair_json_text("{\"clean\":1}"), "{\"clean\":1}");
}

#[test]
fn chat_endpoints_are_checked() {
    assert_eq!(chat_endpoint(" ", &None), Err("请输入 DeepSeek API Key".to_string()));
    assert_eq!(chat_endpoint("sk", &None), Ok("https://api.deepseek.com/chat/completions".to_string()));
    assert_eq!(
        chat_endpoint("sk", &Some("https://proxy.example/v1//".to_string())),
        Ok("https://proxy.example/v1/chat/completions".to_string())
    );
    assert_eq!(chat_endpoint("sk", &Some("http://proxy.example".to_string())), Err("API 地址必须使用 HTTPS".to_string()));
    assert_eq!(chat_endpoint("sk", &Some("nowhere".to_string())), Err("无效的 API 地址".to_string()));
}

#[test]
fn attempts_get_more_tokens_up_to_a_ceiling() {
    assert_eq!(attempt_tokens(12_000, 0), 12_000);
    assert_eq!(attempt_tokens(12_000, 1), 24_000);
    assert_eq!(attempt_tokens(12_000, 2), 48_000);
    assert_eq!(attempt_tokens(200_000, 1), 384_000);
    assert_eq!(attempt_tokens(u32::MAX, 2), 384_000);
}

#[test]
fn replies_are_accepted_retried_or_refused() {
    let ok = reply_step(0, true, &None, &Some(" ```json{\"ok\":true}``` ".to_string()), "stop");
    assert!(matches!(ok, ReplyAction::Accept(t) if t == "{\"ok\":true}"));
    let refused = reply_step(0, false, &Some("余额不足".to_string()), &None, "");
    assert!(matches!(refused, ReplyAction::Fail(e) if e == "余额不足"));
    let unknown = reply_step(1, false, &None, &None, "");
    assert!(matches!(unknown, ReplyAction::Fail(e) if e == "未知 API 错误"));
    let empty = reply_step(0, true, &None, &None, "");
    assert!(matches!(empty, ReplyAction::Fail(e) if e == "DeepSeek 未返回内容"));
    let cut = reply_step(1, true, &None, &Some("{\"a\":".to_string()), "length");
    assert!(matches!(cut, ReplyAction::Retry(m) if m.starts_with("上一次输出不是合法 JSON（输出达到 token 上限，JSON 被截断）。")));
    let last = reply_step(2, true, &None, &Some("{\"a\":".to_string()), "length");
    assert!(matches!(last, ReplyAction::Fail(e)
        if e == "DeepSeek 连续 3 次返回无法解析的 JSON（输出达到 token 上限，JSON 被截断）。已保留此前完成的片段和报告模块，可直接重试当前分析。"));
}

#[test]
fn prompts_are_assembled() {
    let p = chunk_prompt("原文内容", 3, 9);
    assert!(p.starts_with("这是作品的第 3/9 个原文片段。"));
    assert!(p.ends_with("原文：\n原文内容"));
    assert!(p.contains("\n{\n \"summary\":"));
    assert!(CHUNK_PROMPT_HEAD.ends_with("第 "));
    let f = final_prompt("书", "[]");
    assert!(f.starts_with("作品名：书\n以下是按原文顺序得到的全部片段教学分析：[]\n\n"));
    let m = final_module_prompt("书", "[{}]", MODULE_OVERVIEW, "{\"x\":1}");
    assert!(m.starts_with("作品名：书\n以下是按原文顺序得到的全部片段分析：[{}]\n\n"));
    assert!(m.contains("本次只生成「总览与全书布局」模块"));
    assert!(m.ends_with("必须严格使用以下结构：\n{\"x\":1}"));
    let modules = report_modules();
    assert_eq!(modules.len(), 5);
    assert_eq!(modules[4].0, "写作课与原创迁移");
    for (_, schema) in &modules {
        assert!(serde_json::from_str::<serde_json::Value>(schema).is_ok());
    }
}

#[test]
fn analyses_move_through_their_stages() {
    assert_eq!(analysis_start("analyzing"), Err("该书正在分析".to_string()));
    assert_eq!(analysis_start("failed"), Ok(false));
    assert_eq!(analysis_start("ready"), Ok(true));
    assert_eq!(analysis_total(3), 8);
    assert_eq!(reused_stage(0, 3), "复用已完成片段 1/3");
    assert_eq!(part_stage(2, 3), "分析原文片段 3/3");
    assert_eq!(module_stage(4, "写作课与原创迁移"), "综合报告 5/5：写作课与原创迁移");
    assert_eq!(refreshed_stage(12), "已补全 12 章，等待分析");
}

#[test]
fn probe_answers_pass_only_with_ok_true() {
    assert!(inkscope::model::probe_ok(r#"{"ok":true}"#));
    assert!(!inkscope::model::probe_ok(r#"{"ok":false}"#));
    assert!(!inkscope::model::probe_ok(r#"{"ok":"true"}"#));
    assert!(!inkscope::model::probe_ok("[true]"));
    assert!(!inkscope::model::probe_ok("nope"));
}

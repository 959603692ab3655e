use inkscope::book::{chapters_from_content, safe_file_name};
use inkscope::chunking::split_content;
use inkscope::model::{
    chunk_prompt, final_module_prompt, module_stage, parse_model_json, part_stage, report_modules, reused_stage,
    AnalysisAction, AnalysisRun, Phase,
};
use inkscope::rules::{split_request, split_rule};

fn expect_progress(run: &mut AnalysisRun, status: &str, stage: &str, completed: i64, total: i64) {
    match run.next_action() {
        AnalysisAction::Progress { status: s, stage: g, completed: c, total: t } => {
            assert_eq!(s, status);
            assert_eq!(g, stage);
            assert_eq!(c, completed);
            assert_eq!(t, total);
        }
        _ => panic!("a progress record was expected"),
    }
}

#[test]
fn a_fresh_analysis_asks_the_model_for_every_step() {
    let title = "测试书";
    let content = "第一段。";
    let mut run = AnalysisRun::new(title, content);
    assert_eq!(run.parts(), &vec![content.to_string()]);
    assert_eq!(run.phase(), Phase::Prepare);
    expect_progress(&mut run, "analyzing", "准备原文切片", 0, 6);
    assert!(matches!(run.next_action(), AnalysisAction::StoreParts));
    assert!(matches!(run.next_action(), AnalysisAction::LoadPart { index: 0 }));
    assert_eq!(run.phase(), Phase::PartWait);
    assert!(!run.part_stored(&None));
    expect_progress(&mut run, "analyzing", &part_stage(0, 1), 0, 6);
    match run.next_action() {
        AnalysisAction::AskPart { index, prompt } => {
            assert_eq!(index, 0);
            assert_eq!(prompt, chunk_prompt(content, 1, 1));
        }
        _ => panic!("the model should be asked about the part"),
    }
    run.part_answered("{\"a\":1}".to_string());
    let modules = report_modules();
    for (i, (name, schema)) in modules.iter().enumerate() {
        expect_progress(&mut run, "analyzing", &module_stage(i, name), 1 + i as i64, 6);
        match run.next_action() {
            AnalysisAction::LoadModule { index, name: n } => {
                assert_eq!(index, i);
                assert_eq!(&n, name);
            }
            _ => panic!("the stored module should be looked up"),
        }
        assert!(!run.module_stored(&None));
        match run.next_action() {
            AnalysisAction::AskModule { index, prompt } => {
                assert_eq!(index, i);
                assert_eq!(prompt, final_module_prompt(title, "[{\"a\":1}]", name, schema));
            }
            _ => panic!("the model should be asked for the module"),
        }
        run.module_answered(format!("{{\"m{i}\":{i},\"same\":\"模块{i}\"}}"));
    }
    match run.next_action() {
        AnalysisAction::StoreReport { report } => {
            assert_eq!(report, r#"{"m0":0,"same":"模块4","m1":1,"m2":2,"m3":3,"m4":4}"#);
        }
        _ => panic!("the report should be stored"),
    }
    expect_progress(&mut run, "completed", "分析完成", 6, 6);
    assert!(matches!(run.next_action(), AnalysisAction::Done));
    assert!(matches!(run.next_action(), AnalysisAction::Done));
    assert_eq!(run.phase(), Phase::Finished);
}

#[test]
fn stored_analyses_are_reused_when_they_parse() {
    let mut run = AnalysisRun::new("书", "正文");
    expect_progress(&mut run, "analyzing", "准备原文切片", 0, 6);
    assert!(matches!(run.next_action(), AnalysisAction::StoreParts));
    assert!(matches!(run.next_action(), AnalysisAction::LoadPart { index: 0 }));
    assert!(!run.part_stored(&Some("不是 JSON".to_string())));
    assert_eq!(run.phase(), Phase::PartProgress);

    let mut run = AnalysisRun::new("书", "正文");
    run.next_action();
    run.next_action();
    run.next_action();
    assert!(run.part_stored(&Some("{\"x\":2}".to_string())));
    expect_progress(&mut run, "analyzing", &reused_stage(0, 1), 1, 6);
    expect_progress(&mut run, "analyzing", &module_stage(0, &report_modules()[0].0), 1, 6);
    assert!(matches!(run.next_action(), AnalysisAction::LoadModule { index: 0, .. }));
    assert!(run.module_stored(&Some("{}".to_string())));
    expect_progress(&mut run, "analyzing", &module_stage(1, &report_modules()[1].0), 2, 6);
}

#[test]
fn an_empty_text_goes_straight_to_the_report() {
    let mut run = AnalysisRun::new("书", "");
    assert!(run.parts().is_empty());
    expect_progress(&mut run, "analyzing", "准备原文切片", 0, 5);
    assert!(matches!(run.next_action(), AnalysisAction::StoreParts));
    expect_progress(&mut run, "analyzing", &module_stage(0, &report_modules()[0].0), 0, 5);
}

#[test]
fn progress_only_goes_forward_and_ends_at_the_total() {
    let content = "甲".repeat(60_000);
    let mut run = AnalysisRun::new("长书", &content);
    let parts = run.parts().len();
    assert_eq!(parts, 2);
    let total = parts as i64 + 5;
    let mut last = 0;
    let mut steps = 0;
    loop {
        steps += 1;
        assert!(steps < 1000);
        match run.next_action() {
            AnalysisAction::Progress { completed, total: t, .. } => {
                assert!(completed >= last);
                assert!(completed <= t);
                assert_eq!(t, total);
                last = completed;
            }
            AnalysisAction::LoadPart { .. } => {
                assert!(run.part_stored(&Some("{\"ok\":true}".to_string())));
            }
            AnalysisAction::AskPart { .. } => run.part_answered("{}".to_string()),
            AnalysisAction::LoadModule { index, .. } => {
                let cached = if index % 2 == 0 { Some("[1]".to_string()) } else { None };
                run.module_stored(&cached);
            }
            AnalysisAction::AskModule { .. } => run.module_answered("{}".to_string()),
            AnalysisAction::StoreParts | AnalysisAction::StoreReport { .. } => {}
            AnalysisAction::Done => break,
        }
    }
    assert_eq!(last, total);
}

#[test]
fn plain_cuts_happen_only_in_full_chunks() {
    let chunks = split_content("abcdefgh\nijklmnop", 10);
    assert_eq!(chunks, vec!["abcdefgh".to_string(), "\nijklmnop".to_string()]);
    let chunks = split_content("abcdefghijklmnop", 10);
    assert_eq!(chunks, vec!["abcdefghij".to_string(), "klmnop".to_string()]);
    let chunks = split_content("甲乙丙丁", 7);
    assert_eq!(chunks, vec!["甲乙".to_string(), "丙丁".to_string()]);
}

#[test]
fn any_target_size_is_taken() {
    assert_eq!(split_content("a", usize::MAX), vec!["a".to_string()]);
    assert_eq!(split_content("第一章。第二章", usize::MAX - 1), vec!["第一章。第二章".to_string()]);
    assert!(split_content("", usize::MAX).is_empty());
}

#[test]
fn blank_texts_have_no_chapters() {
    assert!(chapters_from_content("书", "").is_empty());
    assert!(chapters_from_content("书", "  \n\t \r\n").is_empty());
    assert_eq!(chapters_from_content("书", " x "), vec![("书".to_string(), "x".to_string())]);
}

#[test]
fn headings_give_their_chapters_in_order() {
    let chapters = chapters_from_content("书", "前言\n# 第一章\n甲\n# 第二章 \n乙\n丙");
    assert_eq!(
        chapters,
        vec![
            ("书".to_string(), "前言".to_string()),
            ("第一章".to_string(), "甲".to_string()),
            ("第二章".to_string(), "乙\n丙".to_string()),
        ]
    );
    let chapters = chapters_from_content("书", "\n# 只有一章\n正文");
    assert_eq!(chapters, vec![("只有一章".to_string(), "正文".to_string())]);
}

#[test]
fn split_rules_and_requests_rejoin() {
    assert_eq!(split_rule("a##b##c##d"), ("a".to_string(), Some(("b".to_string(), "c##d".to_string()))));
    assert_eq!(split_rule("a##b"), ("a".to_string(), Some(("b".to_string(), String::new()))));
    assert_eq!(split_rule("a#b"), ("a#b".to_string(), None));
    assert_eq!(split_request("https://x/s,{\"a\":1}"), ("https://x/s".to_string(), Some("{\"a\":1}".to_string())));
    assert_eq!(split_request("https://x/s,[{\"a\":1}]"), ("https://x/s".to_string(), Some("[{\"a\":1}]".to_string())));
    assert_eq!(split_request("https://x/s,a"), ("https://x/s,a".to_string(), None));
}

#[test]
fn safe_file_names_are_trimmed_and_stable() {
    let once = safe_file_name("  a/b:c*  ");
    assert_eq!(once, "a_b_c_");
    assert_eq!(safe_file_name(&once), once);
    assert!(once.chars().count() <= "  a/b:c*  ".chars().count());
}

#[test]
fn an_object_comes_back_whatever_surrounds_it() {
    assert_eq!(parse_model_json("结果如下：{\"a\":{\"b\":[1,2]}} 以上。"), Ok("{\"a\":{\"b\":[1,2]}}".to_string()));
}

#[test]
fn reports_merge_their_modules_later_members_winning() {
    let mut run = AnalysisRun::new("书", "");
    run.next_action();
    run.next_action();
    let modules = [
        Some(r#"{"a":1,"b":{"x":[1,2]}}"#.to_string()),
        None,
        Some("[1,2]".to_string()),
        Some(r#"{"b":"新\"值","c":null}"#.to_string()),
        Some("不是 JSON".to_string()),
    ];
    for stored in modules.iter() {
        run.next_action();
        run.next_action();
        if !run.module_stored(stored) {
            run.next_action();
            run.module_answered(r#"{"d":true}"#.to_string());
        }
    }
    match run.next_action() {
        AnalysisAction::StoreReport { report } => {
            assert_eq!(report, r#"{"a":1,"b":"新\"值","d":true,"c":null}"#);
            let value: serde_json::Value = serde_json::from_str(&report).unwrap();
            assert_eq!(value["b"], "新\"值");
        }
        _ => panic!("the report should be stored"),
    }
}

#[test]
fn stored_analyses_are_taken_in_compact_form() {
    let mut run = AnalysisRun::new("书", "正文");
    run.next_action();
    run.next_action();
    run.next_action();
    assert!(run.part_stored(&Some("{ \"x\" : [1, 2] }".to_string())));
    run.next_action();
    run.next_action();
    run.next_action();
    run.module_stored(&None);
    match run.next_action() {
        AnalysisAction::AskModule { prompt, .. } => assert!(prompt.contains(r#"[{"x":[1,2]}]"#), "{prompt}"),
        _ => panic!("the model should be asked for the module"),
    }
}

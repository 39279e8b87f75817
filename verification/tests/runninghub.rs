use clearclip::runninghub::{
    choose_video_node, choose_video_node_with_reason, demo_json_body, demo_node_info_list,
    demo_outcome, extract_json_value_from_demo, format_runninghub_error, inspect_node_info,
    map_runninghub_error, map_runninghub_status_error, parse_webapp_id, query_envelope_outcome,
    query_outcome, query_reply_outcome, result_extension, result_file_name, result_path_for, run_outcome,
    sanitize_file_part, upload_outcome, AiAppRunData, ModelNodeRef, NodeInfo, QueryResponse,
    QueryReply, QueryResultFile, RunningHubError,
};
use std::path::Path;

fn node(id: &str, field: &str) -> NodeInfo {
    NodeInfo {
        node_id: id.into(),
        node_name: None,
        field_name: field.into(),
        field_value: String::new(),
        field_data: None,
        description: None,
        description_en: None,
    }
}

#[test]
fn extracts_node_info_from_demo_curl() {
    let curl = r#"curl --data-raw '{
      "webappId": "1",
      "apiKey": "{{apikey}}",
      "nodeInfoList": [
        {"nodeId":"7","fieldName":"video","fieldValue":"old.mp4","description":"上传视频"}
      ]
    }'"#;

    let nodes = demo_node_info_list(curl).expect("nodes");
    assert_eq!(nodes[0]["nodeId"].as_str(), Some("7"));
    assert_eq!(nodes[0]["fieldName"].as_str(), Some("video"));
}

#[test]
fn chooses_single_video_node_by_field_name() {
    let nodes = vec![
        NodeInfo {
            node_id: "1".into(),
            node_name: None,
            field_name: "prompt".into(),
            field_value: String::new(),
            field_data: None,
            description: None,
            description_en: None,
        },
        NodeInfo {
            node_id: "2".into(),
            node_name: None,
            field_name: "video".into(),
            field_value: String::new(),
            field_data: None,
            description: None,
            description_en: None,
        },
    ];

    assert_eq!(choose_video_node(&nodes), Some(1));
}

#[test]
fn refuses_ambiguous_exact_matches() {
    let nodes = vec![
        NodeInfo {
            node_id: "1".into(),
            node_name: None,
            field_name: "video".into(),
            field_value: String::new(),
            field_data: None,
            description: None,
            description_en: None,
        },
        NodeInfo {
            node_id: "2".into(),
            node_name: None,
            field_name: "video".into(),
            field_value: String::new(),
            field_data: None,
            description: None,
            description_en: None,
        },
    ];

    assert_eq!(choose_video_node(&nodes), None);
}

#[test]
fn inspects_nodes_with_recommendation_and_reason() {
    let nodes = vec![
        NodeInfo {
            node_id: "1".into(),
            node_name: Some("Prompt".into()),
            field_name: "prompt".into(),
            field_value: String::new(),
            field_data: None,
            description: None,
            description_en: None,
        },
        NodeInfo {
            node_id: "9".into(),
            node_name: Some("Upload".into()),
            field_name: "mediaFile".into(),
            field_value: String::new(),
            field_data: None,
            description: Some("上传视频".into()),
            description_en: None,
        },
    ];

    let inspection = inspect_node_info(nodes);
    assert_eq!(
        inspection.recommended,
        Some(ModelNodeRef {
            node_id: "9".into(),
            field_name: "mediaFile".into(),
        })
    );
    assert!(inspection.reason.contains("自动识别"));
}

#[test]
fn inspection_reports_ambiguous_video_nodes() {
    let nodes = vec![
        NodeInfo {
            node_id: "1".into(),
            node_name: None,
            field_name: "video".into(),
            field_value: String::new(),
            field_data: None,
            description: None,
            description_en: None,
        },
        NodeInfo {
            node_id: "2".into(),
            node_name: None,
            field_name: "video".into(),
            field_value: String::new(),
            field_data: None,
            description: None,
            description_en: None,
        },
    ];

    let inspection = inspect_node_info(nodes);
    assert!(inspection.recommended.is_none());
    assert!(inspection.reason.contains("手动选择"));
}

#[test]
fn maps_common_error_codes() {
    assert!(map_runninghub_error(802, "").contains("API Key"));
    assert!(map_runninghub_error(416, "").contains("余额"));
    assert!(map_runninghub_error(803, "").contains("nodeInfoList"));
}

#[test]
fn builds_result_path_with_extension() {
    let result = QueryResultFile {
        url: "https://example.com/output/file.mov?x=1".into(),
        output_type: None,
    };
    let path = result_path_for(
        Path::new("C:/out"),
        Path::new("C:/input/a:b.mp4"),
        "4K 超分增强",
        "task/1",
        &result,
        1,
    );
    let name = path.file_name().unwrap().to_string_lossy();
    assert!(name.ends_with("-2.mov"));
    assert!(!name.contains(':'));
    assert!(!name.contains('/'));
}

#[test]
fn error_codes_map_to_exact_messages() {
    assert_eq!(map_runninghub_error(0, "  done  "), "done");
    assert_eq!(map_runninghub_error(0, "   "), "RunningHub 请求失败。");
    assert_eq!(map_runninghub_error(301, "x"), "参数错误，请检查工作流节点配置。");
    assert_eq!(map_runninghub_error(500, ""), "RunningHub 服务端异常，请稍后重试。");
    assert_eq!(map_runninghub_error(999, " busy "), "RunningHub 错误 999：busy");
    assert_eq!(map_runninghub_error(-7, ""), "RunningHub 错误 -7：RunningHub 请求失败。");
}

#[test]
fn status_errors_use_numeric_codes() {
    assert_eq!(map_runninghub_status_error("803", "mismatch"), "nodeInfoList 与工作流不匹配，请检查高级节点配置。");
    assert_eq!(map_runninghub_status_error("", "  "), "RunningHub 返回任务失败。");
    assert_eq!(map_runninghub_status_error("E1", "boom"), "boom");
    assert_eq!(map_runninghub_status_error("+42", "boom"), "RunningHub 错误 42：boom");
}

#[test]
fn error_texts_and_cancel_marker() {
    assert_eq!(RunningHubError::Request("timeout".into()).message(), "网络请求失败：timeout");
    assert_eq!(RunningHubError::Io("disk".into()).message(), "文件读写失败：disk");
    assert_eq!(format_runninghub_error(RunningHubError::Api("CANCELED".into())), "CANCELED");
    assert_eq!(format_runninghub_error(RunningHubError::InvalidResponse("bad".into())), "bad");
}

#[test]
fn upload_reply_outcomes() {
    assert_eq!(upload_outcome(true, 0, "", Some("a.mp4".into())), Ok("a.mp4".to_string()));
    assert_eq!(
        upload_outcome(true, 0, "", Some("  ".into())),
        Err(RunningHubError::InvalidResponse("上传成功但没有返回 fileName。".into()))
    );
    assert_eq!(
        upload_outcome(false, 0, "oops", Some("a.mp4".into())),
        Err(RunningHubError::Api("oops".into()))
    );
    assert_eq!(
        upload_outcome(true, 802, "", None),
        Err(RunningHubError::Api("API Key 未授权或已失效，请重新保存。".into()))
    );
}

#[test]
fn demo_and_run_reply_outcomes() {
    assert_eq!(demo_outcome(true, 0, "", Some("curl".into())), Ok("curl".to_string()));
    assert_eq!(
        demo_outcome(true, 0, "", None),
        Err(RunningHubError::InvalidResponse("没有获取到 AI 应用调用示例。".into()))
    );
    let data = AiAppRunData { task_id: "t1".into() };
    assert_eq!(run_outcome(true, 0, "", Some(data.clone())), Ok(data));
    assert_eq!(
        run_outcome(true, 0, "", None),
        Err(RunningHubError::InvalidResponse("提交成功但没有返回 taskId。".into()))
    );
    assert_eq!(
        run_outcome(true, 421, "", None),
        Err(RunningHubError::Api("RunningHub 并发上限已满，请稍后重试。".into()))
    );
}

fn query(status: &str, code: Option<&str>, message: Option<&str>) -> QueryResponse {
    QueryResponse {
        status: status.into(),
        error_code: code.map(String::from),
        error_message: message.map(String::from),
        results: Vec::new(),
    }
}

#[test]
fn query_replies() {
    let running = query("RUNNING", None, None);
    assert_eq!(query_envelope_outcome(0, "success", Some(running.clone())), Ok(running.clone()));
    assert_eq!(
        query_envelope_outcome(0, "success", None),
        Err(RunningHubError::InvalidResponse("任务查询响应缺少 data。".into()))
    );
    assert_eq!(
        query_envelope_outcome(423, "", None),
        Err(RunningHubError::Api("未找到指定任务，可能任务 ID 错误或已被清理。".into()))
    );
    assert_eq!(query_outcome(running.clone()), Ok(running));
    assert_eq!(
        query_outcome(query("failed", Some("803"), Some("nodeInfoList mismatch"))),
        Err(RunningHubError::Api("nodeInfoList 与工作流不匹配，请检查高级节点配置。".into()))
    );
    assert_eq!(
        query_outcome(query("FAILED", None, Some(" "))),
        Err(RunningHubError::Api("RunningHub 返回任务失败。".into()))
    );
    assert_eq!(
        query_outcome(query("FAILED", Some("x"), Some("model crashed"))),
        Err(RunningHubError::Api("model crashed".into()))
    );
}

#[test]
fn workflow_ids_must_be_numbers() {
    assert_eq!(parse_webapp_id("2059943323456065537"), Ok(2059943323456065537));
    assert_eq!(
        parse_webapp_id("abc"),
        Err(RunningHubError::InvalidResponse("工作流 ID 必须是数字。".into()))
    );
    assert_eq!("-1".parse::<u64>().is_ok(), parse_webapp_id("-1").is_ok());
    assert_eq!("18446744073709551616".parse::<u64>().is_ok(), parse_webapp_id("18446744073709551616").is_ok());
}

#[test]
fn later_strategies_decide_when_earlier_find_nothing() {
    let mut a = node("1", "prompt");
    a.field_value = "clip.MP4".into();
    let b = node("2", "seed");
    assert_eq!(choose_video_node(&[a.clone(), b.clone()]), Some(0));
    let (_, reason) = choose_video_node_with_reason(&[b.clone()]);
    assert_eq!(reason, "没有识别到明显的视频输入节点，请手动选择 nodeId 和 fieldName。");
    let (index, reason) = choose_video_node_with_reason(&[node("1", "file_a"), node("2", "media_b"), node("3", "x")]);
    assert_eq!(index, None);
    assert_eq!(reason, "检测到 2 个可能的视频输入节点，请手动选择。");
    assert_eq!(choose_video_node(&[node("1", "Upload"), node("2", "videoFile")]), Some(0));
}

#[test]
fn file_parts_are_sanitized() {
    assert_eq!(sanitize_file_part("a:b"), "a-b");
    assert_eq!(sanitize_file_part("  ..name..  "), "name");
    assert_eq!(sanitize_file_part("..."), "untitled");
    assert_eq!(sanitize_file_part("x\u{7}y"), "x-y");
    assert_eq!(sanitize_file_part("a<b>c\"d|e?f*g\\h/i"), "a-b-c-d-e-f-g-h-i");
}

#[test]
fn result_extensions() {
    let declared = QueryResultFile { url: "https://x/y.mp4".into(), output_type: Some(" .MOV ".into()) };
    assert_eq!(result_extension(&declared), "mov");
    let blank = QueryResultFile { url: "https://x/y.WEBM?sig=1".into(), output_type: Some(" . ".into()) };
    assert_eq!(result_extension(&blank), "webm");
    let odd = QueryResultFile { url: "https://x/y.toolongext".into(), output_type: None };
    assert_eq!(result_extension(&odd), "mp4");
    let symbol = QueryResultFile { url: "https://x/y.m-v".into(), output_type: None };
    assert_eq!(result_extension(&symbol), "mp4");
}

#[test]
fn result_file_names() {
    let r = QueryResultFile { url: "https://x/out.mp4".into(), output_type: None };
    assert_eq!(result_file_name(Some("clip".into()), "4K", "task-1", &r, 0), "clip-4K-task-1.mp4");
    assert_eq!(result_file_name(None, "m", "t", &r, 2), "video-m-t-3.mp4");
}

#[test]
fn demo_bodies() {
    assert_eq!(demo_json_body("x {\"a\": \"}\"} y"), Ok("{\"a\": \"}\"}".to_string()));
    assert_eq!(demo_json_body("{\"a\": {\"b\": 1}}tail"), Ok("{\"a\": {\"b\": 1}}".to_string()));
    assert_eq!(
        demo_json_body("no json here"),
        Err(RunningHubError::InvalidResponse("AI 应用调用示例里没有 JSON 请求体。".into()))
    );
    assert_eq!(
        demo_json_body("{\"a\": 1"),
        Err(RunningHubError::InvalidResponse("AI 应用调用示例里的 JSON 请求体不完整。".into()))
    );
    assert_eq!(demo_json_body("{\"q\": \"\\\"}\"}"), Ok("{\"q\": \"\\\"}\"}".to_string()));
}

#[test]
fn demo_json_errors() {
    let err = extract_json_value_from_demo("curl '{bad json}'").unwrap_err();
    let serde_message = serde_json::from_str::<serde_json::Value>("{bad json}").unwrap_err().to_string();
    assert_eq!(
        err,
        RunningHubError::InvalidResponse(format!("AI 应用调用示例 JSON 解析失败：{serde_message}"))
    );
    assert_eq!(
        demo_node_info_list("{\"webappId\": 1}"),
        Err(RunningHubError::InvalidResponse("AI 应用调用示例缺少 nodeInfoList。".into()))
    );
    let value = extract_json_value_from_demo("curl -d '{\"a\": [1, 2]}'").expect("value");
    assert_eq!(value["a"][1].as_i64(), Some(2));
}

#[test]
fn declared_types_must_be_plain_extensions() {
    let r = QueryResultFile { url: "https://x/out.webm?s=1".into(), output_type: Some("video/mp4".into()) };
    assert_eq!(result_extension(&r), "webm");
    let r = QueryResultFile { url: "https://x/out".into(), output_type: Some("..\\evil".into()) };
    assert_eq!(result_extension(&r), "mp4");
    let path = result_path_for(Path::new("/results"), Path::new("/in/clip.mp4"), "m", "t", &r, 0);
    assert_eq!(path.parent(), Some(Path::new("/results")));
    assert_eq!(path.file_name().unwrap().to_string_lossy(), "clip-m-t.mp4");
}

#[test]
fn result_paths_carry_the_computed_name() {
    let result = QueryResultFile { url: "https://example.com/output/file.mov?x=1".into(), output_type: None };
    let path = result_path_for(Path::new("/out"), Path::new("/input/a:b.mp4"), "4K 超分增强", "task/1", &result, 1);
    assert_eq!(path.file_name().unwrap().to_string_lossy(), "a-b-4K 超分增强-task-1-2.mov");
    let stemless = result_path_for(Path::new("/out"), Path::new("/"), "m", "t", &result, 0);
    assert_eq!(stemless.file_name().unwrap().to_string_lossy(), "video-m-t.mov");
}

#[test]
fn node_order_does_not_change_the_choice() {
    let a = node("1", "prompt");
    let mut b = node("2", "input");
    b.description = Some("上传视频".into());
    let c = node("3", "seed");
    let (i1, r1) = choose_video_node_with_reason(&[a.clone(), b.clone(), c.clone()]);
    let (i2, r2) = choose_video_node_with_reason(&[c, b, a]);
    assert_eq!((i1, i2), (Some(1), Some(1)));
    assert_eq!(r1, r2);
}

#[test]
fn declared_types_without_separators_are_kept() {
    let r = QueryResultFile { url: String::new(), output_type: Some(" .MPEG-TS ".into()) };
    assert_eq!(result_extension(&r), "mpeg-ts");
    let r = QueryResultFile { url: "https://x/y.mp4".into(), output_type: Some("QuickTime".into()) };
    assert_eq!(result_extension(&r), "quicktime");
    let r = QueryResultFile { url: "https://cdn.example.com/get?id=7".into(), output_type: None };
    assert_eq!(result_extension(&r), "mp4");
}

#[test]
fn query_reply_shapes() {
    let running = QueryResponse { status: "RUNNING".into(), error_code: None, error_message: None, results: Vec::new() };
    assert_eq!(query_reply_outcome(QueryReply::Direct(Ok(running.clone()))), Ok(running.clone()));
    assert_eq!(
        query_reply_outcome(QueryReply::Direct(Err("missing field".into()))),
        Err(RunningHubError::InvalidResponse("任务查询响应解析失败：missing field".into()))
    );
    assert_eq!(
        query_reply_outcome(QueryReply::Enveloped(Ok((0, "success".into(), Some(running.clone()))))),
        Ok(running)
    );
    assert_eq!(
        query_reply_outcome(QueryReply::Enveloped(Ok((0, "".into(), None)))),
        Err(RunningHubError::InvalidResponse("任务查询响应缺少 data。".into()))
    );
    assert_eq!(
        query_reply_outcome(QueryReply::Enveloped(Ok((416, "".into(), None)))),
        Err(RunningHubError::Api("RunningHub 账户余额不足，请充值后重试。".into()))
    );
    assert_eq!(
        query_reply_outcome(QueryReply::Unrecognized),
        Err(RunningHubError::InvalidResponse("任务查询响应缺少 status 或 code。".into()))
    );
}

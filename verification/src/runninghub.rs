//! The RunningHub API as the application sees it: the records it exchanges,
//! the mapping of its error codes to messages, the checks on its replies,
//! the choice of the video input node and the names of result files.
use vstd::prelude::*;
use std::path::{Path, PathBuf};
use crate::text::{
    after_last, after_last_start, ascii_alphanumeric, before_first, before_first_end, chars_of,
    control, is_ascii_alphanumeric, is_control, string_of, trim_bounds, trim_char,
    trim_char_bounds, trim_start_char,
    contains, contains_text, decimal, ends_with, ends_with_text, push_decimal, to_lowercase,
    unicode_lowercase, blank, eq_ignore_ascii_case, eq_ignore_case, is_blank, owned, parse_i64, parse_integer, parse_u64,
    push_decimal_signed, push_str, same_text, trim, trim_str, decimal_signed, lemma_trim_is_stretch,
    lemma_trim_char_is_stretch, lemma_trim_char_first, lemma_decimal_digits, is_ascii_digit,
    ascii_lower, is_ascii_text, lower_text, lowercase, same_up_to_ascii_case,
    law_lower_ignores_ascii_case, lemma_same_case_concat,
};

verus! {

broadcast use vstd::string::group_string_axioms;

#[verifier::external_type_specification]
#[verifier::external_body]
pub struct ExPath(Path);

#[verifier::external_type_specification]
#[verifier::external_body]
pub struct ExPathBuf(PathBuf);

// ---------------------------------------------------------------------------
// Records
// ---------------------------------------------------------------------------

/// An error of a RunningHub call. The network and file variants hold the
/// text of the underlying error.
#[derive(Debug, Clone, PartialEq, Eq)]
pub enum RunningHubError {
    Request(String),
    Io(String),
    Api(String),
    InvalidResponse(String),
}

/// One input node of a workflow, as RunningHub describes it.
#[derive(Debug, Clone, PartialEq, Eq)]
pub struct NodeInfo {
    pub node_id: String,
    pub node_name: Option<String>,
    pub field_name: String,
    pub field_value: String,
    pub field_data: Option<String>,
    pub description: Option<String>,
    pub description_en: Option<String>,
}

/// What a successful run request returns.
#[derive(Debug, Clone, PartialEq, Eq)]
pub struct AiAppRunData {
    pub task_id: String,
}

/// One result file of a finished task.
#[derive(Debug, Clone, PartialEq, Eq)]
pub struct QueryResultFile {
    pub url: String,
    pub output_type: Option<String>,
}

/// The state of a remote task.
#[derive(Debug, Clone, PartialEq, Eq)]
pub struct QueryResponse {
    pub status: String,
    pub error_code: Option<String>,
    pub error_message: Option<String>,
    pub results: Vec<QueryResultFile>,
}

/// The input nodes of a workflow with the video node recommended among them.
#[derive(Debug, Clone, PartialEq, Eq)]
pub struct NodeInspection {
    pub nodes: Vec<NodeInfo>,
    pub recommended: Option<ModelNodeRef>,
    pub reason: String,
}

/// A reference to one node field.
#[derive(Debug, Clone, PartialEq, Eq)]
pub struct ModelNodeRef {
    pub node_id: String,
    pub field_name: String,
}

/// The text that an error shows.
pub open spec fn error_text(e: RunningHubError) -> Seq<char> {
    match e {
        RunningHubError::Request(m) => "网络请求失败："@ + m@,
        RunningHubError::Io(m) => "文件读写失败："@ + m@,
        RunningHubError::Api(m) => m@,
        RunningHubError::InvalidResponse(m) => m@,
    }
}

impl RunningHubError {
    /// The text that the error shows.
    pub fn message(&self) -> (r: String)
        ensures
            r@ == error_text(*self),
    {
        match self {
            RunningHubError::Request(m) => {
                let mut s = owned("网络请求失败：");
                push_str(&mut s, m.as_str());
                s
            },
            RunningHubError::Io(m) => {
                let mut s = owned("文件读写失败：");
                push_str(&mut s, m.as_str());
                s
            },
            RunningHubError::Api(m) => m.clone(),
            RunningHubError::InvalidResponse(m) => m.clone(),
        }
    }
}

/// The text that a failed step of a task records for a RunningHub error.
pub fn format_runninghub_error(error: RunningHubError) -> (r: String)
    ensures
        r@ == error_text(error),
{
    let message = error.message();
    if same_text(message.as_str(), "CANCELED") {
        owned("CANCELED")
    } else {
        message
    }
}

// ---------------------------------------------------------------------------
// Error codes
// ---------------------------------------------------------------------------

/// The reply's own message, trimmed, or a generic text when it is blank.
pub open spec fn error_fallback(message: Seq<char>) -> Seq<char> {
    if is_blank(message) {
        "RunningHub 请求失败。"@
    } else {
        trim(message)
    }
}

/// The message shown for a RunningHub error code.
pub open spec fn runninghub_error_text(code: int, message: Seq<char>) -> Seq<char> {
    if code == 0 {
        error_fallback(message)
    } else if code == 301 {
        "参数错误，请检查工作流节点配置。"@
    } else if code == 380 {
        "工作流不存在，请检查 AI 工作流 ID。"@
    } else if code == 412 {
        "接口路径错误，请检查 RunningHub API 地址。"@
    } else if code == 415 {
        "独占型 API 机器数不足，请稍后重试。"@
    } else if code == 416 {
        "RunningHub 账户余额不足，请充值后重试。"@
    } else if code == 421 {
        "RunningHub 并发上限已满，请稍后重试。"@
    } else if code == 423 {
        "未找到指定任务，可能任务 ID 错误或已被清理。"@
    } else if code == 433 {
        "工作流校验未通过，请检查节点参数。"@
    } else if code == 801 {
        "免费用户不支持 API Key，请升级 RunningHub 账户。"@
    } else if code == 802 {
        "API Key 未授权或已失效，请重新保存。"@
    } else if code == 803 {
        "nodeInfoList 与工作流不匹配，请检查高级节点配置。"@
    } else if code == 804 {
        "任务正在运行中，请勿重复提交。"@
    } else if code == 805 {
        "任务状态异常，请稍后重试。"@
    } else if code == 500 {
        "RunningHub 服务端异常，请稍后重试。"@
    } else {
        "RunningHub 错误 "@ + decimal_signed(code) + "："@ + error_fallback(message)
    }
}

fn fallback_message(message: &str) -> (r: String)
    ensures
        r@ == error_fallback(message@),
{
    if blank(message) {
        owned("RunningHub 请求失败。")
    } else {
        trim_str(message)
    }
}

/// Maps a RunningHub error code, with the reply's message, to the text shown.
pub fn map_runninghub_error(code: i64, message: &str) -> (r: String)
    ensures
        r@ == runninghub_error_text(code as int, message@),
{
    if code == 0 {
        fallback_message(message)
    } else if code == 301 {
        owned("参数错误，请检查工作流节点配置。")
    } else if code == 380 {
        owned("工作流不存在，请检查 AI 工作流 ID。")
    } else if code == 412 {
        owned("接口路径错误，请检查 RunningHub API 地址。")
    } else if code == 415 {
        owned("独占型 API 机器数不足，请稍后重试。")
    } else if code == 416 {
        owned("RunningHub 账户余额不足，请充值后重试。")
    } else if code == 421 {
        owned("RunningHub 并发上限已满，请稍后重试。")
    } else if code == 423 {
        owned("未找到指定任务，可能任务 ID 错误或已被清理。")
    } else if code == 433 {
        owned("工作流校验未通过，请检查节点参数。")
    } else if code == 801 {
        owned("免费用户不支持 API Key，请升级 RunningHub 账户。")
    } else if code == 802 {
        owned("API Key 未授权或已失效，请重新保存。")
    } else if code == 803 {
        owned("nodeInfoList 与工作流不匹配，请检查高级节点配置。")
    } else if code == 804 {
        owned("任务正在运行中，请勿重复提交。")
    } else if code == 805 {
        owned("任务状态异常，请稍后重试。")
    } else if code == 500 {
        owned("RunningHub 服务端异常，请稍后重试。")
    } else {
        let mut s = owned("RunningHub 错误 ");
        push_decimal_signed(&mut s, code as i128);
        push_str(&mut s, "：");
        let fallback = fallback_message(message);
        push_str(&mut s, fallback.as_str());
        s
    }
}

/// The message shown for a failed task: the code when it is a number, else
/// the task's own message, else a generic text.
pub open spec fn status_error_text(code: Seq<char>, message: Seq<char>) -> Seq<char> {
    match parse_integer(code, true, i64::MIN as int, i64::MAX as int) {
        Some(c) => runninghub_error_text(c, message),
        None => if is_blank(message) {
            "RunningHub 返回任务失败。"@
        } else {
            message
        },
    }
}

/// Maps the error code and message of a failed task to the text shown.
pub fn map_runninghub_status_error(code: &str, message: &str) -> (r: String)
    ensures
        r@ == status_error_text(code@, message@),
{
    match parse_i64(code) {
        Some(c) => map_runninghub_error(c, message),
        None => {
            if blank(message) {
                owned("RunningHub 返回任务失败。")
            } else {
                owned(message)
            }
        },
    }
}

// ---------------------------------------------------------------------------
// Checks on replies
// ---------------------------------------------------------------------------

pub open spec fn is_api_error(e: RunningHubError, text: Seq<char>) -> bool {
    e matches RunningHubError::Api(m) && m@ == text
}

pub open spec fn is_invalid_response(e: RunningHubError, text: Seq<char>) -> bool {
    e matches RunningHubError::InvalidResponse(m) && m@ == text
}

/// `r` is an API error with this text.
pub open spec fn fails_with_api<T>(r: Result<T, RunningHubError>, text: Seq<char>) -> bool {
    r matches Err(e) && is_api_error(e, text)
}

/// `r` is an invalid-response error with this text.
pub open spec fn fails_with_invalid<T>(r: Result<T, RunningHubError>, text: Seq<char>) -> bool {
    r matches Err(e) && is_invalid_response(e, text)
}

/// The result of an upload, from the parts of the reply: whether the HTTP
/// status was a success, the envelope's code and message, and the file name
/// it returned.
pub fn upload_outcome(http_ok: bool, code: i64, message: &str, file_name: Option<String>) -> (r:
    Result<String, RunningHubError>)
    ensures
        !http_ok || code != 0 ==> fails_with_api(r, runninghub_error_text(code as int, message@)),
        http_ok && code == 0 ==> match file_name {
            Some(f) if !is_blank(f@) => r == Ok::<String, RunningHubError>(f),
            _ => fails_with_invalid(r, "上传成功但没有返回 fileName。"@),
        },
{
    if !http_ok || code != 0 {
        return Err(RunningHubError::Api(map_runninghub_error(code, message)));
    }
    match file_name {
        Some(f) => {
            if blank(f.as_str()) {
                Err(RunningHubError::InvalidResponse(owned("上传成功但没有返回 fileName。")))
            } else {
                Ok(f)
            }
        },
        None => Err(RunningHubError::InvalidResponse(owned("上传成功但没有返回 fileName。"))),
    }
}

/// The command line of the demo call, from the parts of the reply.
pub fn demo_outcome(http_ok: bool, code: i64, message: &str, curl: Option<String>) -> (r: Result<
    String,
    RunningHubError,
>)
    ensures
        !http_ok || code != 0 ==> fails_with_api(r, runninghub_error_text(code as int, message@)),
        http_ok && code == 0 ==> match curl {
            Some(c) => r == Ok::<String, RunningHubError>(c),
            None => fails_with_invalid(r, "没有获取到 AI 应用调用示例。"@),
        },
{
    if !http_ok || code != 0 {
        return Err(RunningHubError::Api(map_runninghub_error(code, message)));
    }
    match curl {
        Some(c) => Ok(c),
        None => Err(RunningHubError::InvalidResponse(owned("没有获取到 AI 应用调用示例。"))),
    }
}

/// The task that a run request started, from the parts of the reply.
pub fn run_outcome(http_ok: bool, code: i64, message: &str, data: Option<AiAppRunData>) -> (r:
    Result<AiAppRunData, RunningHubError>)
    ensures
        !http_ok || code != 0 ==> fails_with_api(r, runninghub_error_text(code as int, message@)),
        http_ok && code == 0 ==> match data {
            Some(d) => r == Ok::<AiAppRunData, RunningHubError>(d),
            None => fails_with_invalid(r, "提交成功但没有返回 taskId。"@),
        },
{
    if !http_ok || code != 0 {
        return Err(RunningHubError::Api(map_runninghub_error(code, message)));
    }
    match data {
        Some(d) => Ok(d),
        None => Err(RunningHubError::InvalidResponse(owned("提交成功但没有返回 taskId。"))),
    }
}

/// The task state inside an enveloped query reply.
pub fn query_envelope_outcome(code: i64, message: &str, data: Option<QueryResponse>) -> (r: Result<
    QueryResponse,
    RunningHubError,
>)
    ensures
        code != 0 ==> fails_with_api(r, runninghub_error_text(code as int, message@)),
        code == 0 ==> match data {
            Some(d) => r == Ok::<QueryResponse, RunningHubError>(d),
            None => fails_with_invalid(r, "任务查询响应缺少 data。"@),
        },
{
    if code != 0 {
        return Err(RunningHubError::Api(map_runninghub_error(code, message)));
    }
    match data {
        Some(d) => Ok(d),
        None => Err(RunningHubError::InvalidResponse(owned("任务查询响应缺少 data。"))),
    }
}

/// A query reply as its JSON shows it.
pub enum QueryReply {
    /// The reply has a `status`: the task's state read from it, or the error
    /// of reading it.
    Direct(Result<QueryResponse, String>),
    /// The reply has a `code` and no `status`: the envelope's code, message
    /// and data read from it, or the error of reading it.
    Enveloped(Result<(i64, String, Option<QueryResponse>), String>),
    /// The reply has neither `status` nor `code`.
    Unrecognized,
}

/// The task state that a query reply gives, bare or in an envelope.
pub fn query_reply_outcome(reply: QueryReply) -> (r: Result<QueryResponse, RunningHubError>)
    ensures
        match reply {
            QueryReply::Direct(Ok(q)) => r == Ok::<QueryResponse, RunningHubError>(q),
            QueryReply::Direct(Err(e)) => fails_with_invalid(r, "任务查询响应解析失败："@ + e@),
            QueryReply::Enveloped(Err(e)) => fails_with_invalid(r, "任务查询响应解析失败："@ + e@),
            QueryReply::Enveloped(Ok((code, message, data))) => {
                &&& code != 0 ==> fails_with_api(r, runninghub_error_text(code as int, message@))
                &&& code == 0 ==> match data {
                    Some(d) => r == Ok::<QueryResponse, RunningHubError>(d),
                    None => fails_with_invalid(r, "任务查询响应缺少 data。"@),
                }
            },
            QueryReply::Unrecognized => fails_with_invalid(r, "任务查询响应缺少 status 或 code。"@),
        },
{
    match reply {
        QueryReply::Direct(Ok(q)) => Ok(q),
        QueryReply::Direct(Err(e)) => {
            let mut m = owned("任务查询响应解析失败：");
            push_str(&mut m, e.as_str());
            Err(RunningHubError::InvalidResponse(m))
        },
        QueryReply::Enveloped(Err(e)) => {
            let mut m = owned("任务查询响应解析失败：");
            push_str(&mut m, e.as_str());
            Err(RunningHubError::InvalidResponse(m))
        },
        QueryReply::Enveloped(Ok((code, message, data))) => query_envelope_outcome(
            code,
            message.as_str(),
            data,
        ),
        QueryReply::Unrecognized => Err(
            RunningHubError::InvalidResponse(owned("任务查询响应缺少 status 或 code。")),
        ),
    }
}

/// The message of a failed task: its own when not blank, else a generic text.
pub open spec fn failure_message(error_message: Option<String>) -> Seq<char> {
    match error_message {
        Some(m) if !is_blank(m@) => m@,
        _ => "RunningHub 返回任务失败。"@,
    }
}

pub open spec fn opt_text(o: Option<String>) -> Seq<char> {
    match o {
        Some(s) => s@,
        None => Seq::empty(),
    }
}

/// A queried task state, or the error it reports when its status is `FAILED`
/// in any ASCII case.
pub fn query_outcome(query: QueryResponse) -> (r: Result<QueryResponse, RunningHubError>)
    ensures
        eq_ignore_ascii_case(query.status@, "FAILED"@) ==> fails_with_api(r, status_error_text(opt_text(query.error_code), failure_message(query.error_message))),
        !eq_ignore_ascii_case(query.status@, "FAILED"@) ==> r == Ok::<
            QueryResponse,
            RunningHubError,
        >(query),
{
    if eq_ignore_case(query.status.as_str(), "FAILED") {
        let message = match &query.error_message {
            Some(m) => {
                if blank(m.as_str()) {
                    owned("RunningHub 返回任务失败。")
                } else {
                    m.clone()
                }
            },
            None => owned("RunningHub 返回任务失败。"),
        };
        let code = match &query.error_code {
            Some(c) => c.clone(),
            None => String::new(),
        };
        return Err(RunningHubError::Api(map_runninghub_status_error(code.as_str(), message.as_str())));
    }
    Ok(query)
}

/// The workflow id of a run request, which must be a `u64` number.
pub fn parse_webapp_id(app_id: &str) -> (r: Result<u64, RunningHubError>)
    ensures
        match parse_integer(app_id@, false, 0, u64::MAX as int) {
            Some(v) => r == Ok::<u64, RunningHubError>(v as u64),
            None => fails_with_invalid(r, "工作流 ID 必须是数字。"@),
        },
{
    match parse_u64(app_id) {
        Some(v) => Ok(v),
        None => Err(RunningHubError::InvalidResponse(owned("工作流 ID 必须是数字。"))),
    }
}

// ---------------------------------------------------------------------------
// The video input node
// ---------------------------------------------------------------------------

/// The descriptive texts of a node joined with spaces: description, node name
/// and English description.
pub open spec fn description_text(n: NodeInfo) -> Seq<char> {
    opt_text(n.description) + " "@ + opt_text(n.node_name) + " "@ + opt_text(n.description_en)
}

/// Whether strategy `k` takes node `n` for the video input; the strategies
/// are tried in the order 0 to 4.
pub open spec fn strategy_matches(k: int, n: NodeInfo) -> bool {
    if k == 0 {
        eq_ignore_ascii_case(n.field_name@, "video"@)
    } else if k == 1 {
        eq_ignore_ascii_case(n.field_name@, "upload"@)
    } else if k == 2 {
        let f = lower_text(n.field_name@);
        contains_text(f, "video"@) || contains_text(f, "file"@) || contains_text(f, "media"@)
    } else if k == 3 {
        let t = lower_text(description_text(n));
        contains_text(t, "视频"@) || contains_text(t, "上传"@) || contains_text(t, "video"@)
            || contains_text(t, "upload"@)
    } else {
        let v = lower_text(n.field_value@);
        ||| ends_with_text(v, ".mp4"@)
        ||| ends_with_text(v, ".mov"@)
        ||| ends_with_text(v, ".avi"@)
        ||| ends_with_text(v, ".mkv"@)
        ||| ends_with_text(v, ".webm"@)
    }
}

/// How many nodes strategy `k` takes.
pub open spec fn match_count(k: int, nodes: Seq<NodeInfo>) -> nat
    decreases nodes.len(),
{
    if nodes.len() == 0 {
        0
    } else {
        match_count(k, nodes.drop_last()) + if strategy_matches(k, nodes.last()) {
            1nat
        } else {
            0nat
        }
    }
}

/// The position of the last node that strategy `k` takes.
pub open spec fn last_match(k: int, nodes: Seq<NodeInfo>) -> int
    decreases nodes.len(),
{
    if nodes.len() == 0 {
        -1
    } else if strategy_matches(k, nodes.last()) {
        nodes.len() - 1
    } else {
        last_match(k, nodes.drop_last())
    }
}

pub open spec fn auto_reason() -> Seq<char> {
    "已自动识别唯一的视频输入节点。"@
}

pub open spec fn ambiguous_reason(count: nat) -> Seq<char> {
    "检测到 "@ + decimal(count) + " 个可能的视频输入节点，请手动选择。"@
}

pub open spec fn no_match_reason() -> Seq<char> {
    "没有识别到明显的视频输入节点，请手动选择 nodeId 和 fieldName。"@
}

/// The choice made from strategy `k` on: the first strategy that takes any
/// node decides; one node is chosen, several are reported as ambiguous.
pub open spec fn choice_from(k: int, nodes: Seq<NodeInfo>) -> (Option<int>, Seq<char>)
    decreases 5 - k,
{
    if k >= 5 || k < 0 {
        (None, no_match_reason())
    } else {
        let c = match_count(k, nodes);
        if c == 1 {
            (Some(last_match(k, nodes)), auto_reason())
        } else if c > 1 {
            (None, ambiguous_reason(c))
        } else {
            choice_from(k + 1, nodes)
        }
    }
}

/// The video input node chosen among `nodes`, with the reason shown.
pub open spec fn video_node_choice(nodes: Seq<NodeInfo>) -> (Option<int>, Seq<char>) {
    choice_from(0, nodes)
}

proof fn lemma_match_count_bound(k: int, nodes: Seq<NodeInfo>)
    ensures
        match_count(k, nodes) <= nodes.len(),
        match_count(k, nodes) > 0 ==> 0 <= last_match(k, nodes) < nodes.len() && strategy_matches(
            k,
            nodes[last_match(k, nodes)],
        ),
    decreases nodes.len(),
{
    if nodes.len() > 0 {
        lemma_match_count_bound(k, nodes.drop_last());
    }
}

/// The node counts as unique only if no other node matches.
proof fn lemma_single_match(k: int, nodes: Seq<NodeInfo>, i: int)
    requires
        match_count(k, nodes) == 1,
        0 <= i < nodes.len(),
        strategy_matches(k, nodes[i]),
    ensures
        i == last_match(k, nodes),
    decreases nodes.len(),
{
    lemma_match_count_bound(k, nodes.drop_last());
    if i < nodes.len() - 1 {
        assert(nodes.drop_last()[i] == nodes[i]);
        if strategy_matches(k, nodes.last()) {
            lemma_positive_count(k, nodes.drop_last(), i);
            assert(false);
        } else {
            lemma_single_match(k, nodes.drop_last(), i);
        }
    }
}

proof fn lemma_positive_count(k: int, nodes: Seq<NodeInfo>, i: int)
    requires
        0 <= i < nodes.len(),
        strategy_matches(k, nodes[i]),
    ensures
        match_count(k, nodes) > 0,
    decreases nodes.len(),
{
    if i < nodes.len() - 1 {
        assert(nodes.drop_last()[i] == nodes[i]);
        lemma_positive_count(k, nodes.drop_last(), i);
    }
}

proof fn lemma_choice_in_range(k: int, nodes: Seq<NodeInfo>)
    ensures
        choice_from(k, nodes).0 matches Some(i) ==> 0 <= i < nodes.len(),
    decreases 5 - k,
{
    if 0 <= k < 5 {
        lemma_match_count_bound(k, nodes);
        lemma_choice_in_range(k + 1, nodes);
    }
}

fn opt_or_empty(o: &Option<String>) -> (r: String)
    ensures
        r@ == opt_text(*o),
{
    match o {
        Some(s) => s.clone(),
        None => String::new(),
    }
}

/// Whether strategy `k` takes node `n`.
fn strategy_match(k: usize, n: &NodeInfo) -> (r: bool)
    requires
        k < 5,
    ensures
        r == strategy_matches(k as int, *n),
{
    if k == 0 {
        eq_ignore_case(n.field_name.as_str(), "video")
    } else if k == 1 {
        eq_ignore_case(n.field_name.as_str(), "upload")
    } else if k == 2 {
        let f = lowercase(n.field_name.as_str());
        contains(f.as_str(), "video") || contains(f.as_str(), "file") || contains(
            f.as_str(),
            "media",
        )
    } else if k == 3 {
        let mut text = opt_or_empty(&n.description);
        push_str(&mut text, " ");
        let name = opt_or_empty(&n.node_name);
        push_str(&mut text, name.as_str());
        push_str(&mut text, " ");
        let en = opt_or_empty(&n.description_en);
        push_str(&mut text, en.as_str());
        assert(text@ == description_text(*n));
        let t = lowercase(text.as_str());
        contains(t.as_str(), "视频") || contains(t.as_str(), "上传") || contains(t.as_str(), "video")
            || contains(t.as_str(), "upload")
    } else {
        let v = lowercase(n.field_value.as_str());
        ends_with(v.as_str(), ".mp4") || ends_with(v.as_str(), ".mov") || ends_with(
            v.as_str(),
            ".avi",
        ) || ends_with(v.as_str(), ".mkv") || ends_with(v.as_str(), ".webm")
    }
}

/// The number of nodes that strategy `k` takes and the position of the last.
fn count_matches(k: usize, nodes: &[NodeInfo]) -> (r: (usize, usize))
    requires
        k < 5,
    ensures
        r.0 == match_count(k as int, nodes@),
        r.0 > 0 ==> r.1 == last_match(k as int, nodes@),
{
    let mut count: usize = 0;
    let mut last: usize = 0;
    let mut i: usize = 0;
    while i < nodes.len()
        invariant
            k < 5,
            i <= nodes@.len(),
            count == match_count(k as int, nodes@.take(i as int)),
            count > 0 ==> last == last_match(k as int, nodes@.take(i as int)),
        decreases nodes.len() - i,
    {
        proof {
            lemma_match_count_bound(k as int, nodes@.take(i as int));
        }
        assert(nodes@.take(i + 1).drop_last() == nodes@.take(i as int));
        if strategy_match(k, &nodes[i]) {
            count = count + 1;
            last = i;
        }
        i = i + 1;
    }
    assert(nodes@.take(nodes@.len() as int) == nodes@);
    (count, last)
}

/// Chooses the video input node and says why.
pub fn choose_video_node_with_reason(node_info: &[NodeInfo]) -> (r: (Option<usize>, String))
    ensures
        ({
            let c = video_node_choice(node_info@);
            &&& r.1@ == c.1
            &&& match c.0 {
                Some(i) => r.0 == Some(i as usize),
                None => r.0 is None,
            }
        }),
        r.0 matches Some(i) ==> i < node_info@.len(),
        video_node_choice(node_info@).0 matches Some(i) ==> 0 <= i < node_info@.len(),
        r.0 matches Some(i) ==> video_node_choice(node_info@).0 == Some(i as int),
        r.0 is None ==> video_node_choice(node_info@).0 is None,
{
    proof {
        lemma_choice_in_range(0, node_info@);
    }
    let mut k: usize = 0;
    while k < 5
        invariant
            k <= 5,
            video_node_choice(node_info@) == choice_from(k as int, node_info@),
        decreases 5 - k,
    {
        let (count, last) = count_matches(k, node_info);
        proof {
            lemma_match_count_bound(k as int, node_info@);
        }
        if count == 1 {
            return (Some(last), owned("已自动识别唯一的视频输入节点。"));
        }
        if count > 1 {
            let mut reason = owned("检测到 ");
            push_decimal(&mut reason, count as u128);
            push_str(&mut reason, " 个可能的视频输入节点，请手动选择。");
            return (None, reason);
        }
        k = k + 1;
    }
    (None, owned("没有识别到明显的视频输入节点，请手动选择 nodeId 和 fieldName。"))
}

/// The position of the video input node, when exactly one is found.
pub fn choose_video_node(node_info: &[NodeInfo]) -> (r: Option<usize>)
    ensures
        match video_node_choice(node_info@).0 {
            Some(i) => r == Some(i as usize),
            None => r is None,
        },
        r matches Some(i) ==> i < node_info@.len(),
        video_node_choice(node_info@).0 matches Some(i) ==> 0 <= i < node_info@.len(),
{
    choose_video_node_with_reason(node_info).0
}

/// The nodes with the recommended video node and the reason.
pub fn inspect_node_info(nodes: Vec<NodeInfo>) -> (r: NodeInspection)
    ensures
        r.nodes@ == nodes@,
        r.reason@ == video_node_choice(nodes@).1,
        match video_node_choice(nodes@).0 {
            Some(i) => r.recommended == Some(
                ModelNodeRef { node_id: nodes@[i].node_id, field_name: nodes@[i].field_name },
            ),
            None => r.recommended is None,
        },
{
    let sl = nodes.as_slice();
    assert(sl@ == nodes@);
    let (index, reason) = choose_video_node_with_reason(sl);
    let recommended = match index {
        Some(i) => {
            let node_id = nodes[i].node_id.clone();
            let field_name = nodes[i].field_name.clone();
            assert(node_id == nodes@[i as int].node_id);
            assert(field_name == nodes@[i as int].field_name);
            assert(video_node_choice(nodes@).0 == Some(i as int));
            Some(ModelNodeRef { node_id, field_name })
        },
        None => None,
    };
    NodeInspection { nodes, recommended, reason }
}

// ---------------------------------------------------------------------------
// Result files
// ---------------------------------------------------------------------------

/// The character that stands for `c` in a file name: characters that file
/// systems refuse, and control characters, become `-`.
pub open spec fn sanitize_char(c: char) -> char {
    if c == '<' || c == '>' || c == ':' || c == '"' || c == '/' || c == '\\' || c == '|' || c
        == '?' || c == '*' || is_control(c) {
        '-'
    } else {
        c
    }
}

/// A part of a file name made from `s`: unsafe characters replaced, white
/// space trimmed, then dots trimmed; `untitled` when nothing is left.
pub open spec fn sanitized(s: Seq<char>) -> Seq<char> {
    let t = trim_char(trim(s.map_values(|c: char| sanitize_char(c))), '.');
    if t.len() == 0 {
        "untitled"@
    } else {
        t
    }
}

/// The extension that a result URL shows: after the last dot of the part
/// before the first `?`.
pub open spec fn url_extension(url: Seq<char>) -> Seq<char> {
    after_last(before_first(url, '?'), '.')
}

/// At most eight ASCII letters or digits.
pub open spec fn acceptable_extension(e: Seq<char>) -> bool {
    e.len() <= 8 && forall|i: int| 0 <= i < e.len() ==> is_ascii_alphanumeric(#[trigger] e[i])
}

/// The extension of a result file: its declared output type without white
/// space and leading dots, lower-cased, when that leaves anything and holds
/// no `/`, `\` or `:`; else the URL's extension when it is at most eight
/// ASCII letters or digits; else `mp4`; lower-cased. A declared type that
/// holds a separator is refused so that the result file stays in the results
/// folder.
pub open spec fn result_extension_text(r: QueryResultFile) -> Seq<char> {
    let declared = match r.output_type {
        Some(t) => trim_start_char(trim(t@), '.'),
        None => Seq::empty(),
    };
    if declared.len() > 0 && separator_free(unicode_lowercase(declared)) {
        unicode_lowercase(declared)
    } else {
        let e = url_extension(r.url@);
        unicode_lowercase(
            if acceptable_extension(e) {
                e
            } else {
                "mp4"@
            },
        )
    }
}

/// The file name of result `index` of a task:
/// `stem-model-task[-(index+1)].extension`, each part sanitized.
pub open spec fn result_file_name_text(
    stem: Seq<char>,
    model: Seq<char>,
    task: Seq<char>,
    ext: Seq<char>,
    index: nat,
) -> Seq<char> {
    sanitized(stem) + "-"@ + sanitized(model) + "-"@ + sanitized(task) + (if index == 0 {
        Seq::empty()
    } else {
        "-"@ + decimal(index + 1)
    }) + "."@ + ext
}

/// Makes a part of a file name from `value`.
pub fn sanitize_file_part(value: &str) -> (r: String)
    ensures
        r@ == sanitized(value@),
{
    let v = chars_of(value);
    let mut m: Vec<char> = Vec::new();
    let mut i: usize = 0;
    while i < v.len()
        invariant
            v@ == value@,
            i <= v@.len(),
            m@ == v@.take(i as int).map_values(|c: char| sanitize_char(c)),
        decreases v.len() - i,
    {
        let c = v[i];
        let d = if c == '<' || c == '>' || c == ':' || c == '"' || c == '/' || c == '\\' || c
            == '|' || c == '?' || c == '*' || control(c) {
            '-'
        } else {
            c
        };
        m.push(d);
        i = i + 1;
        assert(m@ =~= v@.take(i as int).map_values(|c: char| sanitize_char(c)));
    }
    assert(v@.take(v@.len() as int) == v@);
    assert(m@.subrange(0, m@.len() as int) == m@);
    let (a, b) = trim_bounds(&m, 0, m.len());
    let (c, d) = trim_char_bounds(&m, a, b, '.');
    if c == d {
        owned("untitled")
    } else {
        string_of(&m, c, d)
    }
}

/// Whether `v[lo..hi]` is a plain extension.
fn plain_extension(v: &Vec<char>, lo: usize, hi: usize) -> (r: bool)
    requires
        lo <= hi <= v@.len(),
    ensures
        r == acceptable_extension(v@.subrange(lo as int, hi as int)),
{
    if hi - lo > 8 {
        return false;
    }
    let ghost ext = v@.subrange(lo as int, hi as int);
    let mut i = lo;
    while i < hi
        invariant
            lo <= i <= hi <= v@.len(),
            ext == v@.subrange(lo as int, hi as int),
            forall|j: int| lo <= j < i ==> is_ascii_alphanumeric(#[trigger] v@[j]),
        decreases hi - i,
    {
        if !ascii_alphanumeric(v[i]) {
            assert(ext[i - lo] == v@[i as int]);
            return false;
        }
        i = i + 1;
    }
    assert forall|j: int| 0 <= j < ext.len() implies is_ascii_alphanumeric(#[trigger] ext[j]) by {
        assert(ext[j] == v@[lo + j]);
    }
    true
}

/// The extension of a result file.
pub fn result_extension(result: &QueryResultFile) -> (r: String)
    ensures
        r@ == result_extension_text(*result),
        separator_free(r@),
{
    if let Some(output_type) = &result.output_type {
        let v = chars_of(output_type.as_str());
        assert(v@.subrange(0, v@.len() as int) == v@);
        let (a, b) = trim_bounds(&v, 0, v.len());
        let (c, _d) = trim_char_bounds(&v, a, b, '.');
        if c < b {
            let clean = string_of(&v, c, b);
            let lower = to_lowercase(clean.as_str());
            if no_separator(lower.as_str()) {
                return lower;
            }
        }
    }
    let u = chars_of(result.url.as_str());
    assert(u@.subrange(0, u@.len() as int) == u@);
    let e = before_first_end(&u, 0, u.len(), '?');
    let b = after_last_start(&u, 0, e, '.');
    if plain_extension(&u, b, e) {
        let s = string_of(&u, b, e);
        proof {
            lemma_plain_ascii(s@);
        }
        let lower = to_lowercase(s.as_str());
        proof {
            lemma_lower_keeps_plain(s@, lower@);
            lemma_plain_separator_free(lower@);
        }
        lower
    } else {
        let mp4 = "mp4";
        proof {
            reveal_strlit("mp4");
            lemma_plain_ascii(mp4@);
        }
        let lower = to_lowercase(mp4);
        proof {
            lemma_lower_keeps_plain(mp4@, lower@);
            lemma_plain_separator_free(lower@);
        }
        lower
    }
}

proof fn lemma_plain_separator_free(e: Seq<char>)
    requires
        acceptable_extension(e),
    ensures
        separator_free(e),
{
    assert forall|i: int| 0 <= i < e.len() implies #[trigger] e[i] != '/' && e[i] != '\\' && e[i] != ':' by {
        assert(is_ascii_alphanumeric(e[i]));
    }
}

/// Whether `t` holds no `/`, `\` or `:`.
fn no_separator(t: &str) -> (r: bool)
    ensures
        r == separator_free(t@),
{
    let v = chars_of(t);
    let mut i: usize = 0;
    while i < v.len()
        invariant
            v@ == t@,
            i <= v@.len(),
            forall|j: int| 0 <= j < i ==> #[trigger] v@[j] != '/' && v@[j] != '\\' && v@[j] != ':',
        decreases v.len() - i,
    {
        if v[i] == '/' || v[i] == '\\' || v[i] == ':' {
            return false;
        }
        i = i + 1;
    }
    true
}

proof fn lemma_plain_ascii(e: Seq<char>)
    requires
        acceptable_extension(e),
    ensures
        is_ascii_text(e),
{
    assert forall|i: int| 0 <= i < e.len() implies (e[i] as u32) < 128 by {
        assert(is_ascii_alphanumeric(e[i]));
    }
}

proof fn lemma_lower_keeps_plain(e: Seq<char>, l: Seq<char>)
    requires
        acceptable_extension(e),
        l.len() == e.len(),
        forall|i: int| 0 <= i < e.len() ==> l[i] == ascii_lower(#[trigger] e[i]),
    ensures
        acceptable_extension(l),
{
    assert forall|i: int| 0 <= i < l.len() implies is_ascii_alphanumeric(#[trigger] l[i]) by {
        assert(is_ascii_alphanumeric(e[i]));
        assert(l[i] == ascii_lower(e[i]));
    }
}

/// A plain file name: not empty, not starting with `.`, and without `/`,
/// `\` or `:`, so that it names one entry of a folder on every platform.
pub open spec fn plain_file_name(n: Seq<char>) -> bool {
    &&& n.len() > 0
    &&& n[0] != '.'
    &&& forall|i: int| 0 <= i < n.len() ==> #[trigger] n[i] != '/' && n[i] != '\\' && n[i] != ':'
}

/// No `/`, `\` or `:` in `s`.
pub open spec fn separator_free(s: Seq<char>) -> bool {
    forall|i: int| 0 <= i < s.len() ==> #[trigger] s[i] != '/' && s[i] != '\\' && s[i] != ':'
}

proof fn lemma_separator_free_concat(a: Seq<char>, b: Seq<char>)
    requires
        separator_free(a),
        separator_free(b),
    ensures
        separator_free(a + b),
{
    assert forall|i: int| 0 <= i < (a + b).len() implies #[trigger] (a + b)[i] != '/' && (a + b)[i]
        != '\\' && (a + b)[i] != ':' by {
        if i < a.len() {
            assert((a + b)[i] == a[i]);
        } else {
            assert((a + b)[i] == b[i - a.len()]);
        }
    }
}

proof fn lemma_sanitized_free(s: Seq<char>)
    ensures
        separator_free(sanitized(s)),
        sanitized(s).len() > 0,
        sanitized(s)[0] != '.',
{
    law_file_part_is_safe(s);
    let t = trim_char(trim(s.map_values(|c: char| sanitize_char(c))), '.');
    lemma_trim_char_first(trim(s.map_values(|c: char| sanitize_char(c))), '.');
    if t.len() == 0 {
        reveal_strlit("untitled");
    }
    assert forall|i: int| 0 <= i < sanitized(s).len() implies #[trigger] sanitized(s)[i] != '/'
        && sanitized(s)[i] != '\\' && sanitized(s)[i] != ':' by {
        assert(!unsafe_in_file_name(sanitized(s)[i]));
    }
}

/// The name of a result file is a plain file name when its extension holds
/// no separator.
pub proof fn lemma_result_name_plain(stem: Seq<char>, model: Seq<char>, task: Seq<char>, ext: Seq<char>, index: nat)
    requires
        separator_free(ext),
    ensures
        plain_file_name(result_file_name_text(stem, model, task, ext, index)),
{
    lemma_sanitized_free(stem);
    lemma_sanitized_free(model);
    lemma_sanitized_free(task);
    reveal_strlit("-");
    reveal_strlit(".");
    let suffix = if index == 0 {
        Seq::<char>::empty()
    } else {
        "-"@ + decimal(index + 1)
    };
    lemma_decimal_digits(index + 1);
    assert(separator_free("-"@));
    assert(separator_free("."@));
    assert(separator_free(suffix)) by {
        if index != 0 {
            assert(separator_free(decimal(index + 1))) by {
                assert forall|i: int| 0 <= i < decimal(index + 1).len() implies #[trigger] decimal(
                    index + 1,
                )[i] != '/' && decimal(index + 1)[i] != '\\' && decimal(index + 1)[i] != ':' by {
                    assert(is_ascii_digit(decimal(index + 1)[i]));
                }
            }
            lemma_separator_free_concat("-"@, decimal(index + 1));
        }
    }
    let a = sanitized(stem) + "-"@;
    lemma_separator_free_concat(sanitized(stem), "-"@);
    let b = a + sanitized(model);
    lemma_separator_free_concat(a, sanitized(model));
    let c = b + "-"@;
    lemma_separator_free_concat(b, "-"@);
    let d = c + sanitized(task);
    lemma_separator_free_concat(c, sanitized(task));
    let e = d + suffix;
    lemma_separator_free_concat(d, suffix);
    let f = e + "."@;
    lemma_separator_free_concat(e, "."@);
    let g = f + ext;
    lemma_separator_free_concat(f, ext);
    assert(g == result_file_name_text(stem, model, task, ext, index));
    assert(g[0] == sanitized(stem)[0]);
}

/// The file name of result `index` of a task, from the stem of the source file
/// (`video` when it has none), the model name and the task id.
pub fn result_file_name(
    source_stem: Option<String>,
    model_name: &str,
    task_id: &str,
    result: &QueryResultFile,
    index: usize,
) -> (r: String)
    requires
        index < usize::MAX,
    ensures
        r@ == result_file_name_text(
            match source_stem {
                Some(s) => s@,
                None => "video"@,
            },
            model_name@,
            task_id@,
            result_extension_text(*result),
            index as nat,
        ),
        plain_file_name(r@),
{
    let stem = match source_stem {
        Some(s) => s,
        None => owned("video"),
    };
    let extension = result_extension(result);
    let mut name = sanitize_file_part(stem.as_str());
    push_str(&mut name, "-");
    let model = sanitize_file_part(model_name);
    push_str(&mut name, model.as_str());
    push_str(&mut name, "-");
    let task = sanitize_file_part(task_id);
    push_str(&mut name, task.as_str());
    let ghost before_suffix = name@;
    if index != 0 {
        push_str(&mut name, "-");
        push_decimal(&mut name, (index + 1) as u128);
    }
    push_str(&mut name, ".");
    push_str(&mut name, extension.as_str());
    assert(name@ =~= result_file_name_text(
        stem@,
        model_name@,
        task_id@,
        result_extension_text(*result),
        index as nat,
    ));
    proof {
        lemma_result_name_plain(stem@, model_name@, task_id@, extension@, index as nat);
    }
    name
}

/// What `Path::file_stem` gives for `p`, as text when it is valid UTF-8.
/// Which part of a path is its file name follows the separators of the
/// platform that holds the path; a `Path` value belongs to that platform, so
/// the stem depends on the value alone.
pub uninterp spec fn file_stem_text(p: &Path) -> Option<Seq<char>>;

/// What `Path::extension` gives for `p`, as text when it is valid UTF-8.
pub uninterp spec fn extension_text(p: &Path) -> Option<Seq<char>>;

/// What `Path::file_name` gives for `p`, as text when it is valid UTF-8.
pub uninterp spec fn file_name_text(p: PathBuf) -> Option<Seq<char>>;

/// The text of an optional string.
pub open spec fn opt_chars(o: Option<String>) -> Option<Seq<char>> {
    match o {
        Some(s) => Some(s@),
        None => None,
    }
}

/// Calls `Path::file_stem` and keeps the stem when it is valid UTF-8; the
/// contract names the result.
#[verifier::external_body]
fn path_file_stem(path: &Path) -> (r: Option<String>)
    ensures
        opt_chars(r) == file_stem_text(path),
{
    match path.file_stem() {
        Some(stem) => stem.to_str().map(String::from),
        None => None,
    }
}

/// Calls `Path::extension` and keeps it when it is valid UTF-8; the contract
/// names the result and states what the documentation gives on every
/// platform: the extension is what follows the last `.` of the file name, so
/// it holds no `.`.
#[verifier::external_body]
pub(crate) fn path_extension(path: &Path) -> (r: Option<String>)
    ensures
        opt_chars(r) == extension_text(path),
        r matches Some(e) ==> forall|i: int| 0 <= i < e@.len() ==> e@[i] != '.',
{
    match path.extension() {
        Some(ext) => ext.to_str().map(String::from),
        None => None,
    }
}

/// What `Path::join` gives for a folder and a name.
pub uninterp spec fn joined(dir: &Path, name: Seq<char>) -> PathBuf;

/// Calls `Path::join`; the contract names the result. Its documentation
/// (through `PathBuf::push`) says that a relative path is appended after a
/// separator, and `Path::file_name` gives the final component; so for a
/// plain file name, which is relative and a single component on every
/// platform, the joined path's file name is that name.
#[verifier::external_body]
fn path_join(dir: &Path, name: &str) -> (r: PathBuf)
    ensures
        r == joined(dir, name@),
        plain_file_name(name@) ==> file_name_text(r) == Some(name@),
{
    dir.join(name)
}

/// The name of result `index` of a task, from the stem of the source file
/// (`video` when it has none).
pub open spec fn result_name_for(
    source_stem: Option<Seq<char>>,
    model: Seq<char>,
    task: Seq<char>,
    result: QueryResultFile,
    index: nat,
) -> Seq<char> {
    result_file_name_text(
        match source_stem {
            Some(s) => s,
            None => "video"@,
        },
        model,
        task,
        result_extension_text(result),
        index,
    )
}

/// The path in `results_dir` of result `index` of a task: the results folder
/// joined with the result's name, which is a plain file name and so the
/// returned path's file name.
pub fn result_path_for(
    results_dir: &Path,
    source_path: &Path,
    model_name: &str,
    task_id: &str,
    result: &QueryResultFile,
    index: usize,
) -> (r: PathBuf)
    requires
        index < usize::MAX,
    ensures
        r == joined(
            results_dir,
            result_name_for(file_stem_text(source_path), model_name@, task_id@, *result, index as nat),
        ),
        file_name_text(r) == Some(
            result_name_for(file_stem_text(source_path), model_name@, task_id@, *result, index as nat),
        ),
{
    let stem = path_file_stem(source_path);
    let name = result_file_name(stem, model_name, task_id, result, index);
    path_join(results_dir, name.as_str())
}

// ---------------------------------------------------------------------------
// The request body in a demo command
// ---------------------------------------------------------------------------

/// The position of the first `c` in `s` at or after `i`.
pub open spec fn first_index_from(s: Seq<char>, c: char, i: int) -> Option<int>
    decreases s.len() - i,
{
    if i < 0 || i >= s.len() {
        None
    } else if s[i] == c {
        Some(i)
    } else {
        first_index_from(s, c, i + 1)
    }
}

/// Scanning `s` from position `i` with `depth` open braces, inside a JSON
/// string or not, and right after a backslash in a string or not: the
/// position just after the brace that closes the outermost one, if any.
/// Braces inside strings do not count; a backslash in a string escapes the
/// next character.
pub open spec fn body_end(s: Seq<char>, i: int, depth: int, in_string: bool, escaped: bool) -> Option<
    int,
>
    decreases s.len() - i,
{
    if i < 0 || i >= s.len() {
        None
    } else {
        let ch = s[i];
        if escaped {
            body_end(s, i + 1, depth, in_string, false)
        } else if ch == '\\' && in_string {
            body_end(s, i + 1, depth, in_string, true)
        } else if ch == '"' {
            body_end(s, i + 1, depth, !in_string, false)
        } else if in_string {
            body_end(s, i + 1, depth, in_string, false)
        } else if ch == '{' {
            body_end(s, i + 1, depth + 1, in_string, false)
        } else if ch == '}' {
            if depth - 1 == 0 {
                Some(i + 1)
            } else {
                body_end(s, i + 1, depth - 1, in_string, false)
            }
        } else {
            body_end(s, i + 1, depth, in_string, false)
        }
    }
}

pub open spec fn no_body_message() -> Seq<char> {
    "AI 应用调用示例里没有 JSON 请求体。"@
}

pub open spec fn incomplete_body_message() -> Seq<char> {
    "AI 应用调用示例里的 JSON 请求体不完整。"@
}

/// The JSON object that a demo command line carries: from its first `{` to
/// the brace that closes it.
pub fn demo_json_body(curl: &str) -> (r: Result<String, RunningHubError>)
    ensures
        match first_index_from(curl@, '{', 0) {
            None => fails_with_invalid(r, no_body_message()),
            Some(f) => match body_end(curl@, f, 0, false, false) {
                None => fails_with_invalid(r, incomplete_body_message()),
                Some(e) => r matches Ok(b) && b@ == curl@.subrange(f, e),
            },
        },
{
    let v = chars_of(curl);
    let n = v.len();
    let mut f: usize = 0;
    while f < n && v[f] != '{'
        invariant
            v@ == curl@,
            n == v@.len(),
            f <= n,
            first_index_from(curl@, '{', 0) == first_index_from(curl@, '{', f as int),
        decreases n - f,
    {
        f = f + 1;
    }
    if f == n {
        return Err(RunningHubError::InvalidResponse(owned("AI 应用调用示例里没有 JSON 请求体。")));
    }
    assert(body_end(curl@, f as int, 0, false, false) == body_end(curl@, f + 1, 1, false, false));
    let mut depth: usize = 1;
    let mut in_string = false;
    let mut escaped = false;
    let mut i: usize = f + 1;
    while i < n
        invariant
            v@ == curl@,
            n == v@.len(),
            f < i <= n,
            1 <= depth <= i - f,
            first_index_from(curl@, '{', 0) == Some(f as int),
            body_end(curl@, f as int, 0, false, false) == body_end(
                curl@,
                i as int,
                depth as int,
                in_string,
                escaped,
            ),
            escaped ==> in_string,
        decreases n - i,
    {
        let ch = v[i];
        if escaped {
            escaped = false;
        } else if ch == '\\' && in_string {
            escaped = true;
        } else if ch == '"' {
            in_string = !in_string;
        } else if in_string {
        } else if ch == '{' {
            depth = depth + 1;
        } else if ch == '}' {
            if depth == 1 {
                return Ok(string_of(&v, f, i + 1));
            }
            depth = depth - 1;
        }
        i = i + 1;
    }
    Err(RunningHubError::InvalidResponse(owned("AI 应用调用示例里的 JSON 请求体不完整。")))
}

#[verifier::external_type_specification]
#[verifier::external_body]
pub struct ExJsonValue(serde_json::Value);

/// Whether `serde_json` accepts a text with these characters as one JSON value.
pub uninterp spec fn json_text_accepted(text: Seq<char>) -> bool;

/// The message of the error that `serde_json` reports for a text it refuses.
pub uninterp spec fn json_error_message(text: Seq<char>) -> Seq<char>;

/// The value that `serde_json` parses from a text it accepts.
pub uninterp spec fn json_value_of(text: Seq<char>) -> serde_json::Value;

/// The member under `key` of a JSON value, as `serde_json::Value::get` finds
/// it for a string key: absent when the value is not an object or has no
/// such member.
pub uninterp spec fn json_member_of(value: serde_json::Value, key: Seq<char>) -> Option<
    serde_json::Value,
>;

/// Calls `serde_json::from_str::<serde_json::Value>`, with the error turned
/// into its message (`Display`). The contract claims that whether it
/// succeeds, the value it parses and the message when it fails depend on the
/// characters of `text` alone, and names them.
#[verifier::external_body]
fn parse_json_value(text: &str) -> (r: Result<serde_json::Value, String>)
    ensures
        r is Ok <==> json_text_accepted(text@),
        r matches Ok(v) ==> v == json_value_of(text@),
        r matches Err(m) ==> m@ == json_error_message(text@),
{
    serde_json::from_str::<serde_json::Value>(text).map_err(|err| err.to_string())
}

/// Calls `serde_json::Value::get` with a string key and clones the member
/// found (a clone of a `Value` equals it); the contract names the result.
#[verifier::external_body]
fn json_member(value: &serde_json::Value, key: &str) -> (r: Option<serde_json::Value>)
    ensures
        r == json_member_of(*value, key@),
{
    value.get(key).cloned()
}

pub open spec fn json_failure_prefix() -> Seq<char> {
    "AI 应用调用示例 JSON 解析失败："@
}

/// The JSON value of the request body of a demo command line.
pub fn extract_json_value_from_demo(curl: &str) -> (r: Result<serde_json::Value, RunningHubError>)
    ensures
        match first_index_from(curl@, '{', 0) {
            None => fails_with_invalid(r, no_body_message()),
            Some(f) => match body_end(curl@, f, 0, false, false) {
                None => fails_with_invalid(r, incomplete_body_message()),
                Some(e) => if json_text_accepted(curl@.subrange(f, e)) {
                    r == Ok::<serde_json::Value, RunningHubError>(json_value_of(curl@.subrange(f, e)))
                } else {
                    fails_with_invalid(r, json_failure_prefix() + json_error_message(curl@.subrange(f, e)))
                },
            },
        },
{
    let raw = demo_json_body(curl)?;
    match parse_json_value(raw.as_str()) {
        Ok(value) => Ok(value),
        Err(text) => {
            let mut m = owned("AI 应用调用示例 JSON 解析失败：");
            push_str(&mut m, text.as_str());
            Err(RunningHubError::InvalidResponse(m))
        },
    }
}

/// The `nodeInfoList` member of the request body of a demo command line,
/// still as JSON.
pub fn demo_node_info_list(curl: &str) -> (r: Result<serde_json::Value, RunningHubError>)
    ensures
        match first_index_from(curl@, '{', 0) {
            None => fails_with_invalid(r, no_body_message()),
            Some(f) => match body_end(curl@, f, 0, false, false) {
                None => fails_with_invalid(r, incomplete_body_message()),
                Some(e) => if json_text_accepted(curl@.subrange(f, e)) {
                    match json_member_of(json_value_of(curl@.subrange(f, e)), "nodeInfoList"@) {
                        Some(l) => r == Ok::<serde_json::Value, RunningHubError>(l),
                        None => fails_with_invalid(r, "AI 应用调用示例缺少 nodeInfoList。"@),
                    }
                } else {
                    fails_with_invalid(r, json_failure_prefix() + json_error_message(curl@.subrange(f, e)))
                },
            },
        },
{
    let value = extract_json_value_from_demo(curl)?;
    match json_member(&value, "nodeInfoList") {
        Some(list) => Ok(list),
        None => Err(
            RunningHubError::InvalidResponse(owned("AI 应用调用示例缺少 nodeInfoList。")),
        ),
    }
}


// ---------------------------------------------------------------------------
// Laws
// ---------------------------------------------------------------------------

/// A character that a file name part must not hold: one that file systems
/// refuse, or a control character.
pub open spec fn unsafe_in_file_name(c: char) -> bool {
    c == '<' || c == '>' || c == ':' || c == '"' || c == '/' || c == '\\' || c == '|' || c == '?'
        || c == '*' || is_control(c)
}

/// A part of a result file name is never empty and never holds a character
/// that file systems refuse or a control character.
pub proof fn law_file_part_is_safe(s: Seq<char>)
    ensures
        sanitized(s).len() > 0,
        forall|i: int| 0 <= i < sanitized(s).len() ==> !unsafe_in_file_name(#[trigger] sanitized(s)[i]),
{
    let m = s.map_values(|c: char| sanitize_char(c));
    assert forall|i: int| 0 <= i < m.len() implies !unsafe_in_file_name(#[trigger] m[i]) by {
        assert(m[i] == sanitize_char(s[i]));
    }
    let t = trim(m);
    lemma_trim_is_stretch(m);
    let (a, b) = choose|a: int, b: int| 0 <= a <= b <= m.len() && t == #[trigger] m.subrange(a, b);
    assert forall|i: int| 0 <= i < t.len() implies !unsafe_in_file_name(#[trigger] t[i]) by {
        assert(t[i] == m[a + i]);
    }
    let u = trim_char(t, '.');
    lemma_trim_char_is_stretch(t, '.');
    let (c, d) = choose|c: int, d: int| 0 <= c <= d <= t.len() && u == #[trigger] t.subrange(c, d);
    assert forall|i: int| 0 <= i < u.len() implies !unsafe_in_file_name(#[trigger] u[i]) by {
        assert(u[i] == t[c + i]);
    }
    if u.len() == 0 {
        let w = "untitled"@;
        reveal_strlit("untitled");
        assert forall|i: int| 0 <= i < w.len() implies !unsafe_in_file_name(#[trigger] w[i]) by {}
    }
}

/// Some strategy takes node `i` and no other node.
pub open spec fn taken_alone(nodes: Seq<NodeInfo>, i: int) -> bool {
    exists|k: int|
        0 <= k < 5 && #[trigger] strategy_matches(k, nodes[i]) && forall|j: int|
            0 <= j < nodes.len() && j != i ==> !strategy_matches(k, #[trigger] nodes[j])
}

/// The node chosen for the video is the only node that the deciding
/// strategy takes: some strategy takes it and takes no other node.
pub proof fn law_chosen_node_is_unique(nodes: Seq<NodeInfo>)
    ensures
        video_node_choice(nodes).0 matches Some(i) ==> taken_alone(nodes, i),
{
    lemma_choice_unique_from(0, nodes);
}

proof fn lemma_choice_unique_from(k: int, nodes: Seq<NodeInfo>)
    requires
        0 <= k,
    ensures
        choice_from(k, nodes).0 matches Some(i) ==> taken_alone(nodes, i),
    decreases 5 - k,
{
    if k < 5 {
        let c = match_count(k, nodes);
        if c == 1 {
            lemma_match_count_bound(k, nodes);
            let i = last_match(k, nodes);
            assert forall|j: int| 0 <= j < nodes.len() && j != i implies !strategy_matches(
                k,
                #[trigger] nodes[j],
            ) by {
                if strategy_matches(k, nodes[j]) {
                    lemma_single_match(k, nodes, j);
                }
            }
            assert(strategy_matches(k, nodes[i]));
            assert(taken_alone(nodes, i));
        } else if c == 0 {
            lemma_choice_unique_from(k + 1, nodes);
        }
    }
}

/// `q` holds the nodes of `s` in another order: node `j` of `q` is node
/// `p[j]` of `s`, and no node of `s` is taken twice.
pub open spec fn is_reordering(q: Seq<NodeInfo>, s: Seq<NodeInfo>, p: Seq<int>) -> bool {
    &&& q.len() == s.len()
    &&& p.len() == q.len()
    &&& forall|j: int| 0 <= j < q.len() ==> 0 <= #[trigger] p[j] < s.len() && q[j] == s[p[j]]
    &&& forall|j1: int, j2: int|
        0 <= j1 < q.len() && 0 <= j2 < q.len() && j1 != j2 ==> #[trigger] p[j1] != #[trigger] p[j2]
}

proof fn lemma_count_remove(k: int, s: Seq<NodeInfo>, j: int)
    requires
        0 <= j < s.len(),
    ensures
        match_count(k, s) == match_count(k, s.remove(j)) + if strategy_matches(k, s[j]) {
            1nat
        } else {
            0nat
        },
    decreases s.len(),
{
    if j == s.len() - 1 {
        assert(s.remove(j) =~= s.drop_last());
    } else {
        let d = s.drop_last();
        lemma_count_remove(k, d, j);
        assert(s.remove(j).drop_last() =~= d.remove(j));
        assert(s.remove(j).last() == s.last());
        assert(d[j] == s[j]);
    }
}

proof fn lemma_count_reordering(k: int, q: Seq<NodeInfo>, s: Seq<NodeInfo>, p: Seq<int>)
    requires
        is_reordering(q, s, p),
    ensures
        match_count(k, q) == match_count(k, s),
    decreases q.len(),
{
    if q.len() > 0 {
        let n = q.len();
        let j = p[n - 1];
        let s2 = s.remove(j);
        let q2 = q.drop_last();
        let p2 = p.drop_last().map_values(|x: int| if x > j { x - 1 } else { x });
        assert forall|t: int| 0 <= t < q2.len() implies 0 <= #[trigger] p2[t] < s2.len() && q2[t]
            == s2[p2[t]] by {
            assert(p[t] != j);
            if p[t] > j {
                assert(s2[p[t] - 1] == s[p[t]]);
            } else {
                assert(s2[p[t]] == s[p[t]]);
            }
        }
        assert forall|t1: int, t2: int|
            0 <= t1 < q2.len() && 0 <= t2 < q2.len() && t1 != t2 implies #[trigger] p2[t1]
            != #[trigger] p2[t2] by {
            assert(p[t1] != p[t2]);
            assert(p[t1] != j && p[t2] != j);
        }
        lemma_count_reordering(k, q2, s2, p2);
        lemma_count_remove(k, s, j);
    }
}

proof fn lemma_choice_reordering(k: int, q: Seq<NodeInfo>, s: Seq<NodeInfo>, p: Seq<int>)
    requires
        is_reordering(q, s, p),
        0 <= k,
    ensures
        choice_from(k, q).1 == choice_from(k, s).1,
        match choice_from(k, s).0 {
            Some(i) => choice_from(k, q).0 matches Some(j) && 0 <= j < q.len() && p[j] == i,
            None => choice_from(k, q).0 is None,
        },
    decreases 5 - k,
{
    if k < 5 {
        lemma_count_reordering(k, q, s, p);
        let c = match_count(k, s);
        if c == 1 {
            lemma_match_count_bound(k, q);
            lemma_match_count_bound(k, s);
            let j = last_match(k, q);
            assert(strategy_matches(k, s[p[j]]));
            lemma_single_match(k, s, p[j]);
        } else if c == 0 {
            lemma_choice_reordering(k + 1, q, s, p);
        }
    }
}

/// The choice of the video node does not depend on the order of the nodes:
/// listed in another order, the same node is chosen, for the same reason.
pub proof fn law_choice_ignores_order(s: Seq<NodeInfo>, q: Seq<NodeInfo>, p: Seq<int>)
    requires
        is_reordering(q, s, p),
    ensures
        video_node_choice(q).1 == video_node_choice(s).1,
        match video_node_choice(s).0 {
            Some(i) => video_node_choice(q).0 matches Some(j) && 0 <= j < q.len() && p[j] == i,
            None => video_node_choice(q).0 is None,
        },
{
    lemma_choice_reordering(0, q, s, p);
}

/// Optional texts that are both absent, or both present and equal up to
/// ASCII case.
pub open spec fn opt_same_up_to_ascii_case(a: Option<String>, b: Option<String>) -> bool {
    match (a, b) {
        (None, None) => true,
        (Some(x), Some(y)) => same_up_to_ascii_case(x@, y@),
        _ => false,
    }
}

/// Two nodes whose texts (field name, field value, node name, descriptions)
/// are ASCII and differ at most in the case of their letters.
pub open spec fn differ_in_ascii_case(n: NodeInfo, m: NodeInfo) -> bool {
    &&& same_up_to_ascii_case(n.field_name@, m.field_name@)
    &&& same_up_to_ascii_case(n.field_value@, m.field_value@)
    &&& opt_same_up_to_ascii_case(n.node_name, m.node_name)
    &&& opt_same_up_to_ascii_case(n.description, m.description)
    &&& opt_same_up_to_ascii_case(n.description_en, m.description_en)
}

proof fn lemma_opt_text_same(a: Option<String>, b: Option<String>)
    requires
        opt_same_up_to_ascii_case(a, b),
    ensures
        same_up_to_ascii_case(opt_text(a), opt_text(b)),
{
}

/// No strategy looks at the case of ASCII letters: two nodes that differ only
/// in the case of the letters of their texts are taken by the same
/// strategies.
pub proof fn law_strategies_ignore_ascii_case(k: int, n: NodeInfo, m: NodeInfo)
    requires
        differ_in_ascii_case(n, m),
    ensures
        strategy_matches(k, n) == strategy_matches(k, m),
{
    law_lower_ignores_ascii_case(n.field_name@, m.field_name@);
    law_lower_ignores_ascii_case(n.field_value@, m.field_value@);
    lemma_opt_text_same(n.description, m.description);
    lemma_opt_text_same(n.node_name, m.node_name);
    lemma_opt_text_same(n.description_en, m.description_en);
    let sp = " "@;
    reveal_strlit(" ");
    assert(same_up_to_ascii_case(sp, sp));
    lemma_same_case_concat(opt_text(n.description), opt_text(m.description), sp, sp);
    lemma_same_case_concat(
        opt_text(n.description) + sp,
        opt_text(m.description) + sp,
        opt_text(n.node_name),
        opt_text(m.node_name),
    );
    lemma_same_case_concat(
        opt_text(n.description) + sp + opt_text(n.node_name),
        opt_text(m.description) + sp + opt_text(m.node_name),
        sp,
        sp,
    );
    lemma_same_case_concat(
        opt_text(n.description) + sp + opt_text(n.node_name) + sp,
        opt_text(m.description) + sp + opt_text(m.node_name) + sp,
        opt_text(n.description_en),
        opt_text(m.description_en),
    );
    law_lower_ignores_ascii_case(description_text(n), description_text(m));
}

/// A node whose descriptive texts (description, node name, English
/// description) are ASCII and hold `upload` or `video` in any ASCII case is
/// taken by the description strategy.
pub proof fn law_upload_in_any_case_is_found(n: NodeInfo)
    requires
        is_ascii_text(description_text(n)),
        contains_text(description_text(n).map_values(|c: char| ascii_lower(c)), "upload"@)
            || contains_text(description_text(n).map_values(|c: char| ascii_lower(c)), "video"@),
    ensures
        strategy_matches(3, n),
{
}

proof fn lemma_two_matches(k: int, nodes: Seq<NodeInfo>, i: int, j: int)
    requires
        0 <= i < j < nodes.len(),
        strategy_matches(k, nodes[i]),
        strategy_matches(k, nodes[j]),
    ensures
        match_count(k, nodes) >= 2,
    decreases nodes.len(),
{
    let d = nodes.drop_last();
    if j < nodes.len() - 1 {
        assert(d[i] == nodes[i] && d[j] == nodes[j]);
        lemma_two_matches(k, d, i, j);
    } else {
        assert(d[i] == nodes[i]);
        lemma_positive_count(k, d, i);
    }
}

/// Two nodes whose field is named `video` (in any ASCII case) make the
/// choice ambiguous: no node is chosen.
pub proof fn law_two_video_fields_are_ambiguous(nodes: Seq<NodeInfo>, i: int, j: int)
    requires
        0 <= i < nodes.len(),
        0 <= j < nodes.len(),
        i != j,
        eq_ignore_ascii_case(nodes[i].field_name@, "video"@),
        eq_ignore_ascii_case(nodes[j].field_name@, "video"@),
    ensures
        video_node_choice(nodes).0 is None,
{
    if i < j {
        lemma_two_matches(0, nodes, i, j);
    } else {
        lemma_two_matches(0, nodes, j, i);
    }
}

} // verus!

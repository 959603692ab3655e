//! The model that analyses a book: the prompts it is sent, how its replies are
//! judged and repaired, and the stages of an analysis.

use vstd::prelude::*;
use crate::outside::{json_check, json_parse_error, parsed_url, url_parse};
use crate::text::{
    chars_of, dec, find, find_from_exec, push_str, rfind, rfind_in_exec, strip_prefix_all, strip_prefix_all_exec,
    strip_suffix_all, strip_suffix_all_exec, string_from, string_of, trim, trim_end_char, trim_end_char_exec,
    trim_exec, trim_str, usize_to_string, opt_int, join, join_strings, contains, occurs_at, rfind_in,
    lemma_find_from_some, lemma_rfind_in_bounds,
};
use crate::web::text_result_view;
use crate::chunking::{lemma_split_content_count, spec_split_content, split_content, utf8_of_all};
use crate::report::{canonical, canonical_json, merge_module, merged_report, object_json, report_text};
use crate::book::pairs_view;
use crate::json::{body_json, parse_json};
use crate::source::{bool_member, bool_member_exec};
use vstd::utf8::encode_utf8;

verus! {

// ---------------------------------------------------------------------------
// Prompts
// ---------------------------------------------------------------------------

/// The system message of a test of the model settings.
pub const PROBE_SYSTEM: &'static str = "输出严格 JSON。";

/// The user message of a test of the model settings.
pub const PROBE_USER: &'static str = "只输出 {\"ok\":true}";

/// The system message of the analysis of one part of a book.
pub const CHUNK_SYSTEM: &'static str = "你是专业中文网络小说编辑。只能根据提供的原文分析，禁止补全。输出严格 JSON，不要 Markdown。";

/// The system message of one module of the final report.
pub const MODULE_SYSTEM: &'static str = "你是服务于小说作者的资深拆书编辑。结论必须可验证，不得编造。输出严格 JSON。";

/// The start of the prompt for one part of a book, before its number.
pub const CHUNK_PROMPT_HEAD: &'static str = r##"这是作品的第 "##;

/// The prompt for one part of a book after its number and the number of parts,
/// up to the part's text: the JSON the model is to answer with.
pub const CHUNK_PROMPT_BODY: &'static str = r##" 个原文片段。你正在为零基础小说作者制作“写作教学型拆书”，只根据原文输出：
{
 "summary":"本片段发生了什么，以及它在全书结构中的作用",
 "segmentFunction":"开篇钩子/铺垫/推进/转折/高潮准备/高潮/收束/过渡等",
 "threads":[{"type":"主线/辅线/暗线","name":"线索名称","movement":"本段如何推进","intersection":"与其他线的交汇"}],
 "characters":[{"name":"","entranceOrExit":"如何出场、退场或转入新阶段","desire":"当下欲望","conflict":"外部与内部冲突","action":"关键选择与行动","change":"前后变化","technique":"作者用何种动作、对话、反差或细节塑造","evidence":"简短转述证据"}],
 "scenes":[{"place":"","purpose":"场景承担的叙事任务","entry":"如何进入场景","sensory":"环境与感官细节","conflict":"场内冲突如何升级","transition":"如何离开或转场","evidence":"简短证据"}],
 "foreshadowing":[{"setup":"埋了什么","possiblePayoff":"可能如何回收或已如何回收","distance":"近/中/长线","evidence":""}],
 "craft":[{"technique":"具体技巧","evidence":"简短转述","effect":"读者效果","beginnerUse":"新人可照做的步骤","pitfall":"常见写坏方式"}],
 "emotion":{"label":"","tension":0},
 "readerExperience":{"expectation":"本段建立或延续了什么期待","delay":"如何延迟兑现但不令人烦躁","escalation":"如何加码代价、压制、误解或见证者","payoff":"本段兑现了什么爽点","payoffType":"成长/反击/揭秘/获得/认可/情感/智谋/权力等","intensity":0,"nextHook":"兑现后留下的下一个期待","evidence":"简短转述依据"},
 "readerQuestion":"读完本段，读者最想知道什么",
 "uncertainties":[""]
}
张力为 0-100 整数。证据只做简短转述，不要大段引用。区分事实与推断，不能补全原文没有的信息。不要只总结剧情，必须解释作者为何这样安排，以及新人怎样模仿其原理而不复制内容。

原文：
"##;

/// Between the title and the analyses of the parts, in the prompt for a whole report.
pub const FINAL_PROMPT_SUMMARIES: &'static str = r##"
以下是按原文顺序得到的全部片段教学分析："##;

/// After the analyses of the parts, in the prompt for a whole report: the JSON the
/// model is to answer with.
pub const FINAL_PROMPT_TAIL: &'static str = r##"

你是教零基础作者写长篇小说的资深总编。输出严格 JSON，必须把“剧情总结”提升为“作者施工图”：解释每项安排的目的、执行步骤、原文依据、读者效果、新人练习和常见误区。
{
 "title":"","scope":"明确覆盖到哪些章节/阶段","oneLine":"一句话定义","coreJudgment":"最值得学习的布局能力","summary":"面向新人的全书教学综述","overallScore":0,
 "dimensions":[{"name":"开篇/布局/人物/节奏/伏笔/场景等","score":0,"finding":"具体判断与依据"}],
 "plot":{"structure":"传统结构摘要","stages":[{"name":"","summary":"","tension":0}]},
 "storyArchitecture":{
   "premise":"故事发动机：谁、要什么、为何得不到、失败代价",
   "mainLine":"主线从起点到终点的因果链，不是事件堆砌",
   "secondaryLines":[{"name":"辅线","purpose":"它如何塑造人物、调节节奏或服务主题","intersections":["与主线交汇点"]}],
   "hiddenLines":[{"name":"暗线","setup":"如何隐藏","reveal":"何时怎样揭示","effect":"揭示后的结构效果"}],
   "opening":{"design":"开篇策略","execution":["具体步骤"],"evidence":["原文转述依据"],"readerEffect":"读者为何继续读","beginnerMethod":["新人开篇可执行步骤"],"pitfalls":["常见错误"]},
   "progression":{"design":"铺垫和剧情推进策略","execution":["信息、冲突、目标如何逐层升级"],"evidence":["依据"],"readerEffect":"效果","beginnerMethod":["步骤"],"pitfalls":["误区"]},
   "climax":{"design":"高潮如何提前蓄力、汇线、升级代价并爆发","execution":["步骤"],"evidence":["依据"],"readerEffect":"效果","beginnerMethod":["步骤"],"pitfalls":["误区"]},
   "ending":{"design":"结尾如何回收、兑现情绪并开启余韵/下一卷","execution":["步骤"],"evidence":["依据"],"readerEffect":"效果","beginnerMethod":["步骤"],"pitfalls":["误区"]},
   "chapterBlueprint":[{"phase":"阶段","goal":"作者在此阶段必须完成什么","chapters":"覆盖范围","conflict":"核心冲突","turningPoint":"转折点","readerQuestion":"维持追读的问题"}]
 },
 "characterDesign":[{"name":"","role":"结构角色","core":"一句话性格核心","desire":"外在欲望","fear":"内在恐惧或缺口","entrance":"怎样出场并让读者记住","development":"通过哪些选择、代价和关系产生变化","relationships":"关系如何制造冲突并推动主线","exit":"怎样退场或完成阶段收束","techniques":["动作/对话/反差/细节等"],"evidence":"依据","exercise":"新人可立即完成的人物练习"}],
 "characters":[{"name":"","role":"","desire":"","arc":"","relationships":[""]}],
 "foreshadowing":[{"setup":"伏笔如何伪装进正常叙事","payoff":"何时如何回收或待验证","effect":"回收带来的认知/情绪/结构效果"}],
 "sceneCraft":[{"scene":"代表性场景","purpose":"场景任务","entry":"如何切入","sensory":"环境和感官细节如何选择","conflict":"场内冲突怎样变化","transition":"怎样转场","evidence":"依据","transfer":"新人可迁移模板"}],
 "readerExperience":[{"phase":"章节或阶段","expectation":"作者让读者期待什么结果","delay":"怎样延迟兑现又持续给进展","escalation":"如何增加压制、代价、见证者或信息差以提高爽感","payoff":"最终怎样兑现","payoffType":"成长/反击/揭秘/获得/认可/情感/智谋/权力等","intensity":0,"evidence":"原文转述依据","nextHook":"爽点后如何创造下一轮期待","method":["新人可执行步骤"],"pitfall":"无铺垫开挂、一直压抑不兑现等风险"}],
 "writingLessons":[{"topic":"开篇、铺垫、冲突、节奏、对话、悬念、高潮、结尾等具体课程","principle":"可复用原理","evidence":"原作怎样做","steps":["新人执行步骤"],"pitfall":"最常见失败方式","exercise":"不复制原作内容的练习题"}],
 "crafts":[{"title":"","evidence":"转述证据","method":"手法原理","transfer":"可迁移用法"}],
 "ideas":[{"title":"","premise":"","difference":"与原作明确不同","risk":"避免模仿提示"}],
 "emotion":[{"label":"阶段","value":0}],
 "limitations":["分析限制"]
}
至少给出：2条辅线、2条暗线（原文不足则明确不足）、8节写作课、5个代表场景、6组“立期待→延迟→加码→爽点兑现→下一钩子”、主要人物完整出场—发展—阶段退场分析。爽感必须区分类型，说明铺垫时长、价值加码和兑现强度，不得把单纯胜利当作有效爽点。所有分数 0-100。不得编造人物、事件或伏笔；无法确认时写入 limitations。不得长篇引用原文。灵感不得复制专名、人物和核心设定。"##;

/// Between the title and the analyses of the parts, in the prompt for one module.
pub const MODULE_PROMPT_SUMMARIES: &'static str = r##"
以下是按原文顺序得到的全部片段分析："##;

/// Between the analyses of the parts and the module's name.
pub const MODULE_PROMPT_MODULE: &'static str = r##"

你是教零基础作者写长篇小说的资深总编。本次只生成「"##;

/// Between the module's name and its JSON structure.
pub const MODULE_PROMPT_SCHEMA: &'static str = r##"」模块，输出一个严格 JSON 对象，不要 Markdown。每项都要说明原文转述依据、读者效果和可执行方法，但要精炼，确保 JSON 完整闭合。不得编造，无法确认时明说。
必须严格使用以下结构：
"##;

/// The name of a module of the final report.
pub const MODULE_OVERVIEW: &'static str = "总览与全书布局";

/// The JSON structure of that module.
pub const MODULE_OVERVIEW_SCHEMA: &'static str = r##"{"title":"","scope":"","oneLine":"","coreJudgment":"","summary":"","overallScore":0,"dimensions":[{"name":"","score":0,"finding":""}],"plot":{"structure":"","stages":[{"name":"","summary":"","tension":0}]},"storyArchitecture":{"premise":"","mainLine":"","secondaryLines":[{"name":"","purpose":"","intersections":[""]}],"hiddenLines":[{"name":"","setup":"","reveal":"","effect":""}],"opening":{"design":"","execution":[""],"evidence":[""],"readerEffect":"","beginnerMethod":[""],"pitfalls":[""]},"progression":{"design":"","execution":[""],"evidence":[""],"readerEffect":"","beginnerMethod":[""],"pitfalls":[""]},"climax":{"design":"","execution":[""],"evidence":[""],"readerEffect":"","beginnerMethod":[""],"pitfalls":[""]},"ending":{"design":"","execution":[""],"evidence":[""],"readerEffect":"","beginnerMethod":[""],"pitfalls":[""]},"chapterBlueprint":[{"phase":"","goal":"","chapters":"","conflict":"","turningPoint":"","readerQuestion":""}]},"emotion":[{"label":"","value":0}]}"##;

/// The name of a module of the final report.
pub const MODULE_CHARACTERS: &'static str = "人物、场景与伏笔";

/// The JSON structure of that module.
pub const MODULE_CHARACTERS_SCHEMA: &'static str = r##"{"characterDesign":[{"name":"","role":"","core":"","desire":"","fear":"","entrance":"","development":"","relationships":"","exit":"","techniques":[""],"evidence":"","exercise":""}],"characters":[{"name":"","role":"","desire":"","arc":"","relationships":[""]}],"sceneCraft":[{"scene":"","purpose":"","entry":"","sensory":"","conflict":"","transition":"","evidence":"","transfer":""}],"foreshadowing":[{"setup":"","payoff":"","effect":""}]}"##;

/// The name of a module of the final report.
pub const MODULE_READER: &'static str = "期待感与爽感工程";

/// The JSON structure of that module.
pub const MODULE_READER_SCHEMA: &'static str = r##"{"readerExperience":[{"phase":"","expectation":"","delay":"","escalation":"","payoff":"","payoffType":"成长/反击/揭秘/获得/认可/情感/智谋/权力","intensity":0,"evidence":"","nextHook":"","method":[""],"pitfall":""}]}"##;

/// The name of a module of the final report.
pub const MODULE_OUTLINE: &'static str = "创作大纲与改编模板";

/// The JSON structure of that module.
pub const MODULE_OUTLINE_SCHEMA: &'static str = r##"{"outline":{"originalBlueprint":{"premise":"原书故事发动机，用一句话说明谁、要什么、阻力、代价","fiveAct":[{"act":"第一幕/第二幕/第三幕/第四幕/第五幕","purpose":"本幕在全书中的结构任务","keyPlot":"本幕关键剧情链，不是散点罗列","climax":"本幕高潮点或小高潮","mainLine":"主线在本幕如何推进","hiddenLine":"暗线在本幕如何埋、藏、变形或揭示","readerExpectation":"本幕主要拉起的期待","payoff":"本幕兑现的爽点/情绪点","chapters":"覆盖章节或阶段范围","writingTask":"新人作者写这一幕时必须完成的动作"}],"volumes":[{"name":"卷名或阶段名","role":"该卷在全书中的结构作用","chapters":"覆盖章节范围","mainLine":"该卷主线推进","hiddenLine":"该卷暗线变化","keyPlots":["关键剧情1","关键剧情2","关键剧情3"],"climax":"该卷高潮点","endingHook":"卷尾钩子或下一卷期待","craftFocus":"该卷最值得学习的写作手法","newBookPlaceholder":"迁移到新书时应替换成什么，不得复制原作设定"}],"keyPlotBeats":["全书必须保留其功能、但不能复制内容的关键剧情节点"],"climaxLadder":["从小冲突到大高潮的升级台阶"],"mainLine":"全书主线因果链","hiddenLines":["暗线名称与埋设-揭示-回收路径"]},"reusableTemplate":{"title":"可复制的新书大纲模板标题","premise":"把原书结构抽象成可替换的新书简介占位说明","fiveAct":[{"act":"第一幕/第二幕/第三幕/第四幕/第五幕","task":"这一幕要完成的写作任务","mustHave":["必须出现的结构功能，不含原作专名"],"avoid":"避免复制原作的提醒"}],"volumes":[{"name":"新书第X卷占位名","role":"该卷功能","chapters":"建议章节范围","mainLine":"新书主线应如何推进","hiddenLine":"新书暗线应如何安排","keyPlots":["可替换的剧情功能点"],"climax":"高潮功能点","endingHook":"卷尾钩子功能","craftFocus":"训练重点","newBookPlaceholder":"让作者填写自己设定的位置"}],"characterTracks":[{"name":"人物功能名，不用原作专名","function":"结构功能","entrance":"出场任务","growth":"成长任务","turn":"转折任务","exit":"退场或阶段收束任务","reusableSlot":"作者应填入的新书人物设定"}],"threadMap":[{"thread":"主线/辅线/暗线功能名","type":"主线/辅线/暗线","setup":"如何埋设","development":"如何发展","payoff":"如何回收","reusableQuestion":"作者填自己作品时要回答的问题"}],"keyPlotBeats":["可迁移的关键剧情功能"],"climaxLadder":["可迁移的高潮升级阶梯"],"expectationPayoffRules":["立期待-延迟-加码-兑现-下一钩子的规则"],"fillInPrompt":"一段可直接复制给 AI 的提示词：要求根据用户新书简介，沿用本模板的结构功能，但禁止复制原作人物、专名、设定和核心事件，生成全新的分卷五幕式大纲"}}}"##;

/// The name of a module of the final report.
pub const MODULE_LESSONS: &'static str = "写作课与原创迁移";

/// The JSON structure of that module.
pub const MODULE_LESSONS_SCHEMA: &'static str = r##"{"writingLessons":[{"topic":"","principle":"","evidence":"","steps":[""],"pitfall":"","exercise":""}],"crafts":[{"title":"","evidence":"","method":"","transfer":""}],"ideas":[{"title":"","premise":"","difference":"","risk":""}],"limitations":[""]}"##;

/// The prompt for part `index` of `total` of a book, whose text is `text`.
pub open spec fn spec_chunk_prompt(text: Seq<char>, index: nat, total: nat) -> Seq<char> {
    CHUNK_PROMPT_HEAD@ + dec(index) + "/"@ + dec(total) + CHUNK_PROMPT_BODY@ + text
}

/// The prompt for part `index` of `total` of a book.
pub fn chunk_prompt(text: &str, index: usize, total: usize) -> (r: String)
    ensures
        r@ == spec_chunk_prompt(text@, index as nat, total as nat),
{
    let mut r = CHUNK_PROMPT_HEAD.to_owned();
    let i = usize_to_string(index);
    push_str(&mut r, i.as_str());
    push_str(&mut r, "/");
    let t = usize_to_string(total);
    push_str(&mut r, t.as_str());
    push_str(&mut r, CHUNK_PROMPT_BODY);
    push_str(&mut r, text);
    r
}

/// The prompt for a whole report of the book `title`, whose parts were analysed
/// as `summaries` (a JSON array).
pub open spec fn spec_final_prompt(title: Seq<char>, summaries: Seq<char>) -> Seq<char> {
    "作品名："@ + title + FINAL_PROMPT_SUMMARIES@ + summaries + FINAL_PROMPT_TAIL@
}

/// The prompt for a whole report.
pub fn final_prompt(title: &str, summaries: &str) -> (r: String)
    ensures
        r@ == spec_final_prompt(title@, summaries@),
{
    let mut r = "作品名：".to_owned();
    push_str(&mut r, title);
    push_str(&mut r, FINAL_PROMPT_SUMMARIES);
    push_str(&mut r, summaries);
    push_str(&mut r, FINAL_PROMPT_TAIL);
    r
}

/// The prompt for the module `module` of the report of the book `title`, whose
/// JSON structure is `schema`.
pub open spec fn spec_final_module_prompt(title: Seq<char>, summaries: Seq<char>, module: Seq<char>, schema: Seq<char>) -> Seq<char> {
    "作品名："@ + title + MODULE_PROMPT_SUMMARIES@ + summaries + MODULE_PROMPT_MODULE@ + module + MODULE_PROMPT_SCHEMA@ + schema
}

/// The prompt for one module of the report.
pub fn final_module_prompt(title: &str, summaries: &str, module: &str, schema: &str) -> (r: String)
    ensures
        r@ == spec_final_module_prompt(title@, summaries@, module@, schema@),
{
    let mut r = "作品名：".to_owned();
    push_str(&mut r, title);
    push_str(&mut r, MODULE_PROMPT_SUMMARIES);
    push_str(&mut r, summaries);
    push_str(&mut r, MODULE_PROMPT_MODULE);
    push_str(&mut r, module);
    push_str(&mut r, MODULE_PROMPT_SCHEMA);
    push_str(&mut r, schema);
    r
}

/// The modules of the final report, in order: each a name and a JSON structure.
pub open spec fn spec_report_modules() -> Seq<(Seq<char>, Seq<char>)> {
    seq![
        (MODULE_OVERVIEW@, MODULE_OVERVIEW_SCHEMA@),
        (MODULE_CHARACTERS@, MODULE_CHARACTERS_SCHEMA@),
        (MODULE_READER@, MODULE_READER_SCHEMA@),
        (MODULE_OUTLINE@, MODULE_OUTLINE_SCHEMA@),
        (MODULE_LESSONS@, MODULE_LESSONS_SCHEMA@),
    ]
}

/// The modules of the final report.
pub fn report_modules() -> (r: Vec<(String, String)>)
    ensures
        crate::book::pairs_view(r@) == spec_report_modules(),
{
    let mut r: Vec<(String, String)> = Vec::new();
    r.push((MODULE_OVERVIEW.to_owned(), MODULE_OVERVIEW_SCHEMA.to_owned()));
    r.push((MODULE_CHARACTERS.to_owned(), MODULE_CHARACTERS_SCHEMA.to_owned()));
    r.push((MODULE_READER.to_owned(), MODULE_READER_SCHEMA.to_owned()));
    r.push((MODULE_OUTLINE.to_owned(), MODULE_OUTLINE_SCHEMA.to_owned()));
    r.push((MODULE_LESSONS.to_owned(), MODULE_LESSONS_SCHEMA.to_owned()));
    assert(crate::book::pairs_view(r@) =~= spec_report_modules());
    r
}

// ---------------------------------------------------------------------------
// The model's JSON
// ---------------------------------------------------------------------------

/// The part of a reply from its first `{` to its last `}`, when both occur in that
/// order; else the whole reply.
pub open spec fn json_candidate(raw: Seq<char>) -> Seq<char> {
    match (find(raw, "{"@), rfind(raw, "}"@)) {
        (Some(a), Some(b)) => if b >= a {
            raw.subrange(a, b + 1)
        } else {
            raw
        },
        _ => raw,
    }
}

/// A lower-case hexadecimal digit.
pub open spec fn hex_digit(d: nat) -> char {
    if d < 10 {
        ((d + 48) as u8) as char
    } else {
        ((d + 87) as u8) as char
    }
}

/// A character inside a JSON string, escaped when it is a control character:
/// the short escapes for line feed, carriage return, tab, backspace and form feed,
/// `\u00XX` for the others.
pub open spec fn control_escape(c: char) -> Seq<char> {
    if c == '\n' {
        "\\n"@
    } else if c == '\r' {
        "\\r"@
    } else if c == '\t' {
        "\\t"@
    } else if c == '\u{08}' {
        "\\b"@
    } else if c == '\u{0C}' {
        "\\f"@
    } else if (c as u32) <= 0x1F {
        "\\u00"@ + seq![hex_digit(((c as u32) / 16) as nat), hex_digit(((c as u32) % 16) as nat)]
    } else {
        seq![c]
    }
}

/// One character of the repair of a JSON text, from the state (text so far, inside
/// a string, after a backslash): control characters inside strings are escaped, and
/// NUL characters outside strings dropped.
pub open spec fn repair_step(st: (Seq<char>, bool, bool), c: char) -> (Seq<char>, bool, bool) {
    let (out, in_string, escaped) = st;
    if in_string {
        if escaped {
            (out.push(c), true, false)
        } else if c == '\\' {
            (out.push(c), true, true)
        } else if c == '"' {
            (out.push(c), false, false)
        } else {
            (out + control_escape(c), true, false)
        }
    } else {
        (if c == '\0' { out } else { out.push(c) }, c == '"', false)
    }
}

/// The repair of the first characters of a JSON text, with its state.
pub open spec fn repair_scan(s: Seq<char>) -> (Seq<char>, bool, bool)
    decreases s.len(),
{
    if s.len() == 0 {
        (Seq::empty(), false, false)
    } else {
        repair_step(repair_scan(s.drop_last()), s.last())
    }
}

/// A JSON text with the control characters inside its strings escaped.
pub open spec fn repair_json(s: Seq<char>) -> Seq<char> {
    repair_scan(s).0
}

/// The JSON text of a model's reply: the candidate between the outer braces when
/// it parses, else its repair when that parses, else the parser's message about the
/// repair.
pub open spec fn spec_parse_model_json(raw: Seq<char>) -> Result<Seq<char>, Seq<char>> {
    let c = json_candidate(raw);
    if json_parse_error(c) is None {
        Ok(c)
    } else {
        match json_parse_error(repair_json(c)) {
            None => Ok(repair_json(c)),
            Some(e) => Err("DeepSeek 返回的 JSON 修复后仍无法解析: "@ + e),
        }
    }
}

/// The part of a reply between its outer braces.
fn candidate_of(raw: &str) -> (r: String)
    ensures
        r@ == json_candidate(raw@),
{
    proof {
        reveal_strlit("{");
        reveal_strlit("}");
    }
    let v = chars_of(raw);
    let open = chars_of("{");
    let close = chars_of("}");
    let a = find_from_exec(&v, &open, 0);
    let b = rfind_in_exec(&v, &close, 0, v.len());
    match (a, b) {
        (Some(a), Some(b)) => {
            if b >= a {
                string_from(&v, a, b + 1)
            } else {
                string_of(&v)
            }
        },
        _ => string_of(&v),
    }
}

/// A lower-case hexadecimal digit.
fn hex_digit_exec(d: u32) -> (c: char)
    requires
        d < 16,
    ensures
        c == hex_digit(d as nat),
{
    if d < 10 {
        ((d as u8) + 48) as char
    } else {
        ((d as u8) + 87) as char
    }
}

/// Appends a character inside a JSON string, escaped when it is a control character.
fn push_escaped(out: &mut String, c: char)
    ensures
        final(out)@ == old(out)@ + control_escape(c),
{
    if c == '\n' {
        push_str(out, "\\n");
    } else if c == '\r' {
        push_str(out, "\\r");
    } else if c == '\t' {
        push_str(out, "\\t");
    } else if c == '\u{08}' {
        push_str(out, "\\b");
    } else if c == '\u{0C}' {
        push_str(out, "\\f");
    } else if (c as u32) <= 0x1F {
        push_str(out, "\\u00");
        let code = c as u32;
        out.push(hex_digit_exec(code / 16));
        out.push(hex_digit_exec(code % 16));
        assert(final(out)@ =~= old(out)@ + control_escape(c));
    } else {
        out.push(c);
        assert(final(out)@ =~= old(out)@ + control_escape(c));
    }
}

/// A JSON text with the control characters inside its strings escaped.
pub fn repair_json_text(s: &str) -> (r: String)
    ensures
        r@ == repair_json(s@),
{
    let v = chars_of(s);
    let mut out = String::new();
    let mut in_string = false;
    let mut escaped = false;
    let mut i: usize = 0;
    assert(v@.subrange(0, 0) =~= Seq::<char>::empty());
    while i < v.len()
        invariant
            i <= v@.len(),
            v@ == s@,
            (out@, in_string, escaped) == repair_scan(v@.subrange(0, i as int)),
        decreases v@.len() - i,
    {
        assert(v@.subrange(0, i + 1).drop_last() =~= v@.subrange(0, i as int));
        let c = v[i];
        if in_string {
            if escaped {
                out.push(c);
                escaped = false;
            } else if c == '\\' {
                out.push(c);
                escaped = true;
            } else if c == '"' {
                out.push(c);
                in_string = false;
            } else {
                push_escaped(&mut out, c);
            }
        } else {
            if c != '\0' {
                out.push(c);
            }
            in_string = c == '"';
        }
        i += 1;
    }
    assert(v@.subrange(0, v@.len() as int) =~= v@);
    out
}

/// The JSON text of a model's reply, repaired when it does not parse as it is.
pub fn parse_model_json(raw: &str) -> (r: Result<String, String>)
    ensures
        text_result_view(r) == spec_parse_model_json(raw@),
{
    let c = candidate_of(raw);
    match json_check(c.as_str()) {
        Ok(()) => Ok(c),
        Err(_) => {
            let repaired = repair_json_text(c.as_str());
            match json_check(repaired.as_str()) {
                Ok(()) => Ok(repaired),
                Err(e) => {
                    let mut m = "DeepSeek 返回的 JSON 修复后仍无法解析: ".to_owned();
                    push_str(&mut m, e.as_str());
                    Err(m)
                },
            }
        },
    }
}

// ---------------------------------------------------------------------------
// Talking to the model
// ---------------------------------------------------------------------------

/// The default address of the model's API.
pub const DEFAULT_API_BASE: &'static str = "https://api.deepseek.com";

/// The chat endpoint of the model's API at `base_url` (the default one when none
/// is given): refused without an API key, for an invalid address, or for an
/// address that is not HTTPS. The result is the endpoint's URL.
pub open spec fn spec_chat_endpoint(api_key: Seq<char>, base_url: Option<Seq<char>>) -> Result<Seq<char>, Seq<char>> {
    if trim(api_key).len() == 0 {
        Err("请输入 DeepSeek API Key"@)
    } else {
        let base = match base_url {
            Some(b) => b,
            None => DEFAULT_API_BASE@,
        };
        match parsed_url(trim_end_char(base, '/') + "/chat/completions"@) {
            None => Err("无效的 API 地址"@),
            Some((text, scheme, _)) => if scheme != "https"@ {
                Err("API 地址必须使用 HTTPS"@)
            } else {
                Ok(text)
            },
        }
    }
}

/// The chat endpoint of the model's API.
pub fn chat_endpoint(api_key: &str, base_url: &Option<String>) -> (r: Result<String, String>)
    ensures
        text_result_view(r) == spec_chat_endpoint(api_key@, crate::toc::opt_view(*base_url)),
{
    if trim_exec(&chars_of(api_key)).len() == 0 {
        return Err("请输入 DeepSeek API Key".to_owned());
    }
    let base = match base_url {
        Some(b) => chars_of(b.as_str()),
        None => chars_of(DEFAULT_API_BASE),
    };
    let trimmed = trim_end_char_exec(&base, '/');
    let mut url = string_of(&trimmed);
    push_str(&mut url, "/chat/completions");
    match url_parse(url.as_str()) {
        None => Err("无效的 API 地址".to_owned()),
        Some(parts) => {
            if !crate::html::eq_chars(&chars_of(parts.scheme.as_str()), "https") {
                Err("API 地址必须使用 HTTPS".to_owned())
            } else {
                Ok(parts.text)
            }
        },
    }
}

/// The most tokens any reply may use.
pub open spec fn token_ceiling() -> nat {
    384_000
}

/// The tokens allowed for attempt `attempt` (0, 1 or 2): the requested number,
/// doubled for each earlier attempt, and at most 384000.
pub open spec fn spec_attempt_tokens(max_tokens: nat, attempt: nat) -> nat {
    let t = if attempt == 0 { max_tokens } else if attempt == 1 { 2 * max_tokens } else { 4 * max_tokens };
    if t > token_ceiling() {
        token_ceiling()
    } else {
        t
    }
}

/// The tokens allowed for an attempt.
pub fn attempt_tokens(max_tokens: u32, attempt: u32) -> (r: u32)
    requires
        attempt <= 2,
    ensures
        r as nat == spec_attempt_tokens(max_tokens as nat, attempt as nat),
{
    let factor: u64 = if attempt == 0 { 1 } else if attempt == 1 { 2 } else { 4 };
    let t: u64 = (max_tokens as u64) * factor;
    if t > 384_000 {
        384_000
    } else {
        t as u32
    }
}

/// Later attempts are allowed no fewer tokens, and no attempt more than 384000.
pub proof fn lemma_attempt_tokens_grow(max_tokens: nat, a: nat, b: nat)
    requires
        a <= b <= 2,
    ensures
        spec_attempt_tokens(max_tokens, a) <= spec_attempt_tokens(max_tokens, b),
        spec_attempt_tokens(max_tokens, b) <= token_ceiling(),
{
}

/// A JSON text without control characters is left as it is by the repair.
pub proof fn lemma_repair_keeps_clean(s: Seq<char>)
    requires
        forall|i: int| 0 <= i < s.len() ==> (#[trigger] s[i] as u32) > 0x1F,
    ensures
        repair_json(s) == s,
    decreases s.len(),
{
    if s.len() > 0 {
        let init = s.drop_last();
        assert forall|i: int| 0 <= i < init.len() implies (#[trigger] init[i] as u32) > 0x1F by {
            assert(init[i] == s[i]);
        }
        lemma_repair_keeps_clean(init);
        let c = s.last();
        assert((c as u32) > 0x1F);
        assert(c != '\0' && c != '\n' && c != '\r' && c != '\t' && c != '\u{08}' && c != '\u{0C}');
        assert(control_escape(c) =~= seq![c]);
        assert(init.push(c) =~= s);
    }
}

proof fn lemma_rfind_in_finds(s: Seq<char>, p: Seq<char>, lo: int, hi: int, k: int)
    requires
        lo <= k,
        k + p.len() <= hi,
        occurs_at(s, p, k),
    ensures
        rfind_in(s, p, lo, hi) matches Some(i) && i >= k,
    decreases hi - lo + 1,
{
    if !occurs_at(s, p, hi - p.len()) {
        lemma_rfind_in_finds(s, p, lo, hi - 1, k);
    }
}

/// A reply made of a JSON object between text with no `{` before it and no `}`
/// after it: the candidate is exactly the object's text, and when that text
/// parses, it is what comes back.
pub proof fn lemma_candidate_object(before: Seq<char>, object: Seq<char>, after: Seq<char>)
    requires
        !contains(before, "{"@),
        object.len() > 0,
        object[0] == '{',
        object.last() == '}',
        !contains(after, "}"@),
    ensures
        json_candidate(before + object + after) == object,
        json_parse_error(object) is None ==> spec_parse_model_json(before + object + after) == Ok::<Seq<char>, Seq<char>>(object),
{
    reveal_strlit("{");
    reveal_strlit("}");
    let raw = before + object + after;
    let a = before.len() as int;
    let b = (before.len() + object.len() - 1) as int;
    assert("{"@ =~= seq!['{'] && "}"@ =~= seq!['}']);
    assert(raw.subrange(a, a + 1) =~= "{"@);
    assert(raw.subrange(b, b + 1) =~= "}"@);
    assert(occurs_at(raw, "{"@, a));
    lemma_find_from_some(raw, "{"@, 0);
    lemma_find_from_some(before, "{"@, 0);
    match find(raw, "{"@) {
        Some(i) => {
            if i < a {
                assert(raw.subrange(i, i + 1) =~= before.subrange(i, i + 1));
                assert(occurs_at(before, "{"@, i));
            }
        },
        None => {
            assert(occurs_at(raw, "{"@, a));
        },
    }
    assert(find(raw, "{"@) == Some(a));
    lemma_rfind_in_finds(raw, "}"@, 0, raw.len() as int, b);
    lemma_rfind_in_bounds(raw, "}"@, 0, raw.len() as int);
    lemma_find_from_some(after, "}"@, 0);
    let j = rfind(raw, "}"@)->0;
    if j > b {
        let k = j - b - 1;
        assert(raw.subrange(j, j + 1) =~= after.subrange(k, k + 1));
        assert(occurs_at(after, "}"@, k));
    }
    assert(rfind(raw, "}"@) == Some(b));
    assert(raw.subrange(a, b + 1) =~= object);
}

/// A reply's text without surrounding blanks and code fences.
pub open spec fn clean_reply(raw: Seq<char>) -> Seq<char> {
    trim(strip_suffix_all(strip_prefix_all(trim(raw), "```json"@), "```"@))
}

/// What is done with a reply.
pub enum ReplyAction {
    /// The reply's JSON text.
    Accept(String),
    /// The analysis fails with this message.
    Fail(String),
    /// Ask again, adding this message to the conversation.
    Retry(String),
}

/// The mathematical value of a `ReplyAction`.
pub enum ReplyStep {
    Accept(Seq<char>),
    Fail(Seq<char>),
    Retry(Seq<char>),
}

impl View for ReplyAction {
    type V = ReplyStep;

    open spec fn view(&self) -> ReplyStep {
        match self {
            ReplyAction::Accept(t) => ReplyStep::Accept(t@),
            ReplyAction::Fail(e) => ReplyStep::Fail(e@),
            ReplyAction::Retry(m) => ReplyStep::Retry(m@),
        }
    }
}

/// The message that asks the model to answer again after `error`.
pub open spec fn retry_note(error: Seq<char>) -> Seq<char> {
    "上一次输出不是合法 JSON（"@ + error
        + "）。请从头重新生成，不要续写上次内容。只能输出一个完整 JSON 对象；保留字段但精炼内容；字符串内部的双引号必须转义；对象成员之间必须有逗号；不要 Markdown；务必闭合所有字符串、数组和对象。"@
}

/// The message when three replies in a row gave no JSON, the last for `error`.
pub open spec fn model_failure(error: Seq<char>) -> Seq<char> {
    "DeepSeek 连续 3 次返回无法解析的 JSON（"@ + error + "）。已保留此前完成的片段和报告模块，可直接重试当前分析。"@
}

/// What attempt `attempt` (0, 1 or 2) does with its reply: a failed request fails
/// with the API's message; a reply without content fails; a reply cut at its token
/// limit, or whose JSON does not parse even repaired, is asked again (the last
/// attempt fails instead); otherwise its JSON text is taken.
pub open spec fn spec_reply_step(
    attempt: nat,
    status_ok: bool,
    api_error: Option<Seq<char>>,
    content: Option<Seq<char>>,
    finish: Seq<char>,
) -> ReplyStep {
    if !status_ok {
        ReplyStep::Fail(
            match api_error {
                Some(e) => e,
                None => "未知 API 错误"@,
            },
        )
    } else {
        match content {
            None => ReplyStep::Fail("DeepSeek 未返回内容"@),
            Some(raw) => {
                let outcome = if finish != "length"@ {
                    spec_parse_model_json(clean_reply(raw))
                } else {
                    Err("输出达到 token 上限，JSON 被截断"@)
                };
                match outcome {
                    Ok(t) => ReplyStep::Accept(t),
                    Err(e) => if attempt < 2 {
                        ReplyStep::Retry(retry_note(e))
                    } else {
                        ReplyStep::Fail(model_failure(e))
                    },
                }
            },
        }
    }
}

/// What to do with the reply to attempt `attempt`: whether its request succeeded,
/// the API's error message, the reply's content and its finish reason (empty when
/// it gave none).
pub fn reply_step(
    attempt: u32,
    status_ok: bool,
    api_error: &Option<String>,
    content: &Option<String>,
    finish: &str,
) -> (r: ReplyAction)
    requires
        attempt <= 2,
    ensures
        r@ == spec_reply_step(attempt as nat, status_ok, crate::toc::opt_view(*api_error), crate::toc::opt_view(*content), finish@),
{
    if !status_ok {
        return ReplyAction::Fail(
            match api_error {
                Some(e) => e.clone(),
                None => "未知 API 错误".to_owned(),
            },
        );
    }
    let raw = match content {
        None => {
            return ReplyAction::Fail("DeepSeek 未返回内容".to_owned());
        },
        Some(raw) => raw,
    };
    let outcome = if !crate::html::eq_chars(&chars_of(finish), "length") {
        let t = trim_exec(&chars_of(raw.as_str()));
        let a = strip_prefix_all_exec(&t, &chars_of("```json"));
        let b = strip_suffix_all_exec(&a, &chars_of("```"));
        let c = trim_exec(&b);
        parse_model_json(string_of(&c).as_str())
    } else {
        Err("输出达到 token 上限，JSON 被截断".to_owned())
    };
    match outcome {
        Ok(t) => ReplyAction::Accept(t),
        Err(e) => {
            if attempt < 2 {
                let mut m = "上一次输出不是合法 JSON（".to_owned();
                push_str(&mut m, e.as_str());
                push_str(
                    &mut m,
                    "）。请从头重新生成，不要续写上次内容。只能输出一个完整 JSON 对象；保留字段但精炼内容；字符串内部的双引号必须转义；对象成员之间必须有逗号；不要 Markdown；务必闭合所有字符串、数组和对象。",
                );
                ReplyAction::Retry(m)
            } else {
                let mut m = "DeepSeek 连续 3 次返回无法解析的 JSON（".to_owned();
                push_str(&mut m, e.as_str());
                push_str(&mut m, "）。已保留此前完成的片段和报告模块，可直接重试当前分析。");
                ReplyAction::Fail(m)
            }
        },
    }
}

// ---------------------------------------------------------------------------
// Stages of an analysis
// ---------------------------------------------------------------------------

/// Whether an analysis may start for a book whose job has status `status`: not
/// while one runs; the report modules of an earlier analysis are kept only to
/// resume a failed one. The result says whether to drop them.
pub open spec fn spec_analysis_start(status: Seq<char>) -> Result<bool, Seq<char>> {
    if status == "analyzing"@ {
        Err("该书正在分析"@)
    } else {
        Ok(status != "failed"@)
    }
}

/// Whether an analysis may start, and whether to drop the earlier report modules.
pub fn analysis_start(status: &str) -> (r: Result<bool, String>)
    ensures
        match r {
            Ok(b) => spec_analysis_start(status@) == Ok::<bool, Seq<char>>(b),
            Err(e) => spec_analysis_start(status@) == Err::<bool, Seq<char>>(e@),
        },
{
    let sv = chars_of(status);
    if crate::html::eq_chars(&sv, "analyzing") {
        Err("该书正在分析".to_owned())
    } else {
        Ok(!crate::html::eq_chars(&sv, "failed"))
    }
}

/// The number of steps of an analysis of a book cut into `parts` parts: one per
/// part and one per module of the report.
pub fn analysis_total(parts: usize) -> (r: i64)
    requires
        parts + 5 <= i64::MAX,
    ensures
        r == parts + 5,
{
    parts as i64 + 5
}

/// `label` followed by `index + 1`, `/` and `total`.
pub open spec fn counted(label: Seq<char>, index: nat, total: nat) -> Seq<char> {
    label + dec(index + 1) + "/"@ + dec(total)
}

fn counted_exec(label: &str, index: usize, total: usize) -> (r: String)
    requires
        index < usize::MAX,
    ensures
        r@ == counted(label@, index as nat, total as nat),
{
    let mut r = label.to_owned();
    let i = usize_to_string(index + 1);
    push_str(&mut r, i.as_str());
    push_str(&mut r, "/");
    let t = usize_to_string(total);
    push_str(&mut r, t.as_str());
    r
}

/// The stage shown while part `index` (from 0) of `total` is taken from an earlier run.
pub fn reused_stage(index: usize, total: usize) -> (r: String)
    requires
        index < usize::MAX,
    ensures
        r@ == counted("复用已完成片段 "@, index as nat, total as nat),
{
    counted_exec("复用已完成片段 ", index, total)
}

/// The stage shown while part `index` (from 0) of `total` is analysed.
pub fn part_stage(index: usize, total: usize) -> (r: String)
    requires
        index < usize::MAX,
    ensures
        r@ == counted("分析原文片段 "@, index as nat, total as nat),
{
    counted_exec("分析原文片段 ", index, total)
}

/// The stage shown while module `index` (from 0) of the report, named `name`, is made.
pub open spec fn spec_module_stage(index: nat, name: Seq<char>) -> Seq<char> {
    "综合报告 "@ + dec(index + 1) + "/5："@ + name
}

/// The stage shown while a module of the report is made.
pub fn module_stage(index: usize, name: &str) -> (r: String)
    requires
        index < usize::MAX,
    ensures
        r@ == spec_module_stage(index as nat, name@),
{
    let mut r = "综合报告 ".to_owned();
    let i = usize_to_string(index + 1);
    push_str(&mut r, i.as_str());
    push_str(&mut r, "/5：");
    push_str(&mut r, name);
    r
}

/// The stage of a book whose chapters were read again through its Legado source.
pub open spec fn spec_refreshed_stage(chapters: nat) -> Seq<char> {
    "已补全 "@ + dec(chapters) + " 章，等待分析"@
}

/// The stage of a book whose chapters were read again.
pub fn refreshed_stage(chapters: usize) -> (r: String)
    ensures
        r@ == spec_refreshed_stage(chapters as nat),
{
    let mut r = "已补全 ".to_owned();
    let n = usize_to_string(chapters);
    push_str(&mut r, n.as_str());
    push_str(&mut r, " 章，等待分析");
    r
}

/// The answer to a test of the model settings passes: it is a JSON object whose
/// member `ok` is `true`.
pub open spec fn spec_probe_ok(answer: Seq<char>) -> bool {
    match body_json(answer) {
        Ok((t, root)) => bool_member(t, root, "ok"@, false),
        Err(_) => false,
    }
}

/// Whether the answer to a test of the model settings passes.
pub fn probe_ok(answer: &str) -> (b: bool)
    ensures
        b == spec_probe_ok(answer@),
{
    match parse_json(answer) {
        Ok((doc, root)) => bool_member_exec(&doc, root, "ok", false),
        Err(_) => false,
    }
}

// ---------------------------------------------------------------------------
// The run of an analysis
// ---------------------------------------------------------------------------

/// The size in bytes of the parts a book is cut into for analysis.
pub open spec fn part_size() -> int {
    100_000
}

/// Where an analysis stands.
#[derive(Clone, Copy, PartialEq, Eq, Structural, Debug)]
pub enum Phase {
    /// Announce the preparation of the parts.
    Prepare,
    /// Have the parts stored.
    Store,
    /// Look up the stored analysis of part `index`.
    PartLoad,
    /// Waiting for that stored analysis (`part_stored`).
    PartWait,
    /// Announce that part `index` was taken from an earlier run.
    PartReused,
    /// Announce that part `index` is analysed.
    PartProgress,
    /// Ask the model about part `index`.
    PartPrompt,
    /// Waiting for the model's analysis of the part (`part_answered`).
    PartAnswer,
    /// Announce module `index` of the report.
    ModuleProgress,
    /// Look up the stored module `index`.
    ModuleLoad,
    /// Waiting for that stored module (`module_stored`).
    ModuleWait,
    /// Ask the model for module `index`.
    ModulePrompt,
    /// Waiting for the model's module (`module_answered`).
    ModuleAnswer,
    /// Have the report stored.
    Report,
    /// Announce the end of the analysis.
    Finish,
    /// Nothing more to do.
    Finished,
}

/// The phases that wait for an answer from the caller.
pub open spec fn waiting(p: Phase) -> bool {
    p == Phase::PartWait || p == Phase::PartAnswer || p == Phase::ModuleWait || p == Phase::ModuleAnswer
}

/// What the caller of an analysis does next.
pub enum AnalysisAction {
    /// Record the job's status, stage and progress.
    Progress { status: String, stage: String, completed: i64, total: i64 },
    /// Store the parts (`AnalysisRun::parts`), keeping analyses of unchanged parts.
    StoreParts,
    /// Hand the stored analysis of part `index` to `part_stored`.
    LoadPart { index: usize },
    /// Ask the model with this prompt, store its analysis of part `index`, and hand
    /// it to `part_answered`.
    AskPart { index: usize, prompt: String },
    /// Hand the stored module named `name` to `module_stored`.
    LoadModule { index: usize, name: String },
    /// Ask the model with this prompt, store the module, add it to the report, and
    /// call `module_answered`.
    AskModule { index: usize, prompt: String },
    /// Store the report: this JSON object, the members of the modules merged.
    StoreReport { report: String },
    /// The analysis is complete.
    Done,
}

/// The mathematical value of an `AnalysisAction`.
pub enum AnalysisStep {
    Progress { status: Seq<char>, stage: Seq<char>, completed: int, total: int },
    StoreParts,
    LoadPart { index: nat },
    AskPart { index: nat, prompt: Seq<char> },
    LoadModule { index: nat, name: Seq<char> },
    AskModule { index: nat, prompt: Seq<char> },
    StoreReport { report: Seq<char> },
    Done,
}

impl View for AnalysisAction {
    type V = AnalysisStep;

    open spec fn view(&self) -> AnalysisStep {
        match self {
            AnalysisAction::Progress { status, stage, completed, total } => AnalysisStep::Progress {
                status: status@,
                stage: stage@,
                completed: *completed as int,
                total: *total as int,
            },
            AnalysisAction::StoreParts => AnalysisStep::StoreParts,
            AnalysisAction::LoadPart { index } => AnalysisStep::LoadPart { index: *index as nat },
            AnalysisAction::AskPart { index, prompt } => AnalysisStep::AskPart { index: *index as nat, prompt: prompt@ },
            AnalysisAction::LoadModule { index, name } => AnalysisStep::LoadModule { index: *index as nat, name: name@ },
            AnalysisAction::AskModule { index, prompt } => AnalysisStep::AskModule { index: *index as nat, prompt: prompt@ },
            AnalysisAction::StoreReport { report } => AnalysisStep::StoreReport { report: report@ },
            AnalysisAction::Done => AnalysisStep::Done,
        }
    }
}

#[derive(Clone, Copy)]
struct Cursor {
    phase: Phase,
    index: usize,
    completed: i64,
}

/// The state of the analysis of one book.
pub struct AnalysisRun {
    title: String,
    parts: Vec<String>,
    summaries: Vec<String>,
    modules: Ghost<Seq<Seq<char>>>,
    report: Vec<(String, String)>,
    cursor: Cursor,
    total: i64,
}

/// The mathematical value of an analysis: the book's title and parts, the JSON
/// analyses of the parts so far, the JSON texts of the modules so far, the phase
/// and the part or module it is at, the progress last recorded and the number of
/// steps.
pub struct AnalysisView {
    pub title: Seq<char>,
    pub parts: Seq<Seq<char>>,
    pub summaries: Seq<Seq<char>>,
    pub modules: Seq<Seq<char>>,
    pub phase: Phase,
    pub index: nat,
    pub completed: int,
    pub total: int,
}

impl View for AnalysisRun {
    type V = AnalysisView;

    closed spec fn view(&self) -> AnalysisView {
        AnalysisView {
            title: self.title@,
            parts: self.parts.deep_view(),
            summaries: self.summaries.deep_view(),
            modules: self.modules@,
            phase: self.cursor.phase,
            index: self.cursor.index as nat,
            completed: self.cursor.completed as int,
            total: self.total as int,
        }
    }
}

/// The invariant of an analysis: one step per part and per module, progress
/// between 0 and the number of steps and never ahead of the phase, the part or
/// module index in range, and one analysis for each part done, so that the modules
/// are asked with the analyses of all parts.
pub open spec fn run_inv(v: AnalysisView) -> bool {
    let n = v.parts.len();
    &&& v.total == n + 5
    &&& v.total <= i64::MAX
    &&& 0 <= v.completed <= v.total
    &&& v.summaries.len() == match v.phase {
        Phase::Prepare | Phase::Store => 0,
        Phase::PartLoad | Phase::PartWait | Phase::PartProgress | Phase::PartPrompt | Phase::PartAnswer => v.index,
        Phase::PartReused => v.index + 1,
        _ => n,
    }
    &&& match v.phase {
        Phase::Prepare | Phase::Store => v.completed == 0,
        Phase::PartLoad | Phase::PartWait | Phase::PartReused | Phase::PartProgress => v.index < n && v.completed <= v.index,
        Phase::PartPrompt | Phase::PartAnswer => v.index < n && v.completed == v.index,
        Phase::ModuleProgress => v.index < 5 && v.completed <= n + v.index,
        Phase::ModuleLoad | Phase::ModuleWait | Phase::ModulePrompt | Phase::ModuleAnswer => v.index < 5 && v.completed == n
            + v.index,
        Phase::Report | Phase::Finish => true,
        Phase::Finished => v.completed == v.total,
    }
}

/// The analyses of the parts as one JSON array.
pub open spec fn summaries_json(s: Seq<Seq<char>>) -> Seq<char> {
    "["@ + join(s, ","@) + "]"@
}

/// The state after part `index` is done: the next part, or the first module.
pub open spec fn after_part(v: AnalysisView) -> AnalysisView {
    if v.index + 1 < v.parts.len() {
        AnalysisView { phase: Phase::PartLoad, index: v.index + 1, ..v }
    } else {
        AnalysisView { phase: Phase::ModuleProgress, index: 0, ..v }
    }
}

/// The state after module `index` is done: the next module, or the report.
pub open spec fn after_module(v: AnalysisView) -> AnalysisView {
    if v.index + 1 < 5 {
        AnalysisView { phase: Phase::ModuleProgress, index: v.index + 1, ..v }
    } else {
        AnalysisView { phase: Phase::Report, index: 0, ..v }
    }
}

/// A progress record while analysing.
pub open spec fn analysing(stage: Seq<char>, completed: int, total: int) -> AnalysisStep {
    AnalysisStep::Progress { status: "analyzing"@, stage, completed, total }
}

/// One step of an analysis that is not waiting: the action to take and the state
/// after it. The parts are analysed in order, each taken from an earlier run when
/// possible; then the five modules of the report, each likewise; then the report
/// is stored and the job completed. The progress is the number of steps done.
pub open spec fn spec_step(v: AnalysisView) -> (AnalysisView, AnalysisStep) {
    let n = v.parts.len();
    let i = v.index;
    match v.phase {
        Phase::Prepare => (
            AnalysisView { phase: Phase::Store, completed: 0, ..v },
            analysing("准备原文切片"@, 0, v.total),
        ),
        Phase::Store => (
            if n > 0 {
                AnalysisView { phase: Phase::PartLoad, index: 0, ..v }
            } else {
                AnalysisView { phase: Phase::ModuleProgress, index: 0, ..v }
            },
            AnalysisStep::StoreParts,
        ),
        Phase::PartLoad => (AnalysisView { phase: Phase::PartWait, ..v }, AnalysisStep::LoadPart { index: i }),
        Phase::PartReused => (
            after_part(AnalysisView { completed: (i + 1) as int, ..v }),
            analysing(counted("复用已完成片段 "@, i, n), (i + 1) as int, v.total),
        ),
        Phase::PartProgress => (
            AnalysisView { phase: Phase::PartPrompt, completed: i as int, ..v },
            analysing(counted("分析原文片段 "@, i, n), i as int, v.total),
        ),
        Phase::PartPrompt => (
            AnalysisView { phase: Phase::PartAnswer, ..v },
            AnalysisStep::AskPart { index: i, prompt: spec_chunk_prompt(v.parts[i as int], i + 1, n) },
        ),
        Phase::ModuleProgress => (
            AnalysisView { phase: Phase::ModuleLoad, completed: (n + i) as int, ..v },
            analysing(spec_module_stage(i, spec_report_modules()[i as int].0), (n + i) as int, v.total),
        ),
        Phase::ModuleLoad => (
            AnalysisView { phase: Phase::ModuleWait, ..v },
            AnalysisStep::LoadModule { index: i, name: spec_report_modules()[i as int].0 },
        ),
        Phase::ModulePrompt => (
            AnalysisView { phase: Phase::ModuleAnswer, ..v },
            AnalysisStep::AskModule {
                index: i,
                prompt: spec_final_module_prompt(
                    v.title,
                    summaries_json(v.summaries),
                    spec_report_modules()[i as int].0,
                    spec_report_modules()[i as int].1,
                ),
            },
        ),
        Phase::Report => (
            AnalysisView { phase: Phase::Finish, ..v },
            AnalysisStep::StoreReport { report: report_text(v.modules) },
        ),
        Phase::Finish => (
            AnalysisView { phase: Phase::Finished, completed: v.total, ..v },
            AnalysisStep::Progress { status: "completed"@, stage: "分析完成"@, completed: v.total, total: v.total },
        ),
        _ => (v, AnalysisStep::Done),
    }
}

/// The progress of an analysis only goes forward and stays within its number of
/// steps; every progress record gives the progress reached and the number of
/// steps; and the analysis is done exactly when all steps are done.
pub proof fn lemma_analysis_progress(v: AnalysisView)
    requires
        run_inv(v),
        !waiting(v.phase),
    ensures
        run_inv(spec_step(v).0),
        v.completed <= spec_step(v).0.completed <= spec_step(v).0.total,
        spec_step(v).1 matches AnalysisStep::Progress { completed, total, .. }
            ==> completed == spec_step(v).0.completed && total == v.total,
        spec_step(v).1 is Done ==> spec_step(v).0.completed == spec_step(v).0.total,
        spec_step(v).1 is Done <==> v.phase == Phase::Finished,
{
}

/// Handing in an answer keeps the invariant and leaves the progress as it was:
/// a stored analysis of a part (reused or not), the model's analysis of a part,
/// and a stored or answered module.
pub proof fn lemma_analysis_answers(v: AnalysisView, summary: Seq<char>, module: Seq<char>)
    requires
        run_inv(v),
        waiting(v.phase),
    ensures
        v.phase == Phase::PartWait ==> run_inv(
            AnalysisView { phase: Phase::PartReused, summaries: v.summaries.push(summary), ..v },
        ) && run_inv(AnalysisView { phase: Phase::PartProgress, ..v }),
        v.phase == Phase::PartAnswer ==> run_inv(after_part(AnalysisView { summaries: v.summaries.push(summary), ..v }))
            && after_part(AnalysisView { summaries: v.summaries.push(summary), ..v }).completed == v.completed,
        v.phase == Phase::ModuleWait ==> run_inv(after_module(AnalysisView { modules: v.modules.push(module), ..v }))
            && run_inv(AnalysisView { phase: Phase::ModulePrompt, ..v }),
        v.phase == Phase::ModuleAnswer ==> run_inv(after_module(AnalysisView { modules: v.modules.push(module), ..v }))
            && after_module(AnalysisView { modules: v.modules.push(module), ..v }).completed == v.completed,
{
}

/// A part whose stored analysis parses is taken as it is and the model is not
/// asked about it: the run records the progress and goes on to the next part (or
/// the report). A part without one is announced and then put to the model.
pub proof fn lemma_reuse_skips_model(v: AnalysisView, stored: Seq<char>)
    requires
        run_inv(v),
        v.phase == Phase::PartWait,
    ensures
        json_parse_error(stored) is None ==> {
            let w = AnalysisView { phase: Phase::PartReused, summaries: v.summaries.push(canonical(stored)), ..v };
            &&& spec_step(w).1 is Progress
            &&& (spec_step(w).0.phase == Phase::PartLoad && spec_step(w).0.index == v.index + 1)
                || spec_step(w).0.phase == Phase::ModuleProgress
            &&& spec_step(w).0.summaries == v.summaries.push(canonical(stored))
        },
        ({
            let w = AnalysisView { phase: Phase::PartProgress, ..v };
            &&& spec_step(w).1 is Progress
            &&& spec_step(spec_step(w).0).1 == AnalysisStep::AskPart {
                index: v.index,
                prompt: spec_chunk_prompt(v.parts[v.index as int], v.index + 1, v.parts.len()),
            }
        }),
{
}

/// The modules of the report are asked for with the analyses of every part, in
/// the order of the parts.
pub proof fn lemma_modules_see_all_parts(v: AnalysisView)
    requires
        run_inv(v),
        v.phase == Phase::ModulePrompt,
    ensures
        v.summaries.len() == v.parts.len(),
        spec_step(v).1 matches AnalysisStep::AskModule { prompt, .. } && prompt == spec_final_module_prompt(
            v.title,
            summaries_json(v.summaries),
            spec_report_modules()[v.index as int].0,
            spec_report_modules()[v.index as int].1,
        ),
{
}

/// The states an answer leads to from a waiting state: a stored analysis of the
/// part (kept with the others) or none; the model's analysis of the part; a stored
/// module (kept with the others) or none; the model's module.
pub open spec fn answered(v: AnalysisView, w: AnalysisView) -> bool {
    match v.phase {
        Phase::PartWait => {
            ||| (w.summaries.len() > 0 && w == AnalysisView {
                phase: Phase::PartReused,
                summaries: v.summaries.push(w.summaries.last()),
                ..v
            })
            ||| w == AnalysisView { phase: Phase::PartProgress, ..v }
        },
        Phase::PartAnswer => w.summaries.len() > 0 && w == after_part(
            AnalysisView { summaries: v.summaries.push(w.summaries.last()), ..v },
        ),
        Phase::ModuleWait => (w.modules.len() > 0 && w == after_module(
            AnalysisView { modules: v.modules.push(w.modules.last()), ..v },
        )) || w == AnalysisView { phase: Phase::ModulePrompt, ..v },
        Phase::ModuleAnswer => w.modules.len() > 0 && w == after_module(
            AnalysisView { modules: v.modules.push(w.modules.last()), ..v },
        ),
        _ => false,
    }
}

/// One move of an analysis: a step when it is not waiting, an answer when it is.
pub open spec fn moves(v: AnalysisView, w: AnalysisView) -> bool {
    if waiting(v.phase) {
        answered(v, w)
    } else {
        w == spec_step(v).0
    }
}

/// The states of an analysis one after another, from a valid state.
pub open spec fn is_run(vs: Seq<AnalysisView>) -> bool {
    &&& vs.len() > 0
    &&& run_inv(vs[0])
    &&& forall|i: int| 0 <= i < vs.len() - 1 ==> moves(vs[i], #[trigger] vs[i + 1])
}

/// How far an analysis has come: every move but the last, repeated one goes further.
pub open spec fn rank(v: AnalysisView) -> int {
    let n = v.parts.len() as int;
    let i = v.index as int;
    match v.phase {
        Phase::Prepare => 0,
        Phase::Store => 1,
        Phase::PartLoad => 2 + 6 * i,
        Phase::PartWait => 3 + 6 * i,
        Phase::PartReused | Phase::PartProgress => 4 + 6 * i,
        Phase::PartPrompt => 5 + 6 * i,
        Phase::PartAnswer => 6 + 6 * i,
        Phase::ModuleProgress => 2 + 6 * n + 5 * i,
        Phase::ModuleLoad => 3 + 6 * n + 5 * i,
        Phase::ModuleWait => 4 + 6 * n + 5 * i,
        Phase::ModulePrompt => 5 + 6 * n + 5 * i,
        Phase::ModuleAnswer => 6 + 6 * n + 5 * i,
        Phase::Report => 27 + 6 * n,
        Phase::Finish => 28 + 6 * n,
        Phase::Finished => 29 + 6 * n,
    }
}

/// A progress record is one of the analysis with this number of steps: `analyzing`
/// with fewer steps done, or `completed` with all of them.
pub open spec fn progress_ok(a: AnalysisStep, total: int) -> bool {
    a matches AnalysisStep::Progress { status, completed, total: t, .. } ==> t == total && (
    (status == "analyzing"@ && 0 <= completed < total) || (status == "completed"@ && completed == total))
}

proof fn lemma_move(v: AnalysisView, w: AnalysisView)
    requires
        run_inv(v),
        moves(v, w),
    ensures
        run_inv(w),
        w.total == v.total,
        w.parts == v.parts,
        v.completed <= w.completed,
        rank(w) > rank(v) || (v.phase == Phase::Finished && w == v),
        !waiting(v.phase) ==> progress_ok(spec_step(v).1, v.total),
        !waiting(v.phase) ==> (spec_step(v).1 is Done <==> v.phase == Phase::Finished),
{
    reveal_strlit("analyzing");
    reveal_strlit("completed");
    if waiting(v.phase) {
        let summary = if w.summaries.len() > 0 { w.summaries.last() } else { Seq::empty() };
        let module = if w.modules.len() > 0 { w.modules.last() } else { Seq::empty() };
        lemma_analysis_answers(v, summary, module);
    } else {
        lemma_analysis_progress(v);
    }
}

proof fn lemma_run_order(vs: Seq<AnalysisView>, j: int)
    requires
        is_run(vs),
        0 <= j < vs.len(),
    ensures
        run_inv(vs[j]),
        vs[j].total == vs[0].total,
        vs[j].parts == vs[0].parts,
        forall|i: int| 0 <= i <= j ==> vs[i].completed <= #[trigger] vs[j].completed && rank(vs[i]) <= rank(vs[j]),
    decreases j,
{
    if j > 0 {
        lemma_run_order(vs, j - 1);
        let k = j - 1;
        assert(moves(vs[k], vs[k + 1]));
        lemma_move(vs[j - 1], vs[j]);
    }
}

/// Over a whole analysis: the number of steps stays that of the start, the progress
/// never falls and stays within it (in the states and in the records, one after
/// another), every progress record is `analyzing` with fewer
/// steps done or `completed` with all of them, the analysis ends only when all steps
/// are done, and a part or a module taken from an earlier run is never put to the
/// model afterwards.
pub proof fn lemma_analysis_run(vs: Seq<AnalysisView>)
    requires
        is_run(vs),
    ensures
        forall|j: int| 0 <= j < vs.len() ==> run_inv(#[trigger] vs[j]) && vs[j].total == vs[0].total
            && vs[j].total == vs[0].parts.len() + 5,
        forall|i: int, j: int| 0 <= i <= j < vs.len() ==> #[trigger] vs[i].completed <= #[trigger] vs[j].completed,
        forall|j: int| 0 <= j < vs.len() && !waiting(vs[j].phase) ==> progress_ok(#[trigger] spec_step(vs[j]).1, vs[0].total),
        forall|j: int| 0 <= j < vs.len() && !waiting(vs[j].phase) && #[trigger] spec_step(vs[j]).1 is Done
            ==> vs[j].completed == vs[0].total,
        forall|i: int, j: int| 0 <= i < j < vs.len() && !waiting(vs[i].phase) && !waiting(vs[j].phase)
            && #[trigger] spec_step(vs[i]).1 is Progress && #[trigger] spec_step(vs[j]).1 is Progress
            ==> spec_step(vs[i]).1->Progress_completed <= spec_step(vs[j]).1->Progress_completed,
        forall|i: int, j: int| 0 <= i && i + 1 < j < vs.len() && vs[i].phase == Phase::PartWait
            && #[trigger] vs[i + 1].phase == Phase::PartReused && !waiting(vs[j].phase)
            ==> !(#[trigger] spec_step(vs[j]).1 matches AnalysisStep::AskPart { index, .. } && index == vs[i].index),
        forall|i: int, j: int| 0 <= i && i + 1 < j < vs.len() && vs[i].phase == Phase::ModuleWait
            && #[trigger] vs[i + 1].phase != Phase::ModulePrompt && !waiting(vs[j].phase)
            ==> !(#[trigger] spec_step(vs[j]).1 matches AnalysisStep::AskModule { index, .. } && index == vs[i].index),
{
    assert forall|j: int| 0 <= j < vs.len() implies run_inv(#[trigger] vs[j]) && vs[j].total == vs[0].total
        && vs[j].total == vs[0].parts.len() + 5 by {
        lemma_run_order(vs, j);
    }
    assert forall|i: int, j: int| 0 <= i <= j < vs.len() implies #[trigger] vs[i].completed <= #[trigger] vs[j].completed by {
        lemma_run_order(vs, j);
    }
    assert forall|j: int| 0 <= j < vs.len() && !waiting(vs[j].phase) implies progress_ok(
        #[trigger] spec_step(vs[j]).1,
        vs[0].total,
    ) by {
        lemma_run_order(vs, j);
        lemma_analysis_progress(vs[j]);
        reveal_strlit("analyzing");
        reveal_strlit("completed");
    }
    assert forall|j: int| 0 <= j < vs.len() && !waiting(vs[j].phase) && #[trigger] spec_step(vs[j]).1 is Done
        implies vs[j].completed == vs[0].total by {
        lemma_run_order(vs, j);
        lemma_analysis_progress(vs[j]);
    }
    assert forall|i: int, j: int| 0 <= i < j < vs.len() && !waiting(vs[i].phase) && !waiting(vs[j].phase)
        && #[trigger] spec_step(vs[i]).1 is Progress && #[trigger] spec_step(vs[j]).1 is Progress
        implies spec_step(vs[i]).1->Progress_completed <= spec_step(vs[j]).1->Progress_completed by {
        lemma_run_order(vs, j);
        lemma_run_order(vs, i);
        lemma_analysis_progress(vs[i]);
        lemma_analysis_progress(vs[j]);
        let k = i;
        assert(moves(vs[k], vs[k + 1]));
        lemma_run_order(vs, k + 1);
    }
    assert forall|i: int, j: int| 0 <= i && i + 1 < j < vs.len() && vs[i].phase == Phase::PartWait
        && #[trigger] vs[i + 1].phase == Phase::PartReused && !waiting(vs[j].phase)
        implies !(#[trigger] spec_step(vs[j]).1 matches AnalysisStep::AskPart { index, .. } && index == vs[i].index) by {
        lemma_run_order(vs, j);
        lemma_run_order(vs, i + 2);
        lemma_run_order(vs, i);
        assert(moves(vs[i], vs[i + 1]));
        let k = i + 1;
        assert(moves(vs[k], vs[k + 1]));
        assert(vs[i + 1].index == vs[i].index);
        assert(rank(vs[i + 2]) == 8 + 6 * vs[i].index);
        assert(rank(vs[i + 2]) <= rank(vs[j]));
    }
    assert forall|i: int, j: int| 0 <= i && i + 1 < j < vs.len() && vs[i].phase == Phase::ModuleWait
        && #[trigger] vs[i + 1].phase != Phase::ModulePrompt && !waiting(vs[j].phase)
        implies !(#[trigger] spec_step(vs[j]).1 matches AnalysisStep::AskModule { index, .. } && index == vs[i].index) by {
        lemma_run_order(vs, j);
        lemma_run_order(vs, i + 1);
        lemma_run_order(vs, i);
        assert(moves(vs[i], vs[i + 1]));
        assert(rank(vs[i + 1]) > 5 + 6 * vs[i].parts.len() + 5 * vs[i].index);
        assert(rank(vs[i + 1]) <= rank(vs[j]));
    }
}

/// The view of a stored or answered analysis: the text when it is one JSON value.
pub open spec fn usable(cached: Option<Seq<char>>) -> bool {
    cached is Some && json_parse_error(cached->0) is None
}

impl AnalysisRun {
    #[verifier::type_invariant]
    closed spec fn inv(&self) -> bool {
        &&& run_inv(self@)
        &&& pairs_view(self.report@) == merged_report(self.modules@)
    }

    /// The analysis of a book: its text cut into parts of at most 100000 bytes,
    /// and one step per part and per module of the report.
    pub fn new(title: &str, content: &str) -> (r: AnalysisRun)
        requires
            encode_utf8(content@).len() + 5 <= i64::MAX,
        ensures
            r@.title == title@,
            r@.parts.map_values(|p: Seq<char>| encode_utf8(p)) == spec_split_content(content@, part_size()),
            r@.total == spec_split_content(content@, part_size()).len() + 5,
            r@.completed == 0,
            r@.phase == Phase::Prepare,
            r@.summaries.len() == 0,
            r@.modules.len() == 0,
            run_inv(r@),
    {
        proof {
            lemma_split_content_count(content@, part_size());
        }
        let parts = split_content(content, 100_000);
        assert(utf8_of_all(parts@).len() == parts@.len());
        assert(parts.deep_view().map_values(|p: Seq<char>| encode_utf8(p)) =~= utf8_of_all(parts@));
        let total = parts.len() as i64 + 5;
        let report: Vec<(String, String)> = Vec::new();
        assert(pairs_view(report@) =~= merged_report(Seq::<Seq<char>>::empty()));
        let r = AnalysisRun {
            title: title.to_owned(),
            parts,
            summaries: Vec::new(),
            modules: Ghost(Seq::empty()),
            report,
            cursor: Cursor { phase: Phase::Prepare, index: 0, completed: 0 },
            total,
        };
        assert(r@.summaries =~= Seq::<Seq<char>>::empty());
        r
    }

    /// The parts of the book, in order.
    pub fn parts(&self) -> (p: &Vec<String>)
        ensures
            p.deep_view() == self@.parts,
    {
        &self.parts
    }

    /// Where the analysis stands.
    pub fn phase(&self) -> (p: Phase)
        ensures
            p == self@.phase,
    {
        self.cursor.phase
    }

    /// The next action, for an analysis not waiting for an answer.
    pub fn next_action(&mut self) -> (a: AnalysisAction)
        requires
            !waiting(old(self)@.phase),
        ensures
            (final(self)@, a@) == spec_step(old(self)@),
            moves(old(self)@, final(self)@),
    {
        proof {
            use_type_invariant(&*self);
        }
        let n = self.parts.len();
        let c = self.cursor;
        let i = c.index;
        let total = self.total;
        assert(self.parts.deep_view().len() == n);
        assert(spec_report_modules().len() == 5);
        match c.phase {
            Phase::Prepare => {
                self.cursor = Cursor { phase: Phase::Store, index: i, completed: 0 };
                AnalysisAction::Progress {
                    status: "analyzing".to_owned(),
                    stage: "准备原文切片".to_owned(),
                    completed: 0,
                    total,
                }
            },
            Phase::Store => {
                self.cursor = if n > 0 {
                    Cursor { phase: Phase::PartLoad, index: 0, completed: c.completed }
                } else {
                    Cursor { phase: Phase::ModuleProgress, index: 0, completed: c.completed }
                };
                AnalysisAction::StoreParts
            },
            Phase::PartLoad => {
                self.cursor = Cursor { phase: Phase::PartWait, index: i, completed: c.completed };
                AnalysisAction::LoadPart { index: i }
            },
            Phase::PartReused => {
                let completed = i as i64 + 1;
                self.cursor = if i + 1 < n {
                    Cursor { phase: Phase::PartLoad, index: i + 1, completed }
                } else {
                    Cursor { phase: Phase::ModuleProgress, index: 0, completed }
                };
                AnalysisAction::Progress {
                    status: "analyzing".to_owned(),
                    stage: reused_stage(i, n),
                    completed,
                    total,
                }
            },
            Phase::PartProgress => {
                let completed = i as i64;
                self.cursor = Cursor { phase: Phase::PartPrompt, index: i, completed };
                AnalysisAction::Progress {
                    status: "analyzing".to_owned(),
                    stage: part_stage(i, n),
                    completed,
                    total,
                }
            },
            Phase::PartPrompt => {
                self.cursor = Cursor { phase: Phase::PartAnswer, index: i, completed: c.completed };
                assert(self.parts.deep_view()[i as int] == self.parts@[i as int]@);
                let prompt = chunk_prompt(self.parts[i].as_str(), i + 1, n);
                AnalysisAction::AskPart { index: i, prompt }
            },
            Phase::ModuleProgress => {
                let completed = n as i64 + i as i64;
                self.cursor = Cursor { phase: Phase::ModuleLoad, index: i, completed };
                let modules = report_modules();
                assert(modules@.len() == 5 && i < 5);
                assert(crate::book::pairs_view(modules@)[i as int] == (modules@[i as int].0@, modules@[i as int].1@));
                AnalysisAction::Progress {
                    status: "analyzing".to_owned(),
                    stage: module_stage(i, modules[i].0.as_str()),
                    completed,
                    total,
                }
            },
            Phase::ModuleLoad => {
                self.cursor = Cursor { phase: Phase::ModuleWait, index: i, completed: c.completed };
                let modules = report_modules();
                assert(modules@.len() == 5 && i < 5);
                assert(crate::book::pairs_view(modules@)[i as int] == (modules@[i as int].0@, modules@[i as int].1@));
                AnalysisAction::LoadModule { index: i, name: modules[i].0.clone() }
            },
            Phase::ModulePrompt => {
                self.cursor = Cursor { phase: Phase::ModuleAnswer, index: i, completed: c.completed };
                let modules = report_modules();
                assert(modules@.len() == 5 && i < 5);
                assert(crate::book::pairs_view(modules@)[i as int] == (modules@[i as int].0@, modules@[i as int].1@));
                let mut summaries = "[".to_owned();
                let joined = join_strings(&self.summaries, ",");
                push_str(&mut summaries, joined.as_str());
                push_str(&mut summaries, "]");
                let prompt = final_module_prompt(self.title.as_str(), summaries.as_str(), modules[i].0.as_str(), modules[i].1.as_str());
                AnalysisAction::AskModule { index: i, prompt }
            },
            Phase::Report => {
                self.cursor = Cursor { phase: Phase::Finish, index: i, completed: c.completed };
                AnalysisAction::StoreReport { report: object_json(&self.report) }
            },
            Phase::Finish => {
                self.cursor = Cursor { phase: Phase::Finished, index: i, completed: total };
                AnalysisAction::Progress {
                    status: "completed".to_owned(),
                    stage: "分析完成".to_owned(),
                    completed: total,
                    total,
                }
            },
            _ => AnalysisAction::Done,
        }
    }

    /// Hands in the stored analysis of the current part (`None` when there is
    /// none): it is reused when it is one JSON value; otherwise the model is asked.
    pub fn part_stored(&mut self, cached: &Option<String>) -> (reused: bool)
        requires
            old(self)@.phase == Phase::PartWait,
        ensures
            reused <==> usable(crate::toc::opt_view(*cached)),
            reused ==> final(self)@ == (AnalysisView {
                phase: Phase::PartReused,
                summaries: old(self)@.summaries.push(canonical(crate::toc::opt_view(*cached)->0)),
                ..old(self)@
            }),
            !reused ==> final(self)@ == (AnalysisView { phase: Phase::PartProgress, ..old(self)@ }),
            moves(old(self)@, final(self)@),
    {
        proof {
            use_type_invariant(&*self);
        }
        let c = self.cursor;
        match cached {
            Some(text) => {
                if json_check(text.as_str()).is_ok() {
                    self.add_summary(canonical_json(text.as_str()), Cursor { phase: Phase::PartReused, index: c.index, completed: c.completed });
                    return true;
                }
            },
            None => {},
        }
        self.cursor = Cursor { phase: Phase::PartProgress, index: c.index, completed: c.completed };
        false
    }

    /// Hands in the model's analysis of the current part, as JSON text; the run
    /// goes on to the next part, or to the first module.
    pub fn part_answered(&mut self, summary: String)
        requires
            old(self)@.phase == Phase::PartAnswer,
        ensures
            final(self)@ == after_part(AnalysisView { summaries: old(self)@.summaries.push(summary@), ..old(self)@ }),
            moves(old(self)@, final(self)@),
    {
        proof {
            use_type_invariant(&*self);
        }
        let c = self.cursor;
        assert(self.parts.deep_view().len() == self.parts@.len());
        assert(c.index < self.parts.len());
        let next = if c.index + 1 < self.parts.len() {
            Cursor { phase: Phase::PartLoad, index: c.index + 1, completed: c.completed }
        } else {
            Cursor { phase: Phase::ModuleProgress, index: 0, completed: c.completed }
        };
        self.add_summary(summary, next);
    }

    /// An analysis of no text, about to start.
    fn blank() -> (r: AnalysisRun)
        ensures
            r@.parts.len() == 0,
    {
        let report: Vec<(String, String)> = Vec::new();
        assert(pairs_view(report@) =~= merged_report(Seq::<Seq<char>>::empty()));
        let r = AnalysisRun {
            title: String::new(),
            parts: Vec::new(),
            summaries: Vec::new(),
            modules: Ghost(Seq::empty()),
            report,
            cursor: Cursor { phase: Phase::Prepare, index: 0, completed: 0 },
            total: 5,
        };
        assert(r.parts.deep_view().len() == 0);
        assert(r.summaries.deep_view().len() == 0);
        r
    }

    /// Adds the analysis of the current part and moves the cursor.
    fn add_summary(&mut self, text: String, next: Cursor)
        requires
            run_inv(AnalysisView {
                summaries: old(self)@.summaries.push(text@),
                phase: next.phase,
                index: next.index as nat,
                completed: next.completed as int,
                ..old(self)@
            }),
        ensures
            final(self)@ == (AnalysisView {
                summaries: old(self)@.summaries.push(text@),
                phase: next.phase,
                index: next.index as nat,
                completed: next.completed as int,
                ..old(self)@
            }),
    {
        let mut taken = AnalysisRun::blank();
        std::mem::swap(self, &mut taken);
        let ghost before = taken@;
        proof {
            use_type_invariant(&taken);
        }
        let AnalysisRun { title, parts, mut summaries, modules, report, cursor: _, total } = taken;
        assert(summaries.deep_view() == before.summaries);
        summaries.push(text);
        assert(summaries.deep_view() =~= before.summaries.push(text@));
        *self = AnalysisRun { title, parts, summaries, modules, report, cursor: next, total };
    }

    /// Hands in the stored current module (`None` when there is none): it is reused
    /// when it is one JSON value, its members added to the report, and the run goes
    /// on; otherwise the model is asked.
    pub fn module_stored(&mut self, cached: &Option<String>) -> (reused: bool)
        requires
            old(self)@.phase == Phase::ModuleWait,
        ensures
            reused <==> usable(crate::toc::opt_view(*cached)),
            reused ==> final(self)@ == after_module(
                AnalysisView { modules: old(self)@.modules.push(crate::toc::opt_view(*cached)->0), ..old(self)@ },
            ),
            !reused ==> final(self)@ == (AnalysisView { phase: Phase::ModulePrompt, ..old(self)@ }),
            moves(old(self)@, final(self)@),
    {
        proof {
            use_type_invariant(&*self);
        }
        let c = self.cursor;
        if let Some(text) = cached {
            if json_check(text.as_str()).is_ok() {
                let next = if c.index + 1 < 5 {
                    Cursor { phase: Phase::ModuleProgress, index: c.index + 1, completed: c.completed }
                } else {
                    Cursor { phase: Phase::Report, index: 0, completed: c.completed }
                };
                self.add_module(text.as_str(), next);
                return true;
            }
        }
        self.cursor = Cursor { phase: Phase::ModulePrompt, index: c.index, completed: c.completed };
        false
    }

    /// Hands in the model's current module, as JSON text (already stored): its
    /// members are added to the report, and the run goes on.
    pub fn module_answered(&mut self, module: String)
        requires
            old(self)@.phase == Phase::ModuleAnswer,
        ensures
            final(self)@ == after_module(AnalysisView { modules: old(self)@.modules.push(module@), ..old(self)@ }),
            moves(old(self)@, final(self)@),
    {
        proof {
            use_type_invariant(&*self);
        }
        let c = self.cursor;
        let next = if c.index + 1 < 5 {
            Cursor { phase: Phase::ModuleProgress, index: c.index + 1, completed: c.completed }
        } else {
            Cursor { phase: Phase::Report, index: 0, completed: c.completed }
        };
        self.add_module(module.as_str(), next);
    }

    /// Adds a module's members to the report and moves the cursor.
    fn add_module(&mut self, text: &str, next: Cursor)
        requires
            run_inv(AnalysisView {
                modules: old(self)@.modules.push(text@),
                phase: next.phase,
                index: next.index as nat,
                completed: next.completed as int,
                ..old(self)@
            }),
        ensures
            final(self)@ == (AnalysisView {
                modules: old(self)@.modules.push(text@),
                phase: next.phase,
                index: next.index as nat,
                completed: next.completed as int,
                ..old(self)@
            }),
    {
        let mut taken = AnalysisRun::blank();
        std::mem::swap(self, &mut taken);
        proof {
            use_type_invariant(&taken);
        }
        let ghost before = taken@;
        let AnalysisRun { title, parts, summaries, modules, mut report, cursor: _, total } = taken;
        merge_module(&mut report, text);
        let ghost ms = modules@.push(text@);
        assert(ms.drop_last() =~= modules@);
        let modules = Ghost(ms);
        *self = AnalysisRun { title, parts, summaries, modules, report, cursor: next, total };
    }
}

} // verus!

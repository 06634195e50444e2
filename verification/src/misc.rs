//! Small pieces of the application's logic: the template bridge's identity,
//! HTTP header framing, download ranges, composer messages, menu labels and
//! content fingerprints.

use vstd::prelude::*;
use sha2::Digest;
use crate::text::{
    chars_of, copy_range, decimal_i64, find_char_from, first_match, lemma_first_match, matches_at,
    matches_at_exec, parse_u64, parse_u64_spec, push_i32, push_str, string_from_chars, trim,
    trim_range,
};

verus! {

broadcast use vstd::string::group_string_axioms;

// ---------------------------------------------------------------------------
// Template bridge
// ---------------------------------------------------------------------------

/// What the template bridge tells the editor plug-in about itself.
pub struct PrBridgeInfo {
    pub service: String,
    pub protocol_version: u8,
    pub page: String,
    pub session_id: String,
    pub port: u16,
    pub output_directory: String,
}

/// The port the template bridge listens on.
pub const PR_BRIDGE_PORT: u16 = 32145;

/// The protocol version of the template bridge.
pub const PR_BRIDGE_PROTOCOL_VERSION: u8 = 1;

/// The bridge's description for the session `session_id`, writing templates to
/// `output_directory`.
pub fn pr_bridge_info(session_id: &str, output_directory: String) -> (r: PrBridgeInfo)
    ensures
        r.service@ == "aicut-template-bridge"@,
        r.protocol_version == PR_BRIDGE_PROTOCOL_VERSION,
        r.page@ == "create-template"@,
        r.session_id@ == session_id@,
        r.port == PR_BRIDGE_PORT,
        r.output_directory@ == output_directory@,
{
    PrBridgeInfo {
        service: "aicut-template-bridge".to_string(),
        protocol_version: PR_BRIDGE_PROTOCOL_VERSION,
        page: "create-template".to_string(),
        session_id: session_id.to_string(),
        port: PR_BRIDGE_PORT,
        output_directory,
    }
}

/// `\r\n\r\n` starts at `i` of `b`.
pub open spec fn blank_line_at(b: Seq<u8>, i: int) -> bool {
    0 <= i && i + 4 <= b.len() && b[i] == 13 && b[i + 1] == 10 && b[i + 2] == 13 && b[i + 3] == 10
}

/// The first position at or after `from` where `\r\n\r\n` starts.
pub open spec fn first_blank_line(b: Seq<u8>, from: int) -> Option<int>
    decreases b.len() - from,
{
    if from < 0 || from + 4 > b.len() {
        None
    } else if blank_line_at(b, from) {
        Some(from)
    } else {
        first_blank_line(b, from + 1)
    }
}

/// Where the header of an HTTP request in `buffer` ends: the first position of
/// `\r\n\r\n`.
pub fn http_header_end(buffer: &[u8]) -> (r: Option<usize>)
    ensures
        crate::text::opt_int(r) == first_blank_line(buffer@, 0),
        match r {
            Some(i) => blank_line_at(buffer@, i as int) && forall|j: int|
                0 <= j < i ==> !blank_line_at(buffer@, j),
            None => forall|j: int| !blank_line_at(buffer@, j),
        },
{
    let n = buffer.len();
    let mut i: usize = 0;
    while n - i >= 4
        invariant
            i <= n,
            n == buffer@.len(),
            forall|j: int| 0 <= j < i ==> !blank_line_at(buffer@, j),
            first_blank_line(buffer@, 0) == first_blank_line(buffer@, i as int),
        decreases n - i,
    {
        if buffer[i] == 13 && buffer[i + 1] == 10 && buffer[i + 2] == 13 && buffer[i + 3] == 10 {
            return Some(i);
        }
        i += 1;
    }
    None
}

// ---------------------------------------------------------------------------
// Downloads
// ---------------------------------------------------------------------------

/// An error when the download was cancelled.
pub fn ensure_not_cancelled(cancelled: bool) -> (r: Result<(), String>)
    ensures
        r is Ok <==> !cancelled,
        r matches Err(m) ==> m@ == "Download canceled"@,
{
    if cancelled {
        Err("Download canceled".to_string())
    } else {
        Ok(())
    }
}

/// A `Content-Range` header: the first and last byte and the total, each when
/// given.
#[derive(Debug, PartialEq, Eq)]
pub struct ParsedContentRange {
    pub start: Option<u64>,
    pub end: Option<u64>,
    pub total: Option<u64>,
}

/// The position of the first `c` in `s`, if any.
pub open spec fn find(s: Seq<char>, c: char) -> Option<int> {
    first_match(s, seq![c], 0)
}

/// A parsed `Content-Range` value: `bytes ` then a range and `/` and a total.
/// The total is `None` when `*` or not a number; the range is `*` (start and end
/// `None`) or `start-end`, both numbers.  `None` when the value does not have
/// this shape.
pub open spec fn content_range(value: Seq<char>) -> Option<(Option<u64>, Option<u64>, Option<u64>)> {
    let v = trim(value);
    if !matches_at(v, "bytes "@, 0) {
        None
    } else {
        let rt = v.skip(6);
        match find(rt, '/') {
            None => None,
            Some(i) => {
                let range = rt.take(i);
                let total_text = rt.skip(i + 1);
                let total = if total_text == seq!['*'] {
                    None
                } else {
                    parse_u64_spec(total_text)
                };
                if range == seq!['*'] {
                    Some((None, None, total))
                } else {
                    match find(range, '-') {
                        None => None,
                        Some(j) => match (
                            parse_u64_spec(range.take(j)),
                            parse_u64_spec(range.skip(j + 1)),
                        ) {
                            (Some(a), Some(b)) => Some((Some(a), Some(b), total)),
                            _ => None,
                        },
                    }
                }
            },
        }
    }
}

fn is_star(s: &[char], lo: usize, hi: usize) -> (r: bool)
    requires
        lo <= hi <= s@.len(),
    ensures
        r == (s@.subrange(lo as int, hi as int) == seq!['*']),
{
    let r = hi - lo == 1 && s[lo] == '*';
    proof {
        if r {
            assert(s@.subrange(lo as int, hi as int) =~= seq!['*']);
        }
        if s@.subrange(lo as int, hi as int) == seq!['*'] {
            assert(s@.subrange(lo as int, hi as int).len() == seq!['*'].len());
            assert(hi - lo == 1);
            assert(s@.subrange(lo as int, hi as int)[0] == seq!['*'][0]);
            assert(s@.subrange(lo as int, hi as int)[0] == s@[lo as int]);
        }
    }
    r
}

/// The `Content-Range` header `value`, parsed (see `content_range`).
pub fn parse_content_range(value: &str) -> (r: Option<ParsedContentRange>)
    ensures
        match content_range(value@) {
            None => r is None,
            Some((a, b, t)) => r matches Some(p) && p.start == a && p.end == b && p.total == t,
        },
{
    let raw = chars_of(value);
    let (lo, hi) = trim_range(&raw, 0, raw.len());
    assert(raw@.subrange(0, raw@.len() as int) =~= raw@);
    let v = copy_range(&raw, lo, hi);
    let prefix = chars_of("bytes ");
    proof {
        reveal_strlit("bytes ");
    }
    if !matches_at_exec(&v, &prefix, 0) {
        return None;
    }
    let rt = copy_range(&v, 6, v.len());
    assert(rt@ =~= v@.skip(6));
    let slash = match find_char_from(&rt, '/', 0) {
        None => {
            return None;
        },
        Some(i) => i,
    };
    proof {
        lemma_first_match(rt@, seq!['/'], 0);
    }
    assert(rt@.subrange(0, slash as int) =~= rt@.take(slash as int));
    assert(rt@.subrange(slash + 1, rt@.len() as int) =~= rt@.skip(slash + 1));
    let total = if is_star(&rt, slash + 1, rt.len()) {
        None
    } else {
        parse_u64(&rt, slash + 1, rt.len())
    };
    if is_star(&rt, 0, slash) {
        return Some(ParsedContentRange { start: None, end: None, total });
    }
    let range = copy_range(&rt, 0, slash);
    let dash = match find_char_from(&range, '-', 0) {
        None => {
            return None;
        },
        Some(j) => j,
    };
    proof {
        lemma_first_match(range@, seq!['-'], 0);
    }
    assert(range@.subrange(0, dash as int) =~= range@.take(dash as int));
    assert(range@.subrange(dash + 1, range@.len() as int) =~= range@.skip(dash + 1));
    match (parse_u64(&range, 0, dash), parse_u64(&range, dash + 1, range.len())) {
        (Some(a), Some(b)) => Some(ParsedContentRange { start: Some(a), end: Some(b), total }),
        _ => None,
    }
}

/// Whether a partial download must be discarded before resuming: when a
/// downloaded or partial file exists but the saved metadata is missing or
/// belongs to another template version.
pub fn validate_partial_download_version(
    has_download_file: bool,
    metadata_version: Option<&str>,
    template_version: &str,
) -> (r: bool)
    ensures
        r == (has_download_file && !(metadata_version matches Some(v) && v@ == template_version@)),
{
    let matches = match metadata_version {
        Some(v) => crate::edit::chars_eq(&chars_of(v), &chars_of(template_version)),
        None => false,
    };
    has_download_file && !matches
}

// ---------------------------------------------------------------------------
// Composer
// ---------------------------------------------------------------------------

/// The message for a composer return code.
pub open spec fn composer_message(code: i32) -> Seq<char> {
    if code == 0 {
        "合成成功"@
    } else if code == -1 {
        "XML 文件无效"@
    } else if code == -2 {
        "文件未找到"@
    } else if code == -3 {
        "MLT 初始化失败"@
    } else if code == -4 {
        "视频合成失败"@
    } else if code == -5 {
        "合成已取消"@
    } else {
        "Composer 调用失败，错误码 "@ + decimal_i64(code as int)
    }
}

/// The message for the composer return code `code`.
pub fn composer_error_message(code: i32) -> (r: String)
    ensures
        r@ == composer_message(code),
{
    match code {
        0 => "合成成功".to_string(),
        -1 => "XML 文件无效".to_string(),
        -2 => "文件未找到".to_string(),
        -3 => "MLT 初始化失败".to_string(),
        -4 => "视频合成失败".to_string(),
        -5 => "合成已取消".to_string(),
        value => {
            let mut out: Vec<char> = Vec::new();
            push_str(&mut out, "Composer 调用失败，错误码 ");
            push_i32(&mut out, value);
            string_from_chars(out)
        },
    }
}

/// The status shown for a composer step.
pub open spec fn step_status(step: i32) -> Seq<char> {
    if step == 0 {
        "初始化"@
    } else if step == 1 {
        "预处理片段"@
    } else if step == 2 {
        "合成画中画"@
    } else if step == 3 {
        "合并转场"@
    } else if step == 4 {
        "构建最终视频"@
    } else if step == 5 {
        "添加字幕"@
    } else if step == 6 {
        "混流音频"@
    } else if step == 7 {
        "合成完成"@
    } else {
        "正在合成视频..."@
    }
}

/// The status shown for the composer step `step`.
pub fn composer_step_status(step: i32) -> (r: &'static str)
    ensures
        r@ == step_status(step),
{
    match step {
        0 => "初始化",
        1 => "预处理片段",
        2 => "合成画中画",
        3 => "合并转场",
        4 => "构建最终视频",
        5 => "添加字幕",
        6 => "混流音频",
        7 => "合成完成",
        _ => "正在合成视频...",
    }
}


// ---------------------------------------------------------------------------
// Menu labels
// ---------------------------------------------------------------------------

/// The language of the application menu.
#[derive(Clone, Copy, PartialEq, Eq, Structural)]
pub enum MacMenuLanguage {
    SimplifiedChinese,
    TraditionalChinese,
    English,
}

/// `p` starts `s` once the ASCII capitals of `s` are lowered.
pub open spec fn lower_prefix(s: Seq<char>, p: Seq<char>) -> bool {
    p.len() <= s.len() && crate::props::ascii_lower_eq(s.take(p.len() as int), p)
}

/// The menu language for the user's first preferred language: Traditional
/// Chinese for `zh-Hant`, `zh-TW`, `zh-HK` and `zh-MO`, Simplified Chinese for
/// other `zh`, English otherwise (ASCII case ignored).
pub open spec fn menu_language(primary: Seq<char>) -> MacMenuLanguage {
    if lower_prefix(primary, "zh-hant"@) || lower_prefix(primary, "zh-tw"@) || lower_prefix(
        primary,
        "zh-hk"@,
    ) || lower_prefix(primary, "zh-mo"@) {
        MacMenuLanguage::TraditionalChinese
    } else if lower_prefix(primary, "zh"@) {
        MacMenuLanguage::SimplifiedChinese
    } else {
        MacMenuLanguage::English
    }
}

pub(crate) fn lower_prefix_exec(s: &[char], p: &str) -> (r: bool)
    ensures
        r == lower_prefix(s@, p@),
{
    let pc = chars_of(p);
    if pc.len() > s.len() {
        return false;
    }
    let head = copy_range(s, 0, pc.len());
    assert(head@ =~= s@.take(pc@.len() as int));
    crate::props::ascii_lower_eq_exec(&head, &pc)
}

/// The menu language for the user's first preferred language
/// `primary_language` (see `menu_language`).
pub fn preferred_macos_menu_language(primary_language: &str) -> (r: MacMenuLanguage)
    ensures
        r == menu_language(primary_language@),
{
    let s = chars_of(primary_language);
    if lower_prefix_exec(&s, "zh-hant") || lower_prefix_exec(&s, "zh-tw") || lower_prefix_exec(
        &s,
        "zh-hk",
    ) || lower_prefix_exec(&s, "zh-mo") {
        MacMenuLanguage::TraditionalChinese
    } else if lower_prefix_exec(&s, "zh") {
        MacMenuLanguage::SimplifiedChinese
    } else {
        MacMenuLanguage::English
    }
}

/// The labels of the application menu in one language.
pub struct MacMenuLabels {
    pub about: &'static str,
    pub services: &'static str,
    pub hide: &'static str,
    pub hide_others: &'static str,
    pub quit: &'static str,
    pub file: &'static str,
    pub close_window: &'static str,
    pub edit: &'static str,
    pub undo: &'static str,
    pub redo: &'static str,
    pub cut: &'static str,
    pub copy: &'static str,
    pub paste: &'static str,
    pub select_all: &'static str,
    pub view: &'static str,
    pub fullscreen: &'static str,
    pub window: &'static str,
    pub minimize: &'static str,
    pub zoom: &'static str,
    pub help: &'static str,
}

/// The menu labels for Chinese menus; `None` for English, where the system's
/// own labels are used.
pub fn mac_menu_labels(language: MacMenuLanguage) -> (r: Option<MacMenuLabels>)
    ensures
        r is None <==> language == MacMenuLanguage::English,
        language == MacMenuLanguage::SimplifiedChinese ==> (r matches Some(l) && l.about@
            == "关于"@ && l.services@ == "服务"@ && l.hide@ == "隐藏"@ && l.hide_others@
            == "隐藏其他"@ && l.quit@ == "退出"@ && l.file@ == "文件"@ && l.close_window@
            == "关闭窗口"@ && l.edit@ == "编辑"@ && l.undo@ == "撤销"@ && l.redo@ == "重做"@
            && l.cut@ == "剪切"@ && l.copy@ == "拷贝"@ && l.paste@ == "粘贴"@ && l.select_all@
            == "全选"@ && l.view@ == "视图"@ && l.fullscreen@ == "进入全屏幕"@ && l.window@
            == "窗口"@ && l.minimize@ == "最小化"@ && l.zoom@ == "缩放"@ && l.help@ == "帮助"@),
        language == MacMenuLanguage::TraditionalChinese ==> (r matches Some(l) && l.about@
            == "關於"@ && l.services@ == "服務"@ && l.hide@ == "隱藏"@ && l.hide_others@
            == "隱藏其他"@ && l.quit@ == "結束"@ && l.file@ == "檔案"@ && l.close_window@
            == "關閉視窗"@ && l.edit@ == "編輯"@ && l.undo@ == "還原"@ && l.redo@ == "重做"@
            && l.cut@ == "剪下"@ && l.copy@ == "拷貝"@ && l.paste@ == "貼上"@ && l.select_all@
            == "全選"@ && l.view@ == "顯示方式"@ && l.fullscreen@ == "進入全螢幕"@ && l.window@
            == "視窗"@ && l.minimize@ == "縮到最小"@ && l.zoom@ == "縮放"@ && l.help@
            == "輔助說明"@),
{
    match language {
        MacMenuLanguage::SimplifiedChinese => Some(
            MacMenuLabels {
                about: "关于",
                services: "服务",
                hide: "隐藏",
                hide_others: "隐藏其他",
                quit: "退出",
                file: "文件",
                close_window: "关闭窗口",
                edit: "编辑",
                undo: "撤销",
                redo: "重做",
                cut: "剪切",
                copy: "拷贝",
                paste: "粘贴",
                select_all: "全选",
                view: "视图",
                fullscreen: "进入全屏幕",
                window: "窗口",
                minimize: "最小化",
                zoom: "缩放",
                help: "帮助",
            },
        ),
        MacMenuLanguage::TraditionalChinese => Some(
            MacMenuLabels {
                about: "關於",
                services: "服務",
                hide: "隱藏",
                hide_others: "隱藏其他",
                quit: "結束",
                file: "檔案",
                close_window: "關閉視窗",
                edit: "編輯",
                undo: "還原",
                redo: "重做",
                cut: "剪下",
                copy: "拷貝",
                paste: "貼上",
                select_all: "全選",
                view: "顯示方式",
                fullscreen: "進入全螢幕",
                window: "視窗",
                minimize: "縮到最小",
                zoom: "縮放",
                help: "輔助說明",
            },
        ),
        MacMenuLanguage::English => None,
    }
}

// ---------------------------------------------------------------------------
// Fingerprints
// ---------------------------------------------------------------------------

/// The SHA-256 digest of `data`.
pub uninterp spec fn sha256_digest(data: Seq<u8>) -> Seq<u8>;

/// SHA-256 of `data` with the `sha2` crate (`Sha256::digest`).  Claimed: the
/// digest is a function of the data, and it has 32 bytes.
#[verifier::external_body]
fn sha256(data: &[u8]) -> (r: Vec<u8>)
    ensures
        r@ == sha256_digest(data@),
        r@.len() == 32,
{
    sha2::Sha256::digest(data).to_vec()
}

/// The lowercase hexadecimal digit for `d < 16`.
pub open spec fn hex_digit_char(d: int) -> char {
    if d < 10 {
        ((d + 48) as u32) as char
    } else {
        ((d - 10 + 97) as u32) as char
    }
}

/// The lowercase hexadecimal text of `b`, two digits per byte.
pub open spec fn hex_lower(b: Seq<u8>) -> Seq<char>
    decreases b.len(),
{
    if b.len() == 0 {
        seq![]
    } else {
        hex_lower(b.drop_last()) + seq![hex_digit_char((b.last() / 16) as int), hex_digit_char((b.last() % 16) as int)]
    }
}

fn hex_digit_exec(d: u8) -> (c: char)
    requires
        d < 16,
    ensures
        c == hex_digit_char(d as int),
{
    let digits = ['0', '1', '2', '3', '4', '5', '6', '7', '8', '9', 'a', 'b', 'c', 'd', 'e', 'f'];
    let c = digits[d as usize];
    proof {
        assert(c == hex_digit_char(d as int)) by {
            if d == 0 { assert((48u32 as char) == '0'); }
            else if d == 1 { assert((49u32 as char) == '1'); }
            else if d == 2 { assert((50u32 as char) == '2'); }
            else if d == 3 { assert((51u32 as char) == '3'); }
            else if d == 4 { assert((52u32 as char) == '4'); }
            else if d == 5 { assert((53u32 as char) == '5'); }
            else if d == 6 { assert((54u32 as char) == '6'); }
            else if d == 7 { assert((55u32 as char) == '7'); }
            else if d == 8 { assert((56u32 as char) == '8'); }
            else if d == 9 { assert((57u32 as char) == '9'); }
            else if d == 10 { assert((97u32 as char) == 'a'); }
            else if d == 11 { assert((98u32 as char) == 'b'); }
            else if d == 12 { assert((99u32 as char) == 'c'); }
            else if d == 13 { assert((100u32 as char) == 'd'); }
            else if d == 14 { assert((101u32 as char) == 'e'); }
            else { assert((102u32 as char) == 'f'); }
        }
    }
    c
}

/// The fingerprint text of a digest: its first 16 bytes as 32 lowercase
/// hexadecimal digits.
pub fn digest_fingerprint(digest: &[u8]) -> (r: String)
    requires
        digest@.len() >= 16,
    ensures
        r@ == hex_lower(digest@.take(16)),
        r@.len() == 32,
{
    let mut out: Vec<char> = Vec::new();
    let mut i: usize = 0;
    while i < 16
        invariant
            i <= 16,
            digest@.len() >= 16,
            out@ == hex_lower(digest@.take(i as int)),
            out@.len() == 2 * i,
        decreases 16 - i,
    {
        let b = digest[i];
        out.push(hex_digit_exec(b / 16));
        out.push(hex_digit_exec(b % 16));
        assert(digest@.take(i + 1).drop_last() =~= digest@.take(i as int));
        assert(digest@.take(i + 1).last() == b);
        assert(out@ =~= hex_lower(digest@.take(i + 1)));
        i += 1;
    }
    string_from_chars(out)
}

/// A content fingerprint of `data`: the first 32 lowercase hexadecimal digits of
/// its SHA-256 digest.
pub fn sha256_fingerprint(data: &[u8]) -> (r: String)
    ensures
        r@ == hex_lower(sha256_digest(data@).take(16)),
        r@.len() == 32,
{
    let digest = sha256(data);
    digest_fingerprint(&digest)
}

/// A SHA-256 computation fed in chunks (`sha2::Sha256` behind `new`, `update`
/// and `finalize`).  What it holds that the contracts speak of is the sequence
/// of bytes fed so far, named `sha256_fed`.
#[verifier::external_body]
pub struct Sha256Stream {
    hasher: sha2::Sha256,
}

/// The bytes fed to the computation so far, in order.
pub uninterp spec fn sha256_fed(s: Sha256Stream) -> Seq<u8>;

impl Sha256Stream {
    /// `sha2::Sha256::new`: a computation fed nothing yet.
    #[verifier::external_body]
    pub fn new() -> (s: Self)
        ensures
            sha256_fed(s) == Seq::<u8>::empty(),
    {
        Sha256Stream { hasher: sha2::Sha256::new() }
    }

    /// `Digest::update`: feeds `chunk` after what was fed before.
    #[verifier::external_body]
    pub fn update(&mut self, chunk: &[u8])
        ensures
            sha256_fed(*final(self)) == sha256_fed(*old(self)) + chunk@,
    {
        self.hasher.update(chunk);
    }

    /// `Digest::finalize`: the SHA-256 digest of all the bytes fed, in order
    /// (the same digest `Digest::digest` gives for them at once), 32 bytes.
    #[verifier::external_body]
    pub fn finish(self) -> (r: Vec<u8>)
        ensures
            r@ == sha256_digest(sha256_fed(self)),
            r@.len() == 32,
    {
        self.hasher.finalize().to_vec()
    }
}

/// The content fingerprint (see `sha256_fingerprint`) of everything fed to `s`.
pub fn stream_fingerprint(s: Sha256Stream) -> (r: String)
    ensures
        r@ == hex_lower(sha256_digest(sha256_fed(s)).take(16)),
        r@.len() == 32,
{
    let digest = s.finish();
    digest_fingerprint(&digest)
}

} // verus!

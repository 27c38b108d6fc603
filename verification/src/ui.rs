use vstd::prelude::*;

use crate::text::{
    chars_equal, chars_of, decimal_chars, extend_chars, lower, spec_decimal, spec_digit_char, parse_unsigned, pieces, spec_char_lists, spec_lower,
    spec_parse_unsigned, spec_pieces, spec_trim, str_equal, string_from_chars, trim,
};

verus! {

broadcast use vstd::string::group_string_axioms;

/// How long a notice stays on screen, in nanoseconds.
pub const NOTICE_DISPLAY_NANOS: u128 = 5_000_000_000;

/// A message shown at the top of the window until it expires. Times are
/// nanoseconds on the caller's monotonic clock.
pub struct Notice {
    pub text: String,
    pub expires_at: u128,
}

impl Notice {
    /// A notice shown from `now` for the display duration.
    pub fn show(text: String, now: u128) -> (r: Notice)
        requires
            now + NOTICE_DISPLAY_NANOS <= u128::MAX,
        ensures
            r.text == text,
            r.expires_at == now + NOTICE_DISPLAY_NANOS,
    {
        Notice { text, expires_at: now + NOTICE_DISPLAY_NANOS }
    }

    /// Success is shown like any other notice.
    pub fn success(text: String, now: u128) -> (r: Notice)
        requires
            now + NOTICE_DISPLAY_NANOS <= u128::MAX,
        ensures
            r.text == text,
            r.expires_at == now + NOTICE_DISPLAY_NANOS,
    {
        Notice::show(text, now)
    }

    /// An error is shown like any other notice; its text carries the detail.
    pub fn error(text: String, now: u128) -> (r: Notice)
        requires
            now + NOTICE_DISPLAY_NANOS <= u128::MAX,
        ensures
            r.text == text,
            r.expires_at == now + NOTICE_DISPLAY_NANOS,
    {
        Notice::show(text, now)
    }

    /// The notice has expired once `now` reaches its expiry.
    pub fn expired(&self, now: u128) -> (r: bool)
        ensures
            r == (now >= self.expires_at),
    {
        now >= self.expires_at
    }
}

/// A number typed into a form field: the trimmed text parsed as a `u64`.
pub fn parse_u64(value: &str) -> (r: Option<u64>)
    ensures
        match spec_parse_unsigned(spec_trim(value@), u64::MAX as nat) {
            Some(v) => r == Some(v as u64),
            None => r is None,
        },
{
    let chars = chars_of(value);
    let t = trim(chars.as_slice());
    parse_unsigned(t.as_slice(), u64::MAX)
}

/// The values kept from trimmed list items, in order: the non-empty ones,
/// each only the first time it occurs, letter case aside.
pub open spec fn spec_list_values(items: Seq<Seq<char>>) -> Seq<Seq<char>>
    decreases items.len(),
{
    if items.len() == 0 {
        Seq::empty()
    } else {
        let before = spec_list_values(items.drop_last());
        let t = spec_trim(items.last());
        if t.len() > 0 && !before.map_values(|v: Seq<char>| spec_lower(v)).contains(spec_lower(t)) {
            before.push(t)
        } else {
            before
        }
    }
}

/// A comma-separated form field as the list it stands for.
pub fn string_list_value(value: &str) -> (r: Vec<String>)
    ensures
        r@.map_values(|s: String| s@) == spec_list_values(spec_pieces(value@, ',')),
{
    let chars = chars_of(value);
    let items = pieces(chars.as_slice(), ',');
    let ghost iv = spec_char_lists(items@);
    let mut out: Vec<String> = Vec::new();
    let mut lowered: Vec<Vec<char>> = Vec::new();
    let mut i: usize = 0;
    assert(out@.map_values(|s: String| s@) =~= Seq::<Seq<char>>::empty());
    while i < items.len()
        invariant
            i <= items@.len(),
            iv == spec_char_lists(items@),
            out@.map_values(|s: String| s@) == spec_list_values(iv.take(i as int)),
            spec_char_lists(lowered@) == spec_list_values(iv.take(i as int)).map_values(
                |v: Seq<char>| spec_lower(v),
            ),
        decreases items@.len() - i,
    {
        assert(iv.take(i + 1).drop_last() =~= iv.take(i as int));
        assert(iv.take(i + 1).last() == items@[i as int]@);
        let ghost before = spec_list_values(iv.take(i as int));
        let ghost lowers = before.map_values(|v: Seq<char>| spec_lower(v));
        let t = trim(items[i].as_slice());
        if t.len() > 0 {
            let key = lower(t.as_slice());
            let mut seen = false;
            let mut j: usize = 0;
            while j < lowered.len()
                invariant
                    j <= lowered@.len(),
                    spec_char_lists(lowered@) == lowers,
                    seen == (exists|k: int| 0 <= k < j && lowers[k] == key@),
                decreases lowered@.len() - j,
            {
                assert(lowers[j as int] == lowered@[j as int]@);
                if chars_equal(lowered[j].as_slice(), key.as_slice()) {
                    seen = true;
                }
                j += 1;
            }
            assert(seen == lowers.contains(spec_lower(t@)));
            if !seen {
                let ghost obefore = out@.map_values(|s: String| s@);
                let ghost lbefore = spec_char_lists(lowered@);
                out.push(string_from_chars(&t));
                lowered.push(key);
                assert(out@.map_values(|s: String| s@) =~= obefore.push(t@));
                assert(spec_char_lists(lowered@) =~= lbefore.push(spec_lower(t@)));
                assert(before.push(t@).map_values(|v: Seq<char>| spec_lower(v)) =~= lowers.push(
                    spec_lower(t@),
                ));
            }
        }
        i += 1;
    }
    assert(iv.take(iv.len() as int) =~= iv);
    out
}


/// A tag built from a prefix and an index: `prefix-index`.
pub open spec fn spec_tag_candidate(prefix: Seq<char>, index: nat) -> Seq<char> {
    prefix + "-"@ + spec_decimal(index)
}

proof fn lemma_decimal_shape(n: nat)
    ensures
        spec_decimal(n).len() >= 1,
        n >= 10 ==> spec_decimal(n).len() >= 2,
        spec_decimal(n).last() == spec_digit_char(n % 10),
    decreases n,
{
    if n >= 10 {
        lemma_decimal_shape(n / 10);
    }
}

proof fn lemma_decimal_injective(a: nat, b: nat)
    requires
        spec_decimal(a) == spec_decimal(b),
    ensures
        a == b,
    decreases a + b,
{
    lemma_decimal_shape(a);
    lemma_decimal_shape(b);
    let da = spec_decimal(a);
    assert(spec_digit_char(a % 10) == spec_digit_char(b % 10));
    assert(a % 10 == b % 10);
    if a >= 10 && b >= 10 {
        assert(da.drop_last() =~= spec_decimal(a / 10));
        assert(spec_decimal(b).drop_last() =~= spec_decimal(b / 10));
        lemma_decimal_injective(a / 10, b / 10);
        assert(a == 10 * (a / 10) + a % 10) by (nonlinear_arith);
        assert(b == 10 * (b / 10) + b % 10) by (nonlinear_arith);
    }
}

proof fn lemma_candidate_injective(prefix: Seq<char>, a: nat, b: nat)
    requires
        spec_tag_candidate(prefix, a) == spec_tag_candidate(prefix, b),
    ensures
        a == b,
{
    reveal_strlit("-");
    let k = prefix.len() + 1;
    let ca = spec_tag_candidate(prefix, a);
    let cb = spec_tag_candidate(prefix, b);
    assert(ca.subrange(k as int, ca.len() as int) =~= spec_decimal(a));
    assert(cb.subrange(k as int, cb.len() as int) =~= spec_decimal(b));
    lemma_decimal_injective(a, b);
}

/// Among the first `n + 1` candidates some tag is free when there are only
/// `n` tags.
proof fn lemma_some_candidate_free(prefix: Seq<char>, existing: Seq<Seq<char>>)
    requires
        forall|j: int| 1 <= j <= existing.len() ==> existing.contains(
            #[trigger] spec_tag_candidate(prefix, j as nat),
        ),
    ensures
        !existing.contains(spec_tag_candidate(prefix, (existing.len() + 1) as nat)),
{
    let n = existing.len();
    let f = |j: int| spec_tag_candidate(prefix, j as nat);
    let range = vstd::set_lib::set_int_range(1, n + 2 as int);
    if existing.contains(spec_tag_candidate(prefix, (n + 1) as nat)) {
        vstd::set_lib::lemma_int_range(1, n + 2 as int);
        assert(vstd::relations::injective_on(f, range)) by {
            assert forall|x: int, y: int|
                range.contains(x) && range.contains(y) && #[trigger] f(x) == #[trigger] f(y) implies x == y by {
                lemma_candidate_injective(prefix, x as nat, y as nat);
            }
        }
        vstd::set_lib::lemma_map_size(range, range.map(f), f);
        existing.lemma_cardinality_of_set();
        assert(range.map(f).subset_of(existing.to_set())) by {
            assert forall|t: Seq<char>| range.map(f).contains(t) implies existing.to_set().contains(t) by {
                let j = choose|j: int| range.contains(j) && f(j) == t;
                if j <= n {
                    assert(existing.contains(spec_tag_candidate(prefix, j as nat)));
                }
            }
        }
        vstd::set_lib::lemma_len_subset(range.map(f), existing.to_set());
    }
}

/// `i` is the first index from 1 on whose tag is not taken.
pub open spec fn spec_first_free(prefix: Seq<char>, existing: Seq<Seq<char>>, i: nat) -> bool {
    &&& i >= 1
    &&& !existing.contains(spec_tag_candidate(prefix, i))
    &&& forall|j: nat| 1 <= j < i ==> existing.contains(#[trigger] spec_tag_candidate(prefix, j))
}

/// The tag `unique_tag` gives.
pub open spec fn spec_unique_tag(prefix: Seq<char>, existing: Seq<Seq<char>>) -> Seq<char> {
    spec_tag_candidate(prefix, choose|i: nat| spec_first_free(prefix, existing, i))
}

proof fn lemma_first_free_unique(prefix: Seq<char>, existing: Seq<Seq<char>>, i: nat)
    requires
        spec_first_free(prefix, existing, i),
    ensures
        spec_unique_tag(prefix, existing) == spec_tag_candidate(prefix, i),
{
    let c = choose|c: nat| spec_first_free(prefix, existing, c);
    assert(spec_first_free(prefix, existing, c));
    if c < i {
        assert(existing.contains(spec_tag_candidate(prefix, c)));
    }
    if i < c {
        assert(existing.contains(spec_tag_candidate(prefix, i)));
    }
}

/// A tag for a new list entry: the prefix with the first index from 1 on
/// whose tag is not taken yet.
pub fn unique_tag(prefix: &str, existing: &Vec<String>) -> (r: String)
    requires
        existing@.len() < u32::MAX,
    ensures
        r@ == spec_unique_tag(prefix@, existing@.map_values(|s: String| s@)),
        exists|i: nat|
            i >= 1 && r@ == spec_tag_candidate(prefix@, i) && !existing@.map_values(
                |s: String| s@,
            ).contains(r@) && forall|j: nat|
                1 <= j < i ==> existing@.map_values(|s: String| s@).contains(
                    #[trigger] spec_tag_candidate(prefix@, j),
                ),
{
    let ghost views = existing@.map_values(|s: String| s@);
    let n = existing.len() as u64;
    let mut i: u64 = 1;
    while i <= n
        invariant
            1 <= i <= n + 1,
            n == existing@.len(),
            n < u32::MAX,
            views == existing@.map_values(|s: String| s@),
            forall|j: nat| 1 <= j < i ==> views.contains(#[trigger] spec_tag_candidate(prefix@, j)),
        decreases n + 1 - i,
    {
        let candidate = tag_candidate(prefix, i);
        let mut taken = false;
        let mut k: usize = 0;
        while k < existing.len()
            invariant
                k <= existing@.len(),
                views == existing@.map_values(|s: String| s@),
                taken == (exists|m: int| 0 <= m < k && views[m] == candidate@),
            decreases existing@.len() - k,
        {
            assert(views[k as int] == existing@[k as int]@);
            if str_equal(existing[k].as_str(), candidate.as_str()) {
                taken = true;
            }
            k += 1;
        }
        if !taken {
            assert forall|m: int| 0 <= m < views.len() implies views[m] != candidate@ by {}
            proof {
                lemma_first_free_unique(prefix@, views, i as nat);
            }
            return candidate;
        }
        i += 1;
    }
    proof {
        assert forall|j: int| 1 <= j <= views.len() implies views.contains(
            #[trigger] spec_tag_candidate(prefix@, j as nat),
        ) by {
            assert(views.contains(spec_tag_candidate(prefix@, j as nat)));
        }
        lemma_some_candidate_free(prefix@, views);
        lemma_first_free_unique(prefix@, views, (n + 1) as nat);
    }
    tag_candidate(prefix, n + 1)
}

fn tag_candidate(prefix: &str, index: u64) -> (r: String)
    ensures
        r@ == spec_tag_candidate(prefix@, index as nat),
{
    let mut out = chars_of(prefix);
    out.push('-');
    extend_chars(&mut out, decimal_chars(index).as_slice());
    proof {
        reveal_strlit("-");
    }
    assert(out@ =~= spec_tag_candidate(prefix@, index as nat));
    string_from_chars(&out)
}

/// The languages of the window.
#[derive(Debug, Clone, Copy, PartialEq, Eq, Structural)]
pub enum Language {
    Chinese,
    English,
}

/// The characters of an optional text.
pub open spec fn spec_opt_text(t: Option<&'static str>) -> Option<Seq<char>> {
    match t {
        Some(s) => Some(s@),
        None => None,
    }
}

/// Part 1 of the Chinese interface texts.
pub open spec fn spec_chinese_text_1(value: Seq<char>) -> Option<Seq<char>> {
    if value == "Overview"@ {
        Some("概览"@)
    } else if value == "Configuration"@ {
        Some("配置"@)
    } else if value == "Settings"@ {
        Some("设置"@)
    } else if value == "General"@ {
        Some("通用"@)
    } else if value == "Layers"@ {
        Some("层级"@)
    } else if value == "Rule sets"@ {
        Some("规则集"@)
    } else if value == "Rule set"@ {
        Some("规则集"@)
    } else if value == "JSON preview"@ {
        Some("JSON 预览"@)
    } else if value == "Adaptive DNS steering"@ {
        Some("自适应 DNS 调度"@)
    } else if value == "Navigation"@ {
        Some("导航"@)
    } else if value == "Saved"@ {
        Some("已保存"@)
    } else if value == "Valid draft"@ {
        Some("有效草稿"@)
    } else if value == "Valid draft, not saved"@ {
        Some("有效草稿，尚未保存"@)
    } else if value == "Valid and saved"@ {
        Some("有效且已保存"@)
    } else if value == "Needs attention"@ {
        Some("需要处理"@)
    } else {
        None
    }
}

fn chinese_text_1(value: &str) -> (r: Option<&'static str>)
    ensures
        spec_opt_text(r) == spec_chinese_text_1(value@),
{
    if str_equal(value, "Overview") {
        Some("概览")
    } else if str_equal(value, "Configuration") {
        Some("配置")
    } else if str_equal(value, "Settings") {
        Some("设置")
    } else if str_equal(value, "General") {
        Some("通用")
    } else if str_equal(value, "Layers") {
        Some("层级")
    } else if str_equal(value, "Rule sets") {
        Some("规则集")
    } else if str_equal(value, "Rule set") {
        Some("规则集")
    } else if str_equal(value, "JSON preview") {
        Some("JSON 预览")
    } else if str_equal(value, "Adaptive DNS steering") {
        Some("自适应 DNS 调度")
    } else if str_equal(value, "Navigation") {
        Some("导航")
    } else if str_equal(value, "Saved") {
        Some("已保存")
    } else if str_equal(value, "Valid draft") {
        Some("有效草稿")
    } else if str_equal(value, "Valid draft, not saved") {
        Some("有效草稿，尚未保存")
    } else if str_equal(value, "Valid and saved") {
        Some("有效且已保存")
    } else if str_equal(value, "Needs attention") {
        Some("需要处理")
    } else {
        None
    }
}

/// Part 2 of the Chinese interface texts.
pub open spec fn spec_chinese_text_2(value: Seq<char>) -> Option<Seq<char>> {
    if value == "Invalid"@ {
        Some("无效"@)
    } else if value == "Configuration loaded"@ {
        Some("配置已加载"@)
    } else if value == "Configuration saved"@ {
        Some("配置已保存"@)
    } else if value == "DNS listener"@ {
        Some("DNS 监听器"@)
    } else if value == "Runtime state"@ {
        Some("运行状态"@)
    } else if value == "Accepting TCP DNS"@ {
        Some("正在接收 TCP DNS"@)
    } else if value == "Not accepting TCP DNS"@ {
        Some("未接收 TCP DNS"@)
    } else if value == "Listener unavailable"@ {
        Some("监听器不可用"@)
    } else if value == "Checking listener"@ {
        Some("正在检查监听器"@)
    } else if value == "Checking service"@ {
        Some("正在检查服务"@)
    } else if value == "Not registered"@ {
        Some("未注册"@)
    } else if value == "Automatic (DHCP)"@ {
        Some("自动（DHCP）"@)
    } else if value == "not configured"@ {
        Some("未配置"@)
    } else if value == "Entry layer"@ {
        Some("入口层"@)
    } else if value == "Startup service"@ {
        Some("启动项"@)
    } else {
        None
    }
}

fn chinese_text_2(value: &str) -> (r: Option<&'static str>)
    ensures
        spec_opt_text(r) == spec_chinese_text_2(value@),
{
    if str_equal(value, "Invalid") {
        Some("无效")
    } else if str_equal(value, "Configuration loaded") {
        Some("配置已加载")
    } else if str_equal(value, "Configuration saved") {
        Some("配置已保存")
    } else if str_equal(value, "DNS listener") {
        Some("DNS 监听器")
    } else if str_equal(value, "Runtime state") {
        Some("运行状态")
    } else if str_equal(value, "Accepting TCP DNS") {
        Some("正在接收 TCP DNS")
    } else if str_equal(value, "Not accepting TCP DNS") {
        Some("未接收 TCP DNS")
    } else if str_equal(value, "Listener unavailable") {
        Some("监听器不可用")
    } else if str_equal(value, "Checking listener") {
        Some("正在检查监听器")
    } else if str_equal(value, "Checking service") {
        Some("正在检查服务")
    } else if str_equal(value, "Not registered") {
        Some("未注册")
    } else if str_equal(value, "Automatic (DHCP)") {
        Some("自动（DHCP）")
    } else if str_equal(value, "not configured") {
        Some("未配置")
    } else if str_equal(value, "Entry layer") {
        Some("入口层")
    } else if str_equal(value, "Startup service") {
        Some("启动项")
    } else {
        None
    }
}

/// Part 3 of the Chinese interface texts.
pub open spec fn spec_chinese_text_3(value: Seq<char>) -> Option<Seq<char>> {
    if value == "Open at login"@ {
        Some("登录时打开"@)
    } else if value == "Open at login enabled"@ {
        Some("已启用登录时打开"@)
    } else if value == "Open at login is disabled"@ {
        Some("未启用登录时打开"@)
    } else if value == "Legacy command-line service detected"@ {
        Some("检测到旧版命令行服务"@)
    } else if value == "Remove legacy command-line service"@ {
        Some("移除旧版命令行服务"@)
    } else if value == "No legacy EdgeSteer command-line service is registered"@ {
        Some("未注册旧版 EdgeSteer 命令行服务"@)
    } else if value == "Legacy EdgeSteer command-line service removed"@ {
        Some("已移除旧版 EdgeSteer 命令行服务"@)
    } else if value == "Configuration file"@ {
        Some("配置文件"@)
    } else if value == "Schema status"@ {
        Some("结构校验"@)
    } else if value == "The service and this control plane use the same fixed strict JSON document."@ {
        Some("服务与控制界面使用同一份固定的严格 JSON 配置。"@)
    } else if value == "Load"@ {
        Some("加载"@)
    } else if value == "Save configuration"@ {
        Some("保存配置"@)
    } else if value == "Resolver graph"@ {
        Some("解析图"@)
    } else if value == "Manage fallback layers, domain rules, and Cloudflare IP rewriting."@ {
        Some("管理回退层、域名规则和 Cloudflare IP 改写。"@)
    } else if value == "Refresh runtime"@ {
        Some("刷新运行状态"@)
    } else {
        None
    }
}

fn chinese_text_3(value: &str) -> (r: Option<&'static str>)
    ensures
        spec_opt_text(r) == spec_chinese_text_3(value@),
{
    if str_equal(value, "Open at login") {
        Some("登录时打开")
    } else if str_equal(value, "Open at login enabled") {
        Some("已启用登录时打开")
    } else if str_equal(value, "Open at login is disabled") {
        Some("未启用登录时打开")
    } else if str_equal(value, "Legacy command-line service detected") {
        Some("检测到旧版命令行服务")
    } else if str_equal(value, "Remove legacy command-line service") {
        Some("移除旧版命令行服务")
    } else if str_equal(value, "No legacy EdgeSteer command-line service is registered") {
        Some("未注册旧版 EdgeSteer 命令行服务")
    } else if str_equal(value, "Legacy EdgeSteer command-line service removed") {
        Some("已移除旧版 EdgeSteer 命令行服务")
    } else if str_equal(value, "Configuration file") {
        Some("配置文件")
    } else if str_equal(value, "Schema status") {
        Some("结构校验")
    } else if str_equal(value, "The service and this control plane use the same fixed strict JSON document.") {
        Some("服务与控制界面使用同一份固定的严格 JSON 配置。")
    } else if str_equal(value, "Load") {
        Some("加载")
    } else if str_equal(value, "Save configuration") {
        Some("保存配置")
    } else if str_equal(value, "Resolver graph") {
        Some("解析图")
    } else if str_equal(value, "Manage fallback layers, domain rules, and Cloudflare IP rewriting.") {
        Some("管理回退层、域名规则和 Cloudflare IP 改写。")
    } else if str_equal(value, "Refresh runtime") {
        Some("刷新运行状态")
    } else {
        None
    }
}

/// Part 4 of the Chinese interface texts.
pub open spec fn spec_chinese_text_4(value: Seq<char>) -> Option<Seq<char>> {
    if value == "Select a layer"@ {
        Some("选择层级"@)
    } else if value == "Resolver health, configuration state, and host integration at a glance."@ {
        Some("集中查看解析器健康状态、配置状态和主机集成。"@)
    } else if value == "Online"@ {
        Some("在线"@)
    } else if value == "Offline"@ {
        Some("离线"@)
    } else if value == "Edit the resolver graph as a draft. Saving uses the DNS service schema without a translation layer."@ {
        Some("以草稿方式编辑解析图。保存时直接使用 DNS 服务的原始配置结构。"@)
    } else if value == "Listener"@ {
        Some("监听器"@)
    } else if value == "The local address that accepts UDP and TCP DNS requests."@ {
        Some("接收 UDP 和 TCP DNS 请求的本地地址。"@)
    } else if value == "Allow remote resolver clients"@ {
        Some("允许远程解析客户端"@)
    } else if value == "Routing"@ {
        Some("路由"@)
    } else if value == "The entry layer starts the configured fallback graph."@ {
        Some("入口层启动已配置的回退图。"@)
    } else if value == "Default entry layer"@ {
        Some("默认入口层"@)
    } else if value == "Whole request timeout (ms)"@ {
        Some("整次请求超时（毫秒）"@)
    } else if value == "Cloudflare range data"@ {
        Some("Cloudflare 网段数据"@)
    } else if value == "Official Cloudflare network ranges used to validate rewriting candidates."@ {
        Some("用于校验改写候选的 Cloudflare 官方网络范围。"@)
    } else if value == "Listener address and remote access changes require a service restart after saving."@ {
        Some("修改监听地址或远程访问后，保存配置还需要重启服务。"@)
    } else {
        None
    }
}

fn chinese_text_4(value: &str) -> (r: Option<&'static str>)
    ensures
        spec_opt_text(r) == spec_chinese_text_4(value@),
{
    if str_equal(value, "Select a layer") {
        Some("选择层级")
    } else if str_equal(value, "Resolver health, configuration state, and host integration at a glance.") {
        Some("集中查看解析器健康状态、配置状态和主机集成。")
    } else if str_equal(value, "Online") {
        Some("在线")
    } else if str_equal(value, "Offline") {
        Some("离线")
    } else if str_equal(value, "Edit the resolver graph as a draft. Saving uses the DNS service schema without a translation layer.") {
        Some("以草稿方式编辑解析图。保存时直接使用 DNS 服务的原始配置结构。")
    } else if str_equal(value, "Listener") {
        Some("监听器")
    } else if str_equal(value, "The local address that accepts UDP and TCP DNS requests.") {
        Some("接收 UDP 和 TCP DNS 请求的本地地址。")
    } else if str_equal(value, "Allow remote resolver clients") {
        Some("允许远程解析客户端")
    } else if str_equal(value, "Routing") {
        Some("路由")
    } else if str_equal(value, "The entry layer starts the configured fallback graph.") {
        Some("入口层启动已配置的回退图。")
    } else if str_equal(value, "Default entry layer") {
        Some("默认入口层")
    } else if str_equal(value, "Whole request timeout (ms)") {
        Some("整次请求超时（毫秒）")
    } else if str_equal(value, "Cloudflare range data") {
        Some("Cloudflare 网段数据")
    } else if str_equal(value, "Official Cloudflare network ranges used to validate rewriting candidates.") {
        Some("用于校验改写候选的 Cloudflare 官方网络范围。")
    } else if str_equal(value, "Listener address and remote access changes require a service restart after saving.") {
        Some("修改监听地址或远程访问后，保存配置还需要重启服务。")
    } else {
        None
    }
}

/// Part 5 of the Chinese interface texts.
pub open spec fn spec_chinese_text_5(value: Seq<char>) -> Option<Seq<char>> {
    if value == "Resolver layers"@ {
        Some("解析层"@)
    } else if value == "Layer"@ {
        Some("层"@)
    } else if value == "Order determines matching priority."@ {
        Some("顺序决定匹配优先级。"@)
    } else if value == "Add layer"@ {
        Some("添加层"@)
    } else if value == "Layer type"@ {
        Some("层类型"@)
    } else if value == "Select a resolver layer to edit it."@ {
        Some("选择一个解析层进行编辑。"@)
    } else if value == "The selected resolver layer is unavailable."@ {
        Some("所选解析层不可用。"@)
    } else if value == "Resolver behavior, fallback, and domain targeting for this layer."@ {
        Some("配置该层的解析行为、回退关系和域名匹配。"@)
    } else if value == "Fallback layer tag"@ {
        Some("回退层标识"@)
    } else if value == "Bootstrap address"@ {
        Some("引导地址"@)
    } else if value == "Plugin tag"@ {
        Some("插件标识"@)
    } else if value == "TLS server name"@ {
        Some("TLS 服务器名称"@)
    } else if value == "System DNS refresh (seconds)"@ {
        Some("系统 DNS 刷新间隔（秒）"@)
    } else if value == "Move up"@ {
        Some("上移"@)
    } else if value == "Move down"@ {
        Some("下移"@)
    } else {
        None
    }
}

fn chinese_text_5(value: &str) -> (r: Option<&'static str>)
    ensures
        spec_opt_text(r) == spec_chinese_text_5(value@),
{
    if str_equal(value, "Resolver layers") {
        Some("解析层")
    } else if str_equal(value, "Layer") {
        Some("层")
    } else if str_equal(value, "Order determines matching priority.") {
        Some("顺序决定匹配优先级。")
    } else if str_equal(value, "Add layer") {
        Some("添加层")
    } else if str_equal(value, "Layer type") {
        Some("层类型")
    } else if str_equal(value, "Select a resolver layer to edit it.") {
        Some("选择一个解析层进行编辑。")
    } else if str_equal(value, "The selected resolver layer is unavailable.") {
        Some("所选解析层不可用。")
    } else if str_equal(value, "Resolver behavior, fallback, and domain targeting for this layer.") {
        Some("配置该层的解析行为、回退关系和域名匹配。")
    } else if str_equal(value, "Fallback layer tag") {
        Some("回退层标识")
    } else if str_equal(value, "Bootstrap address") {
        Some("引导地址")
    } else if str_equal(value, "Plugin tag") {
        Some("插件标识")
    } else if str_equal(value, "TLS server name") {
        Some("TLS 服务器名称")
    } else if str_equal(value, "System DNS refresh (seconds)") {
        Some("系统 DNS 刷新间隔（秒）")
    } else if str_equal(value, "Move up") {
        Some("上移")
    } else if str_equal(value, "Move down") {
        Some("下移")
    } else {
        None
    }
}

/// Part 6 of the Chinese interface texts.
pub open spec fn spec_chinese_text_6(value: Seq<char>) -> Option<Seq<char>> {
    if value == "Domain match"@ {
        Some("域名匹配"@)
    } else if value == "Use keywords or loaded SRS rule sets to select this layer before the default entry."@ {
        Some("在默认入口之前，使用关键字或已加载的 SRS 规则集选择该层。"@)
    } else if value == "Match mode"@ {
        Some("匹配方式"@)
    } else if value == "Remove layer"@ {
        Some("删除层"@)
    } else if value == "Domain classifications loaded from SRS sources."@ {
        Some("从 SRS 来源加载的域名分类。"@)
    } else if value == "Add rule set"@ {
        Some("添加规则集"@)
    } else if value == "Source type"@ {
        Some("来源类型"@)
    } else if value == "Select a rule set to edit it."@ {
        Some("选择一个规则集进行编辑。"@)
    } else if value == "The selected rule set is unavailable."@ {
        Some("所选规则集不可用。"@)
    } else if value == "A remote or local SRS source used by resolver-layer domain matching."@ {
        Some("供解析层域名匹配使用的远程或本地 SRS 来源。"@)
    } else if value == "Download timeout (ms)"@ {
        Some("下载超时（毫秒）"@)
    } else if value == "Local SRS path"@ {
        Some("本地 SRS 路径"@)
    } else if value == "Remove rule set"@ {
        Some("删除规则集"@)
    } else if value == "Cloudflare plugins"@ {
        Some("Cloudflare 插件"@)
    } else if value == "CF plugins"@ {
        Some("CF 插件"@)
    } else {
        None
    }
}

fn chinese_text_6(value: &str) -> (r: Option<&'static str>)
    ensures
        spec_opt_text(r) == spec_chinese_text_6(value@),
{
    if str_equal(value, "Domain match") {
        Some("域名匹配")
    } else if str_equal(value, "Use keywords or loaded SRS rule sets to select this layer before the default entry.") {
        Some("在默认入口之前，使用关键字或已加载的 SRS 规则集选择该层。")
    } else if str_equal(value, "Match mode") {
        Some("匹配方式")
    } else if str_equal(value, "Remove layer") {
        Some("删除层")
    } else if str_equal(value, "Domain classifications loaded from SRS sources.") {
        Some("从 SRS 来源加载的域名分类。")
    } else if str_equal(value, "Add rule set") {
        Some("添加规则集")
    } else if str_equal(value, "Source type") {
        Some("来源类型")
    } else if str_equal(value, "Select a rule set to edit it.") {
        Some("选择一个规则集进行编辑。")
    } else if str_equal(value, "The selected rule set is unavailable.") {
        Some("所选规则集不可用。")
    } else if str_equal(value, "A remote or local SRS source used by resolver-layer domain matching.") {
        Some("供解析层域名匹配使用的远程或本地 SRS 来源。")
    } else if str_equal(value, "Download timeout (ms)") {
        Some("下载超时（毫秒）")
    } else if str_equal(value, "Local SRS path") {
        Some("本地 SRS 路径")
    } else if str_equal(value, "Remove rule set") {
        Some("删除规则集")
    } else if str_equal(value, "Cloudflare plugins") {
        Some("Cloudflare 插件")
    } else if str_equal(value, "CF plugins") {
        Some("CF 插件")
    } else {
        None
    }
}

/// Part 7 of the Chinese interface texts.
pub open spec fn spec_chinese_text_7(value: Seq<char>) -> Option<Seq<char>> {
    if value == "Plugin"@ {
        Some("插件"@)
    } else if value == "Validated response rewriting and scheduled edge probing."@ {
        Some("已验证的响应改写和定时边缘探测。"@)
    } else if value == "Cloudflare preferred"@ {
        Some("Cloudflare 优选"@)
    } else if value == "Add Cloudflare preferred plugin"@ {
        Some("添加 Cloudflare 优选插件"@)
    } else if value == "Select a Cloudflare preferred plugin to edit it."@ {
        Some("选择一个 Cloudflare 优选插件进行编辑。"@)
    } else if value == "The selected plugin is unavailable."@ {
        Some("所选插件不可用。"@)
    } else if value == "Rewrites confirmed Cloudflare responses with a compatible preferred edge address."@ {
        Some("将已确认的 Cloudflare 响应改写为兼容的优选边缘地址。"@)
    } else if value == "Response rewrite"@ {
        Some("响应改写"@)
    } else if value == "Edge optimizer"@ {
        Some("边缘优选器"@)
    } else if value == "Probe Cloudflare candidates on a schedule and retain stable compatible results."@ {
        Some("定时探测 Cloudflare 候选地址，并保留稳定的兼容结果。"@)
    } else if value == "Enable scheduled probe"@ {
        Some("启用定时探测"@)
    } else if value == "Remove plugin"@ {
        Some("删除插件"@)
    } else if value == "Generated from the current form draft. Saving validates before replacing the active file."@ {
        Some("由当前表单草稿生成。保存前会先校验，再替换活动文件。"@)
    } else if value == "Schema valid"@ {
        Some("结构有效"@)
    } else if value == "Schema invalid"@ {
        Some("结构无效"@)
    } else {
        None
    }
}

fn chinese_text_7(value: &str) -> (r: Option<&'static str>)
    ensures
        spec_opt_text(r) == spec_chinese_text_7(value@),
{
    if str_equal(value, "Plugin") {
        Some("插件")
    } else if str_equal(value, "Validated response rewriting and scheduled edge probing.") {
        Some("已验证的响应改写和定时边缘探测。")
    } else if str_equal(value, "Cloudflare preferred") {
        Some("Cloudflare 优选")
    } else if str_equal(value, "Add Cloudflare preferred plugin") {
        Some("添加 Cloudflare 优选插件")
    } else if str_equal(value, "Select a Cloudflare preferred plugin to edit it.") {
        Some("选择一个 Cloudflare 优选插件进行编辑。")
    } else if str_equal(value, "The selected plugin is unavailable.") {
        Some("所选插件不可用。")
    } else if str_equal(value, "Rewrites confirmed Cloudflare responses with a compatible preferred edge address.") {
        Some("将已确认的 Cloudflare 响应改写为兼容的优选边缘地址。")
    } else if str_equal(value, "Response rewrite") {
        Some("响应改写")
    } else if str_equal(value, "Edge optimizer") {
        Some("边缘优选器")
    } else if str_equal(value, "Probe Cloudflare candidates on a schedule and retain stable compatible results.") {
        Some("定时探测 Cloudflare 候选地址，并保留稳定的兼容结果。")
    } else if str_equal(value, "Enable scheduled probe") {
        Some("启用定时探测")
    } else if str_equal(value, "Remove plugin") {
        Some("删除插件")
    } else if str_equal(value, "Generated from the current form draft. Saving validates before replacing the active file.") {
        Some("由当前表单草稿生成。保存前会先校验，再替换活动文件。")
    } else if str_equal(value, "Schema valid") {
        Some("结构有效")
    } else if str_equal(value, "Schema invalid") {
        Some("结构无效")
    } else {
        None
    }
}

/// Part 8 of the Chinese interface texts.
pub open spec fn spec_chinese_text_8(value: Seq<char>) -> Option<Seq<char>> {
    if value == "Refresh"@ {
        Some("刷新"@)
    } else if value == "Cancel"@ {
        Some("取消"@)
    } else if value == "Continue"@ {
        Some("继续"@)
    } else if value == "Confirm"@ {
        Some("确认"@)
    } else if value == "Configured listener"@ {
        Some("已配置监听器"@)
    } else if value == "Listener status"@ {
        Some("监听器状态"@)
    } else if value == "The login item opens this App. It never installs a separate command-line DNS service."@ {
        Some("登录项会打开此 App，不会安装独立的命令行 DNS 服务。"@)
    } else if value == "System DNS"@ {
        Some("系统 DNS"@)
    } else if value == "This app contains the DNS engine. It can open at login and restores its managed DNS before closing."@ {
        Some("DNS 引擎内置于此 App。它可在登录时打开，并会在关闭前恢复自己接管的 DNS。"@)
    } else if value == "DNS engine"@ {
        Some("DNS 引擎"@)
    } else if value == "Restart only after saving listener changes. The resolver stays managed by EdgeSteer.app."@ {
        Some("修改监听器后请先保存再重启。解析器始终由 EdgeSteer.app 管理。"@)
    } else if value == "Restart only after saving listener changes. The resolver is managed by the background EdgeSteer Agent."@ {
        Some("修改监听器后请先保存再重启。解析器由后台 EdgeSteer Agent 管理。"@)
    } else if value == "Applying the requested system change. macOS may be waiting for administrator authorization."@ {
        Some("正在应用系统变更。macOS 可能正在等待管理员授权。"@)
    } else if value == "Physical network services"@ {
        Some("物理网络服务"@)
    } else if value == "No macOS physical DNS services are available from this platform integration."@ {
        Some("此平台集成未发现可用的 macOS 物理 DNS 服务。"@)
    } else {
        None
    }
}

fn chinese_text_8(value: &str) -> (r: Option<&'static str>)
    ensures
        spec_opt_text(r) == spec_chinese_text_8(value@),
{
    if str_equal(value, "Refresh") {
        Some("刷新")
    } else if str_equal(value, "Cancel") {
        Some("取消")
    } else if str_equal(value, "Continue") {
        Some("继续")
    } else if str_equal(value, "Confirm") {
        Some("确认")
    } else if str_equal(value, "Configured listener") {
        Some("已配置监听器")
    } else if str_equal(value, "Listener status") {
        Some("监听器状态")
    } else if str_equal(value, "The login item opens this App. It never installs a separate command-line DNS service.") {
        Some("登录项会打开此 App，不会安装独立的命令行 DNS 服务。")
    } else if str_equal(value, "System DNS") {
        Some("系统 DNS")
    } else if str_equal(value, "This app contains the DNS engine. It can open at login and restores its managed DNS before closing.") {
        Some("DNS 引擎内置于此 App。它可在登录时打开，并会在关闭前恢复自己接管的 DNS。")
    } else if str_equal(value, "DNS engine") {
        Some("DNS 引擎")
    } else if str_equal(value, "Restart only after saving listener changes. The resolver stays managed by EdgeSteer.app.") {
        Some("修改监听器后请先保存再重启。解析器始终由 EdgeSteer.app 管理。")
    } else if str_equal(value, "Restart only after saving listener changes. The resolver is managed by the background EdgeSteer Agent.") {
        Some("修改监听器后请先保存再重启。解析器由后台 EdgeSteer Agent 管理。")
    } else if str_equal(value, "Applying the requested system change. macOS may be waiting for administrator authorization.") {
        Some("正在应用系统变更。macOS 可能正在等待管理员授权。")
    } else if str_equal(value, "Physical network services") {
        Some("物理网络服务")
    } else if str_equal(value, "No macOS physical DNS services are available from this platform integration.") {
        Some("此平台集成未发现可用的 macOS 物理 DNS 服务。")
    } else {
        None
    }
}

/// Part 9 of the Chinese interface texts.
pub open spec fn spec_chinese_text_9(value: Seq<char>) -> Option<Seq<char>> {
    if value == "The UI only changes enabled services that are already using automatic DNS or EdgeSteer loopback DNS."@ {
        Some("界面只会修改已启用且当前使用自动 DNS 或 EdgeSteer 回环 DNS 的服务。"@)
    } else if value == "Reading service and system DNS status..."@ {
        Some("正在读取服务和系统 DNS 状态..."@)
    } else if value == "Error"@ {
        Some("错误"@)
    } else if value == "Updated"@ {
        Some("已更新"@)
    } else if value == "Tag"@ {
        Some("标识"@)
    } else if value == "Address"@ {
        Some("地址"@)
    } else if value == "Timeout (ms)"@ {
        Some("超时（毫秒）"@)
    } else if value == "Refresh interval (seconds)"@ {
        Some("刷新间隔（秒）"@)
    } else if value == "Keywords (comma separated)"@ {
        Some("关键字（逗号分隔）"@)
    } else if value == "Rule set tags (comma separated)"@ {
        Some("规则集标识（逗号分隔）"@)
    } else if value == "Rewrite TTL (seconds)"@ {
        Some("改写 TTL（秒）"@)
    } else if value == "Preferred IPv4 (optional)"@ {
        Some("优选 IPv4（可选）"@)
    } else if value == "Preferred IPv6 (optional)"@ {
        Some("优选 IPv6（可选）"@)
    } else if value == "Probe interval (seconds)"@ {
        Some("探测间隔（秒）"@)
    } else if value == "Probe host"@ {
        Some("探测主机"@)
    } else {
        None
    }
}

fn chinese_text_9(value: &str) -> (r: Option<&'static str>)
    ensures
        spec_opt_text(r) == spec_chinese_text_9(value@),
{
    if str_equal(value, "The UI only changes enabled services that are already using automatic DNS or EdgeSteer loopback DNS.") {
        Some("界面只会修改已启用且当前使用自动 DNS 或 EdgeSteer 回环 DNS 的服务。")
    } else if str_equal(value, "Reading service and system DNS status...") {
        Some("正在读取服务和系统 DNS 状态...")
    } else if str_equal(value, "Error") {
        Some("错误")
    } else if str_equal(value, "Updated") {
        Some("已更新")
    } else if str_equal(value, "Tag") {
        Some("标识")
    } else if str_equal(value, "Address") {
        Some("地址")
    } else if str_equal(value, "Timeout (ms)") {
        Some("超时（毫秒）")
    } else if str_equal(value, "Refresh interval (seconds)") {
        Some("刷新间隔（秒）")
    } else if str_equal(value, "Keywords (comma separated)") {
        Some("关键字（逗号分隔）")
    } else if str_equal(value, "Rule set tags (comma separated)") {
        Some("规则集标识（逗号分隔）")
    } else if str_equal(value, "Rewrite TTL (seconds)") {
        Some("改写 TTL（秒）")
    } else if str_equal(value, "Preferred IPv4 (optional)") {
        Some("优选 IPv4（可选）")
    } else if str_equal(value, "Preferred IPv6 (optional)") {
        Some("优选 IPv6（可选）")
    } else if str_equal(value, "Probe interval (seconds)") {
        Some("探测间隔（秒）")
    } else if str_equal(value, "Probe host") {
        Some("探测主机")
    } else {
        None
    }
}

/// Part 10 of the Chinese interface texts.
pub open spec fn spec_chinese_text_10(value: Seq<char>) -> Option<Seq<char>> {
    if value == "Probe path"@ {
        Some("探测路径"@)
    } else if value == "Probe port"@ {
        Some("探测端口"@)
    } else if value == "Probe timeout (ms)"@ {
        Some("探测超时（毫秒）"@)
    } else if value == "Concurrency"@ {
        Some("并发数"@)
    } else if value == "Samples per CIDR"@ {
        Some("每个 CIDR 的样本数"@)
    } else if value == "Probes per candidate"@ {
        Some("每个候选的探测次数"@)
    } else if value == "Maximum candidates"@ {
        Some("最大候选数"@)
    } else if value == "Candidate IPs/CIDRs (comma separated)"@ {
        Some("候选 IP/CIDR（逗号分隔）"@)
    } else if value == "Compatibility hosts (comma separated)"@ {
        Some("兼容性验证主机（逗号分隔）"@)
    } else if value == "Excluded candidate IPs/CIDRs (comma separated)"@ {
        Some("排除的候选 IP/CIDR（逗号分隔）"@)
    } else if value == "Dynamic local DNS"@ {
        Some("动态本地 DNS"@)
    } else if value == "Interceptor"@ {
        Some("拦截器"@)
    } else if value == "Full DNS label"@ {
        Some("完整 DNS 标签"@)
    } else if value == "Literal substring"@ {
        Some("字面子串"@)
    } else if value == "Remote SRS"@ {
        Some("远程 SRS"@)
    } else {
        None
    }
}

fn chinese_text_10(value: &str) -> (r: Option<&'static str>)
    ensures
        spec_opt_text(r) == spec_chinese_text_10(value@),
{
    if str_equal(value, "Probe path") {
        Some("探测路径")
    } else if str_equal(value, "Probe port") {
        Some("探测端口")
    } else if str_equal(value, "Probe timeout (ms)") {
        Some("探测超时（毫秒）")
    } else if str_equal(value, "Concurrency") {
        Some("并发数")
    } else if str_equal(value, "Samples per CIDR") {
        Some("每个 CIDR 的样本数")
    } else if str_equal(value, "Probes per candidate") {
        Some("每个候选的探测次数")
    } else if str_equal(value, "Maximum candidates") {
        Some("最大候选数")
    } else if str_equal(value, "Candidate IPs/CIDRs (comma separated)") {
        Some("候选 IP/CIDR（逗号分隔）")
    } else if str_equal(value, "Compatibility hosts (comma separated)") {
        Some("兼容性验证主机（逗号分隔）")
    } else if str_equal(value, "Excluded candidate IPs/CIDRs (comma separated)") {
        Some("排除的候选 IP/CIDR（逗号分隔）")
    } else if str_equal(value, "Dynamic local DNS") {
        Some("动态本地 DNS")
    } else if str_equal(value, "Interceptor") {
        Some("拦截器")
    } else if str_equal(value, "Full DNS label") {
        Some("完整 DNS 标签")
    } else if str_equal(value, "Literal substring") {
        Some("字面子串")
    } else if str_equal(value, "Remote SRS") {
        Some("远程 SRS")
    } else {
        None
    }
}

/// Part 11 of the Chinese interface texts.
pub open spec fn spec_chinese_text_11(value: Seq<char>) -> Option<Seq<char>> {
    if value == "Local SRS"@ {
        Some("本地 SRS"@)
    } else if value == "Enable open at login"@ {
        Some("启用登录时打开"@)
    } else if value == "Disable open at login"@ {
        Some("关闭登录时打开"@)
    } else if value == "Start DNS engine"@ {
        Some("启动 DNS 引擎"@)
    } else if value == "Restart DNS engine"@ {
        Some("重启 DNS 引擎"@)
    } else if value == "Enable EdgeSteer DNS"@ {
        Some("启用 EdgeSteer DNS"@)
    } else if value == "Restore automatic DNS"@ {
        Some("恢复自动 DNS"@)
    } else if value == "Stop DNS engine"@ {
        Some("停止 DNS 引擎"@)
    } else if value == "DNS engine stopped"@ {
        Some("DNS 引擎已停止"@)
    } else if value == "This restores EdgeSteer-managed system DNS first, then stops the DNS engine."@ {
        Some("此操作会先恢复 EdgeSteer 接管的系统 DNS，再停止 DNS 引擎。"@)
    } else if value == "Open EdgeSteer"@ {
        Some("打开 EdgeSteer"@)
    } else if value == "Quit EdgeSteer"@ {
        Some("退出 EdgeSteer"@)
    } else if value == "Running"@ {
        Some("运行中"@)
    } else if value == "Stopped"@ {
        Some("已停止"@)
    } else if value == "DNS"@ {
        Some("DNS"@)
    } else {
        None
    }
}

fn chinese_text_11(value: &str) -> (r: Option<&'static str>)
    ensures
        spec_opt_text(r) == spec_chinese_text_11(value@),
{
    if str_equal(value, "Local SRS") {
        Some("本地 SRS")
    } else if str_equal(value, "Enable open at login") {
        Some("启用登录时打开")
    } else if str_equal(value, "Disable open at login") {
        Some("关闭登录时打开")
    } else if str_equal(value, "Start DNS engine") {
        Some("启动 DNS 引擎")
    } else if str_equal(value, "Restart DNS engine") {
        Some("重启 DNS 引擎")
    } else if str_equal(value, "Enable EdgeSteer DNS") {
        Some("启用 EdgeSteer DNS")
    } else if str_equal(value, "Restore automatic DNS") {
        Some("恢复自动 DNS")
    } else if str_equal(value, "Stop DNS engine") {
        Some("停止 DNS 引擎")
    } else if str_equal(value, "DNS engine stopped") {
        Some("DNS 引擎已停止")
    } else if str_equal(value, "This restores EdgeSteer-managed system DNS first, then stops the DNS engine.") {
        Some("此操作会先恢复 EdgeSteer 接管的系统 DNS，再停止 DNS 引擎。")
    } else if str_equal(value, "Open EdgeSteer") {
        Some("打开 EdgeSteer")
    } else if str_equal(value, "Quit EdgeSteer") {
        Some("退出 EdgeSteer")
    } else if str_equal(value, "Running") {
        Some("运行中")
    } else if str_equal(value, "Stopped") {
        Some("已停止")
    } else if str_equal(value, "DNS") {
        Some("DNS")
    } else {
        None
    }
}

/// Part 12 of the Chinese interface texts.
pub open spec fn spec_chinese_text_12(value: Seq<char>) -> Option<Seq<char>> {
    if value == "Language"@ {
        Some("语言"@)
    } else if value == "Appearance"@ {
        Some("外观"@)
    } else if value == "Application"@ {
        Some("应用"@)
    } else if value == "Close window to menu bar"@ {
        Some("关闭窗口时保留在菜单栏"@)
    } else if value == "Closing this window keeps the DNS engine running. Use Quit EdgeSteer from the menu bar when you need to stop it and restore managed system DNS."@ {
        Some("关闭窗口后 DNS 引擎仍会继续运行。需要停止并恢复已接管的系统 DNS 时，请在菜单栏中选择“退出 EdgeSteer”。"@)
    } else if value == "Closing this window releases the GUI while EdgeSteer keeps running in the menu bar. Use Quit EdgeSteer from the menu bar when you need to stop it and restore managed system DNS."@ {
        Some("关闭窗口会释放图形界面；EdgeSteer 会继续在菜单栏运行。需要停止并恢复已接管的系统 DNS 时，请在菜单栏中选择“退出 EdgeSteer”。"@)
    } else if value == "The menu bar is the primary control surface. This window is for configuration and detailed status."@ {
        Some("菜单栏是主要控制入口；此窗口用于配置与查看详细状态。"@)
    } else if value == "The DNS engine remains active after this window closes unless you explicitly quit EdgeSteer."@ {
        Some("除非明确退出 EdgeSteer，关闭此窗口后 DNS 引擎仍会继续运行。"@)
    } else if value == "System DNS is managed by EdgeSteer. It will be restored when you explicitly quit the app."@ {
        Some("系统 DNS 当前由 EdgeSteer 接管；明确退出 App 时会自动恢复。"@)
    } else if value == "The listener is eligible for system DNS."@ {
        Some("监听器符合系统 DNS 接管要求。"@)
    } else if value == "Exit EdgeSteer?"@ {
        Some("要退出 EdgeSteer 吗？"@)
    } else if value == "EdgeSteer restores the system DNS it manages, then stops the DNS engine. Existing DNS requests may be interrupted."@ {
        Some("EdgeSteer 会先恢复其接管的系统 DNS，再停止 DNS 引擎。正在进行的 DNS 请求可能会中断。"@)
    } else if value == "This opens the installed EdgeSteer app when you log in. It does not install a command-line DNS service."@ {
        Some("此操作会在登录时打开已安装的 EdgeSteer App，不会安装命令行 DNS 服务。"@)
    } else if value == "This starts the DNS engine managed by the App. macOS may ask for administrator authorization for port 53."@ {
        Some("此操作会启动由 App 管理的 DNS 引擎。监听 53 端口时，macOS 可能会请求管理员授权。"@)
    } else if value == "This removes EdgeSteer from your login startup items."@ {
        Some("此操作会从登录启动项中移除 EdgeSteer。"@)
    } else {
        None
    }
}

fn chinese_text_12(value: &str) -> (r: Option<&'static str>)
    ensures
        spec_opt_text(r) == spec_chinese_text_12(value@),
{
    if str_equal(value, "Language") {
        Some("语言")
    } else if str_equal(value, "Appearance") {
        Some("外观")
    } else if str_equal(value, "Application") {
        Some("应用")
    } else if str_equal(value, "Close window to menu bar") {
        Some("关闭窗口时保留在菜单栏")
    } else if str_equal(value, "Closing this window keeps the DNS engine running. Use Quit EdgeSteer from the menu bar when you need to stop it and restore managed system DNS.") {
        Some("关闭窗口后 DNS 引擎仍会继续运行。需要停止并恢复已接管的系统 DNS 时，请在菜单栏中选择“退出 EdgeSteer”。")
    } else if str_equal(value, "Closing this window releases the GUI while EdgeSteer keeps running in the menu bar. Use Quit EdgeSteer from the menu bar when you need to stop it and restore managed system DNS.") {
        Some("关闭窗口会释放图形界面；EdgeSteer 会继续在菜单栏运行。需要停止并恢复已接管的系统 DNS 时，请在菜单栏中选择“退出 EdgeSteer”。")
    } else if str_equal(value, "The menu bar is the primary control surface. This window is for configuration and detailed status.") {
        Some("菜单栏是主要控制入口；此窗口用于配置与查看详细状态。")
    } else if str_equal(value, "The DNS engine remains active after this window closes unless you explicitly quit EdgeSteer.") {
        Some("除非明确退出 EdgeSteer，关闭此窗口后 DNS 引擎仍会继续运行。")
    } else if str_equal(value, "System DNS is managed by EdgeSteer. It will be restored when you explicitly quit the app.") {
        Some("系统 DNS 当前由 EdgeSteer 接管；明确退出 App 时会自动恢复。")
    } else if str_equal(value, "The listener is eligible for system DNS.") {
        Some("监听器符合系统 DNS 接管要求。")
    } else if str_equal(value, "Exit EdgeSteer?") {
        Some("要退出 EdgeSteer 吗？")
    } else if str_equal(value, "EdgeSteer restores the system DNS it manages, then stops the DNS engine. Existing DNS requests may be interrupted.") {
        Some("EdgeSteer 会先恢复其接管的系统 DNS，再停止 DNS 引擎。正在进行的 DNS 请求可能会中断。")
    } else if str_equal(value, "This opens the installed EdgeSteer app when you log in. It does not install a command-line DNS service.") {
        Some("此操作会在登录时打开已安装的 EdgeSteer App，不会安装命令行 DNS 服务。")
    } else if str_equal(value, "This starts the DNS engine managed by the App. macOS may ask for administrator authorization for port 53.") {
        Some("此操作会启动由 App 管理的 DNS 引擎。监听 53 端口时，macOS 可能会请求管理员授权。")
    } else if str_equal(value, "This removes EdgeSteer from your login startup items.") {
        Some("此操作会从登录启动项中移除 EdgeSteer。")
    } else {
        None
    }
}

/// Part 13 of the Chinese interface texts.
pub open spec fn spec_chinese_text_13(value: Seq<char>) -> Option<Seq<char>> {
    if value == "This removes the pre-App root DNS daemon. macOS will ask for administrator authorization."@ {
        Some("此操作会移除 App 之前使用的 root DNS 守护进程。macOS 会请求管理员授权。"@)
    } else if value == "This restarts the DNS engine inside the current EdgeSteer app."@ {
        Some("此操作会重启当前 EdgeSteer App 内的 DNS 引擎。"@)
    } else if value == "disabled"@ {
        Some("已禁用"@)
    } else if value == "EdgeSteer loopback DNS"@ {
        Some("EdgeSteer 回环 DNS"@)
    } else if value == "Fix the configuration validation errors before changing the DNS engine or system DNS."@ {
        Some("请先修复配置校验错误，再修改 DNS 引擎或系统 DNS。"@)
    } else if value == "System registration controls are currently available on macOS only. The DNS service and configuration UI remain portable."@ {
        Some("系统注册控件目前仅在 macOS 可用；DNS 服务和配置界面仍可跨平台使用。"@)
    } else if value == "Fix the configuration validation errors before enabling system DNS."@ {
        Some("请先修复配置校验错误，再启用系统 DNS。"@)
    } else if value == "System DNS requires EdgeSteer to listen on a loopback address at port 53."@ {
        Some("系统 DNS 要求 EdgeSteer 在回环地址的 53 端口监听。"@)
    } else if value == "Keep EdgeSteer open until the configured loopback listener accepts TCP DNS."@ {
        Some("请保持 EdgeSteer 运行，直到已配置的回环监听器开始接收 TCP DNS。"@)
    } else if value == "The listener is eligible for system DNS. EdgeSteer restores its own DNS changes before it closes."@ {
        Some("监听器符合系统 DNS 要求。EdgeSteer 会在关闭前恢复自己修改的 DNS。"@)
    } else if value == "This saves the current configuration, installs the startup service, and starts EdgeSteer."@ {
        Some("这会保存当前配置、安装启动服务并启动 EdgeSteer。"@)
    } else if value == "This restarts the registered EdgeSteer startup service."@ {
        Some("这会重启已注册的 EdgeSteer 启动服务。"@)
    } else if value == "This stops and removes the EdgeSteer startup service. System DNS settings are left unchanged."@ {
        Some("这会停止并移除 EdgeSteer 启动服务，系统 DNS 设置保持不变。"@)
    } else if value == "This changes enabled physical network services to use the configured loopback DNS listener."@ {
        Some("这会让已启用的物理网络服务使用已配置的回环 DNS 监听器。"@)
    } else if value == "This removes EdgeSteer loopback DNS from enabled physical network services and returns them to automatic DNS."@ {
        Some("这会从已启用的物理网络服务中移除 EdgeSteer 回环 DNS，并恢复自动 DNS。"@)
    } else {
        None
    }
}

fn chinese_text_13(value: &str) -> (r: Option<&'static str>)
    ensures
        spec_opt_text(r) == spec_chinese_text_13(value@),
{
    if str_equal(value, "This removes the pre-App root DNS daemon. macOS will ask for administrator authorization.") {
        Some("此操作会移除 App 之前使用的 root DNS 守护进程。macOS 会请求管理员授权。")
    } else if str_equal(value, "This restarts the DNS engine inside the current EdgeSteer app.") {
        Some("此操作会重启当前 EdgeSteer App 内的 DNS 引擎。")
    } else if str_equal(value, "disabled") {
        Some("已禁用")
    } else if str_equal(value, "EdgeSteer loopback DNS") {
        Some("EdgeSteer 回环 DNS")
    } else if str_equal(value, "Fix the configuration validation errors before changing the DNS engine or system DNS.") {
        Some("请先修复配置校验错误，再修改 DNS 引擎或系统 DNS。")
    } else if str_equal(value, "System registration controls are currently available on macOS only. The DNS service and configuration UI remain portable.") {
        Some("系统注册控件目前仅在 macOS 可用；DNS 服务和配置界面仍可跨平台使用。")
    } else if str_equal(value, "Fix the configuration validation errors before enabling system DNS.") {
        Some("请先修复配置校验错误，再启用系统 DNS。")
    } else if str_equal(value, "System DNS requires EdgeSteer to listen on a loopback address at port 53.") {
        Some("系统 DNS 要求 EdgeSteer 在回环地址的 53 端口监听。")
    } else if str_equal(value, "Keep EdgeSteer open until the configured loopback listener accepts TCP DNS.") {
        Some("请保持 EdgeSteer 运行，直到已配置的回环监听器开始接收 TCP DNS。")
    } else if str_equal(value, "The listener is eligible for system DNS. EdgeSteer restores its own DNS changes before it closes.") {
        Some("监听器符合系统 DNS 要求。EdgeSteer 会在关闭前恢复自己修改的 DNS。")
    } else if str_equal(value, "This saves the current configuration, installs the startup service, and starts EdgeSteer.") {
        Some("这会保存当前配置、安装启动服务并启动 EdgeSteer。")
    } else if str_equal(value, "This restarts the registered EdgeSteer startup service.") {
        Some("这会重启已注册的 EdgeSteer 启动服务。")
    } else if str_equal(value, "This stops and removes the EdgeSteer startup service. System DNS settings are left unchanged.") {
        Some("这会停止并移除 EdgeSteer 启动服务，系统 DNS 设置保持不变。")
    } else if str_equal(value, "This changes enabled physical network services to use the configured loopback DNS listener.") {
        Some("这会让已启用的物理网络服务使用已配置的回环 DNS 监听器。")
    } else if str_equal(value, "This removes EdgeSteer loopback DNS from enabled physical network services and returns them to automatic DNS.") {
        Some("这会从已启用的物理网络服务中移除 EdgeSteer 回环 DNS，并恢复自动 DNS。")
    } else {
        None
    }
}

/// The Chinese text of an interface string, where the window has one.
pub open spec fn spec_chinese_text(value: Seq<char>) -> Option<Seq<char>> {
    if spec_chinese_text_1(value) is Some {
        spec_chinese_text_1(value)
    } else if spec_chinese_text_2(value) is Some {
        spec_chinese_text_2(value)
    } else if spec_chinese_text_3(value) is Some {
        spec_chinese_text_3(value)
    } else if spec_chinese_text_4(value) is Some {
        spec_chinese_text_4(value)
    } else if spec_chinese_text_5(value) is Some {
        spec_chinese_text_5(value)
    } else if spec_chinese_text_6(value) is Some {
        spec_chinese_text_6(value)
    } else if spec_chinese_text_7(value) is Some {
        spec_chinese_text_7(value)
    } else if spec_chinese_text_8(value) is Some {
        spec_chinese_text_8(value)
    } else if spec_chinese_text_9(value) is Some {
        spec_chinese_text_9(value)
    } else if spec_chinese_text_10(value) is Some {
        spec_chinese_text_10(value)
    } else if spec_chinese_text_11(value) is Some {
        spec_chinese_text_11(value)
    } else if spec_chinese_text_12(value) is Some {
        spec_chinese_text_12(value)
    } else if spec_chinese_text_13(value) is Some {
        spec_chinese_text_13(value)
    } else {
        None
    }
}

pub fn chinese_text(value: &str) -> (r: Option<&'static str>)
    ensures
        spec_opt_text(r) == spec_chinese_text(value@),
{
    let t = chinese_text_1(value);
    if t.is_some() {
        return t;
    }
    let t = chinese_text_2(value);
    if t.is_some() {
        return t;
    }
    let t = chinese_text_3(value);
    if t.is_some() {
        return t;
    }
    let t = chinese_text_4(value);
    if t.is_some() {
        return t;
    }
    let t = chinese_text_5(value);
    if t.is_some() {
        return t;
    }
    let t = chinese_text_6(value);
    if t.is_some() {
        return t;
    }
    let t = chinese_text_7(value);
    if t.is_some() {
        return t;
    }
    let t = chinese_text_8(value);
    if t.is_some() {
        return t;
    }
    let t = chinese_text_9(value);
    if t.is_some() {
        return t;
    }
    let t = chinese_text_10(value);
    if t.is_some() {
        return t;
    }
    let t = chinese_text_11(value);
    if t.is_some() {
        return t;
    }
    let t = chinese_text_12(value);
    if t.is_some() {
        return t;
    }
    let t = chinese_text_13(value);
    if t.is_some() {
        return t;
    }
    None
}

impl Language {
    /// An interface string in this language: as written in English, else
    /// its Chinese text where there is one (the English one where not).
    pub open spec fn spec_text(self, value: Seq<char>) -> Seq<char> {
        match self {
            Language::English => value,
            Language::Chinese => match spec_chinese_text(value) {
                Some(t) => t,
                None => value,
            },
        }
    }

    pub fn text(self, value: &'static str) -> (r: &'static str)
        ensures
            r@ == self.spec_text(value@),
    {
        match self {
            Language::English => value,
            Language::Chinese => match chinese_text(value) {
                Some(t) => t,
                None => value,
            },
        }
    }
}

impl Language {
    /// The languages offered, in menu order.
    pub open spec fn spec_all() -> Seq<Language> {
        seq![Language::Chinese, Language::English]
    }

    /// The name of the language, written in it.
    pub open spec fn spec_label(self) -> Seq<char> {
        match self {
            Language::Chinese => "简体中文"@,
            Language::English => "English"@,
        }
    }

    pub fn all() -> (r: Vec<Language>)
        ensures
            r@ == Language::spec_all(),
    {
        vec![Language::Chinese, Language::English]
    }

    pub fn label(self) -> (r: &'static str)
        ensures
            r@ == self.spec_label(),
    {
        match self {
            Language::Chinese => "简体中文",
            Language::English => "English",
        }
    }

    /// A text that is not a literal of the interface (a status or an error
    /// from elsewhere), translated where the table has it.
    pub fn translate<'a>(self, value: &'a str) -> (r: &'a str)
        ensures
            r@ == self.spec_text(value@),
    {
        match self {
            Language::English => value,
            Language::Chinese => match chinese_text(value) {
                Some(t) => t,
                None => value,
            },
        }
    }
}

/// The window's colour scheme.
#[derive(Debug, Clone, Copy, PartialEq, Eq, Structural)]
pub enum AppearanceMode {
    Dark,
    Light,
}

impl AppearanceMode {
    pub open spec fn spec_label(self, language: Language) -> Seq<char> {
        match (self, language) {
            (AppearanceMode::Dark, Language::Chinese) => "黑"@,
            (AppearanceMode::Light, Language::Chinese) => "白"@,
            (AppearanceMode::Dark, Language::English) => "Dark"@,
            (AppearanceMode::Light, Language::English) => "Light"@,
        }
    }

    pub fn label(self, language: Language) -> (r: &'static str)
        ensures
            r@ == self.spec_label(language),
    {
        match (self, language) {
            (AppearanceMode::Dark, Language::Chinese) => "黑",
            (AppearanceMode::Light, Language::Chinese) => "白",
            (AppearanceMode::Dark, Language::English) => "Dark",
            (AppearanceMode::Light, Language::English) => "Light",
        }
    }
}

/// A colour as its 8-bit red, green and blue channels.
#[derive(Debug, Clone, Copy, PartialEq, Eq, Structural)]
pub struct Rgb {
    pub r: u8,
    pub g: u8,
    pub b: u8,
}

/// The window's palette.
#[derive(Debug, Clone, Copy, PartialEq, Eq, Structural)]
pub struct UiColors {
    pub background: Rgb,
    pub surface: Rgb,
    pub recessed: Rgb,
    pub border: Rgb,
    pub border_heavy: Rgb,
    pub text: Rgb,
    pub muted: Rgb,
    pub quiet: Rgb,
    pub primary: Rgb,
    pub success: Rgb,
    pub warning: Rgb,
    pub danger: Rgb,
}

pub open spec fn rgb(r: u8, g: u8, b: u8) -> Rgb {
    Rgb { r, g, b }
}

impl AppearanceMode {
    /// The palette of each mode: near-black surfaces with light text, or
    /// near-white surfaces with dark text; the accents keep a soft
    /// companion tone to the product's Cloudflare orange.
    pub open spec fn spec_colors(self) -> UiColors {
        match self {
            AppearanceMode::Dark => UiColors {
                background: rgb(30, 30, 29),
                surface: rgb(39, 39, 37),
                recessed: rgb(34, 34, 32),
                border: rgb(59, 59, 56),
                border_heavy: rgb(84, 82, 78),
                text: rgb(241, 241, 238),
                muted: rgb(185, 184, 180),
                quiet: rgb(135, 134, 129),
                primary: rgb(190, 116, 78),
                success: rgb(181, 132, 104),
                warning: rgb(191, 151, 101),
                danger: rgb(194, 107, 96),
            },
            AppearanceMode::Light => UiColors {
                background: rgb(251, 251, 249),
                surface: rgb(255, 255, 254),
                recessed: rgb(247, 247, 244),
                border: rgb(231, 231, 226),
                border_heavy: rgb(211, 210, 204),
                text: rgb(42, 42, 40),
                muted: rgb(105, 105, 100),
                quiet: rgb(153, 153, 147),
                primary: rgb(227, 177, 150),
                success: rgb(166, 121, 97),
                warning: rgb(179, 143, 96),
                danger: rgb(181, 101, 90),
            },
        }
    }

    pub fn colors(self) -> (r: UiColors)
        ensures
            r == self.spec_colors(),
    {
        match self {
            AppearanceMode::Dark => UiColors {
                background: Rgb { r: 30, g: 30, b: 29 },
                surface: Rgb { r: 39, g: 39, b: 37 },
                recessed: Rgb { r: 34, g: 34, b: 32 },
                border: Rgb { r: 59, g: 59, b: 56 },
                border_heavy: Rgb { r: 84, g: 82, b: 78 },
                text: Rgb { r: 241, g: 241, b: 238 },
                muted: Rgb { r: 185, g: 184, b: 180 },
                quiet: Rgb { r: 135, g: 134, b: 129 },
                primary: Rgb { r: 190, g: 116, b: 78 },
                success: Rgb { r: 181, g: 132, b: 104 },
                warning: Rgb { r: 191, g: 151, b: 101 },
                danger: Rgb { r: 194, g: 107, b: 96 },
            },
            AppearanceMode::Light => UiColors {
                background: Rgb { r: 251, g: 251, b: 249 },
                surface: Rgb { r: 255, g: 255, b: 254 },
                recessed: Rgb { r: 247, g: 247, b: 244 },
                border: Rgb { r: 231, g: 231, b: 226 },
                border_heavy: Rgb { r: 211, g: 210, b: 204 },
                text: Rgb { r: 42, g: 42, b: 40 },
                muted: Rgb { r: 105, g: 105, b: 100 },
                quiet: Rgb { r: 153, g: 153, b: 147 },
                primary: Rgb { r: 227, g: 177, b: 150 },
                success: Rgb { r: 166, g: 121, b: 97 },
                warning: Rgb { r: 179, g: 143, b: 96 },
                danger: Rgb { r: 181, g: 101, b: 90 },
            },
        }
    }
}

/// What the window remembers between runs; it never touches the DNS
/// configuration.
#[derive(Debug, Clone, Copy, PartialEq, Eq, Structural)]
pub struct UiPreferences {
    pub language: Language,
    pub appearance: AppearanceMode,
    /// Closing the window leaves the menu-bar agent running.
    pub close_to_menu_bar: bool,
}

impl Default for UiPreferences {
    /// Chinese, dark, and the agent keeps running when the window closes.
    fn default() -> (r: UiPreferences)
        ensures
            r == (UiPreferences {
                language: Language::Chinese,
                appearance: AppearanceMode::Dark,
                close_to_menu_bar: true,
            }),
    {
        UiPreferences {
            language: Language::Chinese,
            appearance: AppearanceMode::Dark,
            close_to_menu_bar: true,
        }
    }
}

/// The pages of the window.
#[derive(Debug, Clone, Copy, PartialEq, Eq, Structural)]
pub enum Page {
    Overview,
    General,
    Layers,
    RuleSets,
    Cloudflare,
    Preview,
    Settings,
}

impl Page {
    /// The pages, in navigation order.
    pub open spec fn spec_all() -> Seq<Page> {
        seq![
            Page::Overview,
            Page::General,
            Page::Layers,
            Page::RuleSets,
            Page::Cloudflare,
            Page::Preview,
            Page::Settings,
        ]
    }

    /// The page's title in English.
    pub open spec fn spec_title(self) -> Seq<char> {
        match self {
            Page::Overview => "Overview"@,
            Page::General => "General"@,
            Page::Layers => "Layers"@,
            Page::RuleSets => "Rule sets"@,
            Page::Cloudflare => "Cloudflare"@,
            Page::Preview => "JSON preview"@,
            Page::Settings => "Settings"@,
        }
    }

    pub fn all() -> (r: Vec<Page>)
        ensures
            r@ == Page::spec_all(),
    {
        vec![
            Page::Overview,
            Page::General,
            Page::Layers,
            Page::RuleSets,
            Page::Cloudflare,
            Page::Preview,
            Page::Settings,
        ]
    }

    pub fn label(self, language: Language) -> (r: &'static str)
        ensures
            r@ == language.spec_text(self.spec_title()),
    {
        language.text(
            match self {
                Page::Overview => "Overview",
                Page::General => "General",
                Page::Layers => "Layers",
                Page::RuleSets => "Rule sets",
                Page::Cloudflare => "Cloudflare",
                Page::Preview => "JSON preview",
                Page::Settings => "Settings",
            },
        )
    }
}

/// An action on the engine or the system registration that the window asks
/// the user to confirm first.
#[derive(Debug, Clone, Copy, PartialEq, Eq, Structural)]
pub enum RegistrationAction {
    StartEngine,
    StopEngine,
    EnableAutoStart,
    DisableAutoStart,
    RemoveLegacyService,
    Restart,
    EnableSystemDns,
    DisableSystemDns,
}

impl RegistrationAction {
    /// The action's button text in English.
    pub open spec fn spec_title(self) -> Seq<char> {
        match self {
            RegistrationAction::StartEngine => "Start DNS engine"@,
            RegistrationAction::StopEngine => "Stop DNS engine"@,
            RegistrationAction::EnableAutoStart => "Enable open at login"@,
            RegistrationAction::DisableAutoStart => "Disable open at login"@,
            RegistrationAction::RemoveLegacyService => "Remove legacy command-line service"@,
            RegistrationAction::Restart => "Restart DNS engine"@,
            RegistrationAction::EnableSystemDns => "Enable EdgeSteer DNS"@,
            RegistrationAction::DisableSystemDns => "Restore automatic DNS"@,
        }
    }

    /// What the confirmation says the action does, in English.
    pub open spec fn spec_confirmation(self) -> Seq<char> {
        match self {
            RegistrationAction::StartEngine => "This starts the DNS engine managed by the App. macOS may ask for administrator authorization for port 53."@,
            RegistrationAction::StopEngine => "This restores EdgeSteer-managed system DNS first, then stops the DNS engine."@,
            RegistrationAction::EnableAutoStart => "This opens the installed EdgeSteer app when you log in. It does not install a command-line DNS service."@,
            RegistrationAction::DisableAutoStart => "This removes EdgeSteer from your login startup items."@,
            RegistrationAction::RemoveLegacyService => "This removes the pre-App root DNS daemon. macOS will ask for administrator authorization."@,
            RegistrationAction::Restart => "This restarts the DNS engine inside the current EdgeSteer app."@,
            RegistrationAction::EnableSystemDns => "This changes enabled physical network services to use the configured loopback DNS listener."@,
            RegistrationAction::DisableSystemDns => "This removes EdgeSteer loopback DNS from enabled physical network services and returns them to automatic DNS."@,
        }
    }

    pub fn label(self, language: Language) -> (r: &'static str)
        ensures
            r@ == language.spec_text(self.spec_title()),
    {
        language.text(
            match self {
                RegistrationAction::StartEngine => "Start DNS engine",
                RegistrationAction::StopEngine => "Stop DNS engine",
                RegistrationAction::EnableAutoStart => "Enable open at login",
                RegistrationAction::DisableAutoStart => "Disable open at login",
                RegistrationAction::RemoveLegacyService => "Remove legacy command-line service",
                RegistrationAction::Restart => "Restart DNS engine",
                RegistrationAction::EnableSystemDns => "Enable EdgeSteer DNS",
                RegistrationAction::DisableSystemDns => "Restore automatic DNS",
            },
        )
    }

    pub fn confirmation(self, language: Language) -> (r: &'static str)
        ensures
            r@ == language.spec_text(self.spec_confirmation()),
    {
        language.text(
            match self {
                RegistrationAction::StartEngine => "This starts the DNS engine managed by the App. macOS may ask for administrator authorization for port 53.",
                RegistrationAction::StopEngine => "This restores EdgeSteer-managed system DNS first, then stops the DNS engine.",
                RegistrationAction::EnableAutoStart => "This opens the installed EdgeSteer app when you log in. It does not install a command-line DNS service.",
                RegistrationAction::DisableAutoStart => "This removes EdgeSteer from your login startup items.",
                RegistrationAction::RemoveLegacyService => "This removes the pre-App root DNS daemon. macOS will ask for administrator authorization.",
                RegistrationAction::Restart => "This restarts the DNS engine inside the current EdgeSteer app.",
                RegistrationAction::EnableSystemDns => "This changes enabled physical network services to use the configured loopback DNS listener.",
                RegistrationAction::DisableSystemDns => "This removes EdgeSteer loopback DNS from enabled physical network services and returns them to automatic DNS.",
            },
        )
    }
}

} // verus!

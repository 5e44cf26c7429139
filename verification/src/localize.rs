//! Localised user-facing messages.
//!
//! Every message exists in English and in Chinese; the language is chosen once,
//! from the system locale, and then passed to each message function.

use vstd::prelude::*;

use crate::text::{
    chars_of, contains_seq, decimal, find_chars, lemma_replace_absent, lemma_replace_after_free_prefix,
    lemma_replace_char_concat, lemma_replace_char_removes_it,
    lowercase, lowercase_chars, matches_at, push_chars,
    push_decimal, push_str, replace_all, replace_all_chars, starts_with,
};

verus! {

/// The language in which messages are written.
#[derive(Clone, Copy, Debug, PartialEq, Eq, Structural)]
pub enum Language {
    English,
    Chinese,
}

impl Language {
    /// Whether this is the Chinese language.
    pub fn is_chinese(self) -> (r: bool)
        ensures
            r == (self == Language::Chinese),
    {
        match self {
            Language::English => false,
            Language::Chinese => true,
        }
    }
}

/// The text in the given language, out of its English and Chinese versions.
pub open spec fn pick(lang: Language, en: Seq<char>, zh: Seq<char>) -> Seq<char> {
    match lang {
        Language::English => en,
        Language::Chinese => zh,
    }
}

/// Whether a locale setting (the value of `LC_ALL`, `LC_MESSAGES` or `LANG`)
/// names Chinese: once lowercased, it starts with `zh` or holds `zh_cn` or
/// `zh_tw`. Unicode lowercasing turns no character other than the ASCII capitals
/// into one of the ASCII letters these patterns are made of, so lowercasing the
/// ASCII letters alone decides the same.
pub open spec fn locale_is_chinese(value: Seq<char>) -> bool {
    let l = lowercase(value);
    ||| starts_with(l, seq!['z', 'h'])
    ||| contains_seq(l, seq!['z', 'h', '_', 'c', 'n'])
    ||| contains_seq(l, seq!['z', 'h', '_', 't', 'w'])
}

/// The language named by a list of locale settings, of which the unset ones are
/// `None`: Chinese when any of them names Chinese, English otherwise.
pub open spec fn detected_language(values: Seq<Option<String>>) -> Language {
    if exists|i: int| 0 <= i < values.len() && (#[trigger] values[i] matches Some(v) && locale_is_chinese(v@)) {
        Language::Chinese
    } else {
        Language::English
    }
}

/// Whether a locale value reads as Chinese: lowercased, it starts with `zh` or
/// holds `zh_cn` or `zh_tw`.
pub open spec fn reads_as_chinese(v: Seq<char>) -> bool {
    starts_with(lowercase(v), seq!['z', 'h']) || contains_seq(lowercase(v), seq!['z', 'h', '_', 'c', 'n'])
        || contains_seq(lowercase(v), seq!['z', 'h', '_', 't', 'w'])
}

/// Every locale setting counts, whatever its place among `LC_ALL`,
/// `LC_MESSAGES` and `LANG`: one that reads as Chinese selects Chinese, and
/// English is selected only when none does.
pub proof fn any_setting_selects_chinese(values: Seq<Option<String>>)
    ensures
        forall|i: int|
            0 <= i < values.len() && (#[trigger] values[i] matches Some(v) && reads_as_chinese(v@))
                ==> detected_language(values) == Language::Chinese,
        detected_language(values) == Language::English <==> forall|i: int|
            0 <= i < values.len() ==> !(#[trigger] values[i] matches Some(v) && reads_as_chinese(v@)),
{
    assert forall|i: int|
        0 <= i < values.len() && (#[trigger] values[i] matches Some(v) && reads_as_chinese(v@)) implies detected_language(
        values,
    ) == Language::Chinese by {
        assert(values[i] matches Some(v) && locale_is_chinese(v@));
    }
    if detected_language(values) == Language::Chinese {
        let i = choose|i: int| 0 <= i < values.len() && (#[trigger] values[i] matches Some(v) && locale_is_chinese(v@));
        assert(values[i] matches Some(v) && reads_as_chinese(v@));
    }
}

/// Whether one locale setting names Chinese.
pub fn value_is_chinese(value: &str) -> (r: bool)
    ensures
        r == locale_is_chinese(value@),
{
    let l = lowercase_chars(&chars_of(value));
    let zh: Vec<char> = vec!['z', 'h'];
    let zh_cn: Vec<char> = vec!['z', 'h', '_', 'c', 'n'];
    let zh_tw: Vec<char> = vec!['z', 'h', '_', 't', 'w'];
    if matches_at(&l, 0, &zh) {
        assert(l@.skip(0) =~= l@);
        return true;
    }
    assert(l@.skip(0) =~= l@);
    find_chars(&l, &zh_cn).is_some() || find_chars(&l, &zh_tw).is_some()
}

/// Detects the language of the messages from the locale settings `LC_ALL`,
/// `LC_MESSAGES` and `LANG`, in that order, each `None` where it is unset.
pub fn detect(env_values: &Vec<Option<String>>) -> (lang: Language)
    ensures
        lang == detected_language(env_values@),
{
    let mut i: usize = 0;
    while i < env_values.len()
        invariant
            i <= env_values.len(),
            forall|j: int| 0 <= j < i ==> !(#[trigger] env_values@[j] matches Some(v) && locale_is_chinese(v@)),
        decreases env_values.len() - i,
    {
        match &env_values[i] {
            Some(v) => {
                if value_is_chinese(v.as_str()) {
                    assert(env_values@[i as int] matches Some(v) && locale_is_chinese(v@));
                    return Language::Chinese;
                }
            },
            None => {},
        }
        i += 1;
    }
    Language::English
}

/// The language of a Windows user-interface language identifier: Chinese when
/// its primary language (the low byte) is Chinese, English otherwise.
pub fn language_of_lang_id(lang_id: u16) -> (lang: Language)
    ensures
        (lang == Language::Chinese) == (lang_id & 0xff == 4),
{
    if lang_id & 0x00FF == 0x04 {
        Language::Chinese
    } else {
        Language::English
    }
}

/// Returns the Chinese text in Chinese and the English text otherwise.
pub fn t(lang: Language, en: &'static str, zh: &'static str) -> (r: &'static str)
    ensures
        r@ == pick(lang, en@, zh@),
{
    match lang {
        Language::English => en,
        Language::Chinese => zh,
    }
}

/// The message for a response whose status is a format error.
pub fn status_format_error(lang: Language) -> (r: &'static str)
    ensures
        r@ == pick(lang, "Status: Format Error"@, "状态：格式错误"@),
{
    t(lang, "Status: Format Error", "状态：格式错误")
}

/// The message for a response whose status is a server failure.
pub fn status_server_failure(lang: Language) -> (r: &'static str)
    ensures
        r@ == pick(lang, "Status: Server Failure"@, "状态：服务器故障"@),
{
    t(lang, "Status: Server Failure", "状态：服务器故障")
}

/// The message for a response saying that the domain does not exist.
pub fn status_nxdomain(lang: Language) -> (r: &'static str)
    ensures
        r@ == pick(lang, "Status: NXDomain"@, "状态：域名不存在"@),
{
    t(lang, "Status: NXDomain", "状态：域名不存在")
}

/// The message for a response whose status is 'not implemented'.
pub fn status_not_implemented(lang: Language) -> (r: &'static str)
    ensures
        r@ == pick(lang, "Status: Not Implemented"@, "状态：未实现"@),
{
    t(lang, "Status: Not Implemented", "状态：未实现")
}

/// The message for a response whose status is 'query refused'.
pub fn status_query_refused(lang: Language) -> (r: &'static str)
    ensures
        r@ == pick(lang, "Status: Query Refused"@, "状态：查询被拒绝"@),
{
    t(lang, "Status: Query Refused", "状态：查询被拒绝")
}

/// The message for a response whose status is 'bad version'.
pub fn status_bad_version(lang: Language) -> (r: &'static str)
    ensures
        r@ == pick(lang, "Status: Bad Version"@, "状态：版本错误"@),
{
    t(lang, "Status: Bad Version", "状态：版本错误")
}

/// The label of the protocol phase of a transport error.
pub fn phase_protocol(lang: Language) -> (r: &'static str)
    ensures
        r@ == pick(lang, "protocol"@, "协议"@),
{
    t(lang, "protocol", "协议")
}

/// The label of the network phase of a transport error.
pub fn phase_network(lang: Language) -> (r: &'static str)
    ensures
        r@ == pick(lang, "network"@, "网络"@),
{
    t(lang, "network", "网络")
}

/// The message for a truncated response.
pub fn truncated_response(lang: Language) -> (r: &'static str)
    ensures
        r@ == pick(lang, "Truncated response"@, "响应被截断"@),
{
    t(lang, "Truncated response", "响应被截断")
}

/// The message for a packet that ends too early.
pub fn malformed_packet_insufficient(lang: Language) -> (r: &'static str)
    ensures
        r@ == pick(lang, "Malformed packet: insufficient data"@, "数据包格式错误：数据不足"@),
{
    t(lang, "Malformed packet: insufficient data", "数据包格式错误：数据不足")
}

/// The message for a system configuration without a usable nameserver.
pub fn no_nameserver_found(lang: Language) -> (r: &'static str)
    ensures
        r@ == pick(lang, "No nameserver found"@, "未找到DNS服务器"@),
{
    t(lang, "No nameserver found", "未找到DNS服务器")
}

/// The message for a platform whose nameservers cannot be detected.
pub fn unsupported_platform(lang: Language) -> (r: &'static str)
    ensures
        r@ == pick(lang, "dog cannot automatically detect nameservers on this platform; you will have to provide one explicitly"@, "dog无法在此平台上自动检测DNS服务器；请手动指定"@),
{
    t(lang, "dog cannot automatically detect nameservers on this platform; you will have to provide one explicitly", "dog无法在此平台上自动检测DNS服务器；请手动指定")
}

/// The message for a build without DNS-over-TLS.
pub fn tls_disabled(lang: Language) -> (r: &'static str)
    ensures
        r@ == pick(lang, "dog: Cannot use '--tls': This version of dog has been compiled without TLS support"@, "dog：无法使用'--tls'：此版本的dog编译时未启用TLS支持"@),
{
    t(lang, "dog: Cannot use '--tls': This version of dog has been compiled without TLS support", "dog：无法使用'--tls'：此版本的dog编译时未启用TLS支持")
}

/// The message for a build without DNS-over-HTTPS.
pub fn https_disabled(lang: Language) -> (r: &'static str)
    ensures
        r@ == pick(lang, "dog: Cannot use '--https': This version of dog has been compiled without HTTPS support"@, "dog：无法使用'--https'：此版本的dog编译时未启用HTTPS支持"@),
{
    t(lang, "dog: Cannot use '--https': This version of dog has been compiled without HTTPS support", "dog：无法使用'--https'：此版本的dog编译时未启用HTTPS支持")
}

/// The message shown in short mode when nothing was found.
pub fn no_results(lang: Language) -> (r: &'static str)
    ensures
        r@ == pick(lang, "No results"@, "无结果"@),
{
    t(lang, "No results", "无结果")
}

/// The prefix of the message for invalid command-line options.
pub fn invalid_options_prefix(lang: Language) -> (r: &'static str)
    ensures
        r@ == pick(lang, "dog: Invalid options: "@, "dog：无效选项："@),
{
    t(lang, "dog: Invalid options: ", "dog：无效选项：")
}

/// The label of the TLS phase of a transport error.
pub fn phase_tls() -> (r: &'static str)
    ensures
        r@ == "tls"@,
{
    "tls"
}

/// The label of the HTTP phase of a transport error.
pub fn phase_http() -> (r: &'static str)
    ensures
        r@ == "http"@,
{
    "http"
}

/// The message for a response with a status code reserved for private use.
pub fn status_private_reason(lang: Language, num: u16) -> (r: String)
    ensures
        r@ == pick(lang, "Status: Private Reason ("@ + decimal(num as nat) + ")"@, "状态：私有原因 ("@ + decimal(num as nat) + ")"@),
{
    let mut out = String::new();
    push_str(&mut out, t(lang, "Status: Private Reason (", "状态：私有原因 ("));
    push_decimal(&mut out, num as u64);
    push_str(&mut out, t(lang, ")", ")"));
    out
}

/// The message for a response with any other failing status code.
pub fn status_other_failure(lang: Language, num: u16) -> (r: String)
    ensures
        r@ == pick(lang, "Status: Other Failure ("@ + decimal(num as nat) + ")"@, "状态：其他故障 ("@ + decimal(num as nat) + ")"@),
{
    let mut out = String::new();
    push_str(&mut out, t(lang, "Status: Other Failure (", "状态：其他故障 ("));
    push_decimal(&mut out, num as u64);
    push_str(&mut out, t(lang, ")", ")"));
    out
}

/// The message for a record whose length is not the one its type requires.
pub fn malformed_packet_record_length(lang: Language, stated: u16, expected: u16) -> (r: String)
    ensures
        r@ == pick(lang, "Malformed packet: record length should be "@ + decimal(expected as nat) + ", got "@ + decimal(stated as nat), "数据包格式错误：记录长度应为"@ + decimal(expected as nat) + "，实际为"@ + decimal(stated as nat)),
{
    let mut out = String::new();
    push_str(&mut out, t(lang, "Malformed packet: record length should be ", "数据包格式错误：记录长度应为"));
    push_decimal(&mut out, expected as u64);
    push_str(&mut out, t(lang, ", got ", "，实际为"));
    push_decimal(&mut out, stated as u64);
    out
}

/// The message for a record shorter than its type requires.
pub fn malformed_packet_record_length_at_least(lang: Language, stated: u16, expected: u16) -> (r: String)
    ensures
        r@ == pick(lang, "Malformed packet: record length should be at least "@ + decimal(expected as nat) + ", got "@ + decimal(stated as nat), "数据包格式错误：记录长度应至少为"@ + decimal(expected as nat) + "，实际为"@ + decimal(stated as nat)),
{
    let mut out = String::new();
    push_str(&mut out, t(lang, "Malformed packet: record length should be at least ", "数据包格式错误：记录长度应至少为"));
    push_decimal(&mut out, expected as u64);
    push_str(&mut out, t(lang, ", got ", "，实际为"));
    push_decimal(&mut out, stated as u64);
    out
}

/// The message for a label whose stated length differs from what was read.
pub fn malformed_packet_label_length(lang: Language, stated: u16, actual: u16) -> (r: String)
    ensures
        r@ == pick(lang, "Malformed packet: length "@ + decimal(stated as nat) + " was specified, but read "@ + decimal(actual as nat) + " bytes"@, "数据包格式错误：声明长度"@ + decimal(stated as nat) + "，但读取了"@ + decimal(actual as nat) + "字节"@),
{
    let mut out = String::new();
    push_str(&mut out, t(lang, "Malformed packet: length ", "数据包格式错误：声明长度"));
    push_decimal(&mut out, stated as u64);
    push_str(&mut out, t(lang, " was specified, but read ", "，但读取了"));
    push_decimal(&mut out, actual as u64);
    push_str(&mut out, t(lang, " bytes", "字节"));
    out
}

/// The message for a pointer out of the bounds of the packet.
pub fn malformed_packet_out_of_bounds(lang: Language, index: u16) -> (r: String)
    ensures
        r@ == pick(lang, "Malformed packet: out of bounds ("@ + decimal(index as nat) + ")"@, "数据包格式错误：越界 ("@ + decimal(index as nat) + ")"@),
{
    let mut out = String::new();
    push_str(&mut out, t(lang, "Malformed packet: out of bounds (", "数据包格式错误：越界 ("));
    push_decimal(&mut out, index as u64);
    push_str(&mut out, t(lang, ")", ")"));
    out
}

/// The message for a record with a version above the highest one understood.
pub fn malformed_packet_wrong_version(lang: Language, stated: u8, max: u8) -> (r: String)
    ensures
        r@ == pick(lang, "Malformed packet: record specifies version "@ + decimal(stated as nat) + ", expected up to "@ + decimal(max as nat), "数据包格式错误：记录指定版本"@ + decimal(stated as nat) + "，期望最多"@ + decimal(max as nat)),
{
    let mut out = String::new();
    push_str(&mut out, t(lang, "Malformed packet: record specifies version ", "数据包格式错误：记录指定版本"));
    push_decimal(&mut out, stated as u64);
    push_str(&mut out, t(lang, ", expected up to ", "，期望最多"));
    push_decimal(&mut out, max as u64);
    out
}

/// The message for a failure to obtain a resolver, given the displayed error.
pub fn unable_obtain_resolver(lang: Language, e: &str) -> (r: String)
    ensures
        r@ == pick(lang, "Unable to obtain resolver: "@ + e@, "无法获取解析器："@ + e@),
{
    let mut out = String::new();
    push_str(&mut out, t(lang, "Unable to obtain resolver: ", "无法获取解析器："));
    push_str(&mut out, e);
    out
}

/// The message for an error while reading the network configuration, given the displayed error.
pub fn error_reading_network_config(lang: Language, e: &str) -> (r: String)
    ensures
        r@ == pick(lang, "Error reading network configuration: "@ + e@, "读取网络配置出错："@ + e@),
{
    let mut out = String::new();
    push_str(&mut out, t(lang, "Error reading network configuration: ", "读取网络配置出错："));
    push_str(&mut out, e);
    out
}

/// The warning for a queried domain that is also in the hosts file, given the displayed domain.
pub fn domain_in_hosts(lang: Language, domain: &str) -> (r: String)
    ensures
        r@ == pick(lang, "warning: domain '"@ + domain@ + "' also exists in hosts file"@, "警告：域名'"@ + domain@ + "'也存在于hosts文件中"@),
{
    let mut out = String::new();
    push_str(&mut out, t(lang, "warning: domain '", "警告：域名'"));
    push_str(&mut out, domain);
    push_str(&mut out, t(lang, "' also exists in hosts file", "'也存在于hosts文件中"));
    out
}

/// The text that `{:?}` formatting (`<str as Debug>::fmt`) writes for a
/// string slice.
pub uninterp spec fn debug_str(s: Seq<char>) -> Seq<char>;

/// Formats a string slice with `{:?}` (`<str as Debug>::fmt`). What that text
/// is (the string quoted, with some characters escaped) is left to the name
/// `debug_str`.
#[verifier::external_body]
fn format_debug_str(s: &str) -> (r: String)
    ensures
        r@ == debug_str(s@),
{
    format!("{:?}", s)
}

/// The message for a chain of compression pointers that is too long, given
/// the indices as `{:?}` formats them.
pub fn too_much_recursion_message(lang: Language, quoted: &str) -> (r: String)
    ensures
        r@ == pick(lang, "Malformed packet: too much recursion: "@ + quoted@, "数据包格式错误：递归过深："@ + quoted@),
{
    let mut out = String::new();
    push_str(&mut out, t(lang, "Malformed packet: too much recursion: ", "数据包格式错误：递归过深："));
    push_str(&mut out, quoted);
    out
}

/// The message for a chain of compression pointers that is too long.
pub fn malformed_packet_too_much_recursion(lang: Language, indices: &str) -> (r: String)
    ensures
        r@ == pick(lang, "Malformed packet: too much recursion: "@ + debug_str(indices@), "数据包格式错误：递归过深："@ + debug_str(indices@)),
{
    let quoted = format_debug_str(indices);
    too_much_recursion_message(lang, quoted.as_str())
}

/// The reason shown for an HTTP status: the one given, or a default.
pub open spec fn http_reason(lang: Language, reason: Option<String>) -> Seq<char> {
    match reason {
        Some(r) => r@,
        None => pick(lang, "No reason"@, "无原因"@),
    }
}

/// The message for a DNS-over-HTTPS nameserver that answered with an HTTP
/// status other than success.
pub fn nameserver_http_status(lang: Language, status: u16, reason: &Option<String>) -> (r: String)
    ensures
        r@ == pick(lang, "Nameserver returned HTTP "@, "DNS服务器返回HTTP "@) + decimal(status as nat) + " ("@ + http_reason(lang, *reason) + ")"@,
{
    let mut out = String::new();
    push_str(&mut out, t(lang, "Nameserver returned HTTP ", "DNS服务器返回HTTP "));
    push_decimal(&mut out, status as u64);
    push_str(&mut out, " (");
    match reason {
        Some(r) => push_str(&mut out, r.as_str()),
        None => push_str(&mut out, t(lang, "No reason", "无原因")),
    }
    push_str(&mut out, ")");
    out
}

/// The English usage template; `\` starts the escape code of a style.
pub const USAGE_EN: &'static str = "\\4mUsage:\\0m\n  \\1mdog\\0m \\1;33m[OPTIONS]\\0m [--] \\32m<arguments>\\0m\n\n\\4mExamples:\\0m\n  \\1mdog\\0m \\32mexample.net\\0m                          Query a domain using default settings\n  \\1mdog\\0m \\32mexample.net MX\\0m                       ...looking up MX records instead\n  \\1mdog\\0m \\32mexample.net MX @1.1.1.1\\0m              ...using a specific nameserver instead\n  \\1mdog\\0m \\32mexample.net MX @1.1.1.1\\0m \\1;33m-T\\0m           ...using TCP rather than UDP\n  \\1mdog\\0m \\1;33m-q\\0m \\33mexample.net\\0m \\1;33m-t\\0m \\33mMX\\0m \\1;33m-n\\0m \\33m1.1.1.1\\0m \\1;33m-T\\0m   As above, but using explicit arguments\n\n\\4mQuery options:\\0m\n  \\32m<arguments>\\0m              Human-readable host names, nameservers, types, or classes\n  \\1;33m-q\\0m, \\1;33m--query\\0m=\\33mHOST\\0m         Host name or domain name to query\n  \\1;33m-t\\0m, \\1;33m--type\\0m=\\33mTYPE\\0m          Type of the DNS record being queried (A, MX, NS...)\n  \\1;33m-n\\0m, \\1;33m--nameserver\\0m=\\33mADDR\\0m    Address of the nameserver to send packets to\n  \\1;33m--class\\0m=\\33mCLASS\\0m            Network class of the DNS record being queried (IN, CH, HS)\n\n\\4mSending options:\\0m\n  \\1;33m--edns\\0m=\\33mSETTING\\0m           Whether to OPT in to EDNS (disable, hide, show)\n  \\1;33m--txid\\0m=\\33mNUMBER\\0m            Set the transaction ID to a specific value\n  \\1;33m-Z\\0m=\\33mTWEAKS\\0m                Set uncommon protocol-level tweaks\n\n\\4mProtocol options:\\0m\n  \\1;33m-U\\0m, \\1;33m--udp\\0m                Use the DNS protocol over UDP\n  \\1;33m-T\\0m, \\1;33m--tcp\\0m                Use the DNS protocol over TCP\n  \\1;33m-S\\0m, \\1;33m--tls\\0m                Use the DNS-over-TLS protocol\n  \\1;33m-H\\0m, \\1;33m--https\\0m              Use the DNS-over-HTTPS protocol\n\n\\4mOutput options:\\0m\n  \\1;33m-1\\0m, \\1;33m--short\\0m              Short mode: display nothing but the first result\n  \\1;33m-J\\0m, \\1;33m--json\\0m               Display the output as JSON\n  \\1;33m--color\\0m, \\1;33m--colour\\0m=\\33mWHEN\\0m   When to colourise the output (always, automatic, never)\n  \\1;33m--seconds\\0m                Do not format durations, display them as seconds\n  \\1;33m--time\\0m                   Print how long the response took to arrive\n\n\\4mMeta options:\\0m\n  \\1;33m-?\\0m, \\1;33m--help\\0m               Print list of command-line options\n  \\1;33m-v\\0m, \\1;33m--version\\0m            Print version information\n  \\1;33m--verbose\\0m                 Print verbose diagnostic output\n";

/// The Chinese usage template; `\` starts the escape code of a style.
pub const USAGE_ZH: &'static str = "\\4m用法:\\0m\n  \\1mdog\\0m \\1;33m[选项]\\0m [--] \\32m<参数>\\0m\n\n\\4m示例:\\0m\n  \\1mdog\\0m \\32mexample.net\\0m                          使用默认设置查询域名\n  \\1mdog\\0m \\32mexample.net MX\\0m                       查询MX记录\n  \\1mdog\\0m \\32mexample.net MX @1.1.1.1\\0m              使用指定DNS服务器\n  \\1mdog\\0m \\32mexample.net MX @1.1.1.1\\0m \\1;33m-T\\0m           使用TCP DNS\n  \\1mdog\\0m \\1;33m-q\\0m \\33mexample.net\\0m \\1;33m-t\\0m \\33mMX\\0m \\1;33m-n\\0m \\33m1.1.1.1\\0m \\1;33m-T\\0m   与上例相同但使用显式参数\n\n\\4m查询选项:\\0m\n  \\32m<参数>\\0m                   主机名、DNS服务器、记录类型或类别\n  \\1;33m-q\\0m, \\1;33m--query\\0m=\\33mHOST\\0m         要查询的主机名或域名\n  \\1;33m-t\\0m, \\1;33m--type\\0m=\\33mTYPE\\0m          要查询的DNS记录类型 (A, MX, NS...)\n  \\1;33m-n\\0m, \\1;33m--nameserver\\0m=\\33mADDR\\0m    要请求的DNS服务器地址\n  \\1;33m--class\\0m=\\33mCLASS\\0m            要查询的网络类别 (IN, CH, HS)\n\n\\4m传输选项:\\0m\n  \\1;33m--edns\\0m=\\33mSETTING\\0m           是否启用EDNS (disable, hide, show)\n  \\1;33m--txid\\0m=\\33mNUMBER\\0m            设置事务ID为指定值\n  \\1;33m-Z\\0m=\\33mTWEAKS\\0m                设置协议级调整选项\n\n\\4m协议选项:\\0m\n  \\1;33m-U\\0m, \\1;33m--udp\\0m                使用UDP DNS\n  \\1;33m-T\\0m, \\1;33m--tcp\\0m                使用TCP DNS\n  \\1;33m-S\\0m, \\1;33m--tls\\0m                使用DNS-over-TLS\n  \\1;33m-H\\0m, \\1;33m--https\\0m              使用DNS-over-HTTPS\n\n\\4m输出选项:\\0m\n  \\1;33m-1\\0m, \\1;33m--short\\0m              简洁模式：仅输出第一个结果\n  \\1;33m-J\\0m, \\1;33m--json\\0m               以JSON输出结果\n  \\1;33m--color\\0m, \\1;33m--colour\\0m=\\33mWHEN\\0m   彩色输出配置 (always, automatic, never)\n  \\1;33m--seconds\\0m                以秒显示缓存时间\n  \\1;33m--time\\0m                   显示响应耗时\n\n\\4m全局选项:\\0m\n  \\1;33m-?\\0m, \\1;33m--help\\0m               打印命令行选项列表\n  \\1;33m-v\\0m, \\1;33m--version\\0m            打印版本信息\n  \\1;33m--verbose\\0m                打印详细诊断输出\n";

/// The English tagline printed above the usage text.
pub const TAGLINE_EN: &'static str = "dog \\1;32m●\\0m command-line DNS client";

/// The Chinese tagline printed above the usage text.
pub const TAGLINE_ZH: &'static str = "\\1mdog\\0m \\1;32m●\\0m 命令行DNS客户端";

/// The escape codes of the usage templates turned into ANSI escape codes: each
/// `\` becomes the control sequence introducer `ESC [`.
pub open spec fn converted(s: Seq<char>) -> Seq<char> {
    replace_all(s, seq!['\\'], seq!['\x1B', '['])
}

/// The escape codes that `strip_codes` removes, in the order it removes them.
pub open spec fn style_codes() -> Seq<Seq<char>> {
    seq![
        seq!['\\', '0', 'm'],
        seq!['\\', '1', 'm'],
        seq!['\\', '4', 'm'],
        seq!['\\', '3', '2', 'm'],
        seq!['\\', '3', '3', 'm'],
        seq!['\\', '1', ';', '3', '1', 'm'],
        seq!['\\', '1', ';', '3', '2', 'm'],
        seq!['\\', '1', ';', '3', '3', 'm'],
        seq!['\\', '1', ';', '4', ';', '3', '4'],
    ]
}

/// `s` with every occurrence of each pattern removed, one pattern after the other.
pub open spec fn remove_each(s: Seq<char>, pats: Seq<Seq<char>>) -> Seq<char>
    decreases pats.len(),
{
    if pats.len() == 0 {
        s
    } else {
        remove_each(replace_all(s, pats[0], Seq::empty()), pats.drop_first())
    }
}

/// The usage template with its escape codes removed.
pub open spec fn stripped(s: Seq<char>) -> Seq<char> {
    remove_each(s, style_codes())
}

/// The usage text, as `get_usage_text` makes it from a tagline and a template.
pub open spec fn usage_text(tagline: Seq<char>, template: Seq<char>, use_colours: bool) -> Seq<char> {
    if use_colours {
        converted(tagline) + seq!['\n', '\n'] + converted(template)
    } else {
        stripped(tagline) + seq!['\n', '\n'] + stripped(template)
    }
}

/// Converts the escape codes in usage templates to ANSI escape codes.
pub fn convert_codes(input: &str) -> (r: String)
    ensures
        r@ == converted(input@),
{
    let pat: Vec<char> = vec!['\\'];
    let rep: Vec<char> = vec!['\x1B', '['];
    assert(pat@ =~= seq!['\\']);
    assert(rep@ =~= seq!['\x1B', '[']);
    replace_all_chars(&chars_of(input), &pat, &rep)
}

/// Removes escape codes from usage templates.
pub fn strip_codes(input: &str) -> (r: String)
    ensures
        r@ == stripped(input@),
{
    let codes: Vec<Vec<char>> = vec![
        vec!['\\', '0', 'm'],
        vec!['\\', '1', 'm'],
        vec!['\\', '4', 'm'],
        vec!['\\', '3', '2', 'm'],
        vec!['\\', '3', '3', 'm'],
        vec!['\\', '1', ';', '3', '1', 'm'],
        vec!['\\', '1', ';', '3', '2', 'm'],
        vec!['\\', '1', ';', '3', '3', 'm'],
        vec!['\\', '1', ';', '4', ';', '3', '4'],
    ];
    let ghost pats = style_codes();
    assert forall|k: int| 0 <= k < codes@.len() implies #[trigger] codes@[k]@ == pats[k] && pats[k].len() > 0 by {
        assert(codes@[0]@ =~= pats[0]);
        assert(codes@[1]@ =~= pats[1]);
        assert(codes@[2]@ =~= pats[2]);
        assert(codes@[3]@ =~= pats[3]);
        assert(codes@[4]@ =~= pats[4]);
        assert(codes@[5]@ =~= pats[5]);
        assert(codes@[6]@ =~= pats[6]);
        assert(codes@[7]@ =~= pats[7]);
        assert(codes@[8]@ =~= pats[8]);
    }
    let empty: Vec<char> = Vec::new();
    let mut cur: Vec<char> = chars_of(input);
    let mut k: usize = 0;
    assert(pats.skip(0) =~= pats);
    while k < codes.len()
        invariant
            k <= codes@.len(),
            codes@.len() == pats.len(),
            empty@ == Seq::<char>::empty(),
            forall|j: int| 0 <= j < codes@.len() ==> #[trigger] codes@[j]@ == pats[j] && pats[j].len() > 0,
            remove_each(cur@, pats.skip(k as int)) == stripped(input@),
        decreases codes@.len() - k,
    {
        let next = replace_all_chars(&cur, &codes[k], &empty);
        assert(pats.skip(k as int).drop_first() =~= pats.skip(k + 1));
        cur = chars_of(next.as_str());
        k += 1;
    }
    let mut out = String::new();
    push_chars(&mut out, &cur);
    assert(pats.skip(k as int) =~= Seq::<Seq<char>>::empty());
    out
}

/// The usage/help text in the given language, with its escape codes turned
/// into ANSI escape codes when colours are used and removed otherwise.
pub fn get_usage_text(lang: Language, use_colours: bool) -> (r: String)
    ensures
        r@ == usage_text(pick(lang, TAGLINE_EN@, TAGLINE_ZH@), pick(lang, USAGE_EN@, USAGE_ZH@), use_colours),
{
    let raw = t(lang, USAGE_EN, USAGE_ZH);
    let tagline = t(lang, TAGLINE_EN, TAGLINE_ZH);
    let mut out = if use_colours { convert_codes(tagline) } else { strip_codes(tagline) };
    push_str(&mut out, "\n\n");
    let body = if use_colours { convert_codes(raw) } else { strip_codes(raw) };
    push_str(&mut out, body.as_str());
    proof {
        reveal_strlit("\n\n");
    }
    out
}

/// Every escape code of the templates starts with a backslash.
proof fn lemma_style_codes_start_with_backslash()
    ensures
        forall|k: int| 0 <= k < style_codes().len() ==> (#[trigger] style_codes()[k]).len() > 0 && style_codes()[k][0] == '\\',
{
}

/// A text without backslashes survives the removal of each listed pattern that
/// starts with a backslash.
proof fn lemma_remove_each_without_backslash(s: Seq<char>, pats: Seq<Seq<char>>)
    requires
        !s.contains('\\'),
        forall|k: int| 0 <= k < pats.len() ==> (#[trigger] pats[k]).len() > 0 && pats[k][0] == '\\',
    ensures
        remove_each(s, pats) == s,
    decreases pats.len(),
{
    if pats.len() > 0 {
        lemma_replace_absent(s, pats[0], Seq::empty());
        assert forall|k: int| 0 <= k < pats.drop_first().len() implies (#[trigger] pats.drop_first()[k]).len() > 0 && pats.drop_first()[k][0] == '\\' by {
            assert(pats.drop_first()[k] == pats[k + 1]);
        }
        lemma_remove_each_without_backslash(s, pats.drop_first());
    }
}

/// Converting the escape codes leaves no backslash in the text.
pub proof fn converted_has_no_backslash(s: Seq<char>)
    ensures
        !converted(s).contains('\\'),
{
    assert(!seq!['\x1B', '['].contains('\\')) by {
        assert(seq!['\x1B', '['][0] != '\\');
        assert(seq!['\x1B', '['][1] != '\\');
    }
    lemma_replace_char_removes_it(s, '\\', seq!['\x1B', '[']);
}

/// Stripping the escape codes leaves a text without backslashes unchanged.
pub proof fn strip_keeps_text_without_codes(s: Seq<char>)
    requires
        !s.contains('\\'),
    ensures
        stripped(s) == s,
{
    lemma_style_codes_start_with_backslash();
    lemma_remove_each_without_backslash(s, style_codes());
}

/// Stripping a text whose escape codes were already converted changes nothing.
pub proof fn strip_after_convert_changes_nothing(s: Seq<char>)
    ensures
        stripped(converted(s)) == converted(s),
{
    converted_has_no_backslash(s);
    strip_keeps_text_without_codes(converted(s));
}

/// The first escape code, among those from index `j` on of the ones the
/// templates are written with (all but the last of `style_codes`), that `s`
/// begins with; 8 when there is none.
pub open spec fn code_index_from(s: Seq<char>, j: nat) -> nat
    decreases 8 - j,
{
    if j >= 8 {
        8
    } else if starts_with(s, style_codes()[j as int]) {
        j
    } else {
        code_index_from(s, j + 1)
    }
}

pub proof fn lemma_code_index_from(s: Seq<char>, j: nat)
    requires
        j <= 8,
    ensures
        j <= code_index_from(s, j) <= 8,
        code_index_from(s, j) < 8 ==> starts_with(s, style_codes()[code_index_from(s, j) as int]),
        code_index_from(s, j) < 8 ==> 3 <= style_codes()[code_index_from(s, j) as int].len() <= s.len(),
        forall|k: int| j <= k < code_index_from(s, j) ==> !starts_with(s, #[trigger] style_codes()[k]),
    decreases 8 - j,
{
    lemma_style_code_shapes();
    if j < 8 && !starts_with(s, style_codes()[j as int]) {
        lemma_code_index_from(s, j + 1);
    }
}

/// Whether `s` is written with the escape codes from index `j` on: every
/// backslash starts one of them, and there is no escape character.
pub open spec fn coded_from(s: Seq<char>, j: nat) -> bool
    decreases s.len(),
{
    if s.len() == 0 || j > 8 {
        s.len() == 0
    } else {
        let k = code_index_from(s, j);
        if k < 8 {
            proof {
                lemma_code_index_from(s, j);
            }
            coded_from(s.skip(style_codes()[k as int].len() as int), j)
        } else {
            s[0] != '\\' && s[0] != '\x1B' && coded_from(s.skip(1), j)
        }
    }
}

/// The text of `s` without its escape codes from index `j` on.
pub open spec fn plain_from(s: Seq<char>, j: nat) -> Seq<char>
    decreases s.len(),
{
    if s.len() == 0 || j > 8 {
        s
    } else {
        let k = code_index_from(s, j);
        if k < 8 {
            proof {
                lemma_code_index_from(s, j);
            }
            plain_from(s.skip(style_codes()[k as int].len() as int), j)
        } else {
            seq![s[0]] + plain_from(s.skip(1), j)
        }
    }
}

/// Whether `c` may stand among the parameters of an ANSI SGR sequence.
pub open spec fn is_param_char(c: char) -> bool {
    ('0' <= c && c <= '9') || c == ';'
}

/// The number of parameter characters at the start of `s`.
pub open spec fn params_len(s: Seq<char>) -> nat
    decreases s.len(),
{
    if s.len() == 0 || !is_param_char(s[0]) {
        0
    } else {
        1 + params_len(s.skip(1))
    }
}

/// The length of the ANSI SGR sequence (`ESC [`, parameters, `m`) that `s`
/// begins with; 0 when it begins with none.
pub open spec fn sgr_len(s: Seq<char>) -> nat {
    if s.len() >= 2 && s[0] == '\x1B' && s[1] == '[' && 2 + params_len(s.skip(2)) < s.len()
        && s[(2 + params_len(s.skip(2))) as int] == 'm' {
        3 + params_len(s.skip(2))
    } else {
        0
    }
}

/// `s` with every ANSI SGR sequence removed, scanning from the left, as a
/// regular expression `\x1B\[[0-9;]*m` replaced by nothing removes them.
pub open spec fn remove_sgr(s: Seq<char>) -> Seq<char>
    decreases s.len(),
{
    if s.len() == 0 {
        s
    } else if sgr_len(s) > 0 {
        remove_sgr(s.skip(sgr_len(s) as int))
    } else {
        seq![s[0]] + remove_sgr(s.skip(1))
    }
}

/// The shapes of the escape codes: each starts with a backslash, followed by
/// parameter characters; all but the last end with `m`.
pub proof fn lemma_style_code_shapes()
    ensures
        style_codes().len() == 9,
        forall|k: int| 0 <= k < 9 ==> 3 <= (#[trigger] style_codes()[k]).len() <= 7 && style_codes()[k][0] == '\\',
        forall|k: int, i: int| 0 <= k < 8 && 1 <= i < style_codes()[k].len() - 1 ==> is_param_char(#[trigger] style_codes()[k][i]),
        forall|k: int| 0 <= k < 8 ==> (#[trigger] style_codes()[k]).last() == 'm',
        forall|k: int, i: int| 0 <= k < 9 && 1 <= i < style_codes()[k].len() ==> #[trigger] style_codes()[k][i] != '\\' && style_codes()[k][i] != '\x1B',
{
}

/// No text begins with two different escape codes.
proof fn lemma_codes_exclusive(x: Seq<char>, k: int, k2: int)
    requires
        0 <= k < 9,
        0 <= k2 < 9,
        k != k2,
        starts_with(x, style_codes()[k]),
    ensures
        !starts_with(x, style_codes()[k2]),
{
    let a = style_codes()[k];
    let b = style_codes()[k2];
    if starts_with(x, b) {
        assert forall|i: int| 0 <= i < a.len() && i < b.len() implies a[i] == b[i] by {
            assert(x.subrange(0, a.len() as int)[i] == x[i]);
            assert(x.subrange(0, b.len() as int)[i] == x[i]);
        }
        assert(a[1] == b[1]);
        assert(a[2] == b[2]);
        if a.len() > 3 && b.len() > 3 {
            assert(a[3] == b[3]);
        }
        if a.len() > 4 && b.len() > 4 {
            assert(a[4] == b[4]);
        }
        if a.len() > 5 && b.len() > 5 {
            assert(a[5] == b[5]);
        }
    }
}

/// Parameter characters followed by `m` are counted up to the `m`.
proof fn lemma_params_len(p: Seq<char>, z: Seq<char>)
    requires
        forall|i: int| 0 <= i < p.len() ==> is_param_char(#[trigger] p[i]),
    ensures
        params_len(p + seq!['m'] + z) == p.len(),
    decreases p.len(),
{
    let w = p + seq!['m'] + z;
    if p.len() > 0 {
        assert(w[0] == p[0]);
        assert(w.skip(1) =~= p.drop_first() + seq!['m'] + z);
        assert forall|i: int| 0 <= i < p.drop_first().len() implies is_param_char(#[trigger] p.drop_first()[i]) by {
            assert(p.drop_first()[i] == p[i + 1]);
        }
        lemma_params_len(p.drop_first(), z);
    } else {
        assert(w[0] == 'm');
    }
}

/// A single character other than a backslash is left as it is by converting.
proof fn lemma_converted_char(c: char)
    requires
        c != '\\',
    ensures
        converted(seq![c]) == seq![c],
{
    let one = seq![c];
    assert(one.skip(1) =~= Seq::<char>::empty());
    if starts_with(one, seq!['\\']) {
        assert(one.subrange(0, 1)[0] == one[0]);
    }
    assert(converted(one.skip(1)) =~= Seq::<char>::empty());
    assert(converted(one) =~= seq![c] + converted(one.skip(1)));
}

/// A template code converts to `ESC [` followed by the rest of the code.
proof fn lemma_converted_code(k: int)
    requires
        0 <= k < 8,
    ensures
        converted(style_codes()[k]) == seq!['\x1B', '['] + style_codes()[k].drop_first(),
{
    lemma_style_code_shapes();
    let c = style_codes()[k];
    let bs = seq!['\\'];
    let rep = seq!['\x1B', '['];
    let body = c.drop_first();
    assert(c =~= bs + body);
    lemma_replace_char_concat(bs, body, '\\', rep);
    assert(!body.contains('\\')) by {
        if body.contains('\\') {
            let i = choose|i: int| 0 <= i < body.len() && body[i] == '\\';
            assert(body[i] == c[i + 1]);
        }
    }
    lemma_replace_absent(body, bs, rep);
    assert(bs.skip(1) =~= Seq::<char>::empty());
    assert(bs.subrange(0, 1) =~= bs);
    assert(converted(bs.skip(1)) =~= Seq::<char>::empty());
    assert(converted(bs) =~= rep + converted(bs.skip(1)));
    assert(converted(bs) =~= rep);
}

/// The SGR sequence a converted template code becomes is removed whole.
proof fn lemma_sgr_of_code(k: int, z: Seq<char>)
    requires
        0 <= k < 8,
    ensures
        remove_sgr(converted(style_codes()[k]) + z) == remove_sgr(z),
{
    lemma_style_code_shapes();
    lemma_converted_code(k);
    let c = style_codes()[k];
    let body = c.drop_first();
    let p = body.drop_last();
    assert(body =~= p + seq!['m']);
    assert forall|i: int| 0 <= i < p.len() implies is_param_char(#[trigger] p[i]) by {
        assert(p[i] == c[i + 1]);
    }
    let w = converted(c) + z;
    assert(w =~= seq!['\x1B', '['] + (p + seq!['m'] + z));
    assert(w.skip(2) =~= p + seq!['m'] + z);
    lemma_params_len(p, z);
    assert(w[(2 + p.len()) as int] == 'm');
    assert(sgr_len(w) == 3 + p.len());
    assert(w.skip(sgr_len(w) as int) =~= z);
}

/// A text written with the template codes reads, once its codes are turned
/// into SGR sequences and those removed, as its plain text.
proof fn lemma_converted_plain(s: Seq<char>, y: Seq<char>)
    requires
        coded_from(s, 0),
    ensures
        remove_sgr(converted(s) + y) == plain_from(s, 0) + remove_sgr(y),
    decreases s.len(),
{
    let rep = seq!['\x1B', '['];
    if s.len() == 0 {
        assert(converted(s) =~= Seq::<char>::empty());
        assert(converted(s) + y =~= y);
        assert(plain_from(s, 0) + remove_sgr(y) =~= remove_sgr(y));
    } else {
        let k = code_index_from(s, 0);
        lemma_code_index_from(s, 0);
        if k < 8 {
            let c = style_codes()[k as int];
            let rest = s.skip(c.len() as int);
            assert(s.subrange(0, c.len() as int) == c);
            assert(s =~= c + rest);
            lemma_replace_char_concat(c, rest, '\\', rep);
            lemma_converted_plain(rest, y);
            assert(converted(s) + y =~= converted(c) + (converted(rest) + y));
            lemma_sgr_of_code(k as int, converted(rest) + y);
        } else {
            let rest = s.skip(1);
            let one = seq![s[0]];
            assert(s =~= one + rest);
            lemma_replace_char_concat(one, rest, '\\', rep);
            lemma_converted_char(s[0]);
            let w = converted(s) + y;
            assert(w =~= one + (converted(rest) + y));
            assert(w[0] == s[0]);
            assert(sgr_len(w) == 0);
            assert(w.skip(1) =~= converted(rest) + y);
            lemma_converted_plain(rest, y);
            assert(seq![s[0]] + (plain_from(rest, 0) + remove_sgr(y)) =~= (seq![s[0]] + plain_from(rest, 0))
                + remove_sgr(y));
        }
    }
}

/// One removal pass of `strip_codes`, for the code at index `j`, over a text
/// written with the codes from `j` on, leaves a text written with the codes
/// after `j`, with the same plain text.
proof fn lemma_strip_pass(s: Seq<char>, j: nat)
    requires
        j < 8,
        coded_from(s, j),
    ensures
        coded_from(replace_all(s, style_codes()[j as int], Seq::empty()), j + 1),
        plain_from(replace_all(s, style_codes()[j as int], Seq::empty()), j + 1) == plain_from(s, j),
    decreases s.len(),
{
    let e = Seq::<char>::empty();
    let cj = style_codes()[j as int];
    lemma_style_code_shapes();
    if s.len() > 0 {
        let k = code_index_from(s, j);
        lemma_code_index_from(s, j);
        if k == j {
            let rest = s.skip(cj.len() as int);
            assert(replace_all(s, cj, e) == e + replace_all(rest, cj, e));
            assert(e + replace_all(rest, cj, e) =~= replace_all(rest, cj, e));
            lemma_strip_pass(rest, j);
        } else if k < 8 {
            let ck = style_codes()[k as int];
            let rest = s.skip(ck.len() as int);
            let body = ck.drop_first();
            assert(s.subrange(0, ck.len() as int) == ck);
            assert(s =~= seq![s[0]] + (body + rest));
            assert(s.skip(1) =~= body + rest);
            assert(!body.contains('\\')) by {
                if body.contains('\\') {
                    let i = choose|i: int| 0 <= i < body.len() && body[i] == '\\';
                    assert(body[i] == ck[i + 1]);
                }
            }
            lemma_replace_after_free_prefix(body, rest, cj, e);
            lemma_strip_pass(rest, j);
            let r2 = replace_all(rest, cj, e);
            let r = replace_all(s, cj, e);
            assert(r == seq![s[0]] + replace_all(s.skip(1), cj, e));
            assert(s[0] == ck[0]);
            assert(r =~= ck + r2);
            // the code at the start of the result is still `k`
            assert(r.subrange(0, ck.len() as int) =~= ck);
            assert forall|k2: int| j + 1 <= k2 < k implies !starts_with(r, #[trigger] style_codes()[k2]) by {
                lemma_codes_exclusive(r, k as int, k2);
            }
            lemma_code_index_at(r, (j + 1) as nat, k);
            assert(r.skip(ck.len() as int) =~= r2);
        } else {
            let rest = s.skip(1);
            assert(s[0] != cj[0]);
            if starts_with(s, cj) {
                assert(s.subrange(0, cj.len() as int)[0] == s[0]);
            }
            lemma_strip_pass(rest, j);
            let r2 = replace_all(rest, cj, e);
            let r = replace_all(s, cj, e);
            assert(r == seq![s[0]] + r2);
            assert(r[0] == s[0]);
            assert(r.skip(1) =~= r2);
            lemma_no_code_at((j + 1) as nat, r);
        }
    } else {
        assert(replace_all(s, cj, e) == s);
    }
}

/// Searching the codes finds the first that matches.
proof fn lemma_code_index_at(s: Seq<char>, j: nat, k: nat)
    requires
        j <= k < 8,
        starts_with(s, style_codes()[k as int]),
        forall|k2: int| j <= k2 < k ==> !starts_with(s, #[trigger] style_codes()[k2]),
    ensures
        code_index_from(s, j) == k,
    decreases k - j,
{
    if j < k {
        lemma_code_index_at(s, j + 1, k);
    }
}

/// A text that begins with neither a backslash nor an escape begins with no code.
proof fn lemma_no_code_at(j: nat, s: Seq<char>)
    requires
        j <= 8,
        s.len() > 0,
        s[0] != '\\',
    ensures
        code_index_from(s, j) == 8,
    decreases 8 - j,
{
    lemma_style_code_shapes();
    if j < 8 {
        if starts_with(s, style_codes()[j as int]) {
            assert(s.subrange(0, style_codes()[j as int].len() as int)[0] == s[0]);
        }
        lemma_no_code_at(j + 1, s);
    }
}

/// A text written with none of the codes holds neither backslash nor escape,
/// and is its own plain text.
proof fn lemma_coded_without_codes(s: Seq<char>)
    requires
        coded_from(s, 8),
    ensures
        !s.contains('\\'),
        !s.contains('\x1B'),
        plain_from(s, 8) == s,
    decreases s.len(),
{
    if s.len() > 0 {
        assert(code_index_from(s, 8) == 8);
        lemma_coded_without_codes(s.skip(1));
        assert(s =~= seq![s[0]] + s.skip(1));
        if s.contains('\\') || s.contains('\x1B') {
            let i = choose|i: int| 0 <= i < s.len() && (s[i] == '\\' || s[i] == '\x1B');
            if i > 0 {
                assert(s.skip(1)[i - 1] == s[i]);
            }
        }
    }
}

/// The removal passes of `strip_codes` from the code at `j` on, over a text
/// written with the codes from `j` on, give its plain text, which holds
/// neither backslash nor escape.
proof fn lemma_strip_from(s: Seq<char>, j: nat)
    requires
        j <= 8,
        coded_from(s, j),
    ensures
        remove_each(s, style_codes().skip(j as int)) == plain_from(s, j),
        !plain_from(s, j).contains('\\'),
        !plain_from(s, j).contains('\x1B'),
    decreases 8 - j,
{
    lemma_style_code_shapes();
    let pats = style_codes().skip(j as int);
    if j < 8 {
        let r = replace_all(s, style_codes()[j as int], Seq::empty());
        lemma_strip_pass(s, j);
        lemma_strip_from(r, j + 1);
        assert(pats[0] == style_codes()[j as int]);
        assert(pats.drop_first() =~= style_codes().skip((j + 1) as int));
    } else {
        lemma_coded_without_codes(s);
        assert(pats =~= seq![style_codes()[8]]);
        lemma_replace_absent(s, style_codes()[8], Seq::empty());
        assert(pats.drop_first() =~= Seq::<Seq<char>>::empty());
        let r = replace_all(s, pats[0], Seq::empty());
        assert(r == s);
        assert(remove_each(s, pats) == remove_each(r, pats.drop_first()));
        assert(remove_each(r, pats.drop_first()) == r);
    }
}

/// The usage text: without colours it is the coloured text with its ANSI SGR
/// sequences removed; neither holds a backslash, and the text without colours
/// holds no escape character. This holds for every tagline and template
/// written with the template codes.
pub proof fn usage_text_colours_law(tagline: Seq<char>, template: Seq<char>)
    requires
        coded_from(tagline, 0),
        coded_from(template, 0),
    ensures
        usage_text(tagline, template, false) == remove_sgr(usage_text(tagline, template, true)),
        !usage_text(tagline, template, true).contains('\\'),
        !usage_text(tagline, template, false).contains('\\'),
        !usage_text(tagline, template, false).contains('\x1B'),
{
    let nl = seq!['\n', '\n'];
    let ct = converted(tagline);
    let cu = converted(template);
    let pt = plain_from(tagline, 0);
    let pu = plain_from(template, 0);
    lemma_strip_from(tagline, 0);
    lemma_strip_from(template, 0);
    assert(style_codes().skip(0) =~= style_codes());
    lemma_converted_plain(template, Seq::empty());
    assert(cu + Seq::<char>::empty() =~= cu);
    assert(remove_sgr(Seq::<char>::empty()) =~= Seq::<char>::empty());
    let tail = nl + cu;
    assert(sgr_len(tail) == 0);
    assert(tail.skip(1) =~= seq!['\n'] + cu);
    assert(sgr_len(tail.skip(1)) == 0);
    assert(tail.skip(1).skip(1) =~= cu);
    assert(remove_sgr(cu) == pu);
    assert(remove_sgr(tail.skip(1)) == seq!['\n'] + remove_sgr(tail.skip(1).skip(1)));
    assert(remove_sgr(tail) == seq!['\n'] + remove_sgr(tail.skip(1)));
    assert(remove_sgr(tail) =~= nl + pu);
    lemma_converted_plain(tagline, tail);
    assert(usage_text(tagline, template, true) =~= ct + tail);
    assert(usage_text(tagline, template, false) =~= pt + nl + pu);
    converted_has_no_backslash(tagline);
    converted_has_no_backslash(template);
    let ut = usage_text(tagline, template, true);
    if ut.contains('\\') {
        let i = choose|i: int| 0 <= i < ut.len() && ut[i] == '\\';
        if i < ct.len() {
            assert(ut[i] == ct[i]);
        } else if i >= ct.len() + 2 {
            assert(ut[i] == cu[i - ct.len() - 2]);
        }
    }
    let uf = usage_text(tagline, template, false);
    if uf.contains('\\') || uf.contains('\x1B') {
        let i = choose|i: int| 0 <= i < uf.len() && (uf[i] == '\\' || uf[i] == '\x1B');
        if i < pt.len() {
            assert(uf[i] == pt[i]);
        } else if i >= pt.len() + 2 {
            assert(uf[i] == pu[i - pt.len() - 2]);
        }
    }
}

/// Characters that are neither backslash nor escape, in front of a text written
/// with the template codes, keep it so.
proof fn lemma_coded_plain_run(s: Seq<char>, i: int, j: int)
    requires
        0 <= i <= j <= s.len(),
        forall|k: int| i <= k < j ==> s[k] != '\\' && s[k] != '\x1B',
        coded_from(s.skip(j), 0),
    ensures
        coded_from(s.skip(i), 0),
    decreases j - i,
{
    if i < j {
        lemma_coded_plain_run(s, i + 1, j);
        let t = s.skip(i);
        assert(t[0] == s[i]);
        lemma_no_code_at(0, t);
        assert(t.skip(1) =~= s.skip(i + 1));
    }
}

/// A template code in front of a text written with the template codes keeps it so.
proof fn lemma_coded_code(s: Seq<char>, i: int, k: int)
    requires
        0 <= i,
        0 <= k < 8,
        i + style_codes()[k].len() <= s.len(),
        s.subrange(i, i + style_codes()[k].len()) == style_codes()[k],
        coded_from(s.skip(i + style_codes()[k].len()), 0),
    ensures
        coded_from(s.skip(i), 0),
{
    lemma_style_code_shapes();
    let t = s.skip(i);
    let c = style_codes()[k];
    assert(t.subrange(0, c.len() as int) =~= s.subrange(i, i + c.len()));
    assert(starts_with(t, c));
    assert forall|k2: int| 0 <= k2 < k implies !starts_with(t, #[trigger] style_codes()[k2]) by {
        lemma_codes_exclusive(t, k, k2);
    }
    lemma_code_index_at(t, 0, k as nat);
    assert(t.skip(c.len() as int) =~= s.skip(i + c.len()));
}

/// The end of a text is written with the template codes.
proof fn lemma_coded_end(s: Seq<char>)
    ensures
        coded_from(s.skip(s.len() as int), 0),
{
    assert(s.skip(s.len() as int).len() == 0);
}

/// The English tagline is written with the template codes.
proof fn lemma_tagline_en_coded()
    ensures
        coded_from(TAGLINE_EN@, 0),
{
    lemma_style_code_shapes();
    reveal_strlit("dog \\1;32m●\\0m command-line DNS client");
    let s = TAGLINE_EN@;
    lemma_coded_end(s);
    lemma_coded_plain_run(s, 14, 38);
    assert(s.subrange(11, 14) =~= style_codes()[0]);
    lemma_coded_code(s, 11, 0);
    lemma_coded_plain_run(s, 10, 11);
    assert(s.subrange(4, 10) =~= style_codes()[6]);
    lemma_coded_code(s, 4, 6);
    lemma_coded_plain_run(s, 0, 4);
    assert(s.skip(0) =~= s);
}

/// The Chinese tagline is written with the template codes.
proof fn lemma_tagline_zh_coded()
    ensures
        coded_from(TAGLINE_ZH@, 0),
{
    lemma_style_code_shapes();
    reveal_strlit("\\1mdog\\0m \\1;32m●\\0m 命令行DNS客户端");
    let s = TAGLINE_ZH@;
    lemma_coded_end(s);
    lemma_coded_plain_run(s, 20, 30);
    assert(s.subrange(17, 20) =~= style_codes()[0]);
    lemma_coded_code(s, 17, 0);
    lemma_coded_plain_run(s, 16, 17);
    assert(s.subrange(10, 16) =~= style_codes()[6]);
    lemma_coded_code(s, 10, 6);
    lemma_coded_plain_run(s, 9, 10);
    assert(s.subrange(6, 9) =~= style_codes()[0]);
    lemma_coded_code(s, 6, 0);
    lemma_coded_plain_run(s, 3, 6);
    assert(s.subrange(0, 3) =~= style_codes()[1]);
    lemma_coded_code(s, 0, 1);
    assert(s.skip(0) =~= s);
}

/// Part of the English usage template, from index 0 up to index 368, is written
/// with the template codes when what follows it is.
proof fn lemma_usage_en_part_0()
    requires
        coded_from(USAGE_EN@.skip(368), 0),
    ensures
        coded_from(USAGE_EN@.skip(0), 0),
{
    lemma_style_code_shapes();
    reveal_strlit("\\4mUsage:\\0m\n  \\1mdog\\0m \\1;33m[OPTIONS]\\0m [--] \\32m<arguments>\\0m\n\n\\4mExamples:\\0m\n  \\1mdog\\0m \\32mexample.net\\0m                          Query a domain using default settings\n  \\1mdog\\0m \\32mexample.net MX\\0m                       ...looking up MX records instead\n  \\1mdog\\0m \\32mexample.net MX @1.1.1.1\\0m              ...using a specific nameserver instead\n  \\1mdog\\0m \\32mexample.net MX @1.1.1.1\\0m \\1;33m-T\\0m           ...using TCP rather than UDP\n  \\1mdog\\0m \\1;33m-q\\0m \\33mexample.net\\0m \\1;33m-t\\0m \\33mMX\\0m \\1;33m-n\\0m \\33m1.1.1.1\\0m \\1;33m-T\\0m   As above, but using explicit arguments\n\n\\4mQuery options:\\0m\n  \\32m<arguments>\\0m              Human-readable host names, nameservers, types, or classes\n  \\1;33m-q\\0m, \\1;33m--query\\0m=\\33mHOST\\0m         Host name or domain name to query\n  \\1;33m-t\\0m, \\1;33m--type\\0m=\\33mTYPE\\0m          Type of the DNS record being queried (A, MX, NS...)\n  \\1;33m-n\\0m, \\1;33m--nameserver\\0m=\\33mADDR\\0m    Address of the nameserver to send packets to\n  \\1;33m--class\\0m=\\33mCLASS\\0m            Network class of the DNS record being queried (IN, CH, HS)\n\n\\4mSending options:\\0m\n  \\1;33m--edns\\0m=\\33mSETTING\\0m           Whether to OPT in to EDNS (disable, hide, show)\n  \\1;33m--txid\\0m=\\33mNUMBER\\0m            Set the transaction ID to a specific value\n  \\1;33m-Z\\0m=\\33mTWEAKS\\0m                Set uncommon protocol-level tweaks\n\n\\4mProtocol options:\\0m\n  \\1;33m-U\\0m, \\1;33m--udp\\0m                Use the DNS protocol over UDP\n  \\1;33m-T\\0m, \\1;33m--tcp\\0m                Use the DNS protocol over TCP\n  \\1;33m-S\\0m, \\1;33m--tls\\0m                Use the DNS-over-TLS protocol\n  \\1;33m-H\\0m, \\1;33m--https\\0m              Use the DNS-over-HTTPS protocol\n\n\\4mOutput options:\\0m\n  \\1;33m-1\\0m, \\1;33m--short\\0m              Short mode: display nothing but the first result\n  \\1;33m-J\\0m, \\1;33m--json\\0m               Display the output as JSON\n  \\1;33m--color\\0m, \\1;33m--colour\\0m=\\33mWHEN\\0m   When to colourise the output (always, automatic, never)\n  \\1;33m--seconds\\0m                Do not format durations, display them as seconds\n  \\1;33m--time\\0m                   Print how long the response took to arrive\n\n\\4mMeta options:\\0m\n  \\1;33m-?\\0m, \\1;33m--help\\0m               Print list of command-line options\n  \\1;33m-v\\0m, \\1;33m--version\\0m            Print version information\n  \\1;33m--verbose\\0m                 Print verbose diagnostic output\n");
    let s = USAGE_EN@;
    assert(s.subrange(365, 368) =~= style_codes()[1]);
    lemma_coded_code(s, 365, 1);
    lemma_coded_plain_run(s, 310, 365);
    assert(s.subrange(307, 310) =~= style_codes()[0]);
    lemma_coded_code(s, 307, 0);
    lemma_coded_plain_run(s, 284, 307);
    assert(s.subrange(280, 284) =~= style_codes()[3]);
    lemma_coded_code(s, 280, 3);
    lemma_coded_plain_run(s, 279, 280);
    assert(s.subrange(276, 279) =~= style_codes()[0]);
    lemma_coded_code(s, 276, 0);
    lemma_coded_plain_run(s, 273, 276);
    assert(s.subrange(270, 273) =~= style_codes()[1]);
    lemma_coded_code(s, 270, 1);
    lemma_coded_plain_run(s, 212, 270);
    assert(s.subrange(209, 212) =~= style_codes()[0]);
    lemma_coded_code(s, 209, 0);
    lemma_coded_plain_run(s, 195, 209);
    assert(s.subrange(191, 195) =~= style_codes()[3]);
    lemma_coded_code(s, 191, 3);
    lemma_coded_plain_run(s, 190, 191);
    assert(s.subrange(187, 190) =~= style_codes()[0]);
    lemma_coded_code(s, 187, 0);
    lemma_coded_plain_run(s, 184, 187);
    assert(s.subrange(181, 184) =~= style_codes()[1]);
    lemma_coded_code(s, 181, 1);
    lemma_coded_plain_run(s, 115, 181);
    assert(s.subrange(112, 115) =~= style_codes()[0]);
    lemma_coded_code(s, 112, 0);
    lemma_coded_plain_run(s, 101, 112);
    assert(s.subrange(97, 101) =~= style_codes()[3]);
    lemma_coded_code(s, 97, 3);
    lemma_coded_plain_run(s, 96, 97);
    assert(s.subrange(93, 96) =~= style_codes()[0]);
    lemma_coded_code(s, 93, 0);
    lemma_coded_plain_run(s, 90, 93);
    assert(s.subrange(87, 90) =~= style_codes()[1]);
    lemma_coded_code(s, 87, 1);
    lemma_coded_plain_run(s, 84, 87);
    assert(s.subrange(81, 84) =~= style_codes()[0]);
    lemma_coded_code(s, 81, 0);
    lemma_coded_plain_run(s, 72, 81);
    assert(s.subrange(69, 72) =~= style_codes()[2]);
    lemma_coded_code(s, 69, 2);
    lemma_coded_plain_run(s, 67, 69);
    assert(s.subrange(64, 67) =~= style_codes()[0]);
    lemma_coded_code(s, 64, 0);
    lemma_coded_plain_run(s, 53, 64);
    assert(s.subrange(49, 53) =~= style_codes()[3]);
    lemma_coded_code(s, 49, 3);
    lemma_coded_plain_run(s, 43, 49);
    assert(s.subrange(40, 43) =~= style_codes()[0]);
    lemma_coded_code(s, 40, 0);
    lemma_coded_plain_run(s, 31, 40);
    assert(s.subrange(25, 31) =~= style_codes()[7]);
    lemma_coded_code(s, 25, 7);
    lemma_coded_plain_run(s, 24, 25);
    assert(s.subrange(21, 24) =~= style_codes()[0]);
    lemma_coded_code(s, 21, 0);
    lemma_coded_plain_run(s, 18, 21);
    assert(s.subrange(15, 18) =~= style_codes()[1]);
    lemma_coded_code(s, 15, 1);
    lemma_coded_plain_run(s, 12, 15);
    assert(s.subrange(9, 12) =~= style_codes()[0]);
    lemma_coded_code(s, 9, 0);
    lemma_coded_plain_run(s, 3, 9);
    assert(s.subrange(0, 3) =~= style_codes()[2]);
    lemma_coded_code(s, 0, 2);
}

/// Part of the English usage template, from index 368 up to index 620, is written
/// with the template codes when what follows it is.
proof fn lemma_usage_en_part_1()
    requires
        coded_from(USAGE_EN@.skip(620), 0),
    ensures
        coded_from(USAGE_EN@.skip(368), 0),
{
    lemma_style_code_shapes();
    reveal_strlit("\\4mUsage:\\0m\n  \\1mdog\\0m \\1;33m[OPTIONS]\\0m [--] \\32m<arguments>\\0m\n\n\\4mExamples:\\0m\n  \\1mdog\\0m \\32mexample.net\\0m                          Query a domain using default settings\n  \\1mdog\\0m \\32mexample.net MX\\0m                       ...looking up MX records instead\n  \\1mdog\\0m \\32mexample.net MX @1.1.1.1\\0m              ...using a specific nameserver instead\n  \\1mdog\\0m \\32mexample.net MX @1.1.1.1\\0m \\1;33m-T\\0m           ...using TCP rather than UDP\n  \\1mdog\\0m \\1;33m-q\\0m \\33mexample.net\\0m \\1;33m-t\\0m \\33mMX\\0m \\1;33m-n\\0m \\33m1.1.1.1\\0m \\1;33m-T\\0m   As above, but using explicit arguments\n\n\\4mQuery options:\\0m\n  \\32m<arguments>\\0m              Human-readable host names, nameservers, types, or classes\n  \\1;33m-q\\0m, \\1;33m--query\\0m=\\33mHOST\\0m         Host name or domain name to query\n  \\1;33m-t\\0m, \\1;33m--type\\0m=\\33mTYPE\\0m          Type of the DNS record being queried (A, MX, NS...)\n  \\1;33m-n\\0m, \\1;33m--nameserver\\0m=\\33mADDR\\0m    Address of the nameserver to send packets to\n  \\1;33m--class\\0m=\\33mCLASS\\0m            Network class of the DNS record being queried (IN, CH, HS)\n\n\\4mSending options:\\0m\n  \\1;33m--edns\\0m=\\33mSETTING\\0m           Whether to OPT in to EDNS (disable, hide, show)\n  \\1;33m--txid\\0m=\\33mNUMBER\\0m            Set the transaction ID to a specific value\n  \\1;33m-Z\\0m=\\33mTWEAKS\\0m                Set uncommon protocol-level tweaks\n\n\\4mProtocol options:\\0m\n  \\1;33m-U\\0m, \\1;33m--udp\\0m                Use the DNS protocol over UDP\n  \\1;33m-T\\0m, \\1;33m--tcp\\0m                Use the DNS protocol over TCP\n  \\1;33m-S\\0m, \\1;33m--tls\\0m                Use the DNS-over-TLS protocol\n  \\1;33m-H\\0m, \\1;33m--https\\0m              Use the DNS-over-HTTPS protocol\n\n\\4mOutput options:\\0m\n  \\1;33m-1\\0m, \\1;33m--short\\0m              Short mode: display nothing but the first result\n  \\1;33m-J\\0m, \\1;33m--json\\0m               Display the output as JSON\n  \\1;33m--color\\0m, \\1;33m--colour\\0m=\\33mWHEN\\0m   When to colourise the output (always, automatic, never)\n  \\1;33m--seconds\\0m                Do not format durations, display them as seconds\n  \\1;33m--time\\0m                   Print how long the response took to arrive\n\n\\4mMeta options:\\0m\n  \\1;33m-?\\0m, \\1;33m--help\\0m               Print list of command-line options\n  \\1;33m-v\\0m, \\1;33m--version\\0m            Print version information\n  \\1;33m--verbose\\0m                 Print verbose diagnostic output\n");
    let s = USAGE_EN@;
    lemma_coded_plain_run(s, 606, 620);
    assert(s.subrange(603, 606) =~= style_codes()[2]);
    lemma_coded_code(s, 603, 2);
    lemma_coded_plain_run(s, 560, 603);
    assert(s.subrange(557, 560) =~= style_codes()[0]);
    lemma_coded_code(s, 557, 0);
    lemma_coded_plain_run(s, 555, 557);
    assert(s.subrange(549, 555) =~= style_codes()[7]);
    lemma_coded_code(s, 549, 7);
    lemma_coded_plain_run(s, 548, 549);
    assert(s.subrange(545, 548) =~= style_codes()[0]);
    lemma_coded_code(s, 545, 0);
    lemma_coded_plain_run(s, 538, 545);
    assert(s.subrange(534, 538) =~= style_codes()[4]);
    lemma_coded_code(s, 534, 4);
    lemma_coded_plain_run(s, 533, 534);
    assert(s.subrange(530, 533) =~= style_codes()[0]);
    lemma_coded_code(s, 530, 0);
    lemma_coded_plain_run(s, 528, 530);
    assert(s.subrange(522, 528) =~= style_codes()[7]);
    lemma_coded_code(s, 522, 7);
    lemma_coded_plain_run(s, 521, 522);
    assert(s.subrange(518, 521) =~= style_codes()[0]);
    lemma_coded_code(s, 518, 0);
    lemma_coded_plain_run(s, 516, 518);
    assert(s.subrange(512, 516) =~= style_codes()[4]);
    lemma_coded_code(s, 512, 4);
    lemma_coded_plain_run(s, 511, 512);
    assert(s.subrange(508, 511) =~= style_codes()[0]);
    lemma_coded_code(s, 508, 0);
    lemma_coded_plain_run(s, 506, 508);
    assert(s.subrange(500, 506) =~= style_codes()[7]);
    lemma_coded_code(s, 500, 7);
    lemma_coded_plain_run(s, 499, 500);
    assert(s.subrange(496, 499) =~= style_codes()[0]);
    lemma_coded_code(s, 496, 0);
    lemma_coded_plain_run(s, 485, 496);
    assert(s.subrange(481, 485) =~= style_codes()[4]);
    lemma_coded_code(s, 481, 4);
    lemma_coded_plain_run(s, 480, 481);
    assert(s.subrange(477, 480) =~= style_codes()[0]);
    lemma_coded_code(s, 477, 0);
    lemma_coded_plain_run(s, 475, 477);
    assert(s.subrange(469, 475) =~= style_codes()[7]);
    lemma_coded_code(s, 469, 7);
    lemma_coded_plain_run(s, 468, 469);
    assert(s.subrange(465, 468) =~= style_codes()[0]);
    lemma_coded_code(s, 465, 0);
    lemma_coded_plain_run(s, 462, 465);
    assert(s.subrange(459, 462) =~= style_codes()[1]);
    lemma_coded_code(s, 459, 1);
    lemma_coded_plain_run(s, 417, 459);
    assert(s.subrange(414, 417) =~= style_codes()[0]);
    lemma_coded_code(s, 414, 0);
    lemma_coded_plain_run(s, 412, 414);
    assert(s.subrange(406, 412) =~= style_codes()[7]);
    lemma_coded_code(s, 406, 7);
    lemma_coded_plain_run(s, 405, 406);
    assert(s.subrange(402, 405) =~= style_codes()[0]);
    lemma_coded_code(s, 402, 0);
    lemma_coded_plain_run(s, 379, 402);
    assert(s.subrange(375, 379) =~= style_codes()[3]);
    lemma_coded_code(s, 375, 3);
    lemma_coded_plain_run(s, 374, 375);
    assert(s.subrange(371, 374) =~= style_codes()[0]);
    lemma_coded_code(s, 371, 0);
    lemma_coded_plain_run(s, 368, 371);
}

/// Part of the English usage template, from index 620 up to index 1021, is written
/// with the template codes when what follows it is.
proof fn lemma_usage_en_part_2()
    requires
        coded_from(USAGE_EN@.skip(1021), 0),
    ensures
        coded_from(USAGE_EN@.skip(620), 0),
{
    lemma_style_code_shapes();
    reveal_strlit("\\4mUsage:\\0m\n  \\1mdog\\0m \\1;33m[OPTIONS]\\0m [--] \\32m<arguments>\\0m\n\n\\4mExamples:\\0m\n  \\1mdog\\0m \\32mexample.net\\0m                          Query a domain using default settings\n  \\1mdog\\0m \\32mexample.net MX\\0m                       ...looking up MX records instead\n  \\1mdog\\0m \\32mexample.net MX @1.1.1.1\\0m              ...using a specific nameserver instead\n  \\1mdog\\0m \\32mexample.net MX @1.1.1.1\\0m \\1;33m-T\\0m           ...using TCP rather than UDP\n  \\1mdog\\0m \\1;33m-q\\0m \\33mexample.net\\0m \\1;33m-t\\0m \\33mMX\\0m \\1;33m-n\\0m \\33m1.1.1.1\\0m \\1;33m-T\\0m   As above, but using explicit arguments\n\n\\4mQuery options:\\0m\n  \\32m<arguments>\\0m              Human-readable host names, nameservers, types, or classes\n  \\1;33m-q\\0m, \\1;33m--query\\0m=\\33mHOST\\0m         Host name or domain name to query\n  \\1;33m-t\\0m, \\1;33m--type\\0m=\\33mTYPE\\0m          Type of the DNS record being queried (A, MX, NS...)\n  \\1;33m-n\\0m, \\1;33m--nameserver\\0m=\\33mADDR\\0m    Address of the nameserver to send packets to\n  \\1;33m--class\\0m=\\33mCLASS\\0m            Network class of the DNS record being queried (IN, CH, HS)\n\n\\4mSending options:\\0m\n  \\1;33m--edns\\0m=\\33mSETTING\\0m           Whether to OPT in to EDNS (disable, hide, show)\n  \\1;33m--txid\\0m=\\33mNUMBER\\0m            Set the transaction ID to a specific value\n  \\1;33m-Z\\0m=\\33mTWEAKS\\0m                Set uncommon protocol-level tweaks\n\n\\4mProtocol options:\\0m\n  \\1;33m-U\\0m, \\1;33m--udp\\0m                Use the DNS protocol over UDP\n  \\1;33m-T\\0m, \\1;33m--tcp\\0m                Use the DNS protocol over TCP\n  \\1;33m-S\\0m, \\1;33m--tls\\0m                Use the DNS-over-TLS protocol\n  \\1;33m-H\\0m, \\1;33m--https\\0m              Use the DNS-over-HTTPS protocol\n\n\\4mOutput options:\\0m\n  \\1;33m-1\\0m, \\1;33m--short\\0m              Short mode: display nothing but the first result\n  \\1;33m-J\\0m, \\1;33m--json\\0m               Display the output as JSON\n  \\1;33m--color\\0m, \\1;33m--colour\\0m=\\33mWHEN\\0m   When to colourise the output (always, automatic, never)\n  \\1;33m--seconds\\0m                Do not format durations, display them as seconds\n  \\1;33m--time\\0m                   Print how long the response took to arrive\n\n\\4mMeta options:\\0m\n  \\1;33m-?\\0m, \\1;33m--help\\0m               Print list of command-line options\n  \\1;33m-v\\0m, \\1;33m--version\\0m            Print version information\n  \\1;33m--verbose\\0m                 Print verbose diagnostic output\n");
    let s = USAGE_EN@;
    assert(s.subrange(1018, 1021) =~= style_codes()[0]);
    lemma_coded_code(s, 1018, 0);
    lemma_coded_plain_run(s, 1011, 1018);
    assert(s.subrange(1005, 1011) =~= style_codes()[7]);
    lemma_coded_code(s, 1005, 7);
    lemma_coded_plain_run(s, 954, 1005);
    assert(s.subrange(951, 954) =~= style_codes()[0]);
    lemma_coded_code(s, 951, 0);
    lemma_coded_plain_run(s, 947, 951);
    assert(s.subrange(943, 947) =~= style_codes()[4]);
    lemma_coded_code(s, 943, 4);
    lemma_coded_plain_run(s, 942, 943);
    assert(s.subrange(939, 942) =~= style_codes()[0]);
    lemma_coded_code(s, 939, 0);
    lemma_coded_plain_run(s, 927, 939);
    assert(s.subrange(921, 927) =~= style_codes()[7]);
    lemma_coded_code(s, 921, 7);
    lemma_coded_plain_run(s, 919, 921);
    assert(s.subrange(916, 919) =~= style_codes()[0]);
    lemma_coded_code(s, 916, 0);
    lemma_coded_plain_run(s, 914, 916);
    assert(s.subrange(908, 914) =~= style_codes()[7]);
    lemma_coded_code(s, 908, 7);
    lemma_coded_plain_run(s, 844, 908);
    assert(s.subrange(841, 844) =~= style_codes()[0]);
    lemma_coded_code(s, 841, 0);
    lemma_coded_plain_run(s, 837, 841);
    assert(s.subrange(833, 837) =~= style_codes()[4]);
    lemma_coded_code(s, 833, 4);
    lemma_coded_plain_run(s, 832, 833);
    assert(s.subrange(829, 832) =~= style_codes()[0]);
    lemma_coded_code(s, 829, 0);
    lemma_coded_plain_run(s, 823, 829);
    assert(s.subrange(817, 823) =~= style_codes()[7]);
    lemma_coded_code(s, 817, 7);
    lemma_coded_plain_run(s, 815, 817);
    assert(s.subrange(812, 815) =~= style_codes()[0]);
    lemma_coded_code(s, 812, 0);
    lemma_coded_plain_run(s, 810, 812);
    assert(s.subrange(804, 810) =~= style_codes()[7]);
    lemma_coded_code(s, 804, 7);
    lemma_coded_plain_run(s, 759, 804);
    assert(s.subrange(756, 759) =~= style_codes()[0]);
    lemma_coded_code(s, 756, 0);
    lemma_coded_plain_run(s, 752, 756);
    assert(s.subrange(748, 752) =~= style_codes()[4]);
    lemma_coded_code(s, 748, 4);
    lemma_coded_plain_run(s, 747, 748);
    assert(s.subrange(744, 747) =~= style_codes()[0]);
    lemma_coded_code(s, 744, 0);
    lemma_coded_plain_run(s, 737, 744);
    assert(s.subrange(731, 737) =~= style_codes()[7]);
    lemma_coded_code(s, 731, 7);
    lemma_coded_plain_run(s, 729, 731);
    assert(s.subrange(726, 729) =~= style_codes()[0]);
    lemma_coded_code(s, 726, 0);
    lemma_coded_plain_run(s, 724, 726);
    assert(s.subrange(718, 724) =~= style_codes()[7]);
    lemma_coded_code(s, 718, 7);
    lemma_coded_plain_run(s, 644, 718);
    assert(s.subrange(641, 644) =~= style_codes()[0]);
    lemma_coded_code(s, 641, 0);
    lemma_coded_plain_run(s, 630, 641);
    assert(s.subrange(626, 630) =~= style_codes()[3]);
    lemma_coded_code(s, 626, 3);
    lemma_coded_plain_run(s, 623, 626);
    assert(s.subrange(620, 623) =~= style_codes()[0]);
    lemma_coded_code(s, 620, 0);
}

/// Part of the English usage template, from index 1021 up to index 1486, is written
/// with the template codes when what follows it is.
proof fn lemma_usage_en_part_3()
    requires
        coded_from(USAGE_EN@.skip(1486), 0),
    ensures
        coded_from(USAGE_EN@.skip(1021), 0),
{
    lemma_style_code_shapes();
    reveal_strlit("\\4mUsage:\\0m\n  \\1mdog\\0m \\1;33m[OPTIONS]\\0m [--] \\32m<arguments>\\0m\n\n\\4mExamples:\\0m\n  \\1mdog\\0m \\32mexample.net\\0m                          Query a domain using default settings\n  \\1mdog\\0m \\32mexample.net MX\\0m                       ...looking up MX records instead\n  \\1mdog\\0m \\32mexample.net MX @1.1.1.1\\0m              ...using a specific nameserver instead\n  \\1mdog\\0m \\32mexample.net MX @1.1.1.1\\0m \\1;33m-T\\0m           ...using TCP rather than UDP\n  \\1mdog\\0m \\1;33m-q\\0m \\33mexample.net\\0m \\1;33m-t\\0m \\33mMX\\0m \\1;33m-n\\0m \\33m1.1.1.1\\0m \\1;33m-T\\0m   As above, but using explicit arguments\n\n\\4mQuery options:\\0m\n  \\32m<arguments>\\0m              Human-readable host names, nameservers, types, or classes\n  \\1;33m-q\\0m, \\1;33m--query\\0m=\\33mHOST\\0m         Host name or domain name to query\n  \\1;33m-t\\0m, \\1;33m--type\\0m=\\33mTYPE\\0m          Type of the DNS record being queried (A, MX, NS...)\n  \\1;33m-n\\0m, \\1;33m--nameserver\\0m=\\33mADDR\\0m    Address of the nameserver to send packets to\n  \\1;33m--class\\0m=\\33mCLASS\\0m            Network class of the DNS record being queried (IN, CH, HS)\n\n\\4mSending options:\\0m\n  \\1;33m--edns\\0m=\\33mSETTING\\0m           Whether to OPT in to EDNS (disable, hide, show)\n  \\1;33m--txid\\0m=\\33mNUMBER\\0m            Set the transaction ID to a specific value\n  \\1;33m-Z\\0m=\\33mTWEAKS\\0m                Set uncommon protocol-level tweaks\n\n\\4mProtocol options:\\0m\n  \\1;33m-U\\0m, \\1;33m--udp\\0m                Use the DNS protocol over UDP\n  \\1;33m-T\\0m, \\1;33m--tcp\\0m                Use the DNS protocol over TCP\n  \\1;33m-S\\0m, \\1;33m--tls\\0m                Use the DNS-over-TLS protocol\n  \\1;33m-H\\0m, \\1;33m--https\\0m              Use the DNS-over-HTTPS protocol\n\n\\4mOutput options:\\0m\n  \\1;33m-1\\0m, \\1;33m--short\\0m              Short mode: display nothing but the first result\n  \\1;33m-J\\0m, \\1;33m--json\\0m               Display the output as JSON\n  \\1;33m--color\\0m, \\1;33m--colour\\0m=\\33mWHEN\\0m   When to colourise the output (always, automatic, never)\n  \\1;33m--seconds\\0m                Do not format durations, display them as seconds\n  \\1;33m--time\\0m                   Print how long the response took to arrive\n\n\\4mMeta options:\\0m\n  \\1;33m-?\\0m, \\1;33m--help\\0m               Print list of command-line options\n  \\1;33m-v\\0m, \\1;33m--version\\0m            Print version information\n  \\1;33m--verbose\\0m                 Print verbose diagnostic output\n");
    let s = USAGE_EN@;
    lemma_coded_plain_run(s, 1438, 1486);
    assert(s.subrange(1435, 1438) =~= style_codes()[0]);
    lemma_coded_code(s, 1435, 0);
    lemma_coded_plain_run(s, 1430, 1435);
    assert(s.subrange(1424, 1430) =~= style_codes()[7]);
    lemma_coded_code(s, 1424, 7);
    lemma_coded_plain_run(s, 1422, 1424);
    assert(s.subrange(1419, 1422) =~= style_codes()[0]);
    lemma_coded_code(s, 1419, 0);
    lemma_coded_plain_run(s, 1417, 1419);
    assert(s.subrange(1411, 1417) =~= style_codes()[7]);
    lemma_coded_code(s, 1411, 7);
    lemma_coded_plain_run(s, 1408, 1411);
    assert(s.subrange(1405, 1408) =~= style_codes()[0]);
    lemma_coded_code(s, 1405, 0);
    lemma_coded_plain_run(s, 1388, 1405);
    assert(s.subrange(1385, 1388) =~= style_codes()[2]);
    lemma_coded_code(s, 1385, 2);
    lemma_coded_plain_run(s, 1333, 1385);
    assert(s.subrange(1330, 1333) =~= style_codes()[0]);
    lemma_coded_code(s, 1330, 0);
    lemma_coded_plain_run(s, 1324, 1330);
    assert(s.subrange(1320, 1324) =~= style_codes()[4]);
    lemma_coded_code(s, 1320, 4);
    lemma_coded_plain_run(s, 1319, 1320);
    assert(s.subrange(1316, 1319) =~= style_codes()[0]);
    lemma_coded_code(s, 1316, 0);
    lemma_coded_plain_run(s, 1314, 1316);
    assert(s.subrange(1308, 1314) =~= style_codes()[7]);
    lemma_coded_code(s, 1308, 7);
    lemma_coded_plain_run(s, 1251, 1308);
    assert(s.subrange(1248, 1251) =~= style_codes()[0]);
    lemma_coded_code(s, 1248, 0);
    lemma_coded_plain_run(s, 1242, 1248);
    assert(s.subrange(1238, 1242) =~= style_codes()[4]);
    lemma_coded_code(s, 1238, 4);
    lemma_coded_plain_run(s, 1237, 1238);
    assert(s.subrange(1234, 1237) =~= style_codes()[0]);
    lemma_coded_code(s, 1234, 0);
    lemma_coded_plain_run(s, 1228, 1234);
    assert(s.subrange(1222, 1228) =~= style_codes()[7]);
    lemma_coded_code(s, 1222, 7);
    lemma_coded_plain_run(s, 1161, 1222);
    assert(s.subrange(1158, 1161) =~= style_codes()[0]);
    lemma_coded_code(s, 1158, 0);
    lemma_coded_plain_run(s, 1151, 1158);
    assert(s.subrange(1147, 1151) =~= style_codes()[4]);
    lemma_coded_code(s, 1147, 4);
    lemma_coded_plain_run(s, 1146, 1147);
    assert(s.subrange(1143, 1146) =~= style_codes()[0]);
    lemma_coded_code(s, 1143, 0);
    lemma_coded_plain_run(s, 1137, 1143);
    assert(s.subrange(1131, 1137) =~= style_codes()[7]);
    lemma_coded_code(s, 1131, 7);
    lemma_coded_plain_run(s, 1128, 1131);
    assert(s.subrange(1125, 1128) =~= style_codes()[0]);
    lemma_coded_code(s, 1125, 0);
    lemma_coded_plain_run(s, 1109, 1125);
    assert(s.subrange(1106, 1109) =~= style_codes()[2]);
    lemma_coded_code(s, 1106, 2);
    lemma_coded_plain_run(s, 1034, 1106);
    assert(s.subrange(1031, 1034) =~= style_codes()[0]);
    lemma_coded_code(s, 1031, 0);
    lemma_coded_plain_run(s, 1026, 1031);
    assert(s.subrange(1022, 1026) =~= style_codes()[4]);
    lemma_coded_code(s, 1022, 4);
    lemma_coded_plain_run(s, 1021, 1022);
}

/// Part of the English usage template, from index 1486 up to index 1908, is written
/// with the template codes when what follows it is.
proof fn lemma_usage_en_part_4()
    requires
        coded_from(USAGE_EN@.skip(1908), 0),
    ensures
        coded_from(USAGE_EN@.skip(1486), 0),
{
    lemma_style_code_shapes();
    reveal_strlit("\\4mUsage:\\0m\n  \\1mdog\\0m \\1;33m[OPTIONS]\\0m [--] \\32m<arguments>\\0m\n\n\\4mExamples:\\0m\n  \\1mdog\\0m \\32mexample.net\\0m                          Query a domain using default settings\n  \\1mdog\\0m \\32mexample.net MX\\0m                       ...looking up MX records instead\n  \\1mdog\\0m \\32mexample.net MX @1.1.1.1\\0m              ...using a specific nameserver instead\n  \\1mdog\\0m \\32mexample.net MX @1.1.1.1\\0m \\1;33m-T\\0m           ...using TCP rather than UDP\n  \\1mdog\\0m \\1;33m-q\\0m \\33mexample.net\\0m \\1;33m-t\\0m \\33mMX\\0m \\1;33m-n\\0m \\33m1.1.1.1\\0m \\1;33m-T\\0m   As above, but using explicit arguments\n\n\\4mQuery options:\\0m\n  \\32m<arguments>\\0m              Human-readable host names, nameservers, types, or classes\n  \\1;33m-q\\0m, \\1;33m--query\\0m=\\33mHOST\\0m         Host name or domain name to query\n  \\1;33m-t\\0m, \\1;33m--type\\0m=\\33mTYPE\\0m          Type of the DNS record being queried (A, MX, NS...)\n  \\1;33m-n\\0m, \\1;33m--nameserver\\0m=\\33mADDR\\0m    Address of the nameserver to send packets to\n  \\1;33m--class\\0m=\\33mCLASS\\0m            Network class of the DNS record being queried (IN, CH, HS)\n\n\\4mSending options:\\0m\n  \\1;33m--edns\\0m=\\33mSETTING\\0m           Whether to OPT in to EDNS (disable, hide, show)\n  \\1;33m--txid\\0m=\\33mNUMBER\\0m            Set the transaction ID to a specific value\n  \\1;33m-Z\\0m=\\33mTWEAKS\\0m                Set uncommon protocol-level tweaks\n\n\\4mProtocol options:\\0m\n  \\1;33m-U\\0m, \\1;33m--udp\\0m                Use the DNS protocol over UDP\n  \\1;33m-T\\0m, \\1;33m--tcp\\0m                Use the DNS protocol over TCP\n  \\1;33m-S\\0m, \\1;33m--tls\\0m                Use the DNS-over-TLS protocol\n  \\1;33m-H\\0m, \\1;33m--https\\0m              Use the DNS-over-HTTPS protocol\n\n\\4mOutput options:\\0m\n  \\1;33m-1\\0m, \\1;33m--short\\0m              Short mode: display nothing but the first result\n  \\1;33m-J\\0m, \\1;33m--json\\0m               Display the output as JSON\n  \\1;33m--color\\0m, \\1;33m--colour\\0m=\\33mWHEN\\0m   When to colourise the output (always, automatic, never)\n  \\1;33m--seconds\\0m                Do not format durations, display them as seconds\n  \\1;33m--time\\0m                   Print how long the response took to arrive\n\n\\4mMeta options:\\0m\n  \\1;33m-?\\0m, \\1;33m--help\\0m               Print list of command-line options\n  \\1;33m-v\\0m, \\1;33m--version\\0m            Print version information\n  \\1;33m--verbose\\0m                 Print verbose diagnostic output\n");
    let s = USAGE_EN@;
    assert(s.subrange(1902, 1908) =~= style_codes()[7]);
    lemma_coded_code(s, 1902, 7);
    lemma_coded_plain_run(s, 1858, 1902);
    assert(s.subrange(1855, 1858) =~= style_codes()[0]);
    lemma_coded_code(s, 1855, 0);
    lemma_coded_plain_run(s, 1849, 1855);
    assert(s.subrange(1843, 1849) =~= style_codes()[7]);
    lemma_coded_code(s, 1843, 7);
    lemma_coded_plain_run(s, 1841, 1843);
    assert(s.subrange(1838, 1841) =~= style_codes()[0]);
    lemma_coded_code(s, 1838, 0);
    lemma_coded_plain_run(s, 1836, 1838);
    assert(s.subrange(1830, 1836) =~= style_codes()[7]);
    lemma_coded_code(s, 1830, 7);
    lemma_coded_plain_run(s, 1765, 1830);
    assert(s.subrange(1762, 1765) =~= style_codes()[0]);
    lemma_coded_code(s, 1762, 0);
    lemma_coded_plain_run(s, 1755, 1762);
    assert(s.subrange(1749, 1755) =~= style_codes()[7]);
    lemma_coded_code(s, 1749, 7);
    lemma_coded_plain_run(s, 1747, 1749);
    assert(s.subrange(1744, 1747) =~= style_codes()[0]);
    lemma_coded_code(s, 1744, 0);
    lemma_coded_plain_run(s, 1742, 1744);
    assert(s.subrange(1736, 1742) =~= style_codes()[7]);
    lemma_coded_code(s, 1736, 7);
    lemma_coded_plain_run(s, 1733, 1736);
    assert(s.subrange(1730, 1733) =~= style_codes()[0]);
    lemma_coded_code(s, 1730, 0);
    lemma_coded_plain_run(s, 1715, 1730);
    assert(s.subrange(1712, 1715) =~= style_codes()[2]);
    lemma_coded_code(s, 1712, 2);
    lemma_coded_plain_run(s, 1665, 1712);
    assert(s.subrange(1662, 1665) =~= style_codes()[0]);
    lemma_coded_code(s, 1662, 0);
    lemma_coded_plain_run(s, 1655, 1662);
    assert(s.subrange(1649, 1655) =~= style_codes()[7]);
    lemma_coded_code(s, 1649, 7);
    lemma_coded_plain_run(s, 1647, 1649);
    assert(s.subrange(1644, 1647) =~= style_codes()[0]);
    lemma_coded_code(s, 1644, 0);
    lemma_coded_plain_run(s, 1642, 1644);
    assert(s.subrange(1636, 1642) =~= style_codes()[7]);
    lemma_coded_code(s, 1636, 7);
    lemma_coded_plain_run(s, 1588, 1636);
    assert(s.subrange(1585, 1588) =~= style_codes()[0]);
    lemma_coded_code(s, 1585, 0);
    lemma_coded_plain_run(s, 1580, 1585);
    assert(s.subrange(1574, 1580) =~= style_codes()[7]);
    lemma_coded_code(s, 1574, 7);
    lemma_coded_plain_run(s, 1572, 1574);
    assert(s.subrange(1569, 1572) =~= style_codes()[0]);
    lemma_coded_code(s, 1569, 0);
    lemma_coded_plain_run(s, 1567, 1569);
    assert(s.subrange(1561, 1567) =~= style_codes()[7]);
    lemma_coded_code(s, 1561, 7);
    lemma_coded_plain_run(s, 1513, 1561);
    assert(s.subrange(1510, 1513) =~= style_codes()[0]);
    lemma_coded_code(s, 1510, 0);
    lemma_coded_plain_run(s, 1505, 1510);
    assert(s.subrange(1499, 1505) =~= style_codes()[7]);
    lemma_coded_code(s, 1499, 7);
    lemma_coded_plain_run(s, 1497, 1499);
    assert(s.subrange(1494, 1497) =~= style_codes()[0]);
    lemma_coded_code(s, 1494, 0);
    lemma_coded_plain_run(s, 1492, 1494);
    assert(s.subrange(1486, 1492) =~= style_codes()[7]);
    lemma_coded_code(s, 1486, 7);
}

/// Part of the English usage template, from index 1908 up to index 2413, is written
/// with the template codes when what follows it is.
proof fn lemma_usage_en_part_5()
    ensures
        coded_from(USAGE_EN@.skip(1908), 0),
{
    lemma_style_code_shapes();
    reveal_strlit("\\4mUsage:\\0m\n  \\1mdog\\0m \\1;33m[OPTIONS]\\0m [--] \\32m<arguments>\\0m\n\n\\4mExamples:\\0m\n  \\1mdog\\0m \\32mexample.net\\0m                          Query a domain using default settings\n  \\1mdog\\0m \\32mexample.net MX\\0m                       ...looking up MX records instead\n  \\1mdog\\0m \\32mexample.net MX @1.1.1.1\\0m              ...using a specific nameserver instead\n  \\1mdog\\0m \\32mexample.net MX @1.1.1.1\\0m \\1;33m-T\\0m           ...using TCP rather than UDP\n  \\1mdog\\0m \\1;33m-q\\0m \\33mexample.net\\0m \\1;33m-t\\0m \\33mMX\\0m \\1;33m-n\\0m \\33m1.1.1.1\\0m \\1;33m-T\\0m   As above, but using explicit arguments\n\n\\4mQuery options:\\0m\n  \\32m<arguments>\\0m              Human-readable host names, nameservers, types, or classes\n  \\1;33m-q\\0m, \\1;33m--query\\0m=\\33mHOST\\0m         Host name or domain name to query\n  \\1;33m-t\\0m, \\1;33m--type\\0m=\\33mTYPE\\0m          Type of the DNS record being queried (A, MX, NS...)\n  \\1;33m-n\\0m, \\1;33m--nameserver\\0m=\\33mADDR\\0m    Address of the nameserver to send packets to\n  \\1;33m--class\\0m=\\33mCLASS\\0m            Network class of the DNS record being queried (IN, CH, HS)\n\n\\4mSending options:\\0m\n  \\1;33m--edns\\0m=\\33mSETTING\\0m           Whether to OPT in to EDNS (disable, hide, show)\n  \\1;33m--txid\\0m=\\33mNUMBER\\0m            Set the transaction ID to a specific value\n  \\1;33m-Z\\0m=\\33mTWEAKS\\0m                Set uncommon protocol-level tweaks\n\n\\4mProtocol options:\\0m\n  \\1;33m-U\\0m, \\1;33m--udp\\0m                Use the DNS protocol over UDP\n  \\1;33m-T\\0m, \\1;33m--tcp\\0m                Use the DNS protocol over TCP\n  \\1;33m-S\\0m, \\1;33m--tls\\0m                Use the DNS-over-TLS protocol\n  \\1;33m-H\\0m, \\1;33m--https\\0m              Use the DNS-over-HTTPS protocol\n\n\\4mOutput options:\\0m\n  \\1;33m-1\\0m, \\1;33m--short\\0m              Short mode: display nothing but the first result\n  \\1;33m-J\\0m, \\1;33m--json\\0m               Display the output as JSON\n  \\1;33m--color\\0m, \\1;33m--colour\\0m=\\33mWHEN\\0m   When to colourise the output (always, automatic, never)\n  \\1;33m--seconds\\0m                Do not format durations, display them as seconds\n  \\1;33m--time\\0m                   Print how long the response took to arrive\n\n\\4mMeta options:\\0m\n  \\1;33m-?\\0m, \\1;33m--help\\0m               Print list of command-line options\n  \\1;33m-v\\0m, \\1;33m--version\\0m            Print version information\n  \\1;33m--verbose\\0m                 Print verbose diagnostic output\n");
    let s = USAGE_EN@;
    lemma_coded_end(s);
    lemma_coded_plain_run(s, 2364, 2413);
    assert(s.subrange(2361, 2364) =~= style_codes()[0]);
    lemma_coded_code(s, 2361, 0);
    lemma_coded_plain_run(s, 2352, 2361);
    assert(s.subrange(2346, 2352) =~= style_codes()[7]);
    lemma_coded_code(s, 2346, 7);
    lemma_coded_plain_run(s, 2306, 2346);
    assert(s.subrange(2303, 2306) =~= style_codes()[0]);
    lemma_coded_code(s, 2303, 0);
    lemma_coded_plain_run(s, 2294, 2303);
    assert(s.subrange(2288, 2294) =~= style_codes()[7]);
    lemma_coded_code(s, 2288, 7);
    lemma_coded_plain_run(s, 2286, 2288);
    assert(s.subrange(2283, 2286) =~= style_codes()[0]);
    lemma_coded_code(s, 2283, 0);
    lemma_coded_plain_run(s, 2281, 2283);
    assert(s.subrange(2275, 2281) =~= style_codes()[7]);
    lemma_coded_code(s, 2275, 7);
    lemma_coded_plain_run(s, 2223, 2275);
    assert(s.subrange(2220, 2223) =~= style_codes()[0]);
    lemma_coded_code(s, 2220, 0);
    lemma_coded_plain_run(s, 2214, 2220);
    assert(s.subrange(2208, 2214) =~= style_codes()[7]);
    lemma_coded_code(s, 2208, 7);
    lemma_coded_plain_run(s, 2206, 2208);
    assert(s.subrange(2203, 2206) =~= style_codes()[0]);
    lemma_coded_code(s, 2203, 0);
    lemma_coded_plain_run(s, 2201, 2203);
    assert(s.subrange(2195, 2201) =~= style_codes()[7]);
    lemma_coded_code(s, 2195, 7);
    lemma_coded_plain_run(s, 2192, 2195);
    assert(s.subrange(2189, 2192) =~= style_codes()[0]);
    lemma_coded_code(s, 2189, 0);
    lemma_coded_plain_run(s, 2176, 2189);
    assert(s.subrange(2173, 2176) =~= style_codes()[2]);
    lemma_coded_code(s, 2173, 2);
    lemma_coded_plain_run(s, 2110, 2173);
    assert(s.subrange(2107, 2110) =~= style_codes()[0]);
    lemma_coded_code(s, 2107, 0);
    lemma_coded_plain_run(s, 2101, 2107);
    assert(s.subrange(2095, 2101) =~= style_codes()[7]);
    lemma_coded_code(s, 2095, 7);
    lemma_coded_plain_run(s, 2028, 2095);
    assert(s.subrange(2025, 2028) =~= style_codes()[0]);
    lemma_coded_code(s, 2025, 0);
    lemma_coded_plain_run(s, 2016, 2025);
    assert(s.subrange(2010, 2016) =~= style_codes()[7]);
    lemma_coded_code(s, 2010, 7);
    lemma_coded_plain_run(s, 1949, 2010);
    assert(s.subrange(1946, 1949) =~= style_codes()[0]);
    lemma_coded_code(s, 1946, 0);
    lemma_coded_plain_run(s, 1942, 1946);
    assert(s.subrange(1938, 1942) =~= style_codes()[4]);
    lemma_coded_code(s, 1938, 4);
    lemma_coded_plain_run(s, 1937, 1938);
    assert(s.subrange(1934, 1937) =~= style_codes()[0]);
    lemma_coded_code(s, 1934, 0);
    lemma_coded_plain_run(s, 1926, 1934);
    assert(s.subrange(1920, 1926) =~= style_codes()[7]);
    lemma_coded_code(s, 1920, 7);
    lemma_coded_plain_run(s, 1918, 1920);
    assert(s.subrange(1915, 1918) =~= style_codes()[0]);
    lemma_coded_code(s, 1915, 0);
    lemma_coded_plain_run(s, 1908, 1915);
}

/// The English usage template is written with the template codes.
proof fn lemma_usage_en_coded()
    ensures
        coded_from(USAGE_EN@, 0),
{
    lemma_usage_en_part_5();
    lemma_usage_en_part_4();
    lemma_usage_en_part_3();
    lemma_usage_en_part_2();
    lemma_usage_en_part_1();
    lemma_usage_en_part_0();
    assert(USAGE_EN@.skip(0) =~= USAGE_EN@);
}

/// Part of the Chinese usage template, from index 0 up to index 266, is written
/// with the template codes when what follows it is.
proof fn lemma_usage_zh_part_0()
    requires
        coded_from(USAGE_ZH@.skip(266), 0),
    ensures
        coded_from(USAGE_ZH@.skip(0), 0),
{
    lemma_style_code_shapes();
    reveal_strlit("\\4m用法:\\0m\n  \\1mdog\\0m \\1;33m[选项]\\0m [--] \\32m<参数>\\0m\n\n\\4m示例:\\0m\n  \\1mdog\\0m \\32mexample.net\\0m                          使用默认设置查询域名\n  \\1mdog\\0m \\32mexample.net MX\\0m                       查询MX记录\n  \\1mdog\\0m \\32mexample.net MX @1.1.1.1\\0m              使用指定DNS服务器\n  \\1mdog\\0m \\32mexample.net MX @1.1.1.1\\0m \\1;33m-T\\0m           使用TCP DNS\n  \\1mdog\\0m \\1;33m-q\\0m \\33mexample.net\\0m \\1;33m-t\\0m \\33mMX\\0m \\1;33m-n\\0m \\33m1.1.1.1\\0m \\1;33m-T\\0m   与上例相同但使用显式参数\n\n\\4m查询选项:\\0m\n  \\32m<参数>\\0m                   主机名、DNS服务器、记录类型或类别\n  \\1;33m-q\\0m, \\1;33m--query\\0m=\\33mHOST\\0m         要查询的主机名或域名\n  \\1;33m-t\\0m, \\1;33m--type\\0m=\\33mTYPE\\0m          要查询的DNS记录类型 (A, MX, NS...)\n  \\1;33m-n\\0m, \\1;33m--nameserver\\0m=\\33mADDR\\0m    要请求的DNS服务器地址\n  \\1;33m--class\\0m=\\33mCLASS\\0m            要查询的网络类别 (IN, CH, HS)\n\n\\4m传输选项:\\0m\n  \\1;33m--edns\\0m=\\33mSETTING\\0m           是否启用EDNS (disable, hide, show)\n  \\1;33m--txid\\0m=\\33mNUMBER\\0m            设置事务ID为指定值\n  \\1;33m-Z\\0m=\\33mTWEAKS\\0m                设置协议级调整选项\n\n\\4m协议选项:\\0m\n  \\1;33m-U\\0m, \\1;33m--udp\\0m                使用UDP DNS\n  \\1;33m-T\\0m, \\1;33m--tcp\\0m                使用TCP DNS\n  \\1;33m-S\\0m, \\1;33m--tls\\0m                使用DNS-over-TLS\n  \\1;33m-H\\0m, \\1;33m--https\\0m              使用DNS-over-HTTPS\n\n\\4m输出选项:\\0m\n  \\1;33m-1\\0m, \\1;33m--short\\0m              简洁模式：仅输出第一个结果\n  \\1;33m-J\\0m, \\1;33m--json\\0m               以JSON输出结果\n  \\1;33m--color\\0m, \\1;33m--colour\\0m=\\33mWHEN\\0m   彩色输出配置 (always, automatic, never)\n  \\1;33m--seconds\\0m                以秒显示缓存时间\n  \\1;33m--time\\0m                   显示响应耗时\n\n\\4m全局选项:\\0m\n  \\1;33m-?\\0m, \\1;33m--help\\0m               打印命令行选项列表\n  \\1;33m-v\\0m, \\1;33m--version\\0m            打印版本信息\n  \\1;33m--verbose\\0m                打印详细诊断输出\n");
    let s = USAGE_ZH@;
    assert(s.subrange(263, 266) =~= style_codes()[1]);
    lemma_coded_code(s, 263, 1);
    lemma_coded_plain_run(s, 236, 263);
    assert(s.subrange(233, 236) =~= style_codes()[0]);
    lemma_coded_code(s, 233, 0);
    lemma_coded_plain_run(s, 210, 233);
    assert(s.subrange(206, 210) =~= style_codes()[3]);
    lemma_coded_code(s, 206, 3);
    lemma_coded_plain_run(s, 205, 206);
    assert(s.subrange(202, 205) =~= style_codes()[0]);
    lemma_coded_code(s, 202, 0);
    lemma_coded_plain_run(s, 199, 202);
    assert(s.subrange(196, 199) =~= style_codes()[1]);
    lemma_coded_code(s, 196, 1);
    lemma_coded_plain_run(s, 164, 196);
    assert(s.subrange(161, 164) =~= style_codes()[0]);
    lemma_coded_code(s, 161, 0);
    lemma_coded_plain_run(s, 147, 161);
    assert(s.subrange(143, 147) =~= style_codes()[3]);
    lemma_coded_code(s, 143, 3);
    lemma_coded_plain_run(s, 142, 143);
    assert(s.subrange(139, 142) =~= style_codes()[0]);
    lemma_coded_code(s, 139, 0);
    lemma_coded_plain_run(s, 136, 139);
    assert(s.subrange(133, 136) =~= style_codes()[1]);
    lemma_coded_code(s, 133, 1);
    lemma_coded_plain_run(s, 94, 133);
    assert(s.subrange(91, 94) =~= style_codes()[0]);
    lemma_coded_code(s, 91, 0);
    lemma_coded_plain_run(s, 80, 91);
    assert(s.subrange(76, 80) =~= style_codes()[3]);
    lemma_coded_code(s, 76, 3);
    lemma_coded_plain_run(s, 75, 76);
    assert(s.subrange(72, 75) =~= style_codes()[0]);
    lemma_coded_code(s, 72, 0);
    lemma_coded_plain_run(s, 69, 72);
    assert(s.subrange(66, 69) =~= style_codes()[1]);
    lemma_coded_code(s, 66, 1);
    lemma_coded_plain_run(s, 63, 66);
    assert(s.subrange(60, 63) =~= style_codes()[0]);
    lemma_coded_code(s, 60, 0);
    lemma_coded_plain_run(s, 57, 60);
    assert(s.subrange(54, 57) =~= style_codes()[2]);
    lemma_coded_code(s, 54, 2);
    lemma_coded_plain_run(s, 52, 54);
    assert(s.subrange(49, 52) =~= style_codes()[0]);
    lemma_coded_code(s, 49, 0);
    lemma_coded_plain_run(s, 45, 49);
    assert(s.subrange(41, 45) =~= style_codes()[3]);
    lemma_coded_code(s, 41, 3);
    lemma_coded_plain_run(s, 35, 41);
    assert(s.subrange(32, 35) =~= style_codes()[0]);
    lemma_coded_code(s, 32, 0);
    lemma_coded_plain_run(s, 28, 32);
    assert(s.subrange(22, 28) =~= style_codes()[7]);
    lemma_coded_code(s, 22, 7);
    lemma_coded_plain_run(s, 21, 22);
    assert(s.subrange(18, 21) =~= style_codes()[0]);
    lemma_coded_code(s, 18, 0);
    lemma_coded_plain_run(s, 15, 18);
    assert(s.subrange(12, 15) =~= style_codes()[1]);
    lemma_coded_code(s, 12, 1);
    lemma_coded_plain_run(s, 9, 12);
    assert(s.subrange(6, 9) =~= style_codes()[0]);
    lemma_coded_code(s, 6, 0);
    lemma_coded_plain_run(s, 3, 6);
    assert(s.subrange(0, 3) =~= style_codes()[2]);
    lemma_coded_code(s, 0, 2);
}

/// Part of the Chinese usage template, from index 266 up to index 464, is written
/// with the template codes when what follows it is.
proof fn lemma_usage_zh_part_1()
    requires
        coded_from(USAGE_ZH@.skip(464), 0),
    ensures
        coded_from(USAGE_ZH@.skip(266), 0),
{
    lemma_style_code_shapes();
    reveal_strlit("\\4m用法:\\0m\n  \\1mdog\\0m \\1;33m[选项]\\0m [--] \\32m<参数>\\0m\n\n\\4m示例:\\0m\n  \\1mdog\\0m \\32mexample.net\\0m                          使用默认设置查询域名\n  \\1mdog\\0m \\32mexample.net MX\\0m                       查询MX记录\n  \\1mdog\\0m \\32mexample.net MX @1.1.1.1\\0m              使用指定DNS服务器\n  \\1mdog\\0m \\32mexample.net MX @1.1.1.1\\0m \\1;33m-T\\0m           使用TCP DNS\n  \\1mdog\\0m \\1;33m-q\\0m \\33mexample.net\\0m \\1;33m-t\\0m \\33mMX\\0m \\1;33m-n\\0m \\33m1.1.1.1\\0m \\1;33m-T\\0m   与上例相同但使用显式参数\n\n\\4m查询选项:\\0m\n  \\32m<参数>\\0m                   主机名、DNS服务器、记录类型或类别\n  \\1;33m-q\\0m, \\1;33m--query\\0m=\\33mHOST\\0m         要查询的主机名或域名\n  \\1;33m-t\\0m, \\1;33m--type\\0m=\\33mTYPE\\0m          要查询的DNS记录类型 (A, MX, NS...)\n  \\1;33m-n\\0m, \\1;33m--nameserver\\0m=\\33mADDR\\0m    要请求的DNS服务器地址\n  \\1;33m--class\\0m=\\33mCLASS\\0m            要查询的网络类别 (IN, CH, HS)\n\n\\4m传输选项:\\0m\n  \\1;33m--edns\\0m=\\33mSETTING\\0m           是否启用EDNS (disable, hide, show)\n  \\1;33m--txid\\0m=\\33mNUMBER\\0m            设置事务ID为指定值\n  \\1;33m-Z\\0m=\\33mTWEAKS\\0m                设置协议级调整选项\n\n\\4m协议选项:\\0m\n  \\1;33m-U\\0m, \\1;33m--udp\\0m                使用UDP DNS\n  \\1;33m-T\\0m, \\1;33m--tcp\\0m                使用TCP DNS\n  \\1;33m-S\\0m, \\1;33m--tls\\0m                使用DNS-over-TLS\n  \\1;33m-H\\0m, \\1;33m--https\\0m              使用DNS-over-HTTPS\n\n\\4m输出选项:\\0m\n  \\1;33m-1\\0m, \\1;33m--short\\0m              简洁模式：仅输出第一个结果\n  \\1;33m-J\\0m, \\1;33m--json\\0m               以JSON输出结果\n  \\1;33m--color\\0m, \\1;33m--colour\\0m=\\33mWHEN\\0m   彩色输出配置 (always, automatic, never)\n  \\1;33m--seconds\\0m                以秒显示缓存时间\n  \\1;33m--time\\0m                   显示响应耗时\n\n\\4m全局选项:\\0m\n  \\1;33m-?\\0m, \\1;33m--help\\0m               打印命令行选项列表\n  \\1;33m-v\\0m, \\1;33m--version\\0m            打印版本信息\n  \\1;33m--verbose\\0m                打印详细诊断输出\n");
    let s = USAGE_ZH@;
    lemma_coded_plain_run(s, 459, 464);
    assert(s.subrange(456, 459) =~= style_codes()[2]);
    lemma_coded_code(s, 456, 2);
    lemma_coded_plain_run(s, 439, 456);
    assert(s.subrange(436, 439) =~= style_codes()[0]);
    lemma_coded_code(s, 436, 0);
    lemma_coded_plain_run(s, 434, 436);
    assert(s.subrange(428, 434) =~= style_codes()[7]);
    lemma_coded_code(s, 428, 7);
    lemma_coded_plain_run(s, 427, 428);
    assert(s.subrange(424, 427) =~= style_codes()[0]);
    lemma_coded_code(s, 424, 0);
    lemma_coded_plain_run(s, 417, 424);
    assert(s.subrange(413, 417) =~= style_codes()[4]);
    lemma_coded_code(s, 413, 4);
    lemma_coded_plain_run(s, 412, 413);
    assert(s.subrange(409, 412) =~= style_codes()[0]);
    lemma_coded_code(s, 409, 0);
    lemma_coded_plain_run(s, 407, 409);
    assert(s.subrange(401, 407) =~= style_codes()[7]);
    lemma_coded_code(s, 401, 7);
    lemma_coded_plain_run(s, 400, 401);
    assert(s.subrange(397, 400) =~= style_codes()[0]);
    lemma_coded_code(s, 397, 0);
    lemma_coded_plain_run(s, 395, 397);
    assert(s.subrange(391, 395) =~= style_codes()[4]);
    lemma_coded_code(s, 391, 4);
    lemma_coded_plain_run(s, 390, 391);
    assert(s.subrange(387, 390) =~= style_codes()[0]);
    lemma_coded_code(s, 387, 0);
    lemma_coded_plain_run(s, 385, 387);
    assert(s.subrange(379, 385) =~= style_codes()[7]);
    lemma_coded_code(s, 379, 7);
    lemma_coded_plain_run(s, 378, 379);
    assert(s.subrange(375, 378) =~= style_codes()[0]);
    lemma_coded_code(s, 375, 0);
    lemma_coded_plain_run(s, 364, 375);
    assert(s.subrange(360, 364) =~= style_codes()[4]);
    lemma_coded_code(s, 360, 4);
    lemma_coded_plain_run(s, 359, 360);
    assert(s.subrange(356, 359) =~= style_codes()[0]);
    lemma_coded_code(s, 356, 0);
    lemma_coded_plain_run(s, 354, 356);
    assert(s.subrange(348, 354) =~= style_codes()[7]);
    lemma_coded_code(s, 348, 7);
    lemma_coded_plain_run(s, 347, 348);
    assert(s.subrange(344, 347) =~= style_codes()[0]);
    lemma_coded_code(s, 344, 0);
    lemma_coded_plain_run(s, 341, 344);
    assert(s.subrange(338, 341) =~= style_codes()[1]);
    lemma_coded_code(s, 338, 1);
    lemma_coded_plain_run(s, 315, 338);
    assert(s.subrange(312, 315) =~= style_codes()[0]);
    lemma_coded_code(s, 312, 0);
    lemma_coded_plain_run(s, 310, 312);
    assert(s.subrange(304, 310) =~= style_codes()[7]);
    lemma_coded_code(s, 304, 7);
    lemma_coded_plain_run(s, 303, 304);
    assert(s.subrange(300, 303) =~= style_codes()[0]);
    lemma_coded_code(s, 300, 0);
    lemma_coded_plain_run(s, 277, 300);
    assert(s.subrange(273, 277) =~= style_codes()[3]);
    lemma_coded_code(s, 273, 3);
    lemma_coded_plain_run(s, 272, 273);
    assert(s.subrange(269, 272) =~= style_codes()[0]);
    lemma_coded_code(s, 269, 0);
    lemma_coded_plain_run(s, 266, 269);
}

/// Part of the Chinese usage template, from index 464 up to index 744, is written
/// with the template codes when what follows it is.
proof fn lemma_usage_zh_part_2()
    requires
        coded_from(USAGE_ZH@.skip(744), 0),
    ensures
        coded_from(USAGE_ZH@.skip(464), 0),
{
    lemma_style_code_shapes();
    reveal_strlit("\\4m用法:\\0m\n  \\1mdog\\0m \\1;33m[选项]\\0m [--] \\32m<参数>\\0m\n\n\\4m示例:\\0m\n  \\1mdog\\0m \\32mexample.net\\0m                          使用默认设置查询域名\n  \\1mdog\\0m \\32mexample.net MX\\0m                       查询MX记录\n  \\1mdog\\0m \\32mexample.net MX @1.1.1.1\\0m              使用指定DNS服务器\n  \\1mdog\\0m \\32mexample.net MX @1.1.1.1\\0m \\1;33m-T\\0m           使用TCP DNS\n  \\1mdog\\0m \\1;33m-q\\0m \\33mexample.net\\0m \\1;33m-t\\0m \\33mMX\\0m \\1;33m-n\\0m \\33m1.1.1.1\\0m \\1;33m-T\\0m   与上例相同但使用显式参数\n\n\\4m查询选项:\\0m\n  \\32m<参数>\\0m                   主机名、DNS服务器、记录类型或类别\n  \\1;33m-q\\0m, \\1;33m--query\\0m=\\33mHOST\\0m         要查询的主机名或域名\n  \\1;33m-t\\0m, \\1;33m--type\\0m=\\33mTYPE\\0m          要查询的DNS记录类型 (A, MX, NS...)\n  \\1;33m-n\\0m, \\1;33m--nameserver\\0m=\\33mADDR\\0m    要请求的DNS服务器地址\n  \\1;33m--class\\0m=\\33mCLASS\\0m            要查询的网络类别 (IN, CH, HS)\n\n\\4m传输选项:\\0m\n  \\1;33m--edns\\0m=\\33mSETTING\\0m           是否启用EDNS (disable, hide, show)\n  \\1;33m--txid\\0m=\\33mNUMBER\\0m            设置事务ID为指定值\n  \\1;33m-Z\\0m=\\33mTWEAKS\\0m                设置协议级调整选项\n\n\\4m协议选项:\\0m\n  \\1;33m-U\\0m, \\1;33m--udp\\0m                使用UDP DNS\n  \\1;33m-T\\0m, \\1;33m--tcp\\0m                使用TCP DNS\n  \\1;33m-S\\0m, \\1;33m--tls\\0m                使用DNS-over-TLS\n  \\1;33m-H\\0m, \\1;33m--https\\0m              使用DNS-over-HTTPS\n\n\\4m输出选项:\\0m\n  \\1;33m-1\\0m, \\1;33m--short\\0m              简洁模式：仅输出第一个结果\n  \\1;33m-J\\0m, \\1;33m--json\\0m               以JSON输出结果\n  \\1;33m--color\\0m, \\1;33m--colour\\0m=\\33mWHEN\\0m   彩色输出配置 (always, automatic, never)\n  \\1;33m--seconds\\0m                以秒显示缓存时间\n  \\1;33m--time\\0m                   显示响应耗时\n\n\\4m全局选项:\\0m\n  \\1;33m-?\\0m, \\1;33m--help\\0m               打印命令行选项列表\n  \\1;33m-v\\0m, \\1;33m--version\\0m            打印版本信息\n  \\1;33m--verbose\\0m                打印详细诊断输出\n");
    let s = USAGE_ZH@;
    assert(s.subrange(741, 744) =~= style_codes()[0]);
    lemma_coded_code(s, 741, 0);
    lemma_coded_plain_run(s, 734, 741);
    assert(s.subrange(728, 734) =~= style_codes()[7]);
    lemma_coded_code(s, 728, 7);
    lemma_coded_plain_run(s, 709, 728);
    assert(s.subrange(706, 709) =~= style_codes()[0]);
    lemma_coded_code(s, 706, 0);
    lemma_coded_plain_run(s, 702, 706);
    assert(s.subrange(698, 702) =~= style_codes()[4]);
    lemma_coded_code(s, 698, 4);
    lemma_coded_plain_run(s, 697, 698);
    assert(s.subrange(694, 697) =~= style_codes()[0]);
    lemma_coded_code(s, 694, 0);
    lemma_coded_plain_run(s, 682, 694);
    assert(s.subrange(676, 682) =~= style_codes()[7]);
    lemma_coded_code(s, 676, 7);
    lemma_coded_plain_run(s, 674, 676);
    assert(s.subrange(671, 674) =~= style_codes()[0]);
    lemma_coded_code(s, 671, 0);
    lemma_coded_plain_run(s, 669, 671);
    assert(s.subrange(663, 669) =~= style_codes()[7]);
    lemma_coded_code(s, 663, 7);
    lemma_coded_plain_run(s, 624, 663);
    assert(s.subrange(621, 624) =~= style_codes()[0]);
    lemma_coded_code(s, 621, 0);
    lemma_coded_plain_run(s, 617, 621);
    assert(s.subrange(613, 617) =~= style_codes()[4]);
    lemma_coded_code(s, 613, 4);
    lemma_coded_plain_run(s, 612, 613);
    assert(s.subrange(609, 612) =~= style_codes()[0]);
    lemma_coded_code(s, 609, 0);
    lemma_coded_plain_run(s, 603, 609);
    assert(s.subrange(597, 603) =~= style_codes()[7]);
    lemma_coded_code(s, 597, 7);
    lemma_coded_plain_run(s, 595, 597);
    assert(s.subrange(592, 595) =~= style_codes()[0]);
    lemma_coded_code(s, 592, 0);
    lemma_coded_plain_run(s, 590, 592);
    assert(s.subrange(584, 590) =~= style_codes()[7]);
    lemma_coded_code(s, 584, 7);
    lemma_coded_plain_run(s, 562, 584);
    assert(s.subrange(559, 562) =~= style_codes()[0]);
    lemma_coded_code(s, 559, 0);
    lemma_coded_plain_run(s, 555, 559);
    assert(s.subrange(551, 555) =~= style_codes()[4]);
    lemma_coded_code(s, 551, 4);
    lemma_coded_plain_run(s, 550, 551);
    assert(s.subrange(547, 550) =~= style_codes()[0]);
    lemma_coded_code(s, 547, 0);
    lemma_coded_plain_run(s, 540, 547);
    assert(s.subrange(534, 540) =~= style_codes()[7]);
    lemma_coded_code(s, 534, 7);
    lemma_coded_plain_run(s, 532, 534);
    assert(s.subrange(529, 532) =~= style_codes()[0]);
    lemma_coded_code(s, 529, 0);
    lemma_coded_plain_run(s, 527, 529);
    assert(s.subrange(521, 527) =~= style_codes()[7]);
    lemma_coded_code(s, 521, 7);
    lemma_coded_plain_run(s, 481, 521);
    assert(s.subrange(478, 481) =~= style_codes()[0]);
    lemma_coded_code(s, 478, 0);
    lemma_coded_plain_run(s, 474, 478);
    assert(s.subrange(470, 474) =~= style_codes()[3]);
    lemma_coded_code(s, 470, 3);
    lemma_coded_plain_run(s, 467, 470);
    assert(s.subrange(464, 467) =~= style_codes()[0]);
    lemma_coded_code(s, 464, 0);
}

/// Part of the Chinese usage template, from index 744 up to index 1055, is written
/// with the template codes when what follows it is.
proof fn lemma_usage_zh_part_3()
    requires
        coded_from(USAGE_ZH@.skip(1055), 0),
    ensures
        coded_from(USAGE_ZH@.skip(744), 0),
{
    lemma_style_code_shapes();
    reveal_strlit("\\4m用法:\\0m\n  \\1mdog\\0m \\1;33m[选项]\\0m [--] \\32m<参数>\\0m\n\n\\4m示例:\\0m\n  \\1mdog\\0m \\32mexample.net\\0m                          使用默认设置查询域名\n  \\1mdog\\0m \\32mexample.net MX\\0m                       查询MX记录\n  \\1mdog\\0m \\32mexample.net MX @1.1.1.1\\0m              使用指定DNS服务器\n  \\1mdog\\0m \\32mexample.net MX @1.1.1.1\\0m \\1;33m-T\\0m           使用TCP DNS\n  \\1mdog\\0m \\1;33m-q\\0m \\33mexample.net\\0m \\1;33m-t\\0m \\33mMX\\0m \\1;33m-n\\0m \\33m1.1.1.1\\0m \\1;33m-T\\0m   与上例相同但使用显式参数\n\n\\4m查询选项:\\0m\n  \\32m<参数>\\0m                   主机名、DNS服务器、记录类型或类别\n  \\1;33m-q\\0m, \\1;33m--query\\0m=\\33mHOST\\0m         要查询的主机名或域名\n  \\1;33m-t\\0m, \\1;33m--type\\0m=\\33mTYPE\\0m          要查询的DNS记录类型 (A, MX, NS...)\n  \\1;33m-n\\0m, \\1;33m--nameserver\\0m=\\33mADDR\\0m    要请求的DNS服务器地址\n  \\1;33m--class\\0m=\\33mCLASS\\0m            要查询的网络类别 (IN, CH, HS)\n\n\\4m传输选项:\\0m\n  \\1;33m--edns\\0m=\\33mSETTING\\0m           是否启用EDNS (disable, hide, show)\n  \\1;33m--txid\\0m=\\33mNUMBER\\0m            设置事务ID为指定值\n  \\1;33m-Z\\0m=\\33mTWEAKS\\0m                设置协议级调整选项\n\n\\4m协议选项:\\0m\n  \\1;33m-U\\0m, \\1;33m--udp\\0m                使用UDP DNS\n  \\1;33m-T\\0m, \\1;33m--tcp\\0m                使用TCP DNS\n  \\1;33m-S\\0m, \\1;33m--tls\\0m                使用DNS-over-TLS\n  \\1;33m-H\\0m, \\1;33m--https\\0m              使用DNS-over-HTTPS\n\n\\4m输出选项:\\0m\n  \\1;33m-1\\0m, \\1;33m--short\\0m              简洁模式：仅输出第一个结果\n  \\1;33m-J\\0m, \\1;33m--json\\0m               以JSON输出结果\n  \\1;33m--color\\0m, \\1;33m--colour\\0m=\\33mWHEN\\0m   彩色输出配置 (always, automatic, never)\n  \\1;33m--seconds\\0m                以秒显示缓存时间\n  \\1;33m--time\\0m                   显示响应耗时\n\n\\4m全局选项:\\0m\n  \\1;33m-?\\0m, \\1;33m--help\\0m               打印命令行选项列表\n  \\1;33m-v\\0m, \\1;33m--version\\0m            打印版本信息\n  \\1;33m--verbose\\0m                打印详细诊断输出\n");
    let s = USAGE_ZH@;
    lemma_coded_plain_run(s, 1027, 1055);
    assert(s.subrange(1024, 1027) =~= style_codes()[0]);
    lemma_coded_code(s, 1024, 0);
    lemma_coded_plain_run(s, 1019, 1024);
    assert(s.subrange(1013, 1019) =~= style_codes()[7]);
    lemma_coded_code(s, 1013, 7);
    lemma_coded_plain_run(s, 1011, 1013);
    assert(s.subrange(1008, 1011) =~= style_codes()[0]);
    lemma_coded_code(s, 1008, 0);
    lemma_coded_plain_run(s, 1006, 1008);
    assert(s.subrange(1000, 1006) =~= style_codes()[7]);
    lemma_coded_code(s, 1000, 7);
    lemma_coded_plain_run(s, 997, 1000);
    assert(s.subrange(994, 997) =~= style_codes()[0]);
    lemma_coded_code(s, 994, 0);
    lemma_coded_plain_run(s, 989, 994);
    assert(s.subrange(986, 989) =~= style_codes()[2]);
    lemma_coded_code(s, 986, 2);
    lemma_coded_plain_run(s, 959, 986);
    assert(s.subrange(956, 959) =~= style_codes()[0]);
    lemma_coded_code(s, 956, 0);
    lemma_coded_plain_run(s, 950, 956);
    assert(s.subrange(946, 950) =~= style_codes()[4]);
    lemma_coded_code(s, 946, 4);
    lemma_coded_plain_run(s, 945, 946);
    assert(s.subrange(942, 945) =~= style_codes()[0]);
    lemma_coded_code(s, 942, 0);
    lemma_coded_plain_run(s, 940, 942);
    assert(s.subrange(934, 940) =~= style_codes()[7]);
    lemma_coded_code(s, 934, 7);
    lemma_coded_plain_run(s, 909, 934);
    assert(s.subrange(906, 909) =~= style_codes()[0]);
    lemma_coded_code(s, 906, 0);
    lemma_coded_plain_run(s, 900, 906);
    assert(s.subrange(896, 900) =~= style_codes()[4]);
    lemma_coded_code(s, 896, 4);
    lemma_coded_plain_run(s, 895, 896);
    assert(s.subrange(892, 895) =~= style_codes()[0]);
    lemma_coded_code(s, 892, 0);
    lemma_coded_plain_run(s, 886, 892);
    assert(s.subrange(880, 886) =~= style_codes()[7]);
    lemma_coded_code(s, 880, 7);
    lemma_coded_plain_run(s, 836, 880);
    assert(s.subrange(833, 836) =~= style_codes()[0]);
    lemma_coded_code(s, 833, 0);
    lemma_coded_plain_run(s, 826, 833);
    assert(s.subrange(822, 826) =~= style_codes()[4]);
    lemma_coded_code(s, 822, 4);
    lemma_coded_plain_run(s, 821, 822);
    assert(s.subrange(818, 821) =~= style_codes()[0]);
    lemma_coded_code(s, 818, 0);
    lemma_coded_plain_run(s, 812, 818);
    assert(s.subrange(806, 812) =~= style_codes()[7]);
    lemma_coded_code(s, 806, 7);
    lemma_coded_plain_run(s, 803, 806);
    assert(s.subrange(800, 803) =~= style_codes()[0]);
    lemma_coded_code(s, 800, 0);
    lemma_coded_plain_run(s, 795, 800);
    assert(s.subrange(792, 795) =~= style_codes()[2]);
    lemma_coded_code(s, 792, 2);
    lemma_coded_plain_run(s, 757, 792);
    assert(s.subrange(754, 757) =~= style_codes()[0]);
    lemma_coded_code(s, 754, 0);
    lemma_coded_plain_run(s, 749, 754);
    assert(s.subrange(745, 749) =~= style_codes()[4]);
    lemma_coded_code(s, 745, 4);
    lemma_coded_plain_run(s, 744, 745);
}

/// Part of the Chinese usage template, from index 1055 up to index 1365, is written
/// with the template codes when what follows it is.
proof fn lemma_usage_zh_part_4()
    requires
        coded_from(USAGE_ZH@.skip(1365), 0),
    ensures
        coded_from(USAGE_ZH@.skip(1055), 0),
{
    lemma_style_code_shapes();
    reveal_strlit("\\4m用法:\\0m\n  \\1mdog\\0m \\1;33m[选项]\\0m [--] \\32m<参数>\\0m\n\n\\4m示例:\\0m\n  \\1mdog\\0m \\32mexample.net\\0m                          使用默认设置查询域名\n  \\1mdog\\0m \\32mexample.net MX\\0m                       查询MX记录\n  \\1mdog\\0m \\32mexample.net MX @1.1.1.1\\0m              使用指定DNS服务器\n  \\1mdog\\0m \\32mexample.net MX @1.1.1.1\\0m \\1;33m-T\\0m           使用TCP DNS\n  \\1mdog\\0m \\1;33m-q\\0m \\33mexample.net\\0m \\1;33m-t\\0m \\33mMX\\0m \\1;33m-n\\0m \\33m1.1.1.1\\0m \\1;33m-T\\0m   与上例相同但使用显式参数\n\n\\4m查询选项:\\0m\n  \\32m<参数>\\0m                   主机名、DNS服务器、记录类型或类别\n  \\1;33m-q\\0m, \\1;33m--query\\0m=\\33mHOST\\0m         要查询的主机名或域名\n  \\1;33m-t\\0m, \\1;33m--type\\0m=\\33mTYPE\\0m          要查询的DNS记录类型 (A, MX, NS...)\n  \\1;33m-n\\0m, \\1;33m--nameserver\\0m=\\33mADDR\\0m    要请求的DNS服务器地址\n  \\1;33m--class\\0m=\\33mCLASS\\0m            要查询的网络类别 (IN, CH, HS)\n\n\\4m传输选项:\\0m\n  \\1;33m--edns\\0m=\\33mSETTING\\0m           是否启用EDNS (disable, hide, show)\n  \\1;33m--txid\\0m=\\33mNUMBER\\0m            设置事务ID为指定值\n  \\1;33m-Z\\0m=\\33mTWEAKS\\0m                设置协议级调整选项\n\n\\4m协议选项:\\0m\n  \\1;33m-U\\0m, \\1;33m--udp\\0m                使用UDP DNS\n  \\1;33m-T\\0m, \\1;33m--tcp\\0m                使用TCP DNS\n  \\1;33m-S\\0m, \\1;33m--tls\\0m                使用DNS-over-TLS\n  \\1;33m-H\\0m, \\1;33m--https\\0m              使用DNS-over-HTTPS\n\n\\4m输出选项:\\0m\n  \\1;33m-1\\0m, \\1;33m--short\\0m              简洁模式：仅输出第一个结果\n  \\1;33m-J\\0m, \\1;33m--json\\0m               以JSON输出结果\n  \\1;33m--color\\0m, \\1;33m--colour\\0m=\\33mWHEN\\0m   彩色输出配置 (always, automatic, never)\n  \\1;33m--seconds\\0m                以秒显示缓存时间\n  \\1;33m--time\\0m                   显示响应耗时\n\n\\4m全局选项:\\0m\n  \\1;33m-?\\0m, \\1;33m--help\\0m               打印命令行选项列表\n  \\1;33m-v\\0m, \\1;33m--version\\0m            打印版本信息\n  \\1;33m--verbose\\0m                打印详细诊断输出\n");
    let s = USAGE_ZH@;
    assert(s.subrange(1359, 1365) =~= style_codes()[7]);
    lemma_coded_code(s, 1359, 7);
    lemma_coded_plain_run(s, 1332, 1359);
    assert(s.subrange(1329, 1332) =~= style_codes()[0]);
    lemma_coded_code(s, 1329, 0);
    lemma_coded_plain_run(s, 1323, 1329);
    assert(s.subrange(1317, 1323) =~= style_codes()[7]);
    lemma_coded_code(s, 1317, 7);
    lemma_coded_plain_run(s, 1315, 1317);
    assert(s.subrange(1312, 1315) =~= style_codes()[0]);
    lemma_coded_code(s, 1312, 0);
    lemma_coded_plain_run(s, 1310, 1312);
    assert(s.subrange(1304, 1310) =~= style_codes()[7]);
    lemma_coded_code(s, 1304, 7);
    lemma_coded_plain_run(s, 1274, 1304);
    assert(s.subrange(1271, 1274) =~= style_codes()[0]);
    lemma_coded_code(s, 1271, 0);
    lemma_coded_plain_run(s, 1264, 1271);
    assert(s.subrange(1258, 1264) =~= style_codes()[7]);
    lemma_coded_code(s, 1258, 7);
    lemma_coded_plain_run(s, 1256, 1258);
    assert(s.subrange(1253, 1256) =~= style_codes()[0]);
    lemma_coded_code(s, 1253, 0);
    lemma_coded_plain_run(s, 1251, 1253);
    assert(s.subrange(1245, 1251) =~= style_codes()[7]);
    lemma_coded_code(s, 1245, 7);
    lemma_coded_plain_run(s, 1242, 1245);
    assert(s.subrange(1239, 1242) =~= style_codes()[0]);
    lemma_coded_code(s, 1239, 0);
    lemma_coded_plain_run(s, 1234, 1239);
    assert(s.subrange(1231, 1234) =~= style_codes()[2]);
    lemma_coded_code(s, 1231, 2);
    lemma_coded_plain_run(s, 1199, 1231);
    assert(s.subrange(1196, 1199) =~= style_codes()[0]);
    lemma_coded_code(s, 1196, 0);
    lemma_coded_plain_run(s, 1189, 1196);
    assert(s.subrange(1183, 1189) =~= style_codes()[7]);
    lemma_coded_code(s, 1183, 7);
    lemma_coded_plain_run(s, 1181, 1183);
    assert(s.subrange(1178, 1181) =~= style_codes()[0]);
    lemma_coded_code(s, 1178, 0);
    lemma_coded_plain_run(s, 1176, 1178);
    assert(s.subrange(1170, 1176) =~= style_codes()[7]);
    lemma_coded_code(s, 1170, 7);
    lemma_coded_plain_run(s, 1137, 1170);
    assert(s.subrange(1134, 1137) =~= style_codes()[0]);
    lemma_coded_code(s, 1134, 0);
    lemma_coded_plain_run(s, 1129, 1134);
    assert(s.subrange(1123, 1129) =~= style_codes()[7]);
    lemma_coded_code(s, 1123, 7);
    lemma_coded_plain_run(s, 1121, 1123);
    assert(s.subrange(1118, 1121) =~= style_codes()[0]);
    lemma_coded_code(s, 1118, 0);
    lemma_coded_plain_run(s, 1116, 1118);
    assert(s.subrange(1110, 1116) =~= style_codes()[7]);
    lemma_coded_code(s, 1110, 7);
    lemma_coded_plain_run(s, 1082, 1110);
    assert(s.subrange(1079, 1082) =~= style_codes()[0]);
    lemma_coded_code(s, 1079, 0);
    lemma_coded_plain_run(s, 1074, 1079);
    assert(s.subrange(1068, 1074) =~= style_codes()[7]);
    lemma_coded_code(s, 1068, 7);
    lemma_coded_plain_run(s, 1066, 1068);
    assert(s.subrange(1063, 1066) =~= style_codes()[0]);
    lemma_coded_code(s, 1063, 0);
    lemma_coded_plain_run(s, 1061, 1063);
    assert(s.subrange(1055, 1061) =~= style_codes()[7]);
    lemma_coded_code(s, 1055, 7);
}

/// Part of the Chinese usage template, from index 1365 up to index 1696, is written
/// with the template codes when what follows it is.
proof fn lemma_usage_zh_part_5()
    ensures
        coded_from(USAGE_ZH@.skip(1365), 0),
{
    lemma_style_code_shapes();
    reveal_strlit("\\4m用法:\\0m\n  \\1mdog\\0m \\1;33m[选项]\\0m [--] \\32m<参数>\\0m\n\n\\4m示例:\\0m\n  \\1mdog\\0m \\32mexample.net\\0m                          使用默认设置查询域名\n  \\1mdog\\0m \\32mexample.net MX\\0m                       查询MX记录\n  \\1mdog\\0m \\32mexample.net MX @1.1.1.1\\0m              使用指定DNS服务器\n  \\1mdog\\0m \\32mexample.net MX @1.1.1.1\\0m \\1;33m-T\\0m           使用TCP DNS\n  \\1mdog\\0m \\1;33m-q\\0m \\33mexample.net\\0m \\1;33m-t\\0m \\33mMX\\0m \\1;33m-n\\0m \\33m1.1.1.1\\0m \\1;33m-T\\0m   与上例相同但使用显式参数\n\n\\4m查询选项:\\0m\n  \\32m<参数>\\0m                   主机名、DNS服务器、记录类型或类别\n  \\1;33m-q\\0m, \\1;33m--query\\0m=\\33mHOST\\0m         要查询的主机名或域名\n  \\1;33m-t\\0m, \\1;33m--type\\0m=\\33mTYPE\\0m          要查询的DNS记录类型 (A, MX, NS...)\n  \\1;33m-n\\0m, \\1;33m--nameserver\\0m=\\33mADDR\\0m    要请求的DNS服务器地址\n  \\1;33m--class\\0m=\\33mCLASS\\0m            要查询的网络类别 (IN, CH, HS)\n\n\\4m传输选项:\\0m\n  \\1;33m--edns\\0m=\\33mSETTING\\0m           是否启用EDNS (disable, hide, show)\n  \\1;33m--txid\\0m=\\33mNUMBER\\0m            设置事务ID为指定值\n  \\1;33m-Z\\0m=\\33mTWEAKS\\0m                设置协议级调整选项\n\n\\4m协议选项:\\0m\n  \\1;33m-U\\0m, \\1;33m--udp\\0m                使用UDP DNS\n  \\1;33m-T\\0m, \\1;33m--tcp\\0m                使用TCP DNS\n  \\1;33m-S\\0m, \\1;33m--tls\\0m                使用DNS-over-TLS\n  \\1;33m-H\\0m, \\1;33m--https\\0m              使用DNS-over-HTTPS\n\n\\4m输出选项:\\0m\n  \\1;33m-1\\0m, \\1;33m--short\\0m              简洁模式：仅输出第一个结果\n  \\1;33m-J\\0m, \\1;33m--json\\0m               以JSON输出结果\n  \\1;33m--color\\0m, \\1;33m--colour\\0m=\\33mWHEN\\0m   彩色输出配置 (always, automatic, never)\n  \\1;33m--seconds\\0m                以秒显示缓存时间\n  \\1;33m--time\\0m                   显示响应耗时\n\n\\4m全局选项:\\0m\n  \\1;33m-?\\0m, \\1;33m--help\\0m               打印命令行选项列表\n  \\1;33m-v\\0m, \\1;33m--version\\0m            打印版本信息\n  \\1;33m--verbose\\0m                打印详细诊断输出\n");
    let s = USAGE_ZH@;
    lemma_coded_end(s);
    lemma_coded_plain_run(s, 1671, 1696);
    assert(s.subrange(1668, 1671) =~= style_codes()[0]);
    lemma_coded_code(s, 1668, 0);
    lemma_coded_plain_run(s, 1659, 1668);
    assert(s.subrange(1653, 1659) =~= style_codes()[7]);
    lemma_coded_code(s, 1653, 7);
    lemma_coded_plain_run(s, 1632, 1653);
    assert(s.subrange(1629, 1632) =~= style_codes()[0]);
    lemma_coded_code(s, 1629, 0);
    lemma_coded_plain_run(s, 1620, 1629);
    assert(s.subrange(1614, 1620) =~= style_codes()[7]);
    lemma_coded_code(s, 1614, 7);
    lemma_coded_plain_run(s, 1612, 1614);
    assert(s.subrange(1609, 1612) =~= style_codes()[0]);
    lemma_coded_code(s, 1609, 0);
    lemma_coded_plain_run(s, 1607, 1609);
    assert(s.subrange(1601, 1607) =~= style_codes()[7]);
    lemma_coded_code(s, 1601, 7);
    lemma_coded_plain_run(s, 1574, 1601);
    assert(s.subrange(1571, 1574) =~= style_codes()[0]);
    lemma_coded_code(s, 1571, 0);
    lemma_coded_plain_run(s, 1565, 1571);
    assert(s.subrange(1559, 1565) =~= style_codes()[7]);
    lemma_coded_code(s, 1559, 7);
    lemma_coded_plain_run(s, 1557, 1559);
    assert(s.subrange(1554, 1557) =~= style_codes()[0]);
    lemma_coded_code(s, 1554, 0);
    lemma_coded_plain_run(s, 1552, 1554);
    assert(s.subrange(1546, 1552) =~= style_codes()[7]);
    lemma_coded_code(s, 1546, 7);
    lemma_coded_plain_run(s, 1543, 1546);
    assert(s.subrange(1540, 1543) =~= style_codes()[0]);
    lemma_coded_code(s, 1540, 0);
    lemma_coded_plain_run(s, 1535, 1540);
    assert(s.subrange(1532, 1535) =~= style_codes()[2]);
    lemma_coded_code(s, 1532, 2);
    lemma_coded_plain_run(s, 1505, 1532);
    assert(s.subrange(1502, 1505) =~= style_codes()[0]);
    lemma_coded_code(s, 1502, 0);
    lemma_coded_plain_run(s, 1496, 1502);
    assert(s.subrange(1490, 1496) =~= style_codes()[7]);
    lemma_coded_code(s, 1490, 7);
    lemma_coded_plain_run(s, 1463, 1490);
    assert(s.subrange(1460, 1463) =~= style_codes()[0]);
    lemma_coded_code(s, 1460, 0);
    lemma_coded_plain_run(s, 1451, 1460);
    assert(s.subrange(1445, 1451) =~= style_codes()[7]);
    lemma_coded_code(s, 1445, 7);
    lemma_coded_plain_run(s, 1406, 1445);
    assert(s.subrange(1403, 1406) =~= style_codes()[0]);
    lemma_coded_code(s, 1403, 0);
    lemma_coded_plain_run(s, 1399, 1403);
    assert(s.subrange(1395, 1399) =~= style_codes()[4]);
    lemma_coded_code(s, 1395, 4);
    lemma_coded_plain_run(s, 1394, 1395);
    assert(s.subrange(1391, 1394) =~= style_codes()[0]);
    lemma_coded_code(s, 1391, 0);
    lemma_coded_plain_run(s, 1383, 1391);
    assert(s.subrange(1377, 1383) =~= style_codes()[7]);
    lemma_coded_code(s, 1377, 7);
    lemma_coded_plain_run(s, 1375, 1377);
    assert(s.subrange(1372, 1375) =~= style_codes()[0]);
    lemma_coded_code(s, 1372, 0);
    lemma_coded_plain_run(s, 1365, 1372);
}

/// The Chinese usage template is written with the template codes.
proof fn lemma_usage_zh_coded()
    ensures
        coded_from(USAGE_ZH@, 0),
{
    lemma_usage_zh_part_5();
    lemma_usage_zh_part_4();
    lemma_usage_zh_part_3();
    lemma_usage_zh_part_2();
    lemma_usage_zh_part_1();
    lemma_usage_zh_part_0();
    assert(USAGE_ZH@.skip(0) =~= USAGE_ZH@);
}

/// The usage text that `get_usage_text` gives, in either language: without
/// colours it is the coloured text with its ANSI SGR sequences removed; neither
/// holds a backslash, and the text without colours holds no escape character.
pub proof fn get_usage_text_colours_law(lang: Language)
    ensures
        usage_text(pick(lang, TAGLINE_EN@, TAGLINE_ZH@), pick(lang, USAGE_EN@, USAGE_ZH@), false) == remove_sgr(
            usage_text(pick(lang, TAGLINE_EN@, TAGLINE_ZH@), pick(lang, USAGE_EN@, USAGE_ZH@), true),
        ),
        !usage_text(pick(lang, TAGLINE_EN@, TAGLINE_ZH@), pick(lang, USAGE_EN@, USAGE_ZH@), true).contains('\\'),
        !usage_text(pick(lang, TAGLINE_EN@, TAGLINE_ZH@), pick(lang, USAGE_EN@, USAGE_ZH@), false).contains('\\'),
        !usage_text(pick(lang, TAGLINE_EN@, TAGLINE_ZH@), pick(lang, USAGE_EN@, USAGE_ZH@), false).contains('\x1B'),
{
    lemma_tagline_en_coded();
    lemma_tagline_zh_coded();
    lemma_usage_en_coded();
    lemma_usage_zh_coded();
    usage_text_colours_law(pick(lang, TAGLINE_EN@, TAGLINE_ZH@), pick(lang, USAGE_EN@, USAGE_ZH@));
}

} // verus!

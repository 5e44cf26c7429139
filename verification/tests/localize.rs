use dog::localize::{
    convert_codes, detect, domain_in_hosts, error_reading_network_config, get_usage_text, https_disabled,
    invalid_options_prefix, language_of_lang_id, malformed_packet_insufficient, malformed_packet_label_length,
    malformed_packet_out_of_bounds, malformed_packet_record_length, malformed_packet_record_length_at_least,
    malformed_packet_too_much_recursion, malformed_packet_wrong_version, nameserver_http_status,
    no_nameserver_found, no_results, phase_http, phase_network, phase_protocol, phase_tls, status_bad_version,
    status_format_error, status_not_implemented, status_nxdomain, status_other_failure, status_private_reason,
    status_query_refused, status_server_failure, strip_codes, t, tls_disabled, too_much_recursion_message,
    truncated_response, unable_obtain_resolver, unsupported_platform, value_is_chinese, Language, USAGE_EN,
    USAGE_ZH,
};

#[test]
fn detects_chinese_from_lang() {
    let vals = vec![None, None, Some(String::from("zh_CN.UTF-8"))];
    assert_eq!(detect(&vals), Language::Chinese);
}

#[test]
fn detects_english_when_unset() {
    let vals: Vec<Option<String>> = vec![None, None, None];
    assert_eq!(detect(&vals), Language::English);
}

#[test]
fn detects_english_for_other_locales() {
    let vals = vec![Some(String::from("en_US.UTF-8")), None, Some(String::from("C"))];
    assert_eq!(detect(&vals), Language::English);
}

#[test]
fn any_setting_may_name_chinese() {
    let vals = vec![Some(String::from("en_US.UTF-8")), Some(String::from("ZH_TW")), None];
    assert_eq!(detect(&vals), Language::Chinese);
}

#[test]
fn locale_patterns() {
    assert!(value_is_chinese("zh"));
    assert!(value_is_chinese("ZH_HK"));
    assert!(value_is_chinese("en_US:zh_CN"));
    assert!(value_is_chinese("x-zh_tw"));
    assert!(!value_is_chinese("x-zh"));
    assert!(!value_is_chinese(""));
    assert!(!value_is_chinese("z"));
}

#[test]
fn windows_language_ids() {
    assert_eq!(language_of_lang_id(0x0804), Language::Chinese);
    assert_eq!(language_of_lang_id(0x0404), Language::Chinese);
    assert_eq!(language_of_lang_id(0x0409), Language::English);
    assert_eq!(language_of_lang_id(0x0004), Language::Chinese);
}

#[test]
fn t_picks_by_language() {
    assert_eq!(t(Language::English, "a", "b"), "a");
    assert_eq!(t(Language::Chinese, "a", "b"), "b");
    assert!(Language::Chinese.is_chinese());
    assert!(!Language::English.is_chinese());
}

#[test]
fn fixed_messages() {
    let e = Language::English;
    let z = Language::Chinese;
    assert_eq!(status_format_error(e), "Status: Format Error");
    assert_eq!(status_format_error(z), "状态：格式错误");
    assert_eq!(status_server_failure(e), "Status: Server Failure");
    assert_eq!(status_nxdomain(e), "Status: NXDomain");
    assert_eq!(status_nxdomain(z), "状态：域名不存在");
    assert_eq!(status_not_implemented(e), "Status: Not Implemented");
    assert_eq!(status_query_refused(e), "Status: Query Refused");
    assert_eq!(status_bad_version(e), "Status: Bad Version");
    assert_eq!(phase_protocol(e), "protocol");
    assert_eq!(phase_network(z), "网络");
    assert_eq!(phase_tls(), "tls");
    assert_eq!(phase_http(), "http");
    assert_eq!(truncated_response(e), "Truncated response");
    assert_eq!(malformed_packet_insufficient(e), "Malformed packet: insufficient data");
    assert_eq!(no_nameserver_found(z), "未找到DNS服务器");
    assert!(unsupported_platform(e).starts_with("dog cannot automatically detect nameservers"));
    assert!(tls_disabled(e).contains("--tls"));
    assert!(https_disabled(z).contains("--https"));
    assert_eq!(no_results(e), "No results");
    assert_eq!(invalid_options_prefix(e), "dog: Invalid options: ");
}

#[test]
fn numbered_messages() {
    let e = Language::English;
    let z = Language::Chinese;
    assert_eq!(status_private_reason(e, 3841), "Status: Private Reason (3841)");
    assert_eq!(status_private_reason(z, 0), "状态：私有原因 (0)");
    assert_eq!(status_other_failure(e, 65535), "Status: Other Failure (65535)");
    assert_eq!(
        malformed_packet_record_length(e, 5, 4),
        "Malformed packet: record length should be 4, got 5"
    );
    assert_eq!(malformed_packet_record_length(z, 5, 4), "数据包格式错误：记录长度应为4，实际为5");
    assert_eq!(
        malformed_packet_record_length_at_least(e, 1, 10),
        "Malformed packet: record length should be at least 10, got 1"
    );
    assert_eq!(
        malformed_packet_label_length(e, 12, 7),
        "Malformed packet: length 12 was specified, but read 7 bytes"
    );
    assert_eq!(malformed_packet_out_of_bounds(e, 512), "Malformed packet: out of bounds (512)");
    assert_eq!(
        malformed_packet_wrong_version(e, 3, 0),
        "Malformed packet: record specifies version 3, expected up to 0"
    );
}

#[test]
fn recursion_message_quotes_indices() {
    assert_eq!(
        malformed_packet_too_much_recursion(Language::English, "1, 2"),
        "Malformed packet: too much recursion: \"1, 2\""
    );
    assert_eq!(
        too_much_recursion_message(Language::Chinese, "\"x\""),
        "数据包格式错误：递归过深：\"x\""
    );
}

#[test]
fn error_text_messages() {
    let e = Language::English;
    assert_eq!(unable_obtain_resolver(e, "oops"), "Unable to obtain resolver: oops");
    assert_eq!(error_reading_network_config(e, "denied"), "Error reading network configuration: denied");
    assert_eq!(
        domain_in_hosts(e, "example.com"),
        "warning: domain 'example.com' also exists in hosts file"
    );
    assert_eq!(domain_in_hosts(Language::Chinese, "a"), "警告：域名'a'也存在于hosts文件中");
}

#[test]
fn http_status_message() {
    assert_eq!(
        nameserver_http_status(Language::English, 404, &Some(String::from("Not Found"))),
        "Nameserver returned HTTP 404 (Not Found)"
    );
    assert_eq!(
        nameserver_http_status(Language::English, 500, &None),
        "Nameserver returned HTTP 500 (No reason)"
    );
    assert_eq!(
        nameserver_http_status(Language::Chinese, 500, &None),
        "DNS服务器返回HTTP 500 (无原因)"
    );
}

#[test]
fn convert_codes_replaces_backslashes() {
    assert_eq!(convert_codes("\\1mdog\\0m"), "\x1B[1mdog\x1B[0m");
    assert_eq!(convert_codes("plain"), "plain");
    assert!(!convert_codes(USAGE_EN).contains('\\'));
}

#[test]
fn strip_codes_removes_style_codes() {
    assert_eq!(strip_codes("\\1mdog\\0m \\1;33m-T\\0m"), "dog -T");
    assert_eq!(strip_codes("\\1;4;34x"), "x");
    assert_eq!(strip_codes("\\9m"), "\\9m");
    let converted = convert_codes("\\4mUsage:\\0m");
    assert_eq!(strip_codes(&converted), converted);
    assert_eq!(strip_codes("no codes here"), "no codes here");
}

#[test]
fn usage_text_without_colours() {
    let text = get_usage_text(Language::English, false);
    assert!(text.starts_with("dog ● command-line DNS client\n\nUsage:\n  dog [OPTIONS] [--] <arguments>\n"));
    assert!(!text.contains('\\'));
    assert!(!text.contains('\x1B'));
    assert!(text.contains("  -T, --tcp                Use the DNS protocol over TCP\n"));
}

#[test]
fn usage_text_with_colours() {
    let text = get_usage_text(Language::English, true);
    assert!(text.starts_with("dog \x1B[1;32m●\x1B[0m command-line DNS client\n\n\x1B[4mUsage:\x1B[0m\n"));
    assert!(!text.contains('\\'));
}

#[test]
fn chinese_usage_text() {
    let text = get_usage_text(Language::Chinese, false);
    assert!(text.starts_with("dog ● 命令行DNS客户端\n\n用法:\n"));
    assert!(text.contains("--verbose                打印详细诊断输出"));
}

fn remove_sgr(s: &str) -> String {
    let cs: Vec<char> = s.chars().collect();
    let mut out = String::new();
    let mut i = 0;
    while i < cs.len() {
        if cs[i] == '\x1B' && i + 1 < cs.len() && cs[i + 1] == '[' {
            let mut j = i + 2;
            while j < cs.len() && (cs[j].is_ascii_digit() || cs[j] == ';') {
                j += 1;
            }
            if j < cs.len() && cs[j] == 'm' {
                i = j + 1;
                continue;
            }
        }
        out.push(cs[i]);
        i += 1;
    }
    out
}

#[test]
fn usage_text_without_colours_is_coloured_text_without_sgr() {
    for lang in [Language::English, Language::Chinese] {
        let coloured = get_usage_text(lang, true);
        let plain = get_usage_text(lang, false);
        assert_eq!(plain, remove_sgr(&coloured));
        assert!(!coloured.contains('\\'));
        assert!(!plain.contains('\\'));
        assert!(!plain.contains('\x1B'));
    }
}

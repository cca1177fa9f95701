use video_downloader::proxy::{
    normalize_proxy_mode, normalize_proxy_url, parse_scutil_proxy_entries, proxy_status,
    proxy_status_from_scutil_output, scutil_enabled, scutil_proxy_url, validate_proxy_url,
    ytdlp_proxy_args, ProxyMode, ProxyStatus,
};
use video_downloader::tools::ToolSettings;

fn settings(mode: Option<&str>, url: Option<&str>) -> ToolSettings {
    let mut s = ToolSettings::empty();
    s.proxy_mode = mode.map(str::to_string);
    s.proxy_url = url.map(str::to_string);
    s
}

fn system_status() -> ProxyStatus {
    ProxyStatus {
        mode: "auto".to_string(),
        effective_proxy: Some("http://10.0.0.1:8080".to_string()),
        source: Some("systemHttp".to_string()),
        message: None,
    }
}

#[test]
fn parses_macos_proxy_output_by_priority() {
    let output = r#"
<dictionary> {
  HTTPEnable : 1
  HTTPPort : 7890
  HTTPProxy : 127.0.0.1
  HTTPSEnable : 1
  HTTPSPort : 7891
  HTTPSProxy : 127.0.0.2
  SOCKSEnable : 1
  SOCKSPort : 7892
  SOCKSProxy : 127.0.0.3
}
"#;

    let status = proxy_status_from_scutil_output(output);

    assert_eq!(status.mode, "auto");
    assert_eq!(
        status.effective_proxy.as_deref(),
        Some("http://127.0.0.2:7891")
    );
    assert_eq!(status.source.as_deref(), Some("systemHttps"));
}

#[test]
fn parses_macos_socks_proxy_when_http_is_absent() {
    let output = r#"
<dictionary> {
  SOCKSEnable : 1
  SOCKSPort : 1080
  SOCKSProxy : 127.0.0.1
}
"#;

    let status = proxy_status_from_scutil_output(output);

    assert_eq!(
        status.effective_proxy.as_deref(),
        Some("socks5h://127.0.0.1:1080")
    );
    assert_eq!(status.source.as_deref(), Some("systemSocks"));
}

#[test]
fn reports_pac_as_unsupported_without_proxy() {
    let output = r#"
<dictionary> {
  ProxyAutoConfigEnable : 1
  ProxyAutoConfigURLString : http://example.test/proxy.pac
}
"#;

    let status = proxy_status_from_scutil_output(output);

    assert_eq!(status.effective_proxy, None);
    assert_eq!(status.source.as_deref(), Some("pacUnsupported"));
}

#[test]
fn scutil_output_without_proxy_reports_none() {
    let status = proxy_status_from_scutil_output("<dictionary> {\n  HTTPEnable : 0\n}\n");

    assert_eq!(status.effective_proxy, None);
    assert_eq!(status.source.as_deref(), Some("none"));
    assert_eq!(status.message.as_deref(), Some("未检测到系统代理"));
}

#[test]
fn scutil_ipv6_hosts_are_bracketed_and_zero_ports_rejected() {
    let entries = parse_scutil_proxy_entries("HTTPEnable : yes\nHTTPProxy : ::1\nHTTPPort : 8080\n");
    assert_eq!(
        scutil_proxy_url(&entries, "HTTP", "http").as_deref(),
        Some("http://[::1]:8080")
    );

    let entries = parse_scutil_proxy_entries("HTTPEnable : 1\nHTTPProxy : host\nHTTPPort : 0\n");
    assert_eq!(scutil_proxy_url(&entries, "HTTP", "http"), None);
}

#[test]
fn scutil_entries_trim_quotes_and_keep_the_last_value() {
    let entries = parse_scutil_proxy_entries("A : \"x\"\nA : 'y'\n : skipped\nno colon\n");

    assert_eq!(entries, vec![("A".to_string(), "y".to_string())]);
    assert!(!scutil_enabled(&entries, "A"));
    let entries = parse_scutil_proxy_entries("Flag : TRUE\r\n");
    assert!(scutil_enabled(&entries, "Flag"));
}

#[test]
fn proxy_modes_are_read_without_regard_to_case_or_blanks() {
    assert_eq!(normalize_proxy_mode(None), ProxyMode::Auto);
    assert_eq!(normalize_proxy_mode(Some(" Manual ")), ProxyMode::Manual);
    assert_eq!(normalize_proxy_mode(Some("DISABLED")), ProxyMode::Off);
    assert_eq!(normalize_proxy_mode(Some("none")), ProxyMode::Off);
    assert_eq!(normalize_proxy_mode(Some("whatever")), ProxyMode::Auto);
    for mode in [ProxyMode::Auto, ProxyMode::Manual, ProxyMode::Off] {
        assert_eq!(normalize_proxy_mode(Some(mode.as_str())), mode);
    }
}

#[test]
fn manual_proxy_urls_are_checked() {
    assert!(validate_proxy_url("SOCKS5H://127.0.0.1:1080").is_ok());
    assert_eq!(
        validate_proxy_url("ftp://host").unwrap_err(),
        "代理地址仅支持 http://、https://、socks5:// 或 socks5h://。"
    );
    assert_eq!(normalize_proxy_url(Some("http://x"), ProxyMode::Auto), Ok(None));
    assert_eq!(
        normalize_proxy_url(Some("  http://x:1  "), ProxyMode::Manual),
        Ok(Some("http://x:1".to_string()))
    );
    assert_eq!(
        normalize_proxy_url(Some("   "), ProxyMode::Manual),
        Err("请填写手动代理地址。".to_string())
    );
}

#[test]
fn proxy_status_follows_the_saved_mode() {
    let status = proxy_status(&settings(Some("manual"), Some("http://x:1")), system_status);
    assert_eq!(status.mode, "manual");
    assert_eq!(status.effective_proxy.as_deref(), Some("http://x:1"));
    assert_eq!(status.message.as_deref(), Some("手动指定代理"));

    let status = proxy_status(&settings(Some("manual"), None), system_status);
    assert_eq!(status.effective_proxy, None);
    assert_eq!(status.message.as_deref(), Some("请填写手动代理地址。"));

    let status = proxy_status(&settings(Some("off"), Some("http://x:1")), system_status);
    assert_eq!(status.mode, "off");
    assert_eq!(status.source.as_deref(), Some("off"));

    let status = proxy_status(&settings(None, None), system_status);
    assert_eq!(status.effective_proxy.as_deref(), Some("http://10.0.0.1:8080"));
}

#[test]
fn ytdlp_gets_proxy_arguments_for_each_mode() {
    assert_eq!(
        ytdlp_proxy_args(&settings(Some("manual"), Some("socks5://h:1")), system_status),
        Ok(vec!["--proxy".to_string(), "socks5://h:1".to_string()])
    );
    assert_eq!(
        ytdlp_proxy_args(&settings(Some("manual"), Some("h:1")), system_status),
        Err("代理地址仅支持 http://、https://、socks5:// 或 socks5h://。".to_string())
    );
    assert_eq!(
        ytdlp_proxy_args(&settings(Some("off"), None), system_status),
        Ok(vec!["--proxy".to_string(), String::new()])
    );
    assert_eq!(
        ytdlp_proxy_args(&settings(Some("auto"), None), system_status),
        Ok(vec!["--proxy".to_string(), "http://10.0.0.1:8080".to_string()])
    );
    let no_proxy = || ProxyStatus {
        mode: "auto".to_string(),
        effective_proxy: None,
        source: None,
        message: None,
    };
    assert_eq!(ytdlp_proxy_args(&settings(None, None), no_proxy), Ok(Vec::new()));
}

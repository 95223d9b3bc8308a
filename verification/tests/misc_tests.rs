use focustime::browser_bridge::{is_blank_line, is_white_space};
use focustime::category::Category;
use focustime::native_host::{bridge_line, frame_length};
use focustime::processes::collect_running_processes;
use focustime::seed::{sample_app_rules, sample_domain_rules, sample_profile_name, should_seed};
use focustime::window::executable_file_name;

fn listing(raw: &[(u32, &str)]) -> Vec<(u32, String)> {
    let raw: Vec<(u32, String)> = raw.iter().map(|(p, n)| (*p, n.to_string())).collect();
    collect_running_processes(raw).into_iter().map(|p| (p.pid, p.process_name)).collect()
}

#[test]
fn processes_sorted_case_insensitively() {
    let got = listing(&[(1, "b.exe"), (2, "C.exe"), (3, "a.exe")]);
    assert_eq!(
        got,
        vec![(3, "a.exe".to_string()), (1, "b.exe".to_string()), (2, "C.exe".to_string())]
    );
}

#[test]
fn processes_deduplicated_and_empty_dropped() {
    let got = listing(&[(10, "b.exe"), (11, ""), (12, "A.exe"), (13, "b.exe"), (14, "a.exe"), (15, "A.exe")]);
    assert_eq!(
        got,
        vec![(12, "A.exe".to_string()), (14, "a.exe".to_string()), (10, "b.exe".to_string())]
    );
}

#[test]
fn processes_empty_table() {
    assert!(listing(&[]).is_empty());
    assert!(listing(&[(1, "")]).is_empty());
}

#[test]
fn file_name_of_path() {
    assert_eq!(
        executable_file_name("C:\\Program Files\\Google\\Chrome\\Application\\chrome.exe"),
        "chrome.exe"
    );
    assert_eq!(executable_file_name("/usr/bin/firefox"), "firefox");
    assert_eq!(executable_file_name("C:/mixed\\dirs/Code.exe"), "Code.exe");
    assert_eq!(executable_file_name("plain.exe"), "plain.exe");
    assert_eq!(executable_file_name("C:\\dir\\"), "");
    assert_eq!(executable_file_name(""), "");
}

#[test]
fn frame_length_is_little_endian() {
    assert_eq!(frame_length([5, 0, 0, 0]), 5);
    assert_eq!(frame_length([0x01, 0x02, 0x03, 0x04]), 0x0403_0201);
    assert_eq!(frame_length([0xff, 0xff, 0xff, 0xff]), u32::MAX);
    assert_eq!(frame_length(27u32.to_le_bytes()), 27);
}

#[test]
fn bridge_line_quotes_domain() {
    assert_eq!(bridge_line("github.com"), "{\"domain\":\"github.com\"}\n");
    assert_eq!(bridge_line("a\"b\\c"), "{\"domain\":\"a\\\"b\\\\c\"}\n");
    assert_eq!(bridge_line(""), "{\"domain\":\"\"}\n");
    assert_eq!(bridge_line("\u{1}x"), "{\"domain\":\"\\u0001x\"}\n");
    assert_eq!(bridge_line("\u{1f}"), "{\"domain\":\"\\u001f\"}\n");
    assert_eq!(bridge_line("a\nb\tc\r\u{8}\u{c}"), "{\"domain\":\"a\\nb\\tc\\r\\b\\f\"}\n");
    assert_eq!(bridge_line("caf\u{e9}\u{7f}"), "{\"domain\":\"caf\u{e9}\u{7f}\"}\n");
}

#[test]
fn bridge_line_is_json() {
    let domains = ["github.com", "", "\u{1}", "q\"uote", "back\\slash", "tab\t", "e\u{301}", "\u{7f}\u{85}\u{2028}", "日本.jp"];
    for d in domains {
        let line = bridge_line(d);
        assert!(line.ends_with('\n'));
        assert_eq!(line.matches('\n').count(), 1);
        let v: serde_json::Value = serde_json::from_str(line.trim_end_matches('\n')).unwrap();
        assert_eq!(v["domain"].as_str(), Some(d));
    }
}

#[test]
fn white_space_matches_std() {
    for u in 0u32..=0x10ffff {
        if let Some(c) = char::from_u32(u) {
            assert_eq!(is_white_space(c), c.is_whitespace(), "{u:#x}");
        }
    }
}

#[test]
fn blank_lines() {
    assert!(is_blank_line(""));
    assert!(is_blank_line("  \t\r"));
    assert!(is_blank_line("\u{3000}"));
    assert!(!is_blank_line(" {\"domain\":\"x.com\"} "));
    assert!(!is_blank_line("x"));
}

#[test]
fn seeding_only_empty_tables() {
    assert!(should_seed(0));
    assert!(!should_seed(1));
    assert!(!should_seed(42));
}

#[test]
fn sample_profile_contents() {
    assert_eq!(sample_profile_name(), "Sample Profile");
    let apps: Vec<(String, Category)> =
        sample_app_rules().into_iter().map(|r| (r.process_name, r.category)).collect();
    assert_eq!(apps.len(), 5);
    assert_eq!(apps[0], ("Code.exe".to_string(), Category::Work));
    assert_eq!(apps[2], ("WINWORD.EXE".to_string(), Category::Work));
    assert_eq!(apps[3], ("Discord.exe".to_string(), Category::Distraction));
    assert_eq!(apps[4], ("Spotify.exe".to_string(), Category::Entertainment));
    let domains: Vec<(String, Category)> =
        sample_domain_rules().into_iter().map(|r| (r.domain, r.category)).collect();
    assert_eq!(domains.len(), 8);
    assert_eq!(domains[0], ("github.com".to_string(), Category::Work));
    assert_eq!(domains[3], ("youtube.com".to_string(), Category::Entertainment));
    assert_eq!(domains[7], ("x.com".to_string(), Category::Distraction));
}

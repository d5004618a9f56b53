use bloom::windows_apps::{get_cache_key, get_uwp_launch_cmd};

#[test]
fn browsers_are_keyed_by_window_name() {
    assert_eq!(
        get_cache_key("C:\\Program Files\\Google\\Chrome\\Application\\chrome.exe", Some("Mail - Inbox")),
        "C:\\Program Files\\Google\\Chrome\\Application\\chrome.exe:mail - inbox"
    );
    assert_eq!(get_cache_key("C:\\Apps\\MSEDGE.EXE", None), "C:\\Apps\\MSEDGE.EXE:");
    assert_eq!(get_cache_key("C:\\Apps\\notepad.exe", Some("x")), "C:\\Apps\\notepad.exe");
}

#[test]
fn packaged_apps_launch_through_the_shell() {
    assert_eq!(
        get_uwp_launch_cmd(
            "C:\\Program Files\\WindowsApps\\Microsoft.WindowsCalculator_11.2307.4.0_x64__8wekyb3d8bbwe\\CalculatorApp.exe"
        )
        .as_deref(),
        Some("shell:AppsFolder\\Microsoft.WindowsCalculator_8wekyb3d8bbwe!App")
    );
    assert_eq!(get_uwp_launch_cmd("C:\\Program Files\\App\\app.exe"), None);
    assert_eq!(get_uwp_launch_cmd("C:\\Program Files\\WindowsApps"), None);
    assert_eq!(get_uwp_launch_cmd("C:\\Program Files\\windowsapps\\NoPublisher_1.0\\a.exe"), None);
}

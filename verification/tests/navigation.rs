use envy_linux::commands::{navigation_allowed, NavUrl};

fn nav(raw: &str) -> NavUrl {
    let url = url::Url::parse(raw).expect("a parsable URL");
    NavUrl {
        scheme: url.scheme().to_string(),
        host: url.host_str().map(|h| h.to_string()),
        port: url.port(),
        path: url.path().to_string(),
    }
}

/// Whether a release build (`dev_build` false) or a development build lets
/// the webview navigate to `raw`.
fn allows_in(raw: &str, dev_build: bool) -> bool {
    navigation_allowed(&nav(raw), dev_build)
}

fn allows(raw: &str) -> bool {
    let release = allows_in(raw, false);
    assert_eq!(release, allows_in(raw, true), "{raw} differs between builds");
    release
}

/// The app's own pages, and the blank page WebKitGTK loads before them.
#[test]
fn the_apps_own_pages_are_allowed() {
    assert!(allows("tauri://localhost/"));
    assert!(allows("tauri://localhost/index.html"));
    assert!(allows("http://tauri.localhost/index.html"));
    assert!(allows("https://tauri.localhost/popout.html"));
    assert!(allows("about:blank"));
}

/// A navigation that lands on a remote page keeps the IPC bridge, so the
/// page could call every command. Nothing off-app may pass.
#[test]
fn everything_else_is_denied() {
    assert!(!allows("https://example.com/"));
    // `https:evil.com` parses with evil.com as the host, not the path.
    assert!(!allows("https:evil.com"));
    assert!(!allows("file:///etc/passwd"));
    assert!(!allows("javascript:alert(1)"));
    assert!(!allows("data:text/html,<script>alert(1)</script>"));
    assert!(!allows("tauri://evil.localhost/"));
    assert!(!allows("http://tauri.localhost.evil.com/"));
    assert!(!allows("about:srcdoc"));
}

/// The Vite dev server is reachable in a dev build and nowhere else.
#[test]
fn the_dev_server_is_debug_only() {
    assert_eq!(allows_in("http://localhost:1420/", true), true);
    assert_eq!(allows_in("http://localhost:1420/", false), false);
    // Never any other port, even in a dev build.
    assert!(!allows_in("http://localhost:8080/", true));
    assert!(!allows_in("http://localhost/", true));
    assert!(!allows_in("http://localhost:8080/", false));
    assert!(!allows_in("http://localhost/", false));
}

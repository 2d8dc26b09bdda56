use pkgscope::filename::package_name_of;
use pkgscope::history::{index_url, parse_history_page};
use pkgscope::installed::reconcile;
use pkgscope::news::{news_from_items, news_items, within_depth_limit, FeedItem, MAX_FEED_DEPTH};
use pkgscope::terminal::{
    advance, next_action, shell_command, start, terminal_command, LaunchAction, LaunchEvent,
    LaunchState, CANDIDATES,
};
use pkgscope::updates::parse_updates;

fn names(v: &[String]) -> Vec<&str> {
    v.iter().map(|s| s.as_str()).collect()
}

#[test]
fn decomposes_simple_name() {
    assert_eq!(
        package_name_of("kensa-1.2.0-1-x86_64.pkg.tar.zst"),
        Some("kensa".to_string())
    );
}

#[test]
fn decomposes_name_with_dashes() {
    assert_eq!(
        package_name_of("lib32-glibc-2.39-1-x86_64.pkg.tar.zst"),
        Some("lib32-glibc".to_string())
    );
    assert_eq!(
        package_name_of("python-foo-bar-0.1-3-any.pkg.tar.zst"),
        Some("python-foo-bar".to_string())
    );
}

#[test]
fn decomposes_empty_name() {
    assert_eq!(package_name_of("-1-1-any.pkg.tar.zst"), Some(String::new()));
}

#[test]
fn rejects_too_few_dashes() {
    assert_eq!(package_name_of("readme.pkg.tar.zst"), None);
    assert_eq!(package_name_of("a-b.pkg.tar.zst"), None);
    assert_eq!(package_name_of("a-b-c.pkg.tar.zst"), None);
}

#[test]
fn rejects_other_suffixes() {
    assert_eq!(package_name_of("kensa-1.2.0-1-x86_64.pkg.tar.zst.sig"), None);
    assert_eq!(package_name_of("kensa-1.2.0-1-x86_64.pkg.tar.xz"), None);
    assert_eq!(package_name_of(""), None);
}

#[test]
fn parses_updates_and_skips_short_lines() {
    let r = parse_updates("foo 1.0-1 -> 1.1-1\nbadline\nbar 2.0-1 -> 2.1-1");
    assert_eq!(r.len(), 2);
    assert_eq!(r[0].name, "foo");
    assert_eq!(r[0].old_version, "1.0-1");
    assert_eq!(r[0].new_version, "1.1-1");
    assert_eq!(r[1].name, "bar");
    assert_eq!(r[1].old_version, "2.0-1");
    assert_eq!(r[1].new_version, "2.1-1");
}

#[test]
fn parses_updates_with_mixed_whitespace() {
    let r = parse_updates("  foo\t1.0-1  ->   1.1-1 [ignored]\r\n\nbar 2.0 ->\n");
    assert_eq!(r.len(), 1);
    assert_eq!(r[0].name, "foo");
    assert_eq!(r[0].old_version, "1.0-1");
    assert_eq!(r[0].new_version, "1.1-1");
}

#[test]
fn parses_empty_update_output() {
    assert!(parse_updates("").is_empty());
    assert!(parse_updates("\n\n").is_empty());
}

#[test]
fn reconciles_by_package_name() {
    let files = vec![
        "foo-1.0-1-x86_64.pkg.tar.zst".to_string(),
        "bar-1.0-1-x86_64.pkg.tar.zst".to_string(),
    ];
    let r = reconcile("foo 1.1-1", &files);
    assert_eq!(r.len(), 1);
    assert_eq!(r[0].name, "foo");
    assert_eq!(r[0].version, "1.1-1");
    assert_eq!(names(&r[0].cached_versions), vec!["foo-1.0-1-x86_64.pkg.tar.zst"]);
}

#[test]
fn reconciles_in_descending_order() {
    let files = vec![
        "foo-1.0-1-x86_64.pkg.tar.zst".to_string(),
        "foo-1.2-1-x86_64.pkg.tar.zst".to_string(),
        "foo-1.2-1-x86_64.pkg.tar.zst.sig".to_string(),
        "foo-bar-9.0-1-any.pkg.tar.zst".to_string(),
        "foo-1.1-1-x86_64.pkg.tar.zst".to_string(),
        "notes.txt".to_string(),
    ];
    let r = reconcile("foo 1.2-1\nfoo-bar 9.0-1\nbaz 1-1\nlonely\n", &files);
    assert_eq!(r.len(), 3);
    assert_eq!(
        names(&r[0].cached_versions),
        vec![
            "foo-1.2-1-x86_64.pkg.tar.zst",
            "foo-1.1-1-x86_64.pkg.tar.zst",
            "foo-1.0-1-x86_64.pkg.tar.zst",
        ]
    );
    assert_eq!(r[1].name, "foo-bar");
    assert_eq!(names(&r[1].cached_versions), vec!["foo-bar-9.0-1-any.pkg.tar.zst"]);
    assert_eq!(r[2].name, "baz");
    assert!(r[2].cached_versions.is_empty());
}

#[test]
fn reconcile_gives_files_to_first_entry_only() {
    let files = vec!["foo-1.0-1-x86_64.pkg.tar.zst".to_string()];
    let r = reconcile("foo 1.0-1\nfoo 1.0-1", &files);
    assert_eq!(r.len(), 2);
    assert_eq!(r[0].cached_versions.len(), 1);
    assert!(r[1].cached_versions.is_empty());
}

#[test]
fn reconcile_without_cache() {
    let r = reconcile("foo 1.0-1\nbar 2.0-1", &Vec::new());
    assert_eq!(r.len(), 2);
    assert!(r.iter().all(|p| p.cached_versions.is_empty()));
}

#[test]
fn reconcile_twice_is_identical() {
    let files = vec![
        "foo-1.0-1-x86_64.pkg.tar.zst".to_string(),
        "foo-0.9-2-x86_64.pkg.tar.zst".to_string(),
        "bar-1.0-1-x86_64.pkg.tar.zst".to_string(),
    ];
    let listing = "foo 1.1-1\nbar 1.0-1";
    let a = reconcile(listing, &files);
    let b = reconcile(listing, &files);
    assert_eq!(a.len(), b.len());
    for (x, y) in a.iter().zip(b.iter()) {
        assert_eq!(x.name, y.name);
        assert_eq!(x.version, y.version);
        assert_eq!(x.cached_versions, y.cached_versions);
    }
}

#[test]
fn builds_index_url() {
    assert_eq!(index_url("kensa"), "https://archive.archlinux.org/packages/k/kensa/");
    assert_eq!(index_url(""), "https://archive.archlinux.org/packages/a//");
}

#[test]
fn resolves_history_newest_first() {
    let page = "<html>\n<a href=\"kensa-1.0-1-x86_64.pkg.tar.zst\">kensa-1.0-1</a>\n\
                <a href=\"kensa-1.0-1-x86_64.pkg.tar.zst.sig\">sig</a>\n\
                <a href=\"kensa-1.1-1-x86_64.pkg.tar.zst\">kensa-1.1-1</a>\n</html>";
    let r = parse_history_page("kensa", page);
    assert_eq!(
        names(&r),
        vec![
            "https://archive.archlinux.org/packages/k/kensa/kensa-1.1-1-x86_64.pkg.tar.zst",
            "https://archive.archlinux.org/packages/k/kensa/kensa-1.0-1-x86_64.pkg.tar.zst",
        ]
    );
}

#[test]
fn history_skips_other_packages_and_bad_lines() {
    let page = "<a href=\"other-1.0-1-any.pkg.tar.zst\">x</a>\r\n\
                <a href=\"kensa-2.0-1-any.pkg.tar.zst\">y</a>\r\n\
                <a href=\"../\">up</a>\r\n\
                \"kensa-3.0-1-any.pkg.tar.zst\" href=\"kensa-3\r\n";
    let r = parse_history_page("kensa", page);
    assert_eq!(
        names(&r),
        vec!["https://archive.archlinux.org/packages/k/kensa/kensa-2.0-1-any.pkg.tar.zst"]
    );
}

#[test]
fn history_of_empty_page() {
    assert!(parse_history_page("kensa", "").is_empty());
}

#[test]
fn builds_shell_command() {
    assert_eq!(
        shell_command(None),
        "sudo pacman -Syu; echo ''; echo 'Press Enter to close...'; read"
    );
    assert_eq!(
        shell_command(Some("sudo pacman -U x.pkg.tar.zst".to_string())),
        "sudo pacman -U x.pkg.tar.zst; echo ''; echo 'Press Enter to close...'; read"
    );
}

#[test]
fn builds_terminal_commands() {
    let c = terminal_command(0, "ls");
    assert_eq!(c.program, "konsole");
    assert_eq!(names(&c.args), vec!["--nofork", "-e", "bash", "-c", "ls"]);
    let c = terminal_command(1, "ls");
    assert_eq!(c.program, "kitty");
    assert_eq!(names(&c.args), vec!["-e", "bash", "-c", "ls"]);
    let c = terminal_command(3, "ls");
    assert_eq!(c.program, "gnome-terminal");
    assert_eq!(names(&c.args), vec!["--wait", "--", "bash", "-c", "ls"]);
    let c = terminal_command(4, "ls");
    assert_eq!(c.program, "xfce4-terminal");
    assert_eq!(names(&c.args), vec!["--disable-server", "-e", "bash", "-c", "ls"]);
    let c = terminal_command(6, "ls");
    assert_eq!(c.program, "foot");
}

/// Drives a launch where the candidates in `available` start; returns the
/// programs spawned successfully and the number of waits.
fn drive(available: &[bool]) -> (Vec<String>, usize, usize) {
    let mut state = start();
    let mut spawned = Vec::new();
    let mut attempts = 0;
    let mut waits = 0;
    for _ in 0..20 {
        match next_action(state, "true") {
            LaunchAction::Spawn(c) => {
                let i = match state {
                    LaunchState::Trying(i) => i,
                    _ => unreachable!(),
                };
                attempts += 1;
                if available[i] {
                    spawned.push(c.program);
                    state = advance(state, LaunchEvent::Spawned);
                } else {
                    state = advance(state, LaunchEvent::SpawnFailed);
                }
            }
            LaunchAction::Wait => {
                waits += 1;
                state = advance(state, LaunchEvent::Exited);
            }
            LaunchAction::Finish => return (spawned, attempts, waits),
        }
    }
    panic!("launch did not finish");
}

#[test]
fn launches_first_available_terminal() {
    let mut available = vec![false; CANDIDATES];
    available[2] = true;
    available[5] = true;
    let (spawned, attempts, waits) = drive(&available);
    assert_eq!(spawned, vec!["alacritty".to_string()]);
    assert_eq!(attempts, 3);
    assert_eq!(waits, 1);
}

#[test]
fn launch_waits_until_exit() {
    let s = advance(start(), LaunchEvent::Spawned);
    assert_eq!(s, LaunchState::Running);
    assert!(matches!(next_action(s, "x"), LaunchAction::Wait));
    assert_eq!(advance(s, LaunchEvent::SpawnFailed), LaunchState::Running);
    assert_eq!(advance(s, LaunchEvent::Exited), LaunchState::Done);
    assert!(matches!(next_action(LaunchState::Done, "x"), LaunchAction::Finish));
}

#[test]
fn launch_without_terminals_is_noop() {
    let (spawned, attempts, waits) = drive(&vec![false; CANDIDATES]);
    assert!(spawned.is_empty());
    assert_eq!(attempts, CANDIDATES);
    assert_eq!(waits, 0);
}

#[test]
fn news_defaults_and_limit() {
    let mut items = Vec::new();
    items.push(FeedItem { title: None, link: None, pub_date: None });
    for k in 0..6 {
        items.push(FeedItem {
            title: Some(format!("t{}", k)),
            link: Some(format!("l{}", k)),
            pub_date: Some(format!("d{}", k)),
        });
    }
    let r = news_from_items(&items);
    assert_eq!(r.len(), 5);
    assert_eq!(r[0].title, "No Title");
    assert_eq!(r[0].link, "#");
    assert_eq!(r[0].pub_date, "");
    assert_eq!(r[4].title, "t3");
    assert_eq!(r[4].link, "l3");
    assert_eq!(r[4].pub_date, "d3");
}

#[test]
fn news_from_rss_document() {
    let doc = "<?xml version=\"1.0\"?><rss version=\"2.0\"><channel><title>News</title>\
               <link>https://example.org/</link><description>d</description>\
               <item><title>First</title><link>https://example.org/1</link>\
               <pubDate>Mon, 01 Jan 2024 00:00:00 +0000</pubDate></item>\
               <item><description>untitled</description></item>\
               </channel></rss>";
    let r = news_items(doc);
    assert_eq!(r.len(), 2);
    assert_eq!(r[0].title, "First");
    assert_eq!(r[0].link, "https://example.org/1");
    assert_eq!(r[0].pub_date, "Mon, 01 Jan 2024 00:00:00 +0000");
    assert_eq!(r[1].title, "No Title");
    assert_eq!(r[1].link, "#");
}

#[test]
fn news_from_malformed_document() {
    assert!(news_items("not a feed").is_empty());
    assert!(news_items("").is_empty());
}

#[test]
fn depth_limit_follows_nesting() {
    assert!(within_depth_limit(""));
    let nested = |k: usize| format!("{}{}", "<a>".repeat(k), "</a>".repeat(k));
    assert!(within_depth_limit(&nested(MAX_FEED_DEPTH)));
    assert!(!within_depth_limit(&nested(MAX_FEED_DEPTH + 1)));
    assert!(within_depth_limit(&"<a></a>".repeat(5 * MAX_FEED_DEPTH)));
    assert!(within_depth_limit(&format!("<a>{}</a>", "<b x=\"1\"/>".repeat(5 * MAX_FEED_DEPTH))));
}

#[test]
fn depth_limit_ignores_closings_in_comments_cdata_and_quotes() {
    let hidden = [
        "<!-- </a> -->",
        "<![CDATA[</a>]]>",
        "<?pi </a> ?>",
        "<b t=\"</a>\"></b>",
        "<b t='/>'></b>",
    ];
    for h in hidden.iter() {
        let doc = format!("{}{}", "<a>".repeat(MAX_FEED_DEPTH), h).repeat(2);
        assert!(!within_depth_limit(&doc), "{}", h);
    }
}

#[test]
fn depth_limit_with_doctype() {
    let doc = "<!DOCTYPE rss PUBLIC \"-//Netscape//DTD RSS 0.91//EN\" \"x.dtd\">";
    assert!(within_depth_limit(&format!("{}{}", doc, "<a></a>".repeat(2 * MAX_FEED_DEPTH))));
    let subset = "<!DOCTYPE rss [ <!ENTITY e \"x\"> ]>";
    assert!(within_depth_limit(&format!("{}<rss></rss>", subset)));
    assert!(!within_depth_limit(&format!("{}{}", subset, "<a></a>".repeat(2 * MAX_FEED_DEPTH))));
}

#[test]
fn news_from_long_shallow_feed() {
    let mut doc = String::from("<rss version=\"2.0\"><channel><title>N</title>");
    for k in 0..300 {
        doc.push_str(&format!("<item><title>t{}</title><link>l{}</link></item>", k, k));
    }
    doc.push_str("</channel></rss>");
    let r = news_items(&doc);
    assert_eq!(r.len(), 5);
    assert_eq!(r[0].title, "t0");
    assert_eq!(r[0].link, "l0");
    assert_eq!(r[0].pub_date, "");
    assert_eq!(r[4].title, "t4");
}

#[test]
fn news_from_deeply_nested_document_is_empty() {
    let mut doc = String::from("<rss version=\"2.0\"><channel>");
    for _ in 0..200_000 {
        doc.push_str("<x:a>");
    }
    assert!(news_items(&doc).is_empty());
}

use mybar::labels::{mode_label, now_playing_label};
use mybar::listing::{app_names_from_window_lines, parse_monitor_workspace_lines, parse_now_playing};
use mybar::wm::NowPlayingData;

fn s(x: &str) -> String {
    x.to_string()
}

fn strings(xs: &[&str]) -> Vec<String> {
    xs.iter().map(|x| x.to_string()).collect()
}

#[test]
fn monitor_lines_grouped_by_monitor() {
    let out = parse_monitor_workspace_lines(s("10\t2\n1\t1\n\n2\t1\nB\t2\n1\t1\nbad\nx\tnotanumber\n \t1\n3\t1\textra\n"));
    let groups: Vec<(u32, Vec<String>)> =
        out.into_iter().map(|g| (g.monitor_id, g.workspaces)).collect();
    assert_eq!(
        groups,
        vec![(1, strings(&["1", "2", "3"])), (2, strings(&["10", "B"]))]
    );
}

#[test]
fn monitor_lines_ids_trimmed_and_ordered() {
    let out = parse_monitor_workspace_lines(s("a\t 30 \nb\t+4\nc\t-1\n"));
    let groups: Vec<(u32, Vec<String>)> =
        out.into_iter().map(|g| (g.monitor_id, g.workspaces)).collect();
    assert_eq!(groups, vec![(4, strings(&["b"])), (30, strings(&["a"]))]);
    assert!(parse_monitor_workspace_lines(s("")).is_empty());
}

#[test]
fn window_lines_second_field() {
    let lines = strings(&[
        "42 | Safari | Apple",
        "43 | Mail | Inbox",
        "44 | Safari | Other",
        "45 |   | empty",
        "no separator",
        "46|Notes",
    ]);
    assert_eq!(app_names_from_window_lines(lines), strings(&["Safari", "Mail", "Notes"]));
}

#[test]
fn now_playing_output() {
    let np = parse_now_playing(s("Song\nArtist\n")).unwrap();
    assert_eq!((np.title.as_str(), np.artist.as_str()), ("Song", "Artist"));
    let np = parse_now_playing(s("\n  Only title  \n")).unwrap();
    assert_eq!((np.title.as_str(), np.artist.as_str()), ("Only title", ""));
    assert!(parse_now_playing(s(" \n\n")).is_none());
}

#[test]
fn labels() {
    let np = Some(NowPlayingData { title: s("Song"), artist: s("Band") });
    assert_eq!(now_playing_label(&np), Some(s("Song - Band")));
    let np = Some(NowPlayingData { title: s("Song"), artist: s("") });
    assert_eq!(now_playing_label(&np), Some(s("Song")));
    assert_eq!(now_playing_label(&None), None);
    assert_eq!(mode_label("main"), "main:");
}

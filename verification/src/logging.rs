//! The log's line format and file location.

use vstd::prelude::*;

verus! {

/// `<timestamp> [<level>] <message>` and a newline.
pub open spec fn log_line_text(timestamp: Seq<char>, level: Seq<char>, message: Seq<char>) -> Seq<char> {
    timestamp + seq![' ', '['] + level + seq![']', ' '] + message + seq!['\n']
}

/// One log line.
pub fn log_line(timestamp: &str, level: &str, message: &str) -> (r: String)
    ensures
        r@ == log_line_text(timestamp@, level@, message@),
{
    let open = " [";
    let close = "] ";
    let newline = "\n";
    proof {
        reveal_strlit(" [");
        reveal_strlit("] ");
        reveal_strlit("\n");
    }
    let mut line = String::from_str(timestamp);
    line.append(open);
    line.append(level);
    line.append(close);
    line.append(message);
    line.append(newline);
    assert(line@ =~= log_line_text(timestamp@, level@, message@));
    line
}

/// `rel` appended to the path `base` as `PathBuf::join` does for a relative
/// `rel`: with a `/` between them unless `base` is empty or already ends
/// with one.
pub open spec fn join_path(base: Seq<char>, rel: Seq<char>) -> Seq<char> {
    if base.len() == 0 {
        rel
    } else if base.last() == '/' {
        base + rel
    } else {
        base + seq!['/'] + rel
    }
}

fn join(base: &str, rel: &str) -> (r: String)
    ensures
        r@ == join_path(base@, rel@),
{
    let n = base.unicode_len();
    let mut path = String::from_str(base);
    if n > 0 && base.get_char(n - 1) != '/' {
        let slash = "/";
        proof {
            reveal_strlit("/");
        }
        path.append(slash);
    }
    path.append(rel);
    assert(path@ =~= join_path(base@, rel@));
    path
}

pub open spec fn tmp_log() -> Seq<char> {
    seq!['/', 't', 'm', 'p', '/', 'm', 'y', 'b', 'a', 'r', '.', 'l', 'o', 'g']
}

fn tmp_log_path() -> (r: String)
    ensures
        r@ == tmp_log(),
{
    let p = "/tmp/mybar.log";
    proof {
        reveal_strlit("/tmp/mybar.log");
        assert(p@ =~= tmp_log());
    }
    String::from_str(p)
}

pub open spec fn macos_log_under_home() -> Seq<char> {
    seq!['L', 'i', 'b', 'r', 'a', 'r', 'y', '/', 'L', 'o', 'g', 's', '/', 'm', 'y', 'b', 'a', 'r', '.', 'l', 'o', 'g']
}

pub open spec fn state_log_under_xdg() -> Seq<char> {
    seq!['m', 'y', 'b', 'a', 'r', '/', 'm', 'y', 'b', 'a', 'r', '.', 'l', 'o', 'g']
}

pub open spec fn state_log_under_home() -> Seq<char> {
    seq!['.', 'l', 'o', 'c', 'a', 'l', '/', 's', 't', 'a', 't', 'e', '/'] + state_log_under_xdg()
}

/// Where the log goes on macOS: `Library/Logs/mybar.log` under the home
/// directory, else `/tmp/mybar.log`.
pub fn log_file_path_macos(home: Option<String>) -> (r: String)
    ensures
        r@ == match home {
            Some(h) => join_path(h@, macos_log_under_home()),
            None => tmp_log(),
        },
{
    match home {
        Some(h) => {
            let rel = "Library/Logs/mybar.log";
            proof {
                reveal_strlit("Library/Logs/mybar.log");
                assert(rel@ =~= macos_log_under_home());
            }
            join(h.as_str(), rel)
        },
        None => tmp_log_path(),
    }
}

/// Where the log goes on Linux: `mybar/mybar.log` under `XDG_STATE_HOME`,
/// else `.local/state/mybar/mybar.log` under the home directory, else
/// `/tmp/mybar.log`.
pub fn log_file_path_linux(xdg_state_home: Option<String>, home: Option<String>) -> (r: String)
    ensures
        r@ == match (xdg_state_home, home) {
            (Some(x), _) => join_path(x@, state_log_under_xdg()),
            (None, Some(h)) => join_path(h@, state_log_under_home()),
            (None, None) => tmp_log(),
        },
{
    match xdg_state_home {
        Some(x) => {
            let rel = "mybar/mybar.log";
            proof {
                reveal_strlit("mybar/mybar.log");
                assert(rel@ =~= state_log_under_xdg());
            }
            join(x.as_str(), rel)
        },
        None => match home {
            Some(h) => {
                let rel = ".local/state/mybar/mybar.log";
                proof {
                    reveal_strlit(".local/state/mybar/mybar.log");
                    assert(rel@ =~= state_log_under_home());
                }
                join(h.as_str(), rel)
            },
            None => tmp_log_path(),
        },
    }
}

} // verus!

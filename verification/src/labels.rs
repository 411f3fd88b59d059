//! Texts shown by the widgets.

use vstd::prelude::*;
use crate::wm::NowPlayingData;

verus! {

/// `<title> - <artist>`, or the title alone when the artist is unknown.
pub open spec fn track_text(title: Seq<char>, artist: Seq<char>) -> Seq<char> {
    if artist.len() == 0 {
        title
    } else {
        title + seq![' ', '-', ' '] + artist
    }
}

/// The now-playing widget's text; none without a track.
pub fn now_playing_label(now_playing: &Option<NowPlayingData>) -> (r: Option<String>)
    ensures
        match now_playing {
            None => r is None,
            Some(np) => r is Some && r->0@ == track_text(np.title@, np.artist@),
        },
{
    match now_playing {
        None => None,
        Some(np) => {
            if np.artist.unicode_len() == 0 {
                Some(np.title.clone())
            } else {
                let dash = " - ";
                proof {
                    reveal_strlit(" - ");
                }
                let mut text = np.title.clone();
                text.append(dash);
                text.append(np.artist.as_str());
                assert(text@ =~= track_text(np.title@, np.artist@));
                Some(text)
            }
        },
    }
}

/// The mode badge's text: the mode followed by a colon.
pub fn mode_label(mode: &str) -> (r: String)
    ensures
        r@ == mode@ + seq![':'],
{
    let colon = ":";
    proof {
        reveal_strlit(":");
    }
    let mut text = String::from_str(mode);
    text.append(colon);
    assert(text@ =~= mode@ + seq![':']);
    text
}

} // verus!

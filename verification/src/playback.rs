//! Music playback: the play order of the playlist, the answers to the
//! playback commands, and the presence shown while a track plays.

use vstd::prelude::*;
use rand::seq::SliceRandom;
use crate::text::{last_index_of, lemma_last_index_of_props, chars_of, find_last_char, string_of_range};

verus! {

/// Shuffles the tracks in place with rand's `SliceRandom::shuffle` and the
/// thread-local generator `rand::rng()`. The contract claims only what holds
/// of every outcome: the same tracks, as many times each. (rand panics here
/// only when the operating system's random source cannot be read at all.)
#[verifier::external_body]
fn shuffle_tracks(v: &mut Vec<String>)
    ensures
        final(v)@.len() == old(v)@.len(),
        final(v)@.to_multiset() == old(v)@.to_multiset(),
{
    v.shuffle(&mut rand::rng());
}

/// The order in which the tracks of the music folder are queued: a random
/// permutation of them.
pub fn playlist_order(tracks: Vec<String>) -> (res: Vec<String>)
    ensures
        res@.len() == tracks@.len(),
        res@.to_multiset() == tracks@.to_multiset(),
{
    let mut order = tracks;
    shuffle_tracks(&mut order);
    order
}

/// A playback command that acts on the current track.
#[derive(Debug, Clone, Copy, PartialEq, Eq)]
pub enum PlaybackCommand {
    Pause,
    Resume,
    Skip,
}

/// What the bot answers to a playback command: nothing when it is in no voice
/// channel of the guild; otherwise whether the command found something to act
/// on (a current track to pause or resume, a track to skip).
pub open spec fn playback_reply_spec(command: PlaybackCommand, in_voice: bool, acted: bool) -> Option<Seq<char>> {
    if !in_voice {
        None
    } else {
        Some(
            match command {
                PlaybackCommand::Pause => if acted {
                    "⏸ Paused"@
                } else {
                    "Nothing is playing!"@
                },
                PlaybackCommand::Resume => if acted {
                    "▶️ Resumed"@
                } else {
                    "Nothing is paused!"@
                },
                PlaybackCommand::Skip => if acted {
                    "⏭ Skipped!"@
                } else {
                    "Nothing to skip!"@
                },
            },
        )
    }
}

/// The answer to a playback command.
pub fn playback_reply(command: PlaybackCommand, in_voice: bool, acted: bool) -> (res: Option<String>)
    ensures
        match playback_reply_spec(command, in_voice, acted) {
            Some(t) => res matches Some(r) && r@ == t,
            None => res is None,
        },
{
    if !in_voice {
        return None;
    }
    let text = match command {
        PlaybackCommand::Pause => if acted {
            "⏸ Paused"
        } else {
            "Nothing is playing!"
        },
        PlaybackCommand::Resume => if acted {
            "▶️ Resumed"
        } else {
            "Nothing is paused!"
        },
        PlaybackCommand::Skip => if acted {
            "⏭ Skipped!"
        } else {
            "Nothing to skip!"
        },
    };
    Some(String::from_str(text))
}

/// The answer to a request to leave voice: whether the bot was in a voice
/// channel of the guild.
pub fn leave_reply(was_in_voice: bool) -> (res: String)
    ensures
        res@ == if was_in_voice {
            "Left voice channel"@
        } else {
            "Not in a voice channel"@
        },
{
    if was_in_voice {
        String::from_str("Left voice channel")
    } else {
        String::from_str("Not in a voice channel")
    }
}

/// The title under which a track file is shown: its file name (after the last
/// `/`; the placeholder `how` when there is none) up to its last `.`; empty
/// when that name holds no `.`.
pub open spec fn track_title_spec(path: Seq<char>) -> Seq<char> {
    let name = match last_index_of(path, '/') {
        Some(i) => path.skip(i + 1),
        None => "how"@,
    };
    match last_index_of(name, '.') {
        Some(j) => name.take(j),
        None => Seq::empty(),
    }
}

/// The title shown for the track stored at `path`.
pub fn track_title(path: &str) -> (res: String)
    ensures
        res@ == track_title_spec(path@),
{
    let cs = chars_of(path);
    let n: usize = cs.len();
    let name: Vec<char> = match find_last_char(&cs, '/') {
        Some(i) => {
            let s = string_of_range(&cs, i + 1, n);
            assert(s@ =~= path@.skip(i + 1));
            chars_of(s.as_str())
        },
        None => chars_of("how"),
    };
    match find_last_char(&name, '.') {
        Some(j) => {
            let r = string_of_range(&name, 0, j);
            assert(r@ =~= name@.take(j as int));
            r
        },
        None => String::new(),
    }
}

/// A track title never holds a `/`.
pub proof fn lemma_track_title_has_no_slash(path: Seq<char>)
    ensures
        !track_title_spec(path).contains('/'),
{
    reveal_strlit("how");
    lemma_last_index_of_props(path, '/');
    let name = match last_index_of(path, '/') {
        Some(i) => path.skip(i + 1),
        None => "how"@,
    };
    assert forall|k: int| 0 <= k < name.len() implies name[k] != '/' by {
        if let Some(i) = last_index_of(path, '/') {
            assert(name[k] == path[i + 1 + k]);
        }
    }
    lemma_last_index_of_props(name, '.');
    let title = track_title_spec(path);
    assert forall|k: int| 0 <= k < title.len() implies title[k] != '/' by {
        assert(title[k] == name[k]);
    }
}

/// What the bot shows as its activity.
#[derive(Debug, Clone, PartialEq, Eq)]
pub enum Activity {
    /// "Playing" the named thing.
    Playing(String),
    /// "Competing in" the named thing.
    Competing(String),
}

/// The activity the bot shows when no track plays.
pub fn default_activity() -> (res: Activity)
    ensures
        res matches Activity::Competing(n) && n@ == "china"@,
{
    Activity::Competing(String::from_str("china"))
}

/// The activity to show when a track's state changes: the track's title
/// while it plays, else the default activity.
pub fn presence_for_track(playing: bool, path: &str) -> (res: Activity)
    ensures
        playing ==> (res matches Activity::Playing(t) && t@ == track_title_spec(path@)),
        !playing ==> (res matches Activity::Competing(n) && n@ == "china"@),
{
    let title = track_title(path);
    if playing {
        Activity::Playing(title)
    } else {
        default_activity()
    }
}

} // verus!

//! The help texts of the bot's commands and how a reply is delivered.

use vstd::prelude::*;

verus! {

/// The line under the help listing.
pub const HELP_FOOTER: &'static str = "Type `!help command` for more info on a command.";

/// Help text of the `join` command.
pub fn help_join() -> (res: String)
    ensures
        res@ == "the bot joins the channel the user is currently in"@,
{
    String::from_str("the bot joins the channel the user is currently in")
}

/// Help text of the `leave` command.
pub fn help_leave() -> (res: String)
    ensures
        res@ == "Leave the voice channel idk what else to say"@,
{
    String::from_str("Leave the voice channel idk what else to say")
}

/// Help text of the `pause` command.
pub fn help_pause() -> (res: String)
    ensures
        res@ == "Pause the current track."@,
{
    String::from_str("Pause the current track.")
}

/// Help text of the `play` command.
pub fn help_play() -> (res: String)
    ensures
        res@ == "play a song from the playlist"@,
{
    String::from_str("play a song from the playlist")
}

/// Help text of the `resume` command.
pub fn help_resume() -> (res: String)
    ensures
        res@ == "Resume playback if paused."@,
{
    String::from_str("Resume playback if paused.")
}

/// Help text of the `skip` command.
pub fn help_skip() -> (res: String)
    ensures
        res@ == "Skip the currently playing track.\nUsage: /skip"@,
{
    String::from_str("Skip the currently playing track.\nUsage: /skip")
}

/// Help text of the `volume` command.
pub fn help_volume() -> (res: String)
    ensures
        res@ == "Set playback volume."@,
{
    String::from_str("Set playback volume.")
}

/// Help text of the `ping` command.
pub fn help_ping() -> (res: String)
    ensures
        res@ == "Ping the bot and whatnot"@,
{
    String::from_str("Ping the bot and whatnot")
}

/// Whether a reply goes out as a private (ephemeral) message: exactly when
/// the command was invoked as a slash command, whose prefix is `/`.
pub fn use_ephemeral_reply(prefix: &str) -> (res: bool)
    ensures
        res == (prefix@ == seq!['/']),
{
    let n: usize = prefix.unicode_len();
    if n != 1 {
        assert(prefix@.len() != seq!['/'].len());
        return false;
    }
    let c = prefix.get_char(0);
    if c == '/' {
        assert(prefix@ =~= seq!['/']);
        true
    } else {
        assert(prefix@[0] != seq!['/'][0]);
        false
    }
}

} // verus!

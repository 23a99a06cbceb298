use potabot::commands::{
    help_join, help_leave, help_pause, help_ping, help_play, help_resume, help_skip, help_volume,
    use_ephemeral_reply, HELP_FOOTER,
};
use potabot::events::{ends_with_quoi, feur_reply, mentions_user};
use potabot::mentions::{
    apply_replacements, find_mentions, member_display_name, mention_from_capture, parse_u64,
    replace_text, Mention, MENTION_PATTERN,
};
use potabot::playback::{
    default_activity, leave_reply, playback_reply, playlist_order, presence_for_track,
    track_title, Activity, PlaybackCommand,
};
use potabot::prompt::{prompt_from_chain, ChainWalk, PROMPT_PREAMBLE};
use potabot::response::{clean_generation, strip_text, trim_quotes};
use potabot::text::{chars_of, find_char_from, find_last_char, string_of_range};
use potabot::voice::{
    check_voice_join, count_in_channel, join_reply, join_with, missing_permissions, JoinRefusal,
    VoicePermissions,
};

fn s(x: &str) -> String {
    x.to_string()
}

#[test]
fn strip_text_removes_speaker_prefix() {
    assert_eq!(strip_text(s("Bot : hello")), " hello");
}

#[test]
fn strip_text_keeps_text_without_colon() {
    assert_eq!(strip_text(s("no colon here")), "no colon here");
    assert_eq!(strip_text(s("")), "");
}

#[test]
fn strip_text_keeps_input_when_nothing_follows_colon() {
    assert_eq!(strip_text(s("abc:")), "abc:");
}

#[test]
fn strip_text_keeps_first_line_only() {
    assert_eq!(strip_text(s("Bot: first\nsecond")), " first");
    assert_eq!(strip_text(s("a:b\nc:d")), "b");
}

#[test]
fn strip_text_keeps_all_after_colon_when_line_starts_empty() {
    assert_eq!(strip_text(s("a:\nb")), "\nb");
}

#[test]
fn strip_text_splits_at_first_colon() {
    assert_eq!(strip_text(s("a:b:c")), "b:c");
}

#[test]
fn trim_quotes_strips_both_ends() {
    assert_eq!(trim_quotes("  'x' "), "x");
    assert_eq!(trim_quotes("\"a \" b\""), "a \" b");
    assert_eq!(trim_quotes("\"'' "), "");
    assert_eq!(trim_quotes("plain"), "plain");
}

#[test]
fn trim_quotes_twice_is_once() {
    let once = trim_quotes(" '\"hey\"' ");
    assert_eq!(trim_quotes(&once), once);
}

#[test]
fn clean_generation_strips_and_trims() {
    assert_eq!(clean_generation(s("Potabot : \"hi there\"\nmore")), "hi there");
    assert_eq!(clean_generation(s("'just this'")), "just this");
}

#[test]
fn parse_u64_reads_decimal() {
    assert_eq!(parse_u64("123"), Some(123));
    assert_eq!(parse_u64("+5"), Some(5));
    assert_eq!(parse_u64("007"), Some(7));
    assert_eq!(parse_u64("18446744073709551615"), Some(u64::MAX));
}

#[test]
fn parse_u64_refuses_what_std_refuses() {
    for bad in ["", "+", "-1", "12a", " 1", "18446744073709551616", "٣"] {
        assert_eq!(parse_u64(bad), None, "{bad}");
        assert!(bad.parse::<u64>().is_err());
    }
}

#[test]
fn find_mentions_finds_both_forms() {
    let found = find_mentions("hi <@123> and <@!456>!");
    assert_eq!(
        found,
        vec![
            Mention { text: s("<@123>"), user_id: 123 },
            Mention { text: s("<@!456>"), user_id: 456 },
        ]
    );
}

#[test]
fn find_mentions_skips_ids_that_overflow() {
    let found = find_mentions("<@99999999999999999999> <@7>");
    assert_eq!(found, vec![Mention { text: s("<@7>"), user_id: 7 }]);
}

#[test]
fn find_mentions_ignores_other_text() {
    assert!(find_mentions("no <@> mention <#12> here").is_empty());
    assert_eq!(MENTION_PATTERN, "<@!?(\\d+)>");
}

#[test]
fn mention_from_capture_needs_a_number() {
    assert_eq!(
        mention_from_capture(s("<@42>"), Some(s("42"))),
        Some(Mention { text: s("<@42>"), user_id: 42 })
    );
    assert_eq!(mention_from_capture(s("<@x>"), Some(s("x"))), None);
    assert_eq!(mention_from_capture(s("<@42>"), None), None);
}

#[test]
fn replace_text_replaces_every_occurrence() {
    assert_eq!(replace_text("aXbXc", "X", "yy"), "ayybyyc");
    assert_eq!(replace_text("aaa", "aa", "b"), "ba");
    assert_eq!(replace_text("abc", "zz", "q"), "abc");
    assert_eq!(replace_text("ab", "abc", "q"), "ab");
}

#[test]
fn replace_text_with_empty_pattern_matches_std() {
    assert_eq!(replace_text("ab", "", "-"), "-a-b-");
    assert_eq!(replace_text("", "", "-"), "-");
    assert_eq!(replace_text("ab", "", "-"), "ab".replace("", "-"));
}

#[test]
fn replace_text_by_itself_changes_nothing() {
    assert_eq!(replace_text("<@1> hi <@1>", "<@1>", "<@1>"), "<@1> hi <@1>");
}

#[test]
fn apply_replacements_in_order() {
    let reps = vec![(s("<@1>"), s("alice")), (s("alice"), s("bob"))];
    assert_eq!(apply_replacements(s("hey <@1>, <@2>"), &reps), "hey bob, <@2>");
    assert_eq!(apply_replacements(s("unchanged"), &vec![]), "unchanged");
}

#[test]
fn display_name_prefers_nickname() {
    assert_eq!(member_display_name(Some(s("nick")), s("user")), "nick");
    assert_eq!(member_display_name(None, s("user")), "user");
}

#[test]
fn prompt_lists_chain_oldest_first() {
    let chain = vec![(s("b"), s("second")), (s("a"), s("first"))];
    let expected = format!("{}'a' : 'first'\n'b' : 'second'\n", PROMPT_PREAMBLE);
    assert_eq!(prompt_from_chain(&chain), expected);
}

#[test]
fn prompt_of_empty_chain_is_preamble() {
    assert_eq!(prompt_from_chain(&vec![]), PROMPT_PREAMBLE);
    assert!(PROMPT_PREAMBLE.starts_with("PRE PROMPT : --------\nYour name is Potabot."));
    assert!(PROMPT_PREAMBLE.ends_with("only the last one.\n\n\n"));
}

#[test]
fn older_message_goes_right_after_preamble() {
    let chain = vec![(s("b"), s("y"))];
    let longer = vec![(s("b"), s("y")), (s("a"), s("x"))];
    let expected = format!("{}'a' : 'x'\n{}", PROMPT_PREAMBLE, &prompt_from_chain(&chain)[PROMPT_PREAMBLE.len()..]);
    assert_eq!(prompt_from_chain(&longer), expected);
}

fn perms(view: bool, connect: bool, speak: bool, mv: bool) -> VoicePermissions {
    VoicePermissions { view_channel: view, connect, speak, move_members: mv }
}

#[test]
fn missing_permissions_in_order() {
    assert_eq!(missing_permissions(&perms(false, true, false, true)), vec![s("View Channel"), s("Speak")]);
    assert!(missing_permissions(&perms(true, true, true, false)).is_empty());
}

#[test]
fn join_allowed_with_all_permissions() {
    assert_eq!(check_voice_join(&perms(true, true, true, false), None, 10), Ok(()));
    assert_eq!(check_voice_join(&perms(true, true, true, false), Some(0), 10), Ok(()));
    assert_eq!(check_voice_join(&perms(true, true, true, false), Some(5), 4), Ok(()));
    assert_eq!(check_voice_join(&perms(true, true, true, true), Some(5), 5), Ok(()));
}

#[test]
fn join_refused_for_missing_permissions_first() {
    let res = check_voice_join(&perms(false, false, true, false), Some(1), 3);
    assert_eq!(res, Err(JoinRefusal::MissingPermissions(vec![s("View Channel"), s("Connect")])));
    assert_eq!(
        res.unwrap_err().message(),
        "the bot is missing these permissions in your voice channel: View Channel, Connect"
    );
}

#[test]
fn join_refused_when_channel_full() {
    let res = check_voice_join(&perms(true, true, true, false), Some(2), 2);
    assert_eq!(res, Err(JoinRefusal::ChannelFull));
    assert_eq!(
        JoinRefusal::ChannelFull.message(),
        "the voice channel is full and the bot does not have Move Members permission"
    );
}

#[test]
fn join_with_separates_pieces() {
    assert_eq!(join_with(&vec![s("a"), s("b"), s("c")], ", "), "a, b, c");
    assert_eq!(join_with(&vec![s("a")], ", "), "a");
    assert_eq!(join_with(&vec![], ", "), "");
}

#[test]
fn count_in_channel_counts_matches() {
    assert_eq!(count_in_channel(&vec![Some(1), None, Some(2), Some(1)], 1), 2);
    assert_eq!(count_in_channel(&vec![], 1), 0);
}

#[test]
fn join_reply_texts() {
    assert_eq!(join_reply(&Ok(())), "WE ARE HERE!!");
    assert_eq!(join_reply(&Err(s("boom"))), "Could not join your voice channel: boom");
}

#[test]
fn playlist_order_is_a_permutation() {
    let tracks = vec![s("a"), s("b"), s("c"), s("d"), s("b")];
    let mut order = playlist_order(tracks.clone());
    let mut sorted = tracks.clone();
    order.sort();
    sorted.sort();
    assert_eq!(order, sorted);
}

#[test]
fn playback_replies() {
    assert_eq!(playback_reply(PlaybackCommand::Pause, true, true), Some(s("⏸ Paused")));
    assert_eq!(playback_reply(PlaybackCommand::Pause, true, false), Some(s("Nothing is playing!")));
    assert_eq!(playback_reply(PlaybackCommand::Resume, true, true), Some(s("▶️ Resumed")));
    assert_eq!(playback_reply(PlaybackCommand::Resume, true, false), Some(s("Nothing is paused!")));
    assert_eq!(playback_reply(PlaybackCommand::Skip, true, true), Some(s("⏭ Skipped!")));
    assert_eq!(playback_reply(PlaybackCommand::Skip, true, false), Some(s("Nothing to skip!")));
    assert_eq!(playback_reply(PlaybackCommand::Skip, false, true), None);
}

#[test]
fn leave_replies() {
    assert_eq!(leave_reply(true), "Left voice channel");
    assert_eq!(leave_reply(false), "Not in a voice channel");
}

#[test]
fn track_title_takes_file_stem() {
    assert_eq!(track_title("./music/song.mp3"), "song");
    assert_eq!(track_title("./music/a.b.c"), "a.b");
    assert_eq!(track_title("./music/noext"), "");
    assert_eq!(track_title("song.mp3"), "");
    assert_eq!(track_title(""), "");
    assert_eq!(track_title("dir/"), "");
}

#[test]
fn presence_follows_play_state() {
    assert_eq!(presence_for_track(true, "./music/tune.ogg"), Activity::Playing(s("tune")));
    assert_eq!(presence_for_track(false, "./music/tune.ogg"), Activity::Competing(s("china")));
    assert_eq!(default_activity(), Activity::Competing(s("china")));
}

#[test]
fn help_texts() {
    assert_eq!(help_join(), "the bot joins the channel the user is currently in");
    assert_eq!(help_leave(), "Leave the voice channel idk what else to say");
    assert_eq!(help_pause(), "Pause the current track.");
    assert_eq!(help_play(), "play a song from the playlist");
    assert_eq!(help_resume(), "Resume playback if paused.");
    assert_eq!(help_skip(), "Skip the currently playing track.\nUsage: /skip");
    assert_eq!(help_volume(), "Set playback volume.");
    assert_eq!(help_ping(), "Ping the bot and whatnot");
    assert_eq!(HELP_FOOTER, "Type `!help command` for more info on a command.");
}

#[test]
fn ephemeral_only_for_slash() {
    assert!(use_ephemeral_reply("/"));
    assert!(!use_ephemeral_reply("p!"));
    assert!(!use_ephemeral_reply(""));
    assert!(!use_ephemeral_reply("//"));
}

#[test]
fn feur_answers_quoi_in_any_case() {
    assert_eq!(feur_reply("tu fais quoi"), Some(s("feur")));
    assert_eq!(feur_reply("QUOI"), Some(s("feur")));
    assert_eq!(feur_reply("Quoi?"), None);
    assert_eq!(feur_reply("rien"), None);
    assert!(ends_with_quoi("quoi"));
    assert!(!ends_with_quoi("QUOI"));
    assert!(!ends_with_quoi("uoi"));
}

#[test]
fn mentions_user_checks_membership() {
    assert!(mentions_user(&vec![1, 2, 3], 2));
    assert!(!mentions_user(&vec![1, 3], 2));
    assert!(!mentions_user(&vec![], 2));
}

#[test]
fn text_helpers() {
    let cs = chars_of("héllo:wörld");
    assert_eq!(cs.len(), 11);
    assert_eq!(find_char_from(&cs, ':', 0), Some(5));
    assert_eq!(find_char_from(&cs, ':', 6), None);
    assert_eq!(find_last_char(&cs, 'l'), Some(9));
    assert_eq!(string_of_range(&cs, 6, 11), "wörld");
}

#[test]
fn chain_walk_follows_replies_until_the_end() {
    let mut walk = ChainWalk::start(s("c"), s("third"), Some(20));
    assert_eq!(walk.next_fetch(), Some(20));
    walk.on_fetched(s("b"), s("second"), Some(10));
    assert_eq!(walk.next_fetch(), Some(10));
    walk.on_fetched(s("a"), s("first"), None);
    assert_eq!(walk.next_fetch(), None);
    let expected = format!("{}'a' : 'first'\n'b' : 'second'\n'c' : 'third'\n", PROMPT_PREAMBLE);
    assert_eq!(walk.prompt(), expected);
}

#[test]
fn chain_walk_stops_when_a_fetch_fails() {
    let mut walk = ChainWalk::start(s("b"), s("hey"), Some(5));
    walk.on_fetch_failed();
    assert_eq!(walk.next_fetch(), None);
    assert_eq!(walk.prompt(), format!("{}'b' : 'hey'\n", PROMPT_PREAMBLE));
}

#[test]
fn track_titles_never_hold_a_slash() {
    for path in ["a/b/c.d", "/x.y/z", "a.b/c", "////", "x/y./", "./music/.hidden"] {
        assert!(!track_title(path).contains('/'), "{path}");
    }
}

#[test]
fn find_mentions_skips_non_ascii_digits() {
    assert!(find_mentions("<@٣>").is_empty());
}

#[test]
fn count_in_channel_never_exceeds_states() {
    let states = vec![Some(3), Some(3), Some(3)];
    assert_eq!(count_in_channel(&states, 3), states.len());
}

//! Whether the bot may join a member's voice channel, and what it answers.

use vstd::prelude::*;

verus! {

/// The bot's permissions in a voice channel, as far as joining is concerned.
#[derive(Debug, Clone, Copy, PartialEq, Eq)]
pub struct VoicePermissions {
    pub view_channel: bool,
    pub connect: bool,
    pub speak: bool,
    pub move_members: bool,
}

/// The names of the permissions that the bot lacks to join, in the order
/// View Channel, Connect, Speak.
pub open spec fn missing_permissions_spec(p: VoicePermissions) -> Seq<Seq<char>> {
    (if p.view_channel { Seq::empty() } else { seq!["View Channel"@] }) + (if p.connect {
        Seq::empty()
    } else {
        seq!["Connect"@]
    }) + (if p.speak { Seq::empty() } else { seq!["Speak"@] })
}

/// The names of the permissions that the bot lacks to join a voice channel.
pub fn missing_permissions(p: &VoicePermissions) -> (res: Vec<String>)
    ensures
        res.deep_view() == missing_permissions_spec(*p),
{
    let mut res: Vec<String> = Vec::new();
    if !p.view_channel {
        res.push(String::from_str("View Channel"));
    }
    if !p.connect {
        res.push(String::from_str("Connect"));
    }
    if !p.speak {
        res.push(String::from_str("Speak"));
    }
    assert(res.deep_view() =~= missing_permissions_spec(*p));
    res
}

/// The pieces of `list` with `sep` between each two of them.
pub open spec fn join_spec(list: Seq<Seq<char>>, sep: Seq<char>) -> Seq<char>
    decreases list.len(),
{
    if list.len() == 0 {
        Seq::empty()
    } else if list.len() == 1 {
        list[0]
    } else {
        join_spec(list.drop_last(), sep) + sep + list.last()
    }
}

/// Writes the pieces of `list` one after the other with `sep` between them.
pub fn join_with(list: &Vec<String>, sep: &str) -> (res: String)
    ensures
        res@ == join_spec(list.deep_view(), sep@),
{
    let mut res = String::new();
    let ghost l = list.deep_view();
    let mut i: usize = 0;
    while i < list.len()
        invariant
            i <= list@.len(),
            l == list.deep_view(),
            res@ == join_spec(l.take(i as int), sep@),
        decreases list@.len() - i,
    {
        assert(l.take(i + 1).drop_last() =~= l.take(i as int));
        assert(l.take(i + 1).last() == list@[i as int]@);
        if i > 0 {
            res.append(sep);
        } else {
            assert(res@ =~= Seq::<char>::empty());
        }
        res.append(list[i].as_str());
        i = i + 1;
    }
    assert(l.take(list@.len() as int) =~= l);
    res
}

/// Whether the channel is full for the bot: it has a positive user limit,
/// that many users or more are in it, and the bot may not move members.
pub open spec fn channel_full_spec(
    p: VoicePermissions,
    user_limit: Option<u32>,
    connected_users: usize,
) -> bool {
    match user_limit {
        Some(limit) => limit > 0 && connected_users >= limit && !p.move_members,
        None => false,
    }
}

/// Why the bot may not join a voice channel.
#[derive(Debug, Clone, PartialEq, Eq)]
pub enum JoinRefusal {
    /// It lacks these permissions there (names as shown to the user).
    MissingPermissions(Vec<String>),
    /// The channel is full and the bot may not move members.
    ChannelFull,
}

/// The text that tells the user that these permissions are missing.
pub open spec fn missing_permissions_message(names: Seq<Seq<char>>) -> Seq<char> {
    "the bot is missing these permissions in your voice channel: "@ + join_spec(names, ", "@)
}

/// The text that tells the user that the channel is full.
pub open spec fn channel_full_message() -> Seq<char> {
    "the voice channel is full and the bot does not have Move Members permission"@
}

impl JoinRefusal {
    /// The text that the refusal is reported with.
    pub open spec fn message_spec(&self) -> Seq<char> {
        match self {
            JoinRefusal::MissingPermissions(names) => missing_permissions_message(names.deep_view()),
            JoinRefusal::ChannelFull => channel_full_message(),
        }
    }

    /// The text that the refusal is reported with.
    pub fn message(&self) -> (res: String)
        ensures
            res@ == self.message_spec(),
    {
        match self {
            JoinRefusal::MissingPermissions(names) => {
                let list = join_with(names, ", ");
                let mut res = String::from_str("the bot is missing these permissions in your voice channel: ");
                res.append(list.as_str());
                res
            },
            JoinRefusal::ChannelFull => String::from_str(
                "the voice channel is full and the bot does not have Move Members permission",
            ),
        }
    }
}

/// Decides whether the bot may join a voice channel where it has permissions
/// `p`, whose user limit is `user_limit` and where `connected_users` users
/// are: missing permissions are reported first, then a full channel.
pub fn check_voice_join(p: &VoicePermissions, user_limit: Option<u32>, connected_users: usize) -> (res: Result<(), JoinRefusal>)
    ensures
        missing_permissions_spec(*p).len() > 0 ==> (res matches Err(
            JoinRefusal::MissingPermissions(names),
        ) && names.deep_view() == missing_permissions_spec(*p)),
        missing_permissions_spec(*p).len() == 0 && channel_full_spec(*p, user_limit, connected_users)
            ==> res matches Err(JoinRefusal::ChannelFull),
        res is Ok <==> missing_permissions_spec(*p).len() == 0 && !channel_full_spec(
            *p,
            user_limit,
            connected_users,
        ),
{
    let missing = missing_permissions(p);
    if missing.len() > 0 {
        return Err(JoinRefusal::MissingPermissions(missing));
    }
    let full = match user_limit {
        Some(limit) => limit > 0 && connected_users >= limit as usize && !p.move_members,
        None => false,
    };
    if full {
        Err(JoinRefusal::ChannelFull)
    } else {
        Ok(())
    }
}

/// How many of the voice states are in channel `channel`.
pub open spec fn count_in_channel_spec(states: Seq<Option<u64>>, channel: u64) -> nat
    decreases states.len(),
{
    if states.len() == 0 {
        0
    } else {
        count_in_channel_spec(states.drop_last(), channel) + if states.last() == Some(channel) {
            1nat
        } else {
            0nat
        }
    }
}

/// Counts the users whose voice state is in channel `channel`.
pub fn count_in_channel(states: &Vec<Option<u64>>, channel: u64) -> (res: usize)
    ensures
        res == count_in_channel_spec(states@, channel),
        res <= states@.len(),
{
    let mut count: usize = 0;
    let mut i: usize = 0;
    while i < states.len()
        invariant
            i <= states@.len(),
            count == count_in_channel_spec(states@.take(i as int), channel),
            count <= i,
        decreases states@.len() - i,
    {
        assert(states@.take(i + 1).drop_last() =~= states@.take(i as int));
        if states[i] == Some(channel) {
            count = count + 1;
        }
        i = i + 1;
    }
    assert(states@.take(states@.len() as int) =~= states@);
    count
}

/// What the bot answers to a join request: a greeting when it joined, else
/// why it could not.
pub open spec fn join_reply_spec(outcome: Result<(), Seq<char>>) -> Seq<char> {
    match outcome {
        Ok(()) => "WE ARE HERE!!"@,
        Err(e) => "Could not join your voice channel: "@ + e,
    }
}

/// The answer to a join request, given how joining went.
pub fn join_reply(outcome: &Result<(), String>) -> (res: String)
    ensures
        res@ == join_reply_spec(
            match outcome {
                Ok(()) => Ok(()),
                Err(e) => Err(e@),
            },
        ),
{
    match outcome {
        Ok(()) => String::from_str("WE ARE HERE!!"),
        Err(e) => {
            let mut res = String::from_str("Could not join your voice channel: ");
            res.append(e.as_str());
            res
        },
    }
}

} // verus!

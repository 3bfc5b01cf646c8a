//! The chat subsystem: a bounded message history, channels with
//! membership, muting, a one-second rate limit and a profanity filter.
//!
//! Time enters as an explicit caller-supplied clock reading (`now`, in
//! seconds), so muting and rate limiting are part of the verified
//! logic.

use vstd::prelude::*;

verus! {

/// What kind of message was sent.
#[derive(Debug, Clone, Copy, PartialEq, Eq, Structural)]
pub enum MessageType {
    Chat,
    System,
    Command,
    Whisper,
    Global,
    Team,
}

/// One chat message: a fresh identifier, who sent it, the (possibly
/// filtered) content, its kind, when it was sent, and optionally the
/// world it belongs to and the whisper target.
#[derive(Debug)]
pub struct ChatMessage {
    pub id: String,
    pub sender: String,
    pub content: String,
    pub message_type: MessageType,
    pub timestamp: u64,
    pub world_id: Option<String>,
    pub target_player: Option<String>,
}

/// A chat channel and its membership.
#[derive(Debug)]
pub struct ChatChannel {
    pub id: String,
    pub name: String,
    pub description: String,
    pub is_global: bool,
    pub is_private: bool,
    pub members: Vec<String>,
    pub moderators: Vec<String>,
}

/// An aggregate snapshot of the chat system: totals, and how many
/// messages of each kind were kept, one entry per kind.
#[derive(Debug)]
pub struct ChatStats {
    pub total_messages: usize,
    pub total_channels: usize,
    pub muted_players: usize,
    pub message_type_counts: Vec<(MessageType, usize)>,
}

/// A copy of a String.
fn clone_string(s: &String) -> (r: String)
    ensures
        r == *s,
{
    s.clone()
}

/// A copy of an optional String.
fn clone_opt_string(s: &Option<String>) -> (r: Option<String>)
    ensures
        r == *s,
{
    match s {
        Some(v) => Some(v.clone()),
        None => None,
    }
}

impl Clone for ChatMessage {
    fn clone(&self) -> (c: ChatMessage)
        ensures
            c == *self,
    {
        ChatMessage {
            id: self.id.clone(),
            sender: self.sender.clone(),
            content: self.content.clone(),
            message_type: self.message_type,
            timestamp: self.timestamp,
            world_id: clone_opt_string(&self.world_id),
            target_player: clone_opt_string(&self.target_player),
        }
    }
}

/// What `str::to_lowercase` returns: a function of the characters
/// alone.
pub uninterp spec fn lower_of(s: Seq<char>) -> Seq<char>;

/// Relies on str::to_lowercase: the result depends on the input
/// characters alone, so a fixed input always folds the same way.
#[verifier::external_body]
fn lowercase(s: &str) -> (r: String)
    ensures
        r@ == lower_of(s@),
{
    s.to_lowercase()
}

/// What `str::replace` returns: a function of the three arguments
/// alone.
pub uninterp spec fn replaced(s: Seq<char>, from: Seq<char>, to: Seq<char>) -> Seq<char>;

/// Relies on str::replace: every occurrence of `from` replaced by `to`,
/// a function of the three arguments alone.
#[verifier::external_body]
fn replace_all(s: &str, from: &str, to: &str) -> (r: String)
    ensures
        r@ == replaced(s@, from@, to@),
{
    s.replace(from, to)
}

/// Relies on uuid::Uuid::new_v4 and its hyphenated text form: a fresh
/// random identifier of exactly 36 characters. Nothing is promised
/// about which identifier comes back.
#[verifier::external_body]
fn fresh_message_id() -> (r: String)
    ensures
        r@.len() == 36,
{
    uuid::Uuid::new_v4().to_string()
}

/// What the profanity filter makes of a message: the content folded to
/// lower case, with each placeholder profanity masked by stars of the
/// same length.
pub open spec fn filtered_content(s: Seq<char>) -> Seq<char> {
    replaced(
        replaced(replaced(lower_of(s), "badword1"@, "********"@), "badword2"@, "********"@),
        "badword3"@,
        "********"@,
    )
}

/// Appending one element to a sequence extends its filtering by that
/// element exactly when the element passes.
proof fn lemma_filter_push<T>(s: Seq<T>, pred: spec_fn(T) -> bool, x: T)
    ensures
        pred(x) ==> s.push(x).filter(pred) == s.filter(pred).push(x),
        !pred(x) ==> s.push(x).filter(pred) == s.filter(pred),
{
    reveal(Seq::filter);
    assert(s.push(x).drop_last() =~= s);
    assert(s.push(x).last() == x);
}

/// Whether the association list holds an entry for this key.
pub open spec fn has_key(s: Seq<(String, u64)>, key: Seq<char>) -> bool {
    exists|i: int| 0 <= i < s.len() && (#[trigger] s[i]).0@ == key
}

/// The index of this key's entry; meaningful only when `has_key` holds.
pub open spec fn key_index(s: Seq<(String, u64)>, key: Seq<char>) -> int {
    choose|i: int| 0 <= i < s.len() && (#[trigger] s[i]).0@ == key
}

/// The value stored under this key; meaningful only when `has_key`
/// holds.
pub open spec fn key_value(s: Seq<(String, u64)>, key: Seq<char>) -> u64 {
    s[key_index(s, key)].1
}

/// Association-list invariant: at most one entry per key.
pub open spec fn keys_unique(s: Seq<(String, u64)>) -> bool {
    forall|i: int, j: int| 0 <= i < j < s.len() ==> (#[trigger] s[i]).0@ != (#[trigger] s[j]).0@
}

/// Whether some channel of the sequence carries this id.
pub open spec fn has_channel_id(s: Seq<ChatChannel>, id: Seq<char>) -> bool {
    exists|i: int| 0 <= i < s.len() && (#[trigger] s[i]).id@ == id
}

/// The index of the channel carrying this id; meaningful only when
/// `has_channel_id` holds.
pub open spec fn channel_id_index(s: Seq<ChatChannel>, id: Seq<char>) -> int {
    choose|i: int| 0 <= i < s.len() && (#[trigger] s[i]).id@ == id
}

/// Whether this player is a member of the channel.
pub open spec fn channel_has_member(c: ChatChannel, player: Seq<char>) -> bool {
    exists|i: int| 0 <= i < c.members@.len() && (#[trigger] c.members@[i])@ == player
}

/// How many kept messages are of the given kind.
pub open spec fn count_of_type(msgs: Seq<ChatMessage>, t: MessageType) -> int
    decreases msgs.len(),
{
    if msgs.len() == 0 {
        0
    } else {
        count_of_type(msgs.drop_last(), t) + if msgs.last().message_type == t {
            1int
        } else {
            0int
        }
    }
}

/// The newest-first slice of the history that a recency query answers:
/// up to `count` messages, newest first, restricted to one world when
/// one is named.
pub open spec fn recent_messages(msgs: Seq<ChatMessage>, count: int, world: Option<Seq<char>>)
    -> Seq<ChatMessage>
    decreases msgs.len(),
{
    if msgs.len() == 0 || count <= 0 {
        Seq::empty()
    } else if world_matches(msgs.last(), world) {
        seq![msgs.last()] + recent_messages(msgs.drop_last(), count - 1, world)
    } else {
        recent_messages(msgs.drop_last(), count, world)
    }
}

/// Whether a message belongs to the queried world; a query without a
/// world matches every message.
pub open spec fn world_matches(m: ChatMessage, world: Option<Seq<char>>) -> bool {
    match world {
        None => true,
        Some(w) => match m.world_id {
            Some(mw) => mw@ == w,
            None => false,
        },
    }
}

/// The chat state of one server: the kept history (bounded by
/// `max_messages`), the channels, the per-player time of the last sent
/// message, and the players muted until some instant.
#[derive(Debug)]
pub struct ChatSystem {
    pub messages: Vec<ChatMessage>,
    pub channels: Vec<ChatChannel>,
    pub max_messages: usize,
    pub profanity_filter: bool,
    pub rate_limiting: Vec<(String, u64)>,
    pub muted_players: Vec<(String, u64)>,
}

impl ChatSystem {
    /// Chat invariant: the history respects its bound, channel ids are
    /// unique, and the rate and mute tables hold one entry per player.
    pub open spec fn wf(self) -> bool {
        &&& self.messages@.len() <= self.max_messages
        &&& forall|i: int, j: int|
            0 <= i < j < self.channels@.len() ==> (#[trigger] self.channels@[i]).id@ != (
            #[trigger] self.channels@[j]).id@
        &&& keys_unique(self.rate_limiting@)
        &&& keys_unique(self.muted_players@)
    }

    /// Whether this player is muted at time `now`: an entry whose
    /// expiry has not passed yet.
    pub open spec fn is_muted_spec(self, player: Seq<char>, now: u64) -> bool {
        has_key(self.muted_players@, player) && now <= key_value(self.muted_players@, player)
    }

    /// Whether this player may send at time `now`: no earlier message,
    /// or the last one at least one second ago.
    pub open spec fn rate_ok_spec(self, player: Seq<char>, now: u64) -> bool {
        !has_key(self.rate_limiting@, player) || now >= key_value(self.rate_limiting@, player) + 1
    }

    /// The channels, muting and configuration of `post` are those of
    /// `pre`.
    pub open spec fn same_channels_and_config(pre: Self, post: Self) -> bool {
        &&& post.channels@ == pre.channels@
        &&& post.max_messages == pre.max_messages
        &&& post.profanity_filter == pre.profanity_filter
        &&& post.muted_players@ == pre.muted_players@
    }

    /// Looks a value up in an association list.
    fn lookup(table: &Vec<(String, u64)>, key: &String) -> (r: Option<u64>)
        requires
            keys_unique(table@),
        ensures
            match r {
                Some(v) => has_key(table@, key@) && v == key_value(table@, key@),
                None => !has_key(table@, key@),
            },
    {
        let n = table.len();
        let mut i: usize = 0;
        while i < n
            invariant
                keys_unique(table@),
                n == table@.len(),
                i <= n,
                forall|j: int| 0 <= j < i ==> (#[trigger] table@[j]).0@ != key@,
            decreases n - i,
        {
            if table[i].0 == *key {
                proof {
                    assert(table@[i as int].0@ == key@);
                    let j = key_index(table@, key@);
                    if j != i as int {
                        assert(table@[j].0@ == table@[i as int].0@);
                    }
                }
                return Some(table[i].1);
            }
            i += 1;
        }
        None
    }

    /// Stores a value under a key, replacing any earlier entry.
    fn upsert(table: &mut Vec<(String, u64)>, key: &String, value: u64)
        requires
            keys_unique(old(table)@),
        ensures
            keys_unique(final(table)@),
            has_key(final(table)@, key@),
            key_value(final(table)@, key@) == value,
            forall|k: Seq<char>|
                k != key@ ==> (has_key(final(table)@, k) == has_key(old(table)@, k)),
            forall|k: Seq<char>|
                k != key@ && has_key(old(table)@, k) ==> key_value(final(table)@, k) == key_value(
                    old(table)@,
                    k,
                ),
    {
        let ghost pre = table@;
        let n = table.len();
        let mut i: usize = 0;
        while i < n
            invariant
                keys_unique(pre),
                pre == old(table)@,
                table@ == pre,
                n == table@.len(),
                i <= n,
                forall|j: int| 0 <= j < i ==> (#[trigger] pre[j]).0@ != key@,
            decreases n - i,
        {
            if table[i].0 == *key {
                table[i].1 = value;
                proof {
                    let post = table@;
                    assert(post == pre.update(i as int, post[i as int]));
                    assert(post[i as int].0@ == key@);
                    assert forall|a: int, b: int| 0 <= a < b < post.len() implies (
                    #[trigger] post[a]).0@ != (#[trigger] post[b]).0@ by {
                        assert(pre[a].0@ != pre[b].0@);
                        assert(post[a].0 == pre[a].0 && post[b].0 == pre[b].0);
                    }
                    assert(has_key(post, key@));
                    let j = key_index(post, key@);
                    if j != i as int {
                        assert(post[j].0@ == post[i as int].0@);
                    }
                    assert forall|k: Seq<char>| k != key@ implies (has_key(post, k) == has_key(
                        pre,
                        k,
                    )) by {
                        if has_key(pre, k) {
                            let a = key_index(pre, k);
                            assert(post[a].0@ == k);
                        }
                        if has_key(post, k) {
                            let a = key_index(post, k);
                            assert(pre[a].0@ == k);
                        }
                    }
                    assert forall|k: Seq<char>| k != key@ && has_key(pre, k) implies key_value(
                        post,
                        k,
                    ) == key_value(pre, k) by {
                        let a = key_index(pre, k);
                        let b = key_index(post, k);
                        assert(post[a].0@ == k);
                        if a != b {
                            assert(pre[b].0@ == k);
                            if a < b {
                                assert(pre[a].0@ != pre[b].0@);
                            } else {
                                assert(pre[b].0@ != pre[a].0@);
                            }
                        }
                        assert(post[b] == pre[b] || b != i as int);
                    }
                }
                return ;
            }
            i += 1;
        }
        let pair = (clone_string(key), value);
        table.push(pair);
        proof {
            let post = table@;
            assert(post[post.len() - 1].0@ == key@);
            assert forall|a: int, b: int| 0 <= a < b < post.len() implies (#[trigger] post[a]).0@
                != (#[trigger] post[b]).0@ by {
                if b < post.len() - 1 {
                    assert(pre[a].0@ != pre[b].0@);
                } else {
                    assert(post[a] == pre[a]);
                    assert(pre[a].0@ != key@);
                }
            }
            assert(has_key(post, key@));
            let j = key_index(post, key@);
            if j != post.len() - 1 {
                assert(post[j] == pre[j]);
                assert(pre[j].0@ != key@);
            }
            assert forall|k: Seq<char>| k != key@ implies (has_key(post, k) == has_key(pre, k)) by {
                if has_key(pre, k) {
                    let a = key_index(pre, k);
                    assert(post[a].0@ == k);
                }
                if has_key(post, k) {
                    let a = key_index(post, k);
                    if a < pre.len() {
                        assert(pre[a].0@ == k);
                    }
                }
            }
            assert forall|k: Seq<char>| k != key@ && has_key(pre, k) implies key_value(post, k)
                == key_value(pre, k) by {
                let a = key_index(pre, k);
                let b = key_index(post, k);
                assert(post[a].0@ == k);
                if b < pre.len() {
                    assert(pre[b].0@ == k);
                    if a != b {
                        if a < b {
                            assert(pre[a].0@ != pre[b].0@);
                        } else {
                            assert(pre[b].0@ != pre[a].0@);
                        }
                    }
                } else {
                    assert(post[b].0@ == key@);
                }
            }
        }
    }

    /// Whether this player is muted at time `now`. An expired mute
    /// counts as not muted; the entry is left for later cleanup.
    pub fn is_player_muted(&self, player: &String, now: u64) -> (b: bool)
        requires
            self.wf(),
        ensures
            b == self.is_muted_spec(player@, now),
    {
        match Self::lookup(&self.muted_players, player) {
            Some(until) => now <= until,
            None => false,
        }
    }

    /// Whether this player is outside the one-second rate limit.
    fn check_rate_limit(&self, player: &String, now: u64) -> (b: bool)
        requires
            self.wf(),
        ensures
            b == self.rate_ok_spec(player@, now),
    {
        match Self::lookup(&self.rate_limiting, player) {
            Some(last) => now >= last && now - last >= 1,
            None => true,
        }
    }

    /// Folds the content to lower case and masks each placeholder
    /// profanity with stars.
    fn filter_profanity(&self, content: &String) -> (r: String)
        ensures
            r@ == filtered_content(content@),
    {
        let lowered = lowercase(content.as_str());
        let step1 = replace_all(lowered.as_str(), "badword1", "********");
        let step2 = replace_all(step1.as_str(), "badword2", "********");
        replace_all(step2.as_str(), "badword3", "********")
    }

    /// Mutes a player until `duration_minutes` from now; an earlier
    /// mute is superseded. The bound only keeps the expiry inside the
    /// clock's range.
    pub fn mute_player(&mut self, player: &String, duration_minutes: u32, now: u64)
        requires
            old(self).wf(),
            now + duration_minutes * 60 <= u64::MAX,
        ensures
            final(self).wf(),
            final(self).is_muted_spec(player@, now),
            key_value(final(self).muted_players@, player@) == now + duration_minutes as u64 * 60,
            forall|k: Seq<char>|
                k != player@ ==> has_key(final(self).muted_players@, k) == has_key(
                    old(self).muted_players@,
                    k,
                ),
            final(self).messages@ == old(self).messages@,
            final(self).channels@ == old(self).channels@,
            final(self).rate_limiting@ == old(self).rate_limiting@,
            final(self).max_messages == old(self).max_messages,
            final(self).profanity_filter == old(self).profanity_filter,
    {
        let until: u64 = now + (duration_minutes as u64) * 60;
        Self::upsert(&mut self.muted_players, player, until);
    }

    /// Lifts a player's mute; reports whether one existed.
    pub fn unmute_player(&mut self, player: &String) -> (b: bool)
        requires
            old(self).wf(),
        ensures
            final(self).wf(),
            b == has_key(old(self).muted_players@, player@),
            !has_key(final(self).muted_players@, player@),
            forall|k: Seq<char>|
                k != player@ ==> has_key(final(self).muted_players@, k) == has_key(
                    old(self).muted_players@,
                    k,
                ),
            final(self).messages@ == old(self).messages@,
            final(self).channels@ == old(self).channels@,
            final(self).rate_limiting@ == old(self).rate_limiting@,
            final(self).max_messages == old(self).max_messages,
            final(self).profanity_filter == old(self).profanity_filter,
    {
        let ghost pre = self.muted_players@;
        let n = self.muted_players.len();
        let mut i: usize = 0;
        while i < n
            invariant
                old(self).wf(),
                keys_unique(pre),
                pre == old(self).muted_players@,
                *self == *old(self),
                n == self.muted_players@.len(),
                i <= n,
                forall|j: int| 0 <= j < i ==> (#[trigger] pre[j]).0@ != player@,
            decreases n - i,
        {
            if self.muted_players[i].0 == *player {
                self.muted_players.remove(i);
                proof {
                    pre.remove_ensures(i as int);
                    let post = self.muted_players@;
                    assert forall|a: int, b: int| 0 <= a < b < post.len() implies (
                    #[trigger] post[a]).0@ != (#[trigger] post[b]).0@ by {
                        let a2: int = if a < i as int {
                            a
                        } else {
                            a + 1
                        };
                        let b2: int = if b < i as int {
                            b
                        } else {
                            b + 1
                        };
                        assert(post[a] == pre[a2] && post[b] == pre[b2]);
                        assert(pre[a2].0@ != pre[b2].0@);
                    }
                    assert(pre[i as int].0@ == player@);
                    if has_key(post, player@) {
                        let a = key_index(post, player@);
                        let a2: int = if a < i as int {
                            a
                        } else {
                            a + 1
                        };
                        assert(post[a] == pre[a2]);
                        assert(pre[a2].0@ == player@);
                        if a2 < i as int {
                            assert(pre[a2].0@ != pre[i as int].0@);
                        } else {
                            assert(pre[i as int].0@ != pre[a2].0@);
                        }
                    }
                    assert forall|k: Seq<char>| k != player@ implies has_key(post, k) == has_key(
                        pre,
                        k,
                    ) by {
                        if has_key(pre, k) {
                            let a = key_index(pre, k);
                            if a < i as int {
                                assert(post[a].0@ == k);
                            } else {
                                assert(a != i as int);
                                assert(post[a - 1].0@ == k);
                            }
                        }
                        if has_key(post, k) {
                            let a = key_index(post, k);
                            let a2: int = if a < i as int {
                                a
                            } else {
                                a + 1
                            };
                            assert(post[a] == pre[a2]);
                            assert(pre[a2].0@ == k);
                        }
                    }
                }
                return true;
            }
            i += 1;
        }
        proof {
            if has_key(self.muted_players@, player@) {
                let a = key_index(self.muted_players@, player@);
                assert(pre[a].0@ == player@);
            }
        }
        false
    }
}


impl Clone for ChatChannel {
    fn clone(&self) -> (c: ChatChannel)
        ensures
            c.id == self.id,
            c.name == self.name,
            c.description == self.description,
            c.is_global == self.is_global,
            c.is_private == self.is_private,
            c.members@ == self.members@,
            c.moderators@ == self.moderators@,
    {
        let c = ChatChannel {
            id: self.id.clone(),
            name: self.name.clone(),
            description: self.description.clone(),
            is_global: self.is_global,
            is_private: self.is_private,
            members: self.members.clone(),
            moderators: self.moderators.clone(),
        };
        proof {
            assert(c.members@ =~= self.members@);
            assert(c.moderators@ =~= self.moderators@);
        }
        c
    }
}

impl ChatSystem {
    /// Whether this player is a member of the channel.
    fn member_of(channel: &ChatChannel, player: &String) -> (b: bool)
        ensures
            b == channel_has_member(*channel, player@),
    {
        let n = channel.members.len();
        let mut i: usize = 0;
        while i < n
            invariant
                n == channel.members@.len(),
                i <= n,
                forall|j: int| 0 <= j < i ==> (#[trigger] channel.members@[j])@ != player@,
            decreases n - i,
        {
            if channel.members[i] == *player {
                proof {
                    assert(channel.members@[i as int]@ == player@);
                }
                return true;
            }
            i += 1;
        }
        false
    }

    /// The index of the channel with this id, if one exists.
    fn find_channel(&self, channel_id: &String) -> (r: Option<usize>)
        requires
            self.wf(),
        ensures
            match r {
                Some(i) => {
                    &&& i < self.channels@.len()
                    &&& self.channels@[i as int].id@ == channel_id@
                    &&& has_channel_id(self.channels@, channel_id@)
                    &&& i as int == channel_id_index(self.channels@, channel_id@)
                },
                None => !has_channel_id(self.channels@, channel_id@),
            },
    {
        let n = self.channels.len();
        let mut i: usize = 0;
        while i < n
            invariant
                self.wf(),
                n == self.channels@.len(),
                i <= n,
                forall|j: int| 0 <= j < i ==> (#[trigger] self.channels@[j]).id@ != channel_id@,
            decreases n - i,
        {
            if self.channels[i].id == *channel_id {
                proof {
                    assert(self.channels@[i as int].id@ == channel_id@);
                    let j = channel_id_index(self.channels@, channel_id@);
                    if j != i as int {
                        assert(self.channels@[j].id@ == self.channels@[i as int].id@);
                    }
                }
                return Some(i);
            }
            i += 1;
        }
        None
    }

    /// Sends a message at time `now`: rejected while the sender is
    /// muted or inside the one-second rate limit; otherwise the content
    /// is passed through the profanity filter (when enabled), the
    /// message is appended to the history — dropping the oldest entry
    /// once the bound is exceeded — and the sender's rate-limit stamp
    /// becomes `now`.
    pub fn send_message(
        &mut self,
        sender: &String,
        content: &String,
        message_type: MessageType,
        world_id: Option<String>,
        target_player: Option<String>,
        now: u64,
    ) -> (r: Result<ChatMessage, String>)
        requires
            old(self).wf(),
        ensures
            final(self).wf(),
            match r {
                Ok(m) => {
                    &&& !old(self).is_muted_spec(sender@, now)
                    &&& old(self).rate_ok_spec(sender@, now)
                    &&& m.sender@ == sender@
                    &&& m.timestamp == now
                    &&& m.message_type == message_type
                    &&& m.world_id == world_id
                    &&& m.target_player == target_player
                    &&& m.id@.len() == 36
                    &&& m.content@ == (if old(self).profanity_filter {
                        filtered_content(content@)
                    } else {
                        content@
                    })
                    &&& {
                        let appended = old(self).messages@.push(m);
                        final(self).messages@ == if appended.len() > old(self).max_messages {
                            appended.subrange(1, appended.len() as int)
                        } else {
                            appended
                        }
                    }
                    &&& final(self).channels@ == old(self).channels@
                    &&& final(self).muted_players@ == old(self).muted_players@
                    &&& final(self).max_messages == old(self).max_messages
                    &&& final(self).profanity_filter == old(self).profanity_filter
                    &&& has_key(final(self).rate_limiting@, sender@)
                    &&& key_value(final(self).rate_limiting@, sender@) == now
                    &&& forall|k: Seq<char>|
                        k != sender@ ==> has_key(final(self).rate_limiting@, k) == has_key(
                            old(self).rate_limiting@,
                            k,
                        )
                },
                Err(e) => {
                    &&& (old(self).is_muted_spec(sender@, now) || !old(self).rate_ok_spec(
                        sender@,
                        now,
                    ))
                    &&& (old(self).is_muted_spec(sender@, now) ==> e@ == "You are currently muted"@)
                    &&& (!old(self).is_muted_spec(sender@, now) ==> e@
                        == "You are sending messages too quickly"@)
                    &&& *final(self) == *old(self)
                },
            },
    {
        if self.is_player_muted(sender, now) {
            return Err("You are currently muted".to_string());
        }
        if !self.check_rate_limit(sender, now) {
            return Err("You are sending messages too quickly".to_string());
        }
        let filtered: String = if self.profanity_filter {
            self.filter_profanity(content)
        } else {
            clone_string(content)
        };
        let message = ChatMessage {
            id: fresh_message_id(),
            sender: clone_string(sender),
            content: filtered,
            message_type,
            timestamp: now,
            world_id,
            target_player,
        };
        let stored = message.clone();
        self.messages.push(stored);
        if self.messages.len() > self.max_messages {
            let ghost appended = self.messages@;
            self.messages.remove(0);
            proof {
                assert(self.messages@ =~= appended.subrange(1, appended.len() as int));
            }
        }
        Self::upsert(&mut self.rate_limiting, sender, now);
        Ok(message)
    }

    /// Creates a channel with the creator as first member and
    /// moderator; an already used id is rejected and changes nothing.
    pub fn create_channel(
        &mut self,
        id: String,
        name: String,
        description: String,
        is_global: bool,
        is_private: bool,
        creator: String,
    ) -> (r: Result<ChatChannel, String>)
        requires
            old(self).wf(),
        ensures
            final(self).wf(),
            match r {
                Ok(c) => {
                    &&& !has_channel_id(old(self).channels@, id@)
                    &&& c.id@ == id@
                    &&& c.name@ == name@
                    &&& c.description@ == description@
                    &&& c.is_global == is_global
                    &&& c.is_private == is_private
                    &&& c.members@.len() == 1
                    &&& c.members@[0]@ == creator@
                    &&& c.moderators@.len() == 1
                    &&& c.moderators@[0]@ == creator@
                    &&& final(self).channels@.len() == old(self).channels@.len() + 1
                    &&& forall|j: int|
                        0 <= j < old(self).channels@.len() ==> final(self).channels@[j]
                            == #[trigger] old(self).channels@[j]
                    &&& final(self).channels@.last().id@ == id@
                    &&& final(self).channels@.last().is_global == is_global
                    &&& final(self).channels@.last().is_private == is_private
                    &&& final(self).channels@.last().members@ == c.members@
                    &&& final(self).messages@ == old(self).messages@
                    &&& final(self).rate_limiting@ == old(self).rate_limiting@
                    &&& final(self).muted_players@ == old(self).muted_players@
                    &&& final(self).max_messages == old(self).max_messages
                    &&& final(self).profanity_filter == old(self).profanity_filter
                },
                Err(e) => {
                    &&& has_channel_id(old(self).channels@, id@)
                    &&& e@ == "Channel already exists"@
                    &&& *final(self) == *old(self)
                },
            },
    {
        let ghost pre = self.channels@;
        let n = self.channels.len();
        let mut i: usize = 0;
        while i < n
            invariant
                old(self).wf(),
                pre == old(self).channels@,
                *self == *old(self),
                n == self.channels@.len(),
                i <= n,
                forall|j: int| 0 <= j < i ==> (#[trigger] pre[j]).id@ != id@,
            decreases n - i,
        {
            if self.channels[i].id == id {
                proof {
                    assert(pre[i as int].id@ == id@);
                }
                return Err("Channel already exists".to_string());
            }
            i += 1;
        }
        proof {
            if has_channel_id(pre, id@) {
                let j = channel_id_index(pre, id@);
                assert(pre[j].id@ == id@);
                assert(false);
            }
        }
        let mut members: Vec<String> = Vec::new();
        members.push(clone_string(&creator));
        let mut moderators: Vec<String> = Vec::new();
        moderators.push(creator);
        let channel = ChatChannel { id, name, description, is_global, is_private, members, moderators };
        let ret = channel.clone();
        self.channels.push(channel);
        proof {
            let post = self.channels@;
            assert forall|a: int, b: int| 0 <= a < b < post.len() implies (#[trigger] post[a]).id@
                != (#[trigger] post[b]).id@ by {
                if b < post.len() - 1 {
                    assert(pre[a].id@ != pre[b].id@);
                } else {
                    assert(post[a] == pre[a]);
                    assert(pre[a].id@ != post[b].id@);
                }
            }
        }
        Ok(ret)
    }

    /// Adds a player to a channel's membership; already a member means
    /// nothing changes, an unknown channel is rejected.
    pub fn join_channel(&mut self, channel_id: &String, player: &String) -> (r: Result<
        (),
        String,
    >)
        requires
            old(self).wf(),
        ensures
            final(self).wf(),
            match r {
                Ok(()) => {
                    &&& has_channel_id(old(self).channels@, channel_id@)
                    &&& {
                        let i = channel_id_index(old(self).channels@, channel_id@);
                        let pre_c = old(self).channels@[i];
                        let post_c = final(self).channels@[i];
                        &&& final(self).channels@.len() == old(self).channels@.len()
                        &&& forall|j: int|
                            0 <= j < old(self).channels@.len() && j != i ==> final(self).channels@[j] == #[trigger] old(self).channels@[j]
                        &&& channel_has_member(post_c, player@)
                        &&& if channel_has_member(pre_c, player@) {
                            post_c == pre_c
                        } else {
                            &&& post_c.id == pre_c.id
                            &&& post_c.name == pre_c.name
                            &&& post_c.description == pre_c.description
                            &&& post_c.is_global == pre_c.is_global
                            &&& post_c.is_private == pre_c.is_private
                            &&& post_c.moderators == pre_c.moderators
                            &&& post_c.members@.len() == pre_c.members@.len() + 1
                            &&& forall|k: int|
                                0 <= k < pre_c.members@.len() ==> post_c.members@[k]
                                    == #[trigger] pre_c.members@[k]
                            &&& post_c.members@.last()@ == player@
                        }
                    }
                    &&& final(self).messages@ == old(self).messages@
                    &&& final(self).rate_limiting@ == old(self).rate_limiting@
                    &&& final(self).muted_players@ == old(self).muted_players@
                    &&& final(self).max_messages == old(self).max_messages
                    &&& final(self).profanity_filter == old(self).profanity_filter
                },
                Err(e) => {
                    &&& !has_channel_id(old(self).channels@, channel_id@)
                    &&& e@ == "Channel not found"@
                    &&& *final(self) == *old(self)
                },
            },
    {
        match self.find_channel(channel_id) {
            None => Err("Channel not found".to_string()),
            Some(i) => {
                let ghost pre = self.channels@;
                if !Self::member_of(&self.channels[i], player) {
                    self.channels[i].members.push(clone_string(player));
                    proof {
                        let post = self.channels@;
                        assert(post == pre.update(i as int, post[i as int]));
                        assert(post[i as int].members@.last()@ == player@);
                        assert(channel_has_member(post[i as int], player@));
                        assert forall|a: int, b: int| 0 <= a < b < post.len() implies (
                        #[trigger] post[a]).id@ != (#[trigger] post[b]).id@ by {
                            assert(pre[a].id@ != pre[b].id@);
                            assert(post[a].id == pre[a].id && post[b].id == pre[b].id);
                        }
                    }
                }
                Ok(())
            },
        }
    }

    /// Removes a player from a channel's membership; an unknown channel
    /// is rejected.
    pub fn leave_channel(&mut self, channel_id: &String, player: &String) -> (r: Result<
        (),
        String,
    >)
        requires
            old(self).wf(),
        ensures
            final(self).wf(),
            match r {
                Ok(()) => {
                    &&& has_channel_id(old(self).channels@, channel_id@)
                    &&& {
                        let i = channel_id_index(old(self).channels@, channel_id@);
                        let pre_c = old(self).channels@[i];
                        let post_c = final(self).channels@[i];
                        &&& final(self).channels@.len() == old(self).channels@.len()
                        &&& forall|j: int|
                            0 <= j < old(self).channels@.len() && j != i ==> final(self).channels@[j] == #[trigger] old(self).channels@[j]
                        &&& post_c.id == pre_c.id
                        &&& post_c.name == pre_c.name
                        &&& post_c.description == pre_c.description
                        &&& post_c.is_global == pre_c.is_global
                        &&& post_c.is_private == pre_c.is_private
                        &&& post_c.moderators == pre_c.moderators
                        &&& post_c.members@ == pre_c.members@.filter(
                            |m: String| m@ != player@,
                        )
                        &&& !channel_has_member(post_c, player@)
                    }
                    &&& final(self).messages@ == old(self).messages@
                    &&& final(self).rate_limiting@ == old(self).rate_limiting@
                    &&& final(self).muted_players@ == old(self).muted_players@
                    &&& final(self).max_messages == old(self).max_messages
                    &&& final(self).profanity_filter == old(self).profanity_filter
                },
                Err(e) => {
                    &&& !has_channel_id(old(self).channels@, channel_id@)
                    &&& e@ == "Channel not found"@
                    &&& *final(self) == *old(self)
                },
            },
    {
        match self.find_channel(channel_id) {
            None => Err("Channel not found".to_string()),
            Some(i) => {
                let ghost pre = self.channels@;
                let ghost pred = |m: String| m@ != player@;
                let ghost old_members = self.channels@[i as int].members@;
                let mut kept: Vec<String> = Vec::new();
                let m = self.channels[i].members.len();
                let mut k: usize = 0;
                while k < m
                    invariant
                        0 <= (i as int) < self.channels@.len(),
                        self.channels@ == pre,
                        old_members == pre[i as int].members@,
                        pred == (|m: String| m@ != player@),
                        m == old_members.len(),
                        k <= m,
                        kept@ == old_members.subrange(0, k as int).filter(pred),
                    decreases m - k,
                {
                    proof {
                        assert(old_members.subrange(0, k as int + 1) =~= old_members.subrange(
                            0,
                            k as int,
                        ).push(old_members[k as int]));
                        lemma_filter_push(
                            old_members.subrange(0, k as int),
                            pred,
                            old_members[k as int],
                        );
                    }
                    if !(self.channels[i].members[k] == *player) {
                        proof {
                            assert(pred(old_members[k as int]));
                        }
                        kept.push(clone_string(&self.channels[i].members[k]));
                        proof {
                            assert(kept@ =~= old_members.subrange(0, k as int).filter(pred).push(
                                old_members[k as int],
                            ));
                        }
                    } else {
                        proof {
                            assert(old_members[k as int]@ == player@);
                            assert(!pred(old_members[k as int]));
                        }
                    }
                    k += 1;
                }
                proof {
                    assert(old_members.subrange(0, m as int) =~= old_members);
                    broadcast use vstd::seq_lib::group_filter_ensures;

                }
                self.channels[i].members = kept;
                proof {
                    let post = self.channels@;
                    assert(post == pre.update(i as int, post[i as int]));
                    assert(post[i as int].members@ == old_members.filter(pred));
                    if channel_has_member(post[i as int], player@) {
                        let w = choose|w: int|
                            0 <= w < post[i as int].members@.len() && (
                            #[trigger] post[i as int].members@[w])@ == player@;
                        assert(pred(post[i as int].members@[w]));
                        assert(false);
                    }
                    assert forall|a: int, b: int| 0 <= a < b < post.len() implies (
                    #[trigger] post[a]).id@ != (#[trigger] post[b]).id@ by {
                        assert(pre[a].id@ != pre[b].id@);
                        assert(post[a].id == pre[a].id && post[b].id == pre[b].id);
                    }
                }
                Ok(())
            },
        }
    }

    /// The channel with this id, if one exists.
    pub fn get_channel(&self, channel_id: &String) -> (r: Option<&ChatChannel>)
        requires
            self.wf(),
        ensures
            match r {
                Some(c) => has_channel_id(self.channels@, channel_id@) && *c == self.channels@[
                    channel_id_index(self.channels@, channel_id@)
                ],
                None => !has_channel_id(self.channels@, channel_id@),
            },
    {
        match self.find_channel(channel_id) {
            Some(i) => Some(&self.channels[i]),
            None => None,
        }
    }

    /// Every channel, in creation order.
    pub fn get_all_channels(&self) -> (r: Vec<&ChatChannel>)
        ensures
            r@.len() == self.channels@.len(),
            forall|k: int| 0 <= k < r@.len() ==> *(#[trigger] r@[k]) == self.channels@[k],
    {
        let mut out: Vec<&ChatChannel> = Vec::new();
        let n = self.channels.len();
        let mut i: usize = 0;
        while i < n
            invariant
                n == self.channels@.len(),
                i <= n,
                out@.len() == i,
                forall|k: int| 0 <= k < i ==> *(#[trigger] out@[k]) == self.channels@[k],
            decreases n - i,
        {
            out.push(&self.channels[i]);
            i += 1;
        }
        out
    }

    /// Every channel this player is a member of, in creation order.
    pub fn get_player_channels(&self, player: &String) -> (r: Vec<&ChatChannel>)
        ensures
            r@.map_values(|c: &ChatChannel| *c) == self.channels@.filter(
                |c: ChatChannel| channel_has_member(c, player@),
            ),
    {
        let ghost pred = |c: ChatChannel| channel_has_member(c, player@);
        let ghost chans = self.channels@;
        let ghost f = |c: &ChatChannel| *c;
        let mut out: Vec<&ChatChannel> = Vec::new();
        let n = self.channels.len();
        let mut i: usize = 0;
        while i < n
            invariant
                chans == self.channels@,
                pred == (|c: ChatChannel| channel_has_member(c, player@)),
                f == (|c: &ChatChannel| *c),
                n == chans.len(),
                i <= n,
                out@.map_values(f) == chans.subrange(0, i as int).filter(pred),
            decreases n - i,
        {
            proof {
                assert(chans.subrange(0, i as int + 1) =~= chans.subrange(0, i as int).push(
                    chans[i as int],
                ));
                lemma_filter_push(chans.subrange(0, i as int), pred, chans[i as int]);
            }
            if Self::member_of(&self.channels[i], player) {
                out.push(&self.channels[i]);
                proof {
                    assert(out@.map_values(f) =~= chans.subrange(0, i as int).filter(pred).push(
                        chans[i as int],
                    ));
                }
            }
            i += 1;
        }
        proof {
            assert(chans.subrange(0, n as int) =~= chans);
        }
        out
    }

    /// Up to `count` of the most recent messages, newest first,
    /// restricted to one world when one is named. The channel argument
    /// is accepted but does not narrow the result.
    pub fn get_recent_messages(
        &self,
        count: usize,
        world_id: Option<&String>,
        channel_id: Option<&String>,
    ) -> (r: Vec<ChatMessage>)
        ensures
            r@ == recent_messages(
                self.messages@,
                count as int,
                match world_id {
                    Some(w) => Some(w@),
                    None => None,
                },
            ),
    {
        let ghost msgs = self.messages@;
        let ghost w: Option<Seq<char>> = match world_id {
            Some(ww) => Some(ww@),
            None => None,
        };
        let mut out: Vec<ChatMessage> = Vec::new();
        let mut i: usize = self.messages.len();
        proof {
            assert(msgs.subrange(0, i as int) =~= msgs);
        }
        while i > 0 && out.len() < count
            invariant
                msgs == self.messages@,
                w == (match world_id {
                    Some(ww) => Some(ww@),
                    None => None,
                }),
                i <= msgs.len(),
                out@.len() <= count,
                recent_messages(msgs, count as int, w) == out@ + recent_messages(
                    msgs.subrange(0, i as int),
                    count - out@.len(),
                    w,
                ),
            decreases i,
        {
            i -= 1;
            let ghost budget = count - out@.len();
            proof {
                assert(msgs.subrange(0, i as int + 1).drop_last() =~= msgs.subrange(0, i as int));
                assert(msgs.subrange(0, i as int + 1).last() == msgs[i as int]);
            }
            let matches: bool = match world_id {
                None => true,
                Some(wanted) => match &self.messages[i].world_id {
                    Some(mw) => *mw == *wanted,
                    None => false,
                },
            };
            proof {
                assert(matches == world_matches(msgs[i as int], w));
            }
            if matches {
                out.push(self.messages[i].clone());
                proof {
                    assert(out@.drop_last() + (seq![msgs[i as int]] + recent_messages(
                        msgs.subrange(0, i as int),
                        budget - 1,
                        w,
                    )) =~= out@ + recent_messages(msgs.subrange(0, i as int), budget - 1, w));
                }
            }
        }
        proof {
            if out@.len() == count {
                assert(recent_messages(msgs.subrange(0, i as int), 0, w) =~= Seq::empty());
            } else {
                assert(msgs.subrange(0, 0) =~= Seq::<ChatMessage>::empty());
            }
            assert(out@ + Seq::<ChatMessage>::empty() =~= out@);
        }
        out
    }

    /// Sends a system broadcast. The system sender must not be muted or
    /// rate-limited, which the caller guarantees.
    pub fn broadcast_system_message(&mut self, content: &String, world_id: Option<String>, now: u64)
        -> (m: ChatMessage)
        requires
            old(self).wf(),
            !old(self).is_muted_spec("SYSTEM"@, now),
            old(self).rate_ok_spec("SYSTEM"@, now),
        ensures
            final(self).wf(),
            m.sender@ == "SYSTEM"@,
            m.message_type == MessageType::System,
            m.timestamp == now,
            m.world_id == world_id,
            m.target_player is None,
            m.content@ == (if old(self).profanity_filter {
                filtered_content(content@)
            } else {
                content@
            }),
    {
        let sender = "SYSTEM".to_string();
        match self.send_message(&sender, content, MessageType::System, world_id, None, now) {
            Ok(m) => m,
            Err(_) => {
                proof {
                    assert(false);
                }
                vstd::pervasive::unreached()
            },
        }
    }

    /// Sends a whisper to one target player, under the same muting and
    /// rate-limit rules as any message.
    pub fn send_whisper(&mut self, sender: &String, target: &String, content: &String, now: u64)
        -> (r: Result<ChatMessage, String>)
        requires
            old(self).wf(),
        ensures
            final(self).wf(),
            match r {
                Ok(m) => {
                    &&& !old(self).is_muted_spec(sender@, now)
                    &&& old(self).rate_ok_spec(sender@, now)
                    &&& m.sender@ == sender@
                    &&& m.message_type == MessageType::Whisper
                    &&& m.timestamp == now
                    &&& m.world_id is None
                    &&& m.target_player matches Some(t) && t@ == target@
                    &&& m.content@ == (if old(self).profanity_filter {
                        filtered_content(content@)
                    } else {
                        content@
                    })
                },
                Err(_) => (old(self).is_muted_spec(sender@, now) || !old(self).rate_ok_spec(
                    sender@,
                    now,
                )) && *final(self) == *old(self),
            },
    {
        self.send_message(
            sender,
            content,
            MessageType::Whisper,
            None,
            Some(clone_string(target)),
            now,
        )
    }

    /// An aggregate snapshot: totals, and one count per message kind.
    pub fn get_chat_stats(&self) -> (stats: ChatStats)
        ensures
            stats.total_messages == self.messages@.len(),
            stats.total_channels == self.channels@.len(),
            stats.muted_players == self.muted_players@.len(),
            stats.message_type_counts@.len() == 6,
            stats.message_type_counts@[0] == (
                MessageType::Chat,
                count_of_type(self.messages@, MessageType::Chat) as usize,
            ),
            stats.message_type_counts@[1] == (
                MessageType::System,
                count_of_type(self.messages@, MessageType::System) as usize,
            ),
            stats.message_type_counts@[2] == (
                MessageType::Command,
                count_of_type(self.messages@, MessageType::Command) as usize,
            ),
            stats.message_type_counts@[3] == (
                MessageType::Whisper,
                count_of_type(self.messages@, MessageType::Whisper) as usize,
            ),
            stats.message_type_counts@[4] == (
                MessageType::Global,
                count_of_type(self.messages@, MessageType::Global) as usize,
            ),
            stats.message_type_counts@[5] == (
                MessageType::Team,
                count_of_type(self.messages@, MessageType::Team) as usize,
            ),
    {
        let ghost msgs = self.messages@;
        let n = self.messages.len();
        let mut chat_n: usize = 0;
        let mut system_n: usize = 0;
        let mut command_n: usize = 0;
        let mut whisper_n: usize = 0;
        let mut global_n: usize = 0;
        let mut team_n: usize = 0;
        let mut i: usize = 0;
        while i < n
            invariant
                msgs == self.messages@,
                n == msgs.len(),
                i <= n,
                chat_n <= i && system_n <= i && command_n <= i && whisper_n <= i && global_n <= i
                    && team_n <= i,
                chat_n as int == count_of_type(msgs.subrange(0, i as int), MessageType::Chat),
                system_n as int == count_of_type(msgs.subrange(0, i as int), MessageType::System),
                command_n as int == count_of_type(
                    msgs.subrange(0, i as int),
                    MessageType::Command,
                ),
                whisper_n as int == count_of_type(
                    msgs.subrange(0, i as int),
                    MessageType::Whisper,
                ),
                global_n as int == count_of_type(msgs.subrange(0, i as int), MessageType::Global),
                team_n as int == count_of_type(msgs.subrange(0, i as int), MessageType::Team),
            decreases n - i,
        {
            proof {
                assert(msgs.subrange(0, i as int + 1).drop_last() =~= msgs.subrange(0, i as int));
                assert(msgs.subrange(0, i as int + 1).last() == msgs[i as int]);
            }
            match self.messages[i].message_type {
                MessageType::Chat => {
                    chat_n += 1;
                },
                MessageType::System => {
                    system_n += 1;
                },
                MessageType::Command => {
                    command_n += 1;
                },
                MessageType::Whisper => {
                    whisper_n += 1;
                },
                MessageType::Global => {
                    global_n += 1;
                },
                MessageType::Team => {
                    team_n += 1;
                },
            }
            i += 1;
        }
        proof {
            assert(msgs.subrange(0, n as int) =~= msgs);
        }
        let mut counts: Vec<(MessageType, usize)> = Vec::new();
        counts.push((MessageType::Chat, chat_n));
        counts.push((MessageType::System, system_n));
        counts.push((MessageType::Command, command_n));
        counts.push((MessageType::Whisper, whisper_n));
        counts.push((MessageType::Global, global_n));
        counts.push((MessageType::Team, team_n));
        ChatStats {
            total_messages: n,
            total_channels: self.channels.len(),
            muted_players: self.muted_players.len(),
            message_type_counts: counts,
        }
    }

    /// A fresh chat system with the two default channels, a history
    /// bound of 1000 messages and the profanity filter enabled.
    pub fn new() -> (r: ChatSystem)
        ensures
            r.wf(),
            r.messages@.len() == 0,
            r.max_messages == 1000,
            r.profanity_filter,
            r.rate_limiting@.len() == 0,
            r.muted_players@.len() == 0,
            r.channels@.len() == 2,
            r.channels@[0].id@ == "global"@,
            r.channels@[0].is_global,
            r.channels@[1].id@ == "local"@,
            !r.channels@[1].is_global,
    {
        let mut system = ChatSystem {
            messages: Vec::new(),
            channels: Vec::new(),
            max_messages: 1000,
            profanity_filter: true,
            rate_limiting: Vec::new(),
            muted_players: Vec::new(),
        };
        let first = system.create_channel(
            "global".to_string(),
            "Global".to_string(),
            "Global chat channel".to_string(),
            true,
            false,
            "SYSTEM".to_string(),
        );
        proof {
            reveal_strlit("global");
            reveal_strlit("local");
            assert("global"@.len() == 6 && "local"@.len() == 5);
        }
        let second = system.create_channel(
            "local".to_string(),
            "Local".to_string(),
            "Local chat channel".to_string(),
            false,
            false,
            "SYSTEM".to_string(),
        );
        proof {
            assert(first is Ok);
            assert(second is Ok);
        }
        system
    }
}

} // verus!

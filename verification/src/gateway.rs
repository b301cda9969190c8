//! Voice gateway connection state machine.
//!
//! Tracks, per guild, the connection state, the two pending handshake
//! halves (session credential and media endpoint), and whether a media
//! call handle exists. Every state change goes through the validated
//! transition relation; a ghost history per guild records that the
//! changes form a path in that relation.
//!
//! The gateway decides; the surrounding runtime performs: it sends the
//! returned join command on the control channel, drives the media call,
//! and reports connect results back.

use vstd::prelude::*;

use crate::kv::{kv_find, kv_insert, kv_remove, spec_get, unique_keys};
use crate::text::{spec_dec, spec_trim, str_trim, u64_to_dec};

verus! {

/// Connection state of one guild's media session.
#[derive(Debug, Clone, Copy, PartialEq, Eq, Structural)]
pub enum VcConnectionState {
    /// Not connected.
    Disconnected,
    /// Join command sent; waiting for the handshake halves.
    Connecting { started_at: u64, guild_id: u64, channel_id: u64 },
    /// Media session established.
    Connected { guild_id: u64, channel_id: u64, connected_at: u64 },
    /// Transport lost; recovery attempts in progress.
    Reconnecting { guild_id: u64, channel_id: u64, attempt: u32, max_attempts: u32, last_attempt_at: u64 },
}

impl VcConnectionState {
    pub fn is_connected(&self) -> (r: bool)
        ensures
            r == (self is Connected),
    {
        matches!(self, VcConnectionState::Connected { .. })
    }

    pub fn is_active(&self) -> (r: bool)
        ensures
            r == (self is Connected || self is Reconnecting),
    {
        matches!(self, VcConnectionState::Connected { .. } | VcConnectionState::Reconnecting { .. })
    }

    pub fn guild_id(&self) -> (r: Option<u64>)
        ensures
            r == match *self {
                VcConnectionState::Disconnected => None::<u64>,
                VcConnectionState::Connecting { guild_id, .. } => Some(guild_id),
                VcConnectionState::Connected { guild_id, .. } => Some(guild_id),
                VcConnectionState::Reconnecting { guild_id, .. } => Some(guild_id),
            },
    {
        match self {
            VcConnectionState::Disconnected => None,
            VcConnectionState::Connecting { guild_id, .. }
            | VcConnectionState::Connected { guild_id, .. }
            | VcConnectionState::Reconnecting { guild_id, .. } => Some(*guild_id),
        }
    }
}

/// The validated transition relation of the connection state machine.
pub open spec fn valid_transition(from: VcConnectionState, to: VcConnectionState) -> bool {
    ||| (from is Disconnected && to is Connecting)
    ||| (from is Connecting && to is Connected)
    ||| (from is Connecting && to is Disconnected)
    ||| (from is Connected && to is Disconnected)
    ||| (from is Connected && to is Reconnecting)
    ||| (from is Reconnecting && to is Connected)
    ||| (from is Reconnecting && to is Disconnected)
}

/// A sequence of states is a path of the state machine: it starts
/// disconnected and every step is a validated transition.
pub open spec fn is_validated_path(h: Seq<VcConnectionState>) -> bool {
    &&& h.len() > 0
    &&& h[0] is Disconnected
    &&& forall|i: int| 0 <= i < h.len() - 1 ==> valid_transition(#[trigger] h[i], h[i + 1])
}

/// Session half of the handshake, from a voice state event.
#[derive(Debug, Clone)]
pub struct VoiceStateData {
    pub guild_id: u64,
    pub channel_id: Option<u64>,
    pub user_id: u64,
    pub session_id: String,
}

/// Media half of the handshake, from a voice server event.
#[derive(Debug, Clone)]
pub struct VoiceServerData {
    pub guild_id: u64,
    pub token: String,
    pub endpoint: String,
}

/// Everything the media driver needs to open the session.
#[derive(Debug, Clone)]
pub struct ConnectionParams {
    pub guild_id: u64,
    pub channel_id: u64,
    pub user_id: u64,
    pub session_id: String,
    pub token: String,
    pub endpoint: String,
}

/// A rejected state change.
#[derive(Debug, Clone, Copy, PartialEq, Eq, Structural)]
pub enum GatewayError {
    InvalidTransition,
}

/// What an incoming voice state event asks of the caller.
#[derive(Debug, Clone, Copy, PartialEq, Eq, Structural)]
pub enum VoiceStateAction {
    /// The event concerned another user.
    Ignored,
    /// The bot was removed from the channel; drop any call handle.
    Removed { had_call: bool },
    /// Session half stored; the media half has not arrived yet.
    Stored,
    /// Both halves are present: take the connection parameters.
    ReadyToConnect,
}

/// `s` without trailing `/` characters.
pub open spec fn spec_strip_trailing_slashes(s: Seq<char>) -> Seq<char>
    decreases s.len(),
{
    if s.len() > 0 && s.last() == '/' {
        spec_strip_trailing_slashes(s.drop_last())
    } else {
        s
    }
}

/// The endpoint as the media driver wants it: if the trimmed endpoint
/// carries a `wss://` scheme it is stripped, otherwise the endpoint is
/// used as received; trailing slashes go either way.
pub open spec fn spec_sanitize_endpoint(e: Seq<char>) -> Seq<char> {
    let t = spec_trim(e);
    if t.len() >= 6 && t.take(6) == "wss://"@ {
        spec_strip_trailing_slashes(t.skip(6))
    } else {
        spec_strip_trailing_slashes(e)
    }
}

proof fn lemma_strip_trailing_take(s: Seq<char>, i: int)
    requires
        0 <= i <= s.len(),
        forall|j: int| i <= j < s.len() ==> #[trigger] s[j] == '/',
        i > 0 ==> s[i - 1] != '/',
    ensures
        spec_strip_trailing_slashes(s) =~= s.take(i),
    decreases s.len() - i,
{
    if i < s.len() {
        lemma_strip_trailing_take(s.drop_last(), i);
        assert(s.drop_last().take(i) =~= s.take(i));
    } else {
        if s.len() > 0 && s.last() == '/' {
            assert(s[i - 1] == '/');
        }
        assert(s.take(s.len() as int) =~= s);
    }
}

fn strip_trailing_slashes(s: &str) -> (r: String)
    ensures
        r@ == spec_strip_trailing_slashes(s@),
{
    let n = s.unicode_len();
    let mut end: usize = n;
    while end > 0 && s.get_char(end - 1) == '/'
        invariant
            n == s@.len(),
            end <= n,
            forall|j: int| end <= j < n ==> #[trigger] s@[j] == '/',
        decreases end,
    {
        end = end - 1;
    }
    proof {
        lemma_strip_trailing_take(s@, end as int);
    }
    s.substring_char(0, end).to_owned()
}

/// Strip the scheme and trailing slashes from a received endpoint.
pub fn sanitize_endpoint(e: &str) -> (r: String)
    ensures
        r@ == spec_sanitize_endpoint(e@),
{
    let t = str_trim(e);
    let ts = t.as_str();
    let n = ts.unicode_len();
    let has_scheme = n >= 6 && ts.get_char(0) == 'w' && ts.get_char(1) == 's' && ts.get_char(2)
        == 's' && ts.get_char(3) == ':' && ts.get_char(4) == '/' && ts.get_char(5) == '/';
    proof {
        reveal_strlit("wss://");
        if n >= 6 {
            assert(ts@.take(6)[0] == ts@[0] && ts@.take(6)[1] == ts@[1] && ts@.take(6)[2] == ts@[2]
                && ts@.take(6)[3] == ts@[3] && ts@.take(6)[4] == ts@[4] && ts@.take(6)[5]
                == ts@[5]);
            if has_scheme {
                assert(ts@.take(6) =~= "wss://"@);
            }
            if ts@.take(6) == "wss://"@ {
                assert(has_scheme);
            }
        }
    }
    if has_scheme {
        let rest = ts.substring_char(6, n);
        proof {
            assert(rest@ =~= ts@.skip(6));
        }
        strip_trailing_slashes(rest)
    } else {
        strip_trailing_slashes(e)
    }
}

/// The channel-join command sent on the control channel.
pub open spec fn spec_join_command(guild_id: u64, channel_id: u64) -> Seq<char> {
    "{\"op\":4,\"d\":{\"guild_id\":\""@ + spec_dec(guild_id as nat)
        + "\",\"channel_id\":\""@ + spec_dec(channel_id as nat)
        + "\",\"self_mute\":false,\"self_deaf\":false}}"@
}

/// Render the channel-join command for a guild and channel.
pub fn join_command_json(guild_id: u64, channel_id: u64) -> (r: String)
    ensures
        r@ == spec_join_command(guild_id, channel_id),
{
    let mut r = String::new();
    r.append("{\"op\":4,\"d\":{\"guild_id\":\"");
    let g = u64_to_dec(guild_id);
    r.append(g.as_str());
    r.append("\",\"channel_id\":\"");
    let c = u64_to_dec(channel_id);
    r.append(c.as_str());
    r.append("\",\"self_mute\":false,\"self_deaf\":false}}");
    proof {
        assert(r@ =~= spec_join_command(guild_id, channel_id));
    }
    r
}

/// Per-guild connection state machine with pending handshake halves.
pub struct VoiceGateway {
    bot_user_id: u64,
    pending_voice_states: Vec<(u64, VoiceStateData)>,
    pending_voice_servers: Vec<(u64, VoiceServerData)>,
    connection_states: Vec<(u64, VcConnectionState)>,
    calls: Vec<(u64, bool)>,
    /// The states each guild has passed through, oldest first.
    history: Ghost<Map<u64, Seq<VcConnectionState>>>,
}

impl VoiceGateway {
    pub closed spec fn bot_user_id_spec(self) -> u64 {
        self.bot_user_id
    }

    /// Connection state recorded for a guild; disconnected when none is.
    pub closed spec fn state_of(self, guild_id: u64) -> VcConnectionState {
        match spec_get(self.connection_states@, guild_id) {
            Some(s) => s,
            None => VcConnectionState::Disconnected,
        }
    }

    /// Pending session half for a guild.
    pub closed spec fn pending_state_of(self, guild_id: u64) -> Option<VoiceStateData> {
        spec_get(self.pending_voice_states@, guild_id)
    }

    /// Pending media half for a guild.
    pub closed spec fn pending_server_of(self, guild_id: u64) -> Option<VoiceServerData> {
        spec_get(self.pending_voice_servers@, guild_id)
    }

    /// Whether a media call handle exists for a guild.
    pub closed spec fn has_call(self, guild_id: u64) -> bool {
        spec_get(self.calls@, guild_id) is Some
    }

    /// The guilds that currently hold a media call handle.
    pub closed spec fn call_guilds(self) -> Seq<u64> {
        self.calls@.map_values(|p: (u64, bool)| p.0)
    }

    /// States a guild has passed through, starting disconnected.
    pub closed spec fn history_of(self, guild_id: u64) -> Seq<VcConnectionState> {
        if self.history@.dom().contains(guild_id) {
            self.history@[guild_id]
        } else {
            seq![VcConnectionState::Disconnected]
        }
    }

    /// Well-formed: tables are keyed uniquely, and every guild's recorded
    /// history is a validated path ending in its current state.
    pub closed spec fn wf(self) -> bool {
        &&& unique_keys(self.pending_voice_states@)
        &&& unique_keys(self.pending_voice_servers@)
        &&& unique_keys(self.connection_states@)
        &&& unique_keys(self.calls@)
        &&& forall|g: u64| is_validated_path(#[trigger] self.history_of(g))
        &&& forall|g: u64| (#[trigger] self.history_of(g)).last() == self.state_of(g)
    }

    pub fn new(bot_user_id: u64) -> (r: Self)
        ensures
            r.wf(),
            r.bot_user_id_spec() == bot_user_id,
            forall|g: u64| #[trigger] r.state_of(g) is Disconnected,
            forall|g: u64| #[trigger] r.pending_state_of(g) is None,
            forall|g: u64| #[trigger] r.pending_server_of(g) is None,
            forall|g: u64| !(#[trigger] r.has_call(g)),
    {
        VoiceGateway {
            bot_user_id,
            pending_voice_states: Vec::new(),
            pending_voice_servers: Vec::new(),
            connection_states: Vec::new(),
            calls: Vec::new(),
            history: Ghost(Map::empty()),
        }
    }

    /// Current connection state for a guild.
    pub fn get_state(&self, guild_id: u64) -> (r: VcConnectionState)
        ensures
            r == self.state_of(guild_id),
    {
        match kv_find(&self.connection_states, guild_id) {
            Some(i) => self.connection_states[i].1,
            None => VcConnectionState::Disconnected,
        }
    }

    /// Changes that leave states and history alone preserve
    /// well-formedness.
    proof fn lemma_wf_frame(pre: Self, post: Self)
        requires
            pre.wf(),
            post.connection_states@ == pre.connection_states@,
            post.history@ == pre.history@,
            unique_keys(post.pending_voice_states@),
            unique_keys(post.pending_voice_servers@),
            unique_keys(post.calls@),
        ensures
            post.wf(),
    {
        assert forall|g: u64|
            is_validated_path(#[trigger] post.history_of(g)) && post.history_of(g).last()
                == post.state_of(g) by {
            assert(post.history_of(g) == pre.history_of(g));
            assert(post.state_of(g) == pre.state_of(g));
            assert(is_validated_path(pre.history_of(g)));
        }
    }

    /// Move a guild to `new_state` if the transition relation allows it.
    pub fn transition(&mut self, guild_id: u64, new_state: VcConnectionState) -> (r: Result<
        (),
        GatewayError,
    >)
        requires
            old(self).wf(),
        ensures
            final(self).wf(),
            r is Ok <==> valid_transition(old(self).state_of(guild_id), new_state),
            r is Ok ==> final(self).state_of(guild_id) == new_state,
            r is Ok ==> final(self).history_of(guild_id) == old(self).history_of(
                guild_id,
            ).push(new_state),
            r is Err ==> final(self).state_of(guild_id) == old(self).state_of(guild_id)
                && final(self).history_of(guild_id) == old(self).history_of(guild_id),
            forall|g: u64|
                g != guild_id ==> #[trigger] final(self).state_of(g) == old(self).state_of(g)
                    && final(self).history_of(g) == old(self).history_of(g),
            forall|g: u64| #[trigger] final(self).pending_state_of(g) == old(
                self,
            ).pending_state_of(g),
            forall|g: u64| #[trigger] final(self).pending_server_of(g) == old(
                self,
            ).pending_server_of(g),
            forall|g: u64| #[trigger] final(self).has_call(g) == old(self).has_call(g),
            final(self).bot_user_id_spec() == old(self).bot_user_id_spec(),
    {
        let current = self.get_state(guild_id);
        let valid = match (&current, &new_state) {
            (VcConnectionState::Disconnected, VcConnectionState::Connecting { .. }) => true,
            (VcConnectionState::Connecting { .. }, VcConnectionState::Connected { .. }) => true,
            (VcConnectionState::Connecting { .. }, VcConnectionState::Disconnected) => true,
            (VcConnectionState::Connected { .. }, VcConnectionState::Disconnected) => true,
            (VcConnectionState::Connected { .. }, VcConnectionState::Reconnecting { .. }) => true,
            (VcConnectionState::Reconnecting { .. }, VcConnectionState::Connected { .. }) => true,
            (VcConnectionState::Reconnecting { .. }, VcConnectionState::Disconnected) => true,
            _ => false,
        };
        if !valid {
            return Err(GatewayError::InvalidTransition);
        }
        kv_insert(&mut self.connection_states, guild_id, new_state);
        proof {
            let h0 = old(self).history_of(guild_id);
            self.history@ = self.history@.insert(guild_id, h0.push(new_state));
            assert forall|g: u64| is_validated_path(#[trigger] self.history_of(g))
                && self.history_of(g).last() == self.state_of(g) by {
                if g != guild_id {
                    assert(self.history_of(g) == old(self).history_of(g));
                    assert(self.state_of(g) == old(self).state_of(g));
                } else {
                    let h = self.history_of(g);
                    assert(h == h0.push(new_state));
                    assert(forall|i: int|
                        0 <= i < h.len() - 1 ==> valid_transition(#[trigger] h[i], h[i + 1]));
                }
            }
        }
        Ok(())
    }

    /// Start a join: move to connecting and hand back the join command
    /// that must go out on the control channel.
    pub fn join(&mut self, guild_id: u64, channel_id: u64, now_ms: u64) -> (r: Result<
        String,
        GatewayError,
    >)
        requires
            old(self).wf(),
        ensures
            final(self).wf(),
            r is Ok <==> old(self).state_of(guild_id) is Disconnected,
            r matches Ok(cmd) ==> cmd@ == spec_join_command(guild_id, channel_id)
                && final(self).state_of(guild_id) == (VcConnectionState::Connecting {
                started_at: now_ms,
                guild_id,
                channel_id,
            }),
            r is Err ==> final(self).state_of(guild_id) == old(self).state_of(guild_id),
            forall|g: u64|
                g != guild_id ==> #[trigger] final(self).state_of(g) == old(self).state_of(g),
            forall|g: u64| #[trigger] final(self).pending_state_of(g) == old(
                self,
            ).pending_state_of(g),
            forall|g: u64| #[trigger] final(self).pending_server_of(g) == old(
                self,
            ).pending_server_of(g),
            forall|g: u64| #[trigger] final(self).has_call(g) == old(self).has_call(g),
            final(self).bot_user_id_spec() == old(self).bot_user_id_spec(),
    {
        let target = VcConnectionState::Connecting { started_at: now_ms, guild_id, channel_id };
        match self.transition(guild_id, target) {
            Ok(()) => Ok(join_command_json(guild_id, channel_id)),
            Err(e) => Err(e),
        }
    }

    /// Leave a guild's channel: whatever the current state, the call
    /// handle and both pending handshake halves are dropped, so a later
    /// join starts from a clean slate; the transition to disconnected is
    /// recorded where the relation allows it.
    pub fn leave(&mut self, guild_id: u64) -> (r: Result<bool, GatewayError>)
        requires
            old(self).wf(),
        ensures
            final(self).wf(),
            r is Ok <==> valid_transition(old(self).state_of(guild_id), VcConnectionState::Disconnected),
            r matches Ok(had_call) ==> had_call == old(self).has_call(guild_id)
                && final(self).state_of(guild_id) is Disconnected,
            r is Err ==> final(self).state_of(guild_id) == old(self).state_of(guild_id),
            final(self).pending_state_of(guild_id) is None,
            final(self).pending_server_of(guild_id) is None,
            !final(self).has_call(guild_id),
            forall|g: u64|
                g != guild_id ==> #[trigger] final(self).state_of(g) == old(self).state_of(g)
                    && final(self).pending_state_of(g) == old(self).pending_state_of(g)
                    && final(self).pending_server_of(g) == old(self).pending_server_of(g)
                    && final(self).has_call(g) == old(self).has_call(g),
            final(self).bot_user_id_spec() == old(self).bot_user_id_spec(),
    {
        let had_call = kv_remove(&mut self.calls, guild_id).is_some();
        kv_remove(&mut self.pending_voice_states, guild_id);
        kv_remove(&mut self.pending_voice_servers, guild_id);
        let ghost s1 = *self;
        proof {
            Self::lemma_wf_frame(*old(self), s1);
        }
        let r = self.transition(guild_id, VcConnectionState::Disconnected);
        proof {
            assert(self.has_call(guild_id) == s1.has_call(guild_id));
            assert(self.pending_state_of(guild_id) == s1.pending_state_of(guild_id));
            assert(self.pending_server_of(guild_id) == s1.pending_server_of(guild_id));
            assert forall|g: u64|
                g != guild_id implies #[trigger] self.state_of(g) == old(self).state_of(g)
                    && self.pending_state_of(g) == old(self).pending_state_of(g)
                    && self.pending_server_of(g) == old(self).pending_server_of(g)
                    && self.has_call(g) == old(self).has_call(g) by {
                assert(self.state_of(g) == s1.state_of(g));
                assert(s1.state_of(g) == old(self).state_of(g));
                assert(self.pending_state_of(g) == s1.pending_state_of(g));
                assert(self.pending_server_of(g) == s1.pending_server_of(g));
                assert(self.has_call(g) == s1.has_call(g));
            }
        }
        match r {
            Ok(()) => Ok(had_call),
            Err(e) => Err(e),
        }
    }

    /// Take a voice state event: ignore other users, tear down on a
    /// removed channel, otherwise store the session half.
    pub fn handle_voice_state_update(&mut self, data: VoiceStateData) -> (r: VoiceStateAction)
        requires
            old(self).wf(),
        ensures
            final(self).wf(),
            final(self).bot_user_id_spec() == old(self).bot_user_id_spec(),
            data.user_id != old(self).bot_user_id_spec() ==> r == VoiceStateAction::Ignored
                && final(self).pending_state_of(data.guild_id) == old(self).pending_state_of(
                data.guild_id,
            ) && final(self).pending_server_of(data.guild_id) == old(self).pending_server_of(
                data.guild_id,
            ) && final(self).state_of(data.guild_id) == old(self).state_of(data.guild_id)
                && final(self).has_call(data.guild_id) == old(self).has_call(data.guild_id),
            data.user_id == old(self).bot_user_id_spec() && data.channel_id is None ==> {
                &&& r == (VoiceStateAction::Removed { had_call: old(self).has_call(data.guild_id) })
                &&& final(self).pending_state_of(data.guild_id) is None
                &&& final(self).pending_server_of(data.guild_id) is None
                &&& !final(self).has_call(data.guild_id)
                &&& final(self).state_of(data.guild_id) == if valid_transition(
                    old(self).state_of(data.guild_id),
                    VcConnectionState::Disconnected,
                ) {
                    VcConnectionState::Disconnected
                } else {
                    old(self).state_of(data.guild_id)
                }
            },
            data.user_id == old(self).bot_user_id_spec() && data.channel_id is Some ==> {
                &&& final(self).pending_state_of(data.guild_id) == Some(data)
                &&& r == if old(self).pending_server_of(data.guild_id) is Some {
                    VoiceStateAction::ReadyToConnect
                } else {
                    VoiceStateAction::Stored
                }
                &&& final(self).pending_server_of(data.guild_id) == old(self).pending_server_of(
                    data.guild_id,
                )
                &&& final(self).state_of(data.guild_id) == old(self).state_of(data.guild_id)
                &&& final(self).has_call(data.guild_id) == old(self).has_call(data.guild_id)
            },
            forall|g: u64|
                g != data.guild_id ==> #[trigger] final(self).state_of(g) == old(self).state_of(g)
                    && final(self).pending_state_of(g) == old(self).pending_state_of(g)
                    && final(self).pending_server_of(g) == old(self).pending_server_of(g)
                    && final(self).has_call(g) == old(self).has_call(g),
    {
        if data.user_id != self.bot_user_id {
            return VoiceStateAction::Ignored;
        }
        let guild_id = data.guild_id;
        if data.channel_id.is_none() {
            let _ = self.transition(guild_id, VcConnectionState::Disconnected);
            let ghost s2 = *self;
            kv_remove(&mut self.pending_voice_states, guild_id);
            kv_remove(&mut self.pending_voice_servers, guild_id);
            let had_call = kv_remove(&mut self.calls, guild_id).is_some();
            proof {
                Self::lemma_wf_frame(s2, *self);
                assert(s2.has_call(guild_id) == old(self).has_call(guild_id));
                assert(s2.state_of(guild_id) == self.state_of(guild_id));
                assert forall|g: u64|
                    g != guild_id implies #[trigger] self.state_of(g) == old(self).state_of(g)
                        && self.pending_state_of(g) == old(self).pending_state_of(g)
                        && self.pending_server_of(g) == old(self).pending_server_of(g)
                        && self.has_call(g) == old(self).has_call(g) by {
                    assert(self.state_of(g) == s2.state_of(g));
                    assert(s2.state_of(g) == old(self).state_of(g));
                    assert(s2.pending_state_of(g) == old(self).pending_state_of(g));
                    assert(s2.pending_server_of(g) == old(self).pending_server_of(g));
                    assert(s2.has_call(g) == old(self).has_call(g));
                }
            }
            return VoiceStateAction::Removed { had_call };
        }
        kv_insert(&mut self.pending_voice_states, guild_id, data);
        proof {
            Self::lemma_wf_frame(*old(self), *self);
        }
        if kv_find(&self.pending_voice_servers, guild_id).is_some() {
            VoiceStateAction::ReadyToConnect
        } else {
            VoiceStateAction::Stored
        }
    }

    /// Store the media half; report whether both halves are now present.
    pub fn handle_voice_server_update(&mut self, data: VoiceServerData) -> (r: bool)
        requires
            old(self).wf(),
        ensures
            final(self).wf(),
            final(self).bot_user_id_spec() == old(self).bot_user_id_spec(),
            final(self).pending_server_of(data.guild_id) == Some(data),
            r == (old(self).pending_state_of(data.guild_id) is Some),
            forall|g: u64| #[trigger] final(self).pending_state_of(g) == old(
                self,
            ).pending_state_of(g),
            forall|g: u64| #[trigger] final(self).state_of(g) == old(self).state_of(g),
            forall|g: u64| #[trigger] final(self).has_call(g) == old(self).has_call(g),
            forall|g: u64|
                g != data.guild_id ==> #[trigger] final(self).pending_server_of(g) == old(
                    self,
                ).pending_server_of(g),
    {
        let guild_id = data.guild_id;
        kv_insert(&mut self.pending_voice_servers, guild_id, data);
        proof {
            Self::lemma_wf_frame(*old(self), *self);
        }
        kv_find(&self.pending_voice_states, guild_id).is_some()
    }

    /// Consume both handshake halves and assemble connection parameters.
    ///
    /// Nothing happens while either half is missing. With both present
    /// they are consumed for good; the parameters come back only when the
    /// session names a channel and the guild and bot ids are non-zero,
    /// and a call handle is then registered for the guild.
    pub fn try_take_connection(&mut self, guild_id: u64) -> (r: Option<ConnectionParams>)
        requires
            old(self).wf(),
        ensures
            final(self).wf(),
            final(self).bot_user_id_spec() == old(self).bot_user_id_spec(),
            forall|g: u64| #[trigger] final(self).state_of(g) == old(self).state_of(g),
            old(self).pending_state_of(guild_id) is None || old(self).pending_server_of(guild_id)
                is None ==> r is None && final(self).pending_state_of(guild_id) == old(
                self,
            ).pending_state_of(guild_id) && final(self).pending_server_of(guild_id) == old(
                self,
            ).pending_server_of(guild_id) && final(self).has_call(guild_id) == old(
                self,
            ).has_call(guild_id),
            old(self).pending_state_of(guild_id) is Some && old(self).pending_server_of(guild_id)
                is Some ==> {
                &&& final(self).pending_state_of(guild_id) is None
                &&& final(self).pending_server_of(guild_id) is None
                &&& {
                    let state = old(self).pending_state_of(guild_id).unwrap();
                    let server = old(self).pending_server_of(guild_id).unwrap();
                    if state.channel_id is Some && guild_id != 0 && old(self).bot_user_id_spec()
                        != 0 {
                        &&& final(self).has_call(guild_id)
                        &&& r matches Some(p) && p.guild_id == guild_id && p.channel_id
                            == state.channel_id.unwrap() && p.user_id == old(
                            self,
                        ).bot_user_id_spec() && p.session_id == state.session_id && p.token
                            == server.token && p.endpoint@ == spec_sanitize_endpoint(
                            server.endpoint@,
                        )
                    } else {
                        r is None && final(self).has_call(guild_id) == old(self).has_call(guild_id)
                    }
                }
            },
            forall|g: u64|
                g != guild_id ==> #[trigger] final(self).pending_state_of(g) == old(
                    self,
                ).pending_state_of(g) && final(self).pending_server_of(g) == old(
                    self,
                ).pending_server_of(g) && final(self).has_call(g) == old(self).has_call(g),
    {
        let state = match kv_remove(&mut self.pending_voice_states, guild_id) {
            Some(s) => s,
            None => {
                proof {
                    Self::lemma_wf_frame(*old(self), *self);
                }
                return None;
            },
        };
        let server = match kv_remove(&mut self.pending_voice_servers, guild_id) {
            Some(s) => s,
            None => {
                kv_insert(&mut self.pending_voice_states, guild_id, state);
                proof {
                    Self::lemma_wf_frame(*old(self), *self);
                }
                return None;
            },
        };
        proof {
            Self::lemma_wf_frame(*old(self), *self);
        }
        let channel_id = match state.channel_id {
            Some(c) => c,
            None => {
                return None;
            },
        };
        if guild_id == 0 || self.bot_user_id == 0 {
            return None;
        }
        let ghost mid = *self;
        let endpoint = sanitize_endpoint(server.endpoint.as_str());
        kv_insert(&mut self.calls, guild_id, true);
        proof {
            Self::lemma_wf_frame(mid, *self);
        }
        Some(ConnectionParams {
            guild_id,
            channel_id,
            user_id: self.bot_user_id,
            session_id: state.session_id,
            token: server.token,
            endpoint,
        })
    }

    /// Record that the media connection came up.
    pub fn connect_succeeded(&mut self, guild_id: u64, channel_id: u64, now_ms: u64) -> (r: Result<
        (),
        GatewayError,
    >)
        requires
            old(self).wf(),
        ensures
            final(self).wf(),
            final(self).bot_user_id_spec() == old(self).bot_user_id_spec(),
            r is Ok <==> valid_transition(
                old(self).state_of(guild_id),
                VcConnectionState::Connected { guild_id, channel_id, connected_at: now_ms },
            ),
            r is Ok ==> final(self).state_of(guild_id) == (VcConnectionState::Connected {
                guild_id,
                channel_id,
                connected_at: now_ms,
            }),
            r is Err ==> final(self).state_of(guild_id) == old(self).state_of(guild_id),
            forall|g: u64| #[trigger] final(self).has_call(g) == old(self).has_call(g),
            forall|g: u64| #[trigger] final(self).pending_state_of(g) == old(
                self,
            ).pending_state_of(g),
            forall|g: u64| #[trigger] final(self).pending_server_of(g) == old(
                self,
            ).pending_server_of(g),
            forall|g: u64|
                g != guild_id ==> #[trigger] final(self).state_of(g) == old(self).state_of(g),
    {
        self.transition(
            guild_id,
            VcConnectionState::Connected { guild_id, channel_id, connected_at: now_ms },
        )
    }

    /// Record that the media connection failed: back to disconnected
    /// where the relation allows it, and the call handle is dropped.
    pub fn connect_failed(&mut self, guild_id: u64)
        requires
            old(self).wf(),
        ensures
            final(self).wf(),
            final(self).bot_user_id_spec() == old(self).bot_user_id_spec(),
            !final(self).has_call(guild_id),
            final(self).state_of(guild_id) == if valid_transition(
                old(self).state_of(guild_id),
                VcConnectionState::Disconnected,
            ) {
                VcConnectionState::Disconnected
            } else {
                old(self).state_of(guild_id)
            },
            forall|g: u64| #[trigger] final(self).pending_state_of(g) == old(
                self,
            ).pending_state_of(g),
            forall|g: u64| #[trigger] final(self).pending_server_of(g) == old(
                self,
            ).pending_server_of(g),
            forall|g: u64|
                g != guild_id ==> #[trigger] final(self).state_of(g) == old(self).state_of(g)
                    && final(self).has_call(g) == old(self).has_call(g),
    {
        let _ = self.transition(guild_id, VcConnectionState::Disconnected);
        let ghost s2 = *self;
        kv_remove(&mut self.calls, guild_id);
        proof {
            Self::lemma_wf_frame(s2, *self);
            assert(self.state_of(guild_id) == s2.state_of(guild_id));
            assert forall|g: u64| #[trigger] self.pending_state_of(g) == old(
                self,
            ).pending_state_of(g) by {
                assert(self.pending_state_of(g) == s2.pending_state_of(g));
                assert(s2.pending_state_of(g) == old(self).pending_state_of(g));
            }
            assert forall|g: u64| #[trigger] self.pending_server_of(g) == old(
                self,
            ).pending_server_of(g) by {
                assert(self.pending_server_of(g) == s2.pending_server_of(g));
                assert(s2.pending_server_of(g) == old(self).pending_server_of(g));
            }
            assert forall|g: u64|
                g != guild_id implies #[trigger] self.state_of(g) == old(self).state_of(g)
                    && self.has_call(g) == old(self).has_call(g) by {
                assert(self.state_of(g) == s2.state_of(g));
                assert(s2.state_of(g) == old(self).state_of(g));
                assert(s2.has_call(g) == old(self).has_call(g));
            }
        }
    }

    /// Drop every call and all recorded state; the returned guilds still
    /// hold media sessions the caller must close.
    pub fn shutdown(&mut self) -> (r: Vec<u64>)
        requires
            old(self).wf(),
        ensures
            final(self).wf(),
            final(self).bot_user_id_spec() == old(self).bot_user_id_spec(),
            r@ == old(self).call_guilds(),
            forall|g: u64| #[trigger] final(self).state_of(g) is Disconnected,
            forall|g: u64| #[trigger] final(self).pending_state_of(g) is None,
            forall|g: u64| #[trigger] final(self).pending_server_of(g) is None,
            forall|g: u64| !(#[trigger] final(self).has_call(g)),
            final(self).call_guilds() == Seq::<u64>::empty(),
    {
        let mut guilds: Vec<u64> = Vec::new();
        let n = self.calls.len();
        let mut i: usize = 0;
        while i < n
            invariant
                n == self.calls@.len(),
                i <= n,
                guilds@.len() == i,
                forall|j: int| 0 <= j < i ==> #[trigger] guilds@[j] == self.calls@[j].0,
            decreases n - i,
        {
            guilds.push(self.calls[i].0);
            i = i + 1;
        }
        self.calls.clear();
        self.connection_states.clear();
        self.pending_voice_states.clear();
        self.pending_voice_servers.clear();
        proof {
            self.history@ = Map::empty();
            crate::kv::lemma_get_absent(self.calls@, 0);
            assert forall|g: u64| !(#[trigger] final(self).has_call(g)) by {
                crate::kv::lemma_get_absent::<bool>(self.calls@, g);
            }
            assert forall|g: u64| #[trigger] final(self).pending_state_of(g) is None by {
                crate::kv::lemma_get_absent::<VoiceStateData>(self.pending_voice_states@, g);
            }
            assert forall|g: u64| #[trigger] final(self).pending_server_of(g) is None by {
                crate::kv::lemma_get_absent::<VoiceServerData>(self.pending_voice_servers@, g);
            }
            assert forall|g: u64| #[trigger] final(self).state_of(g) is Disconnected by {
                crate::kv::lemma_get_absent::<VcConnectionState>(self.connection_states@, g);
            }
            assert(final(self).call_guilds() =~= Seq::<u64>::empty());
        }
        guilds
    }

    /// A guild holds a call exactly when its id stands in the call list.
    pub proof fn lemma_call_guilds_has_call(self, guild_id: u64)
        requires
            self.wf(),
        ensures
            self.has_call(guild_id) <==> self.call_guilds().contains(guild_id),
    {
        crate::kv::lemma_get_index(self.calls@, guild_id);
        if self.has_call(guild_id) {
            let i = choose|i: int|
                0 <= i < self.calls@.len() && (#[trigger] self.calls@[i]).0 == guild_id;
            assert(self.call_guilds()[i] == guild_id);
        }
        if self.call_guilds().contains(guild_id) {
            let i = choose|i: int|
                0 <= i < self.call_guilds().len() && self.call_guilds()[i] == guild_id;
            assert(self.calls@[i].0 == guild_id);
        }
    }

    /// Every state a guild has passed through follows the validated
    /// transition relation, from disconnected up to its current state.
    pub proof fn lemma_history_is_validated_path(self, guild_id: u64)
        requires
            self.wf(),
        ensures
            is_validated_path(self.history_of(guild_id)),
            self.history_of(guild_id).last() == self.state_of(guild_id),
    {
    }

    /// After leaving, a guild is indistinguishable from one never joined:
    /// no pending halves linger, no call remains, and the state is
    /// disconnected, exactly as on a fresh gateway.
    pub proof fn lemma_leave_then_join_is_fresh_join(
        after_leave: Self,
        fresh: Self,
        guild_id: u64,
    )
        requires
            after_leave.wf(),
            fresh.wf(),
            after_leave.state_of(guild_id) is Disconnected,
            after_leave.pending_state_of(guild_id) is None,
            after_leave.pending_server_of(guild_id) is None,
            !after_leave.has_call(guild_id),
            fresh.state_of(guild_id) is Disconnected,
            fresh.pending_state_of(guild_id) is None,
            fresh.pending_server_of(guild_id) is None,
            !fresh.has_call(guild_id),
        ensures
            valid_transition(
                after_leave.state_of(guild_id),
                VcConnectionState::Connecting { started_at: 0, guild_id, channel_id: 0 },
            ) == valid_transition(
                fresh.state_of(guild_id),
                VcConnectionState::Connecting { started_at: 0, guild_id, channel_id: 0 },
            ),
            after_leave.pending_state_of(guild_id) == fresh.pending_state_of(guild_id),
            after_leave.pending_server_of(guild_id) == fresh.pending_server_of(guild_id),
            after_leave.has_call(guild_id) == fresh.has_call(guild_id),
    {
    }
}

} // verus!

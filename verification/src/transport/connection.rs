//! A connection: its life, its traffic, and its heartbeat.
use vstd::prelude::*;
use crate::counter::{count, count32, counted, counted32};
use crate::net::SocketAddr;
use crate::time::{Duration, Instant};

verus! {

/// Where a connection stands in its life.
#[derive(Debug, Clone, Copy, PartialEq, Eq, Structural)]
pub enum ConnectionState {
    Connecting,
    Established,
    Closing,
    Closed,
}

/// How the heartbeat goes.
#[derive(Debug, Clone, Copy, PartialEq, Eq, Structural)]
pub struct ConnectionConfig {
    /// After so long a silence a ping is sent.
    pub heartbeat_interval: Duration,
    /// How long a pong is waited for.
    pub heartbeat_timeout: Duration,
    /// With so many pongs missing the peer is dead.
    pub max_missed_heartbeats: u32,
}

impl Default for ConnectionConfig {
    fn default() -> (r: Self)
        ensures
            r.heartbeat_interval.nanos == 15_000_000_000,
            r.heartbeat_timeout.nanos == 5_000_000_000,
            r.max_missed_heartbeats == 3,
    {
        ConnectionConfig {
            heartbeat_interval: Duration::from_secs(15),
            heartbeat_timeout: Duration::from_secs(5),
            max_missed_heartbeats: 3,
        }
    }
}

/// What is known of a connection.
#[derive(Debug, Clone, Copy, PartialEq, Eq, Structural)]
pub struct ConnectionInfo {
    pub peer_addr: SocketAddr,
    pub state: ConnectionState,
    pub connected_at: Instant,
    pub last_recv: Instant,
    pub last_send: Instant,
    /// When the ping was sent whose pong is waited for.
    pub last_ping_sent: Option<Instant>,
    /// Pongs that were missing in a row.
    pub missed_heartbeats: u32,
    pub bytes_recv: u64,
    pub bytes_sent: u64,
    pub frames_recv: u64,
    pub frames_sent: u64,
    pub config: ConnectionConfig,
}

impl ConnectionInfo {
    pub open spec fn spec_new(peer_addr: SocketAddr, config: ConnectionConfig, now: Instant) -> ConnectionInfo {
        ConnectionInfo {
            peer_addr,
            state: ConnectionState::Connecting,
            connected_at: now,
            last_recv: now,
            last_send: now,
            last_ping_sent: None,
            missed_heartbeats: 0,
            bytes_recv: 0,
            bytes_sent: 0,
            frames_recv: 0,
            frames_sent: 0,
            config,
        }
    }

    pub fn new(peer_addr: SocketAddr, config: ConnectionConfig, now: Instant) -> (r: Self)
        ensures
            r == Self::spec_new(peer_addr, config, now),
    {
        ConnectionInfo {
            peer_addr,
            state: ConnectionState::Connecting,
            connected_at: now,
            last_recv: now,
            last_send: now,
            last_ping_sent: None,
            missed_heartbeats: 0,
            bytes_recv: 0,
            bytes_sent: 0,
            frames_recv: 0,
            frames_sent: 0,
            config,
        }
    }

    /// The connection in another state.
    pub open spec fn in_state(self, state: ConnectionState) -> ConnectionInfo {
        ConnectionInfo { state, ..self }
    }

    pub fn set_established(&mut self)
        ensures
            *final(self) == old(self).in_state(ConnectionState::Established),
    {
        self.state = ConnectionState::Established;
    }

    pub fn set_closing(&mut self)
        ensures
            *final(self) == old(self).in_state(ConnectionState::Closing),
    {
        self.state = ConnectionState::Closing;
    }

    pub fn set_closed(&mut self)
        ensures
            *final(self) == old(self).in_state(ConnectionState::Closed),
    {
        self.state = ConnectionState::Closed;
    }

    /// The connection after a frame has arrived.
    pub open spec fn after_recv(self, bytes: u64, now: Instant) -> ConnectionInfo {
        ConnectionInfo {
            last_recv: now,
            bytes_recv: counted(self.bytes_recv, bytes),
            frames_recv: counted(self.frames_recv, 1),
            ..self
        }
    }

    /// A frame of so many bytes has arrived.
    pub fn record_recv(&mut self, bytes: u64, now: Instant)
        ensures
            *final(self) == old(self).after_recv(bytes, now),
    {
        self.last_recv = now;
        self.bytes_recv = count(self.bytes_recv, bytes);
        self.frames_recv = count(self.frames_recv, 1);
    }

    /// The connection after a frame was sent.
    pub open spec fn after_send(self, bytes: u64, now: Instant) -> ConnectionInfo {
        ConnectionInfo {
            last_send: now,
            bytes_sent: counted(self.bytes_sent, bytes),
            frames_sent: counted(self.frames_sent, 1),
            ..self
        }
    }

    /// A frame of so many bytes was sent.
    pub fn record_send(&mut self, bytes: u64, now: Instant)
        ensures
            *final(self) == old(self).after_send(bytes, now),
    {
        self.last_send = now;
        self.bytes_sent = count(self.bytes_sent, bytes);
        self.frames_sent = count(self.frames_sent, 1);
    }

    /// The connection after a frame was handed over to be sent.
    pub open spec fn after_queueing(self, now: Instant) -> ConnectionInfo {
        ConnectionInfo { last_send: now, ..self }
    }

    /// A frame was handed over to be sent. It is counted once it is sent.
    pub fn record_queued(&mut self, now: Instant)
        ensures
            *final(self) == old(self).after_queueing(now),
    {
        self.last_send = now;
    }

    /// A ping was sent.
    pub fn record_ping_sent(&mut self, now: Instant)
        ensures
            *final(self) == (ConnectionInfo { last_ping_sent: Some(now), ..*old(self) }),
    {
        self.last_ping_sent = Some(now);
    }

    /// The connection after a pong.
    pub open spec fn after_pong(self, now: Instant) -> ConnectionInfo {
        ConnectionInfo { missed_heartbeats: 0, last_ping_sent: None, last_recv: now, ..self }
    }

    /// A pong has arrived: nothing is missing any more.
    pub fn record_pong_received(&mut self, now: Instant)
        ensures
            *final(self) == old(self).after_pong(now),
    {
        self.missed_heartbeats = 0;
        self.last_ping_sent = None;
        self.last_recv = now;
    }

    /// A ping is due: the connection is established, has been silent for long enough, and
    /// no pong is waited for.
    pub open spec fn ping_due(self, now: Instant) -> bool {
        &&& self.state is Established
        &&& self.last_ping_sent is None
        &&& now.spec_since(self.last_recv).nanos >= self.config.heartbeat_interval.nanos
    }

    pub fn should_send_ping(&self, now: Instant) -> (r: bool)
        ensures
            r == self.ping_due(now),
    {
        if !matches!(self.state, ConnectionState::Established) {
            return false;
        }
        if self.last_ping_sent.is_some() {
            return false;
        }
        now.since(self.last_recv).nanos >= self.config.heartbeat_interval.nanos
    }

    /// The pong that is waited for is overdue.
    pub open spec fn pong_overdue(self, now: Instant) -> bool {
        self.last_ping_sent matches Some(t) && now.spec_since(t).nanos >= self.config.heartbeat_timeout.nanos
    }

    /// Too many pongs are missing, one that is overdue among them.
    pub open spec fn dead(self, now: Instant) -> bool {
        self.missed_heartbeats + (if self.pong_overdue(now) { 1int } else { 0int }) >= self.config.max_missed_heartbeats
    }

    pub fn is_dead(&self, now: Instant) -> (r: bool)
        ensures
            r == self.dead(now),
            r ==> self.missed_heartbeats + 1 >= self.config.max_missed_heartbeats,
            self.missed_heartbeats >= self.config.max_missed_heartbeats ==> r,
    {
        if let Some(t) = self.last_ping_sent {
            if now.since(t).nanos >= self.config.heartbeat_timeout.nanos {
                return self.missed_heartbeats as u64 + 1 >= self.config.max_missed_heartbeats as u64;
            }
        }
        self.missed_heartbeats >= self.config.max_missed_heartbeats
    }

    /// A pong is missing.
    pub fn record_missed_heartbeat(&mut self)
        ensures
            *final(self) == (ConnectionInfo {
                missed_heartbeats: counted32(old(self).missed_heartbeats, 1),
                last_ping_sent: None,
                ..*old(self)
            }),
    {
        self.missed_heartbeats = count32(self.missed_heartbeats, 1);
        self.last_ping_sent = None;
    }

    /// How long the connection has lasted.
    pub fn uptime(&self, now: Instant) -> (r: Duration)
        ensures
            r == now.spec_since(self.connected_at),
    {
        now.since(self.connected_at)
    }

    /// How long nothing has arrived.
    pub fn idle_time(&self, now: Instant) -> (r: Duration)
        ensures
            r == now.spec_since(self.last_recv),
    {
        now.since(self.last_recv)
    }

    pub fn is_active(&self) -> (r: bool)
        ensures
            r == (self.state is Connecting || self.state is Established),
    {
        matches!(self.state, ConnectionState::Connecting | ConnectionState::Established)
    }
}

/// A pong revives a connection: it is not dead then, and no ping is due at once.
pub proof fn law_pong_revives(c: ConnectionInfo, now: Instant)
    requires
        c.config.max_missed_heartbeats > 0,
        c.config.heartbeat_interval.nanos > 0,
    ensures
        !c.after_pong(now).dead(now),
        !c.after_pong(now).ping_due(now),
{
}

/// A frame that is handed over and then sent is counted once, with its bytes.
pub proof fn law_sent_frame_is_counted_once(c: ConnectionInfo, queued: Instant, sent: Instant, bytes: u64)
    ensures
        c.after_queueing(queued).after_send(bytes, sent) == c.after_send(bytes, sent),
        c.after_queueing(queued).frames_sent == c.frames_sent,
        c.after_send(bytes, sent).frames_sent == counted(c.frames_sent, 1),
{
}

/// A peer is dead only if as many pongs are missing as the configuration asks for. An overdue
/// pong counts as one: it decides only where just one more is wanted.
pub proof fn law_death_takes_enough_missing_pongs(c: ConnectionInfo, now: Instant)
    ensures
        c.missed_heartbeats >= c.config.max_missed_heartbeats ==> c.dead(now),
        c.missed_heartbeats + 1 < c.config.max_missed_heartbeats ==> !c.dead(now),
        c.missed_heartbeats + 1 == c.config.max_missed_heartbeats ==> (c.dead(now) <==> (c.last_ping_sent matches Some(t) && (
        now.nanos - t.nanos >= c.config.heartbeat_timeout.nanos || c.config.heartbeat_timeout.nanos == 0))),
{
}

/// Who is dead stays dead as time goes by, and who waits for no pong does not die of time.
pub proof fn law_death_lasts(c: ConnectionInfo, earlier: Instant, later: Instant)
    requires
        earlier.nanos <= later.nanos,
    ensures
        c.dead(earlier) ==> c.dead(later),
        c.last_ping_sent is None ==> c.dead(later) == c.dead(earlier),
{
}

/// A ping is due after a silence as long as the interval, on a connection that is established
/// and waits for no pong; never else.
pub proof fn law_ping_after_silence(c: ConnectionInfo, now: Instant)
    ensures
        c.ping_due(now) ==> c.state == ConnectionState::Established && c.last_ping_sent is None,
        c.state == ConnectionState::Established && c.last_ping_sent is None ==> (c.ping_due(now) <==> (now.nanos - c.last_recv.nanos
            >= c.config.heartbeat_interval.nanos || c.config.heartbeat_interval.nanos == 0)),
{
}

/// What has arrived is counted as received, and nothing else changes but the time of the last
/// arrival.
pub proof fn law_arrival_is_counted(c: ConnectionInfo, bytes: u64, now: Instant)
    requires
        c.bytes_recv + bytes <= u64::MAX,
        c.frames_recv < u64::MAX,
    ensures
        c.after_recv(bytes, now).bytes_recv == c.bytes_recv + bytes,
        c.after_recv(bytes, now).frames_recv == c.frames_recv + 1,
        c.after_recv(bytes, now).last_recv == now,
        c.after_recv(bytes, now) == (ConnectionInfo {
            bytes_recv: c.after_recv(bytes, now).bytes_recv,
            frames_recv: c.after_recv(bytes, now).frames_recv,
            last_recv: now,
            ..c
        }),
{
}

/// What was sent is counted as sent, and nothing else changes but the time of the last sending.
pub proof fn law_sending_is_counted(c: ConnectionInfo, bytes: u64, now: Instant)
    requires
        c.bytes_sent + bytes <= u64::MAX,
        c.frames_sent < u64::MAX,
    ensures
        c.after_send(bytes, now).bytes_sent == c.bytes_sent + bytes,
        c.after_send(bytes, now).frames_sent == c.frames_sent + 1,
        c.after_send(bytes, now).last_send == now,
        c.after_send(bytes, now) == (ConnectionInfo {
            bytes_sent: c.after_send(bytes, now).bytes_sent,
            frames_sent: c.after_send(bytes, now).frames_sent,
            last_send: now,
            ..c
        }),
{
}

/// A pong ends the wait and the count of missing pongs, and counts as an arrival in time only.
pub proof fn law_pong_ends_the_wait(c: ConnectionInfo, now: Instant)
    ensures
        c.after_pong(now).missed_heartbeats == 0,
        c.after_pong(now).last_ping_sent is None,
        c.after_pong(now).last_recv == now,
        c.after_pong(now) == (ConnectionInfo { missed_heartbeats: 0, last_ping_sent: None, last_recv: now, ..c }),
{
}

/// A new connection is being made, has just been heard from, and has no traffic yet.
pub proof fn law_new_connection_is_fresh(peer_addr: SocketAddr, config: ConnectionConfig, now: Instant)
    ensures
        ({
            let c = ConnectionInfo::spec_new(peer_addr, config, now);
            &&& c.peer_addr == peer_addr && c.config == config && c.state == ConnectionState::Connecting
            &&& c.connected_at == now && c.last_recv == now && c.last_send == now && c.last_ping_sent is None
            &&& c.missed_heartbeats == 0 && c.bytes_recv == 0 && c.bytes_sent == 0 && c.frames_recv == 0 && c.frames_sent == 0
            &&& config.max_missed_heartbeats > 0 ==> !c.dead(now)
        }),
{
}

/// A change of state changes the state alone.
pub proof fn law_state_changes_alone(c: ConnectionInfo, state: ConnectionState)
    ensures
        c.in_state(state).state == state,
        c.in_state(state).in_state(c.state) == c,
{
}

/// To queue a frame notes when, and nothing else.
pub proof fn law_queueing_is_noted(c: ConnectionInfo, now: Instant)
    ensures
        c.after_queueing(now).last_send == now,
        c.after_queueing(now) == (ConnectionInfo { last_send: now, ..c }),
{
}

/// What is said of a connection: it is dead when enough pongs are missing, one that is overdue
/// counted with those that were missed; a ping is due on an established connection after silence,
/// if none is waited for; it is active while it connects or is established.
pub proof fn law_what_is_said_of_a_connection(c: ConnectionInfo, now: Instant, dead: bool, ping: bool, active: bool)
    requires
        call_ensures(ConnectionInfo::is_dead, (&c, now), dead),
        call_ensures(ConnectionInfo::should_send_ping, (&c, now), ping),
        call_ensures(ConnectionInfo::is_active, (&c,), active),
    ensures
        ({
            let overdue = c.last_ping_sent is Some && (now.nanos - c.last_ping_sent->0.nanos >= c.config.heartbeat_timeout.nanos
                || c.config.heartbeat_timeout.nanos == 0);
            dead <==> c.missed_heartbeats >= c.config.max_missed_heartbeats || overdue && c.missed_heartbeats + 1
                == c.config.max_missed_heartbeats
        }),
        ping <==> c.state == ConnectionState::Established && c.last_ping_sent is None && (now.nanos - c.last_recv.nanos
            >= c.config.heartbeat_interval.nanos || c.config.heartbeat_interval.nanos == 0),
        active <==> c.state == ConnectionState::Connecting || c.state == ConnectionState::Established,
{
    law_death_takes_enough_missing_pongs(c, now);
    law_ping_after_silence(c, now);
}

/// What arrives is counted as received, what is sent as sent; a ping is waited for from when it was
/// sent, until a pong comes or it is given up and counted as missed.
pub proof fn law_what_happens_on_a_connection(bytes: u64, now: Instant)
    ensures
        forall|c: &mut ConnectionInfo| #[trigger]
            call_ensures(ConnectionInfo::record_recv, (c, bytes, now), ()) && c.bytes_recv + bytes <= u64::MAX && c.frames_recv
                < u64::MAX ==> *final(c) == (ConnectionInfo {
                bytes_recv: (c.bytes_recv + bytes) as u64,
                frames_recv: (c.frames_recv + 1) as u64,
                last_recv: now,
                ..*c
            }),
        forall|c: &mut ConnectionInfo| #[trigger]
            call_ensures(ConnectionInfo::record_send, (c, bytes, now), ()) && c.bytes_sent + bytes <= u64::MAX && c.frames_sent
                < u64::MAX ==> *final(c) == (ConnectionInfo {
                bytes_sent: (c.bytes_sent + bytes) as u64,
                frames_sent: (c.frames_sent + 1) as u64,
                last_send: now,
                ..*c
            }),
        forall|c: &mut ConnectionInfo| #[trigger]
            call_ensures(ConnectionInfo::record_queued, (c, now), ()) ==> *final(c) == (ConnectionInfo { last_send: now, ..*c }),
        forall|c: &mut ConnectionInfo| #[trigger]
            call_ensures(ConnectionInfo::record_ping_sent, (c, now), ()) ==> *final(c) == (ConnectionInfo {
                last_ping_sent: Some(now),
                ..*c
            }),
        forall|c: &mut ConnectionInfo| #[trigger]
            call_ensures(ConnectionInfo::record_pong_received, (c, now), ()) ==> *final(c) == (ConnectionInfo {
                missed_heartbeats: 0,
                last_ping_sent: None,
                last_recv: now,
                ..*c
            }),
        forall|c: &mut ConnectionInfo| #[trigger]
            call_ensures(ConnectionInfo::record_missed_heartbeat, (c,), ()) && c.missed_heartbeats < u32::MAX ==> *final(c) == (
            ConnectionInfo { missed_heartbeats: (c.missed_heartbeats + 1) as u32, last_ping_sent: None, ..*c }),
        forall|c: &mut ConnectionInfo| #[trigger]
            call_ensures(ConnectionInfo::set_established, (c,), ()) ==> *final(c) == (ConnectionInfo {
                state: ConnectionState::Established,
                ..*c
            }),
        forall|c: &mut ConnectionInfo| #[trigger]
            call_ensures(ConnectionInfo::set_closing, (c,), ()) ==> *final(c) == (ConnectionInfo {
                state: ConnectionState::Closing,
                ..*c
            }),
        forall|c: &mut ConnectionInfo| #[trigger]
            call_ensures(ConnectionInfo::set_closed, (c,), ()) ==> *final(c) == (ConnectionInfo {
                state: ConnectionState::Closed,
                ..*c
            }),
{
}

} // verus!

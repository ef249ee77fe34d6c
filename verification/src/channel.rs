//! The state of a connection to a peer: who it is, when it was last active, and whether it
//! timed out or was closed.
use crate::bandwidth_limiter::{pass_effect, BandwidthLimiter, UNLIMITED_RATE_SENTINEL};
use crate::messages::Peer;
use crate::network::{ChannelDirection, ChannelId, ChannelMode, TrafficType};
use crate::primitives::{Duration, PublicKey, Timestamp};
use vstd::prelude::*;

verus! {

/// Seconds of inactivity after which a channel times out, unless set otherwise.
pub const DEFAULT_TIMEOUT_SECS: u64 = 120;

/// What a channel knows of its connection.
pub struct ChannelView {
    pub channel_id: ChannelId,
    pub local_addr: Peer,
    pub peer_addr: Peer,
    pub node_id: Option<PublicKey>,
    pub peering_addr: Option<Peer>,
    pub protocol_version: u8,
    pub direction: ChannelDirection,
    pub last_activity: Timestamp,
    pub last_bootstrap_attempt: Timestamp,
    pub timeout_secs: u64,
    pub timed_out: bool,
    pub closed: bool,
    pub mode: ChannelMode,
}

/// The milliseconds from `since` to `now`, none if `now` is earlier.
pub open spec fn inactive_millis(since: Timestamp, now: Timestamp) -> nat {
    if now.millis >= since.millis {
        (now.millis - since.millis) as nat
    } else {
        0
    }
}

/// Whether a channel that was last active at `last_activity` has been inactive for longer than
/// `timeout_secs` seconds at `now`.
pub open spec fn inactive_too_long(last_activity: Timestamp, timeout_secs: u64, now: Timestamp) -> bool {
    inactive_millis(last_activity, now) > timeout_secs * 1000
}

/// A channel after it was closed: its timeout is zero.
pub open spec fn closed_view(v: ChannelView) -> ChannelView {
    if v.closed {
        v
    } else {
        ChannelView { closed: true, timeout_secs: 0, ..v }
    }
}

/// A connection to a peer.
pub struct Channel {
    channel_id: ChannelId,
    local_addr: Peer,
    peer_addr: Peer,
    node_id: Option<PublicKey>,
    peering_addr: Option<Peer>,
    protocol_version: u8,
    direction: ChannelDirection,
    last_activity: Timestamp,
    last_bootstrap_attempt: Timestamp,
    timeout_secs: u64,
    timed_out: bool,
    closed: bool,
    mode: ChannelMode,
}

impl View for Channel {
    type V = ChannelView;

    closed spec fn view(&self) -> ChannelView {
        ChannelView {
            channel_id: self.channel_id,
            local_addr: self.local_addr,
            peer_addr: self.peer_addr,
            node_id: self.node_id,
            peering_addr: self.peering_addr,
            protocol_version: self.protocol_version,
            direction: self.direction,
            last_activity: self.last_activity,
            last_bootstrap_attempt: self.last_bootstrap_attempt,
            timeout_secs: self.timeout_secs,
            timed_out: self.timed_out,
            closed: self.closed,
            mode: self.mode,
        }
    }
}

impl Channel {
    /// A new, open channel, active at `now`, with the default timeout and an undefined mode.
    /// An outbound channel's peering address is the address it connected to; an inbound one's
    /// is not known yet.
    pub fn new(
        channel_id: ChannelId,
        local_addr: Peer,
        peer_addr: Peer,
        direction: ChannelDirection,
        protocol_version: u8,
        now: Timestamp,
    ) -> (r: Channel)
        ensures
            r@ == (ChannelView {
                channel_id,
                local_addr,
                peer_addr,
                node_id: None,
                peering_addr: if direction == ChannelDirection::Outbound {
                    Some(peer_addr)
                } else {
                    None
                },
                protocol_version,
                direction,
                last_activity: now,
                last_bootstrap_attempt: Timestamp { millis: 0 },
                timeout_secs: DEFAULT_TIMEOUT_SECS,
                timed_out: false,
                closed: false,
                mode: ChannelMode::Undefined,
            }),
    {
        Channel {
            channel_id,
            local_addr,
            peer_addr,
            node_id: None,
            peering_addr: if direction == ChannelDirection::Outbound {
                Some(peer_addr)
            } else {
                None
            },
            protocol_version,
            direction,
            last_activity: now,
            last_bootstrap_attempt: Timestamp::zero(),
            timeout_secs: DEFAULT_TIMEOUT_SECS,
            timed_out: false,
            closed: false,
            mode: ChannelMode::Undefined,
        }
    }

    pub fn channel_id(&self) -> (r: ChannelId)
        ensures
            r == self@.channel_id,
    {
        self.channel_id
    }

    pub fn node_id(&self) -> (r: Option<PublicKey>)
        ensures
            r == self@.node_id,
    {
        self.node_id
    }

    pub fn direction(&self) -> (r: ChannelDirection)
        ensures
            r == self@.direction,
    {
        self.direction
    }

    pub fn local_addr(&self) -> (r: Peer)
        ensures
            r == self@.local_addr,
    {
        self.local_addr
    }

    /// The address that we are connected to. If this is an incoming channel, then the peer
    /// address uses an ephemeral port.
    pub fn peer_addr(&self) -> (r: Peer)
        ensures
            r == self@.peer_addr,
    {
        self.peer_addr
    }

    /// The address where the peer accepts incoming connections. For an outbound channel, the
    /// peer address and the peering address are the same.
    pub fn peering_addr(&self) -> (r: Option<Peer>)
        ensures
            r == self@.peering_addr,
    {
        self.peering_addr
    }

    pub fn peering_addr_or_peer_addr(&self) -> (r: Peer)
        ensures
            r == match self@.peering_addr {
                Some(a) => a,
                None => self@.peer_addr,
            },
    {
        match self.peering_addr {
            Some(a) => a,
            None => self.peer_addr,
        }
    }

    pub fn protocol_version(&self) -> (r: u8)
        ensures
            r == self@.protocol_version,
    {
        self.protocol_version
    }

    pub fn set_protocol_version(&mut self, version: u8)
        ensures
            final(self)@ == (ChannelView { protocol_version: version, ..old(self)@ }),
    {
        self.protocol_version = version;
    }

    /// When there was last successful activity on the connection.
    pub fn last_activity(&self) -> (r: Timestamp)
        ensures
            r == self@.last_activity,
    {
        self.last_activity
    }

    pub fn set_last_activity(&mut self, now: Timestamp)
        ensures
            final(self)@ == (ChannelView { last_activity: now, ..old(self)@ }),
    {
        self.last_activity = now;
    }

    /// The inactivity after which the channel times out, in whole seconds.
    pub fn timeout(&self) -> (r: Duration)
        ensures
            r.millis == self@.timeout_secs * 1000,
    {
        Duration::from_secs(self.timeout_secs)
    }

    /// Sets the timeout to the whole seconds of `value`, up to the largest `u64`.
    pub fn set_timeout(&mut self, value: Duration)
        ensures
            final(self)@ == (ChannelView {
                timeout_secs: if value.millis / 1000 > u64::MAX {
                    u64::MAX
                } else {
                    (value.millis / 1000) as u64
                },
                ..old(self)@
            }),
    {
        let secs = value.as_secs();
        self.timeout_secs = if secs > u64::MAX as u128 {
            u64::MAX
        } else {
            secs as u64
        };
    }

    pub fn timed_out(&self) -> (r: bool)
        ensures
            r == self@.timed_out,
    {
        self.timed_out
    }

    pub fn set_timed_out(&mut self, value: bool)
        ensures
            final(self)@ == (ChannelView { timed_out: value, ..old(self)@ }),
    {
        self.timed_out = value;
    }

    pub fn is_alive(&self) -> (r: bool)
        ensures
            r == !self@.closed,
    {
        !self.closed
    }

    pub fn is_closed(&self) -> (r: bool)
        ensures
            r == self@.closed,
    {
        self.closed
    }

    /// Closes the channel; the first close also sets the timeout to zero.
    pub fn close(&mut self)
        ensures
            final(self)@ == closed_view(old(self)@),
    {
        if self.closed {
            return ;
        }
        self.closed = true;
        self.timeout_secs = 0;
    }

    pub fn set_node_id(&mut self, node_id: PublicKey)
        ensures
            final(self)@ == (ChannelView { node_id: Some(node_id), ..old(self)@ }),
    {
        self.node_id = Some(node_id);
    }

    pub fn set_peering_addr(&mut self, peering_addr: Peer)
        ensures
            final(self)@ == (ChannelView { peering_addr: Some(peering_addr), ..old(self)@ }),
    {
        self.peering_addr = Some(peering_addr);
    }

    pub fn mode(&self) -> (r: ChannelMode)
        ensures
            r == self@.mode,
    {
        self.mode
    }

    pub fn set_mode(&mut self, mode: ChannelMode)
        ensures
            final(self)@ == (ChannelView { mode, ..old(self)@ }),
    {
        self.mode = mode;
    }

    pub fn last_bootstrap_attempt(&self) -> (r: Timestamp)
        ensures
            r == self@.last_bootstrap_attempt,
    {
        self.last_bootstrap_attempt
    }

    pub fn set_last_bootstrap_attempt(&mut self, now: Timestamp)
        ensures
            final(self)@ == (ChannelView { last_bootstrap_attempt: now, ..old(self)@ }),
    {
        self.last_bootstrap_attempt = now;
    }

    /// Whether the channel is dead at `now`: it was closed before, or it has been inactive for
    /// longer than its timeout, in which case it is marked as timed out and closed.
    pub fn check_timeout(&mut self, now: Timestamp) -> (r: bool)
        ensures
            old(self)@.closed ==> r && final(self)@ == old(self)@,
            !old(self)@.closed ==> r == inactive_too_long(
                old(self)@.last_activity,
                old(self)@.timeout_secs,
                now,
            ),
            !old(self)@.closed && r ==> final(self)@ == closed_view(
                ChannelView { timed_out: true, ..old(self)@ },
            ),
            !old(self)@.closed && !r ==> final(self)@ == old(self)@,
    {
        if !self.is_alive() {
            return true;
        }
        let inactive: u64 = if now.millis >= self.last_activity.millis {
            now.millis - self.last_activity.millis
        } else {
            0
        };
        let has_timed_out = inactive as u128 > self.timeout_secs as u128 * 1000;
        if has_timed_out {
            self.set_timed_out(true);
            self.close();
        }
        has_timed_out
    }

    /// Whether a buffer of `buffer_len` bytes of this traffic type may go into the channel's
    /// write queue, which has room for `queue_free_capacity` more of that type: not when the
    /// channel is closed or the queue is full (the limiter is not asked then), else when the
    /// bandwidth limiter lets it pass (which it pays for).
    pub fn may_send(
        &self,
        queue_free_capacity: usize,
        limiter: &mut BandwidthLimiter,
        buffer_len: usize,
        traffic_type: TrafficType,
        now: Timestamp,
    ) -> (r: bool)
        requires
            old(limiter).wf(),
            buffer_len <= UNLIMITED_RATE_SENTINEL,
        ensures
            final(limiter).wf(),
            self@.closed || queue_free_capacity == 0 ==> !r && *final(limiter) == *old(limiter),
            !self@.closed && queue_free_capacity > 0 ==> r == old(limiter).passes(
                buffer_len as nat,
                traffic_type,
                now,
            ) && pass_effect(*old(limiter), *final(limiter), buffer_len as nat, traffic_type, now),
    {
        if self.closed {
            return false;
        }
        if queue_free_capacity == 0 {
            return false;
        }
        limiter.should_pass(buffer_len, traffic_type, now)
    }

    /// Data was read at `now`: the channel was active then.
    pub fn read_succeeded(&mut self, _count: usize, now: Timestamp)
        ensures
            final(self)@ == (ChannelView { last_activity: now, ..old(self)@ }),
    {
        self.set_last_activity(now);
    }

    /// Reading failed: the channel is closed.
    pub fn read_failed(&mut self)
        ensures
            final(self)@ == closed_view(old(self)@),
    {
        self.close();
    }
}

/// What an attempt to read from or write to a channel's stream gave.
#[derive(PartialEq, Eq, Structural, Clone, Copy, Debug)]
pub enum IoOutcome {
    /// This many bytes went through.
    Transferred(usize),
    /// The stream was not ready after all.
    WouldBlock,
    /// The stream failed.
    Failed,
}

/// Why reading from a channel failed.
#[derive(PartialEq, Eq, Structural, Clone, Copy, Debug)]
pub enum ReadError {
    /// The remote side closed the connection.
    RemoteClosed,
    /// The stream failed.
    Stream,
}

/// What to do next while writing a buffer to a channel's stream.
#[derive(PartialEq, Eq, Structural, Clone, Copy, Debug)]
pub enum WriteProgress {
    /// The whole buffer is written.
    Finished,
    /// Wait until the stream is writable, then write from this offset on.
    Continue(usize),
    /// Stop writing: the channel is closed.
    Closed,
}

impl Channel {
    /// Takes the outcome of a read from the channel's stream at `now`: reading nothing means
    /// the remote side closed the connection, and a failure closes the channel; bytes read
    /// count as activity; a stream that would block reads nothing.
    pub fn read_outcome(&mut self, outcome: IoOutcome, now: Timestamp) -> (r: Result<usize, ReadError>)
        ensures
            match outcome {
                IoOutcome::Transferred(n) => if n == 0 {
                    r == Err::<usize, ReadError>(ReadError::RemoteClosed) && final(self)@ == closed_view(
                        old(self)@,
                    )
                } else {
                    r == Ok::<usize, ReadError>(n) && final(self)@ == (ChannelView {
                        last_activity: now,
                        ..old(self)@
                    })
                },
                IoOutcome::WouldBlock => r == Ok::<usize, ReadError>(0) && final(self)@ == old(self)@,
                IoOutcome::Failed => r == Err::<usize, ReadError>(ReadError::Stream) && final(self)@
                    == closed_view(old(self)@),
            },
    {
        match outcome {
            IoOutcome::Transferred(n) => {
                if n == 0 {
                    self.read_failed();
                    Err(ReadError::RemoteClosed)
                } else {
                    self.read_succeeded(n, now);
                    Ok(n)
                }
            },
            IoOutcome::WouldBlock => Ok(0),
            IoOutcome::Failed => {
                self.read_failed();
                Err(ReadError::Stream)
            },
        }
    }

    /// Takes the outcome of writing the bytes from offset `written` of a buffer of `len`
    /// bytes at `now`: once all bytes are written the channel was active then; a stream that
    /// would block is tried again; a failure closes the channel.
    pub fn write_outcome(&mut self, written: usize, len: usize, outcome: IoOutcome, now: Timestamp) -> (r:
        WriteProgress)
        requires
            written < len,
            outcome matches IoOutcome::Transferred(n) ==> n <= len - written,
        ensures
            match outcome {
                IoOutcome::Transferred(n) => if written + n >= len {
                    r == WriteProgress::Finished && final(self)@ == (ChannelView {
                        last_activity: now,
                        ..old(self)@
                    })
                } else {
                    r == WriteProgress::Continue((written + n) as usize) && final(self)@ == old(self)@
                },
                IoOutcome::WouldBlock => r == WriteProgress::Continue(written) && final(self)@ == old(
                    self,
                )@,
                IoOutcome::Failed => r == WriteProgress::Closed && final(self)@ == closed_view(old(self)@),
            },
    {
        match outcome {
            IoOutcome::Transferred(n) => {
                let total = written + n;
                if total >= len {
                    self.set_last_activity(now);
                    WriteProgress::Finished
                } else {
                    WriteProgress::Continue(total)
                }
            },
            IoOutcome::WouldBlock => WriteProgress::Continue(written),
            IoOutcome::Failed => {
                self.close();
                WriteProgress::Closed
            },
        }
    }
}

} // verus!

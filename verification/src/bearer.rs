//! Bearer links: the limits on what a peer sends, and the pauses before a relay is dialed again.

use vstd::arithmetic::power2::{lemma_pow2_strictly_increases, lemma_pow2_unfold, pow2};
use vstd::prelude::*;

verus! {

/// The most bytes in one message or frame that a peer may send.
pub const MAX_FRAME_BYTES: usize = 1_048_576;

/// `tungstenite::protocol::WebSocketConfig`, the settings of a WebSocket, with its public fields.
#[verifier::external_type_specification]
pub struct ExWebSocketConfig(tungstenite::protocol::WebSocketConfig);

/// `WebSocketConfig::default` caps a message at 64 MiB and a frame at 16 MiB, buffers 128 KiB each
/// way, lets the write buffer grow without bound, and takes no unmasked frames.
pub assume_specification[ <tungstenite::protocol::WebSocketConfig as core::default::Default>::default ]() -> (r:
    tungstenite::protocol::WebSocketConfig)
    ensures
        r.read_buffer_size == 131_072,
        r.write_buffer_size == 131_072,
        r.max_write_buffer_size == usize::MAX,
        r.max_message_size == Some(67_108_864usize),
        r.max_frame_size == Some(16_777_216usize),
        r.accept_unmasked_frames == false,
;

/// `WebSocketConfig::max_message_size` sets the cap on a message, and nothing else.
pub assume_specification[ tungstenite::protocol::WebSocketConfig::max_message_size ](
    config: tungstenite::protocol::WebSocketConfig,
    max_message_size: Option<usize>,
) -> (r: tungstenite::protocol::WebSocketConfig)
    ensures
        r.max_message_size == max_message_size,
        r.max_frame_size == config.max_frame_size,
        r.read_buffer_size == config.read_buffer_size,
        r.write_buffer_size == config.write_buffer_size,
        r.max_write_buffer_size == config.max_write_buffer_size,
        r.accept_unmasked_frames == config.accept_unmasked_frames,
;

/// `WebSocketConfig::max_frame_size` sets the cap on a frame, and nothing else.
pub assume_specification[ tungstenite::protocol::WebSocketConfig::max_frame_size ](
    config: tungstenite::protocol::WebSocketConfig,
    max_frame_size: Option<usize>,
) -> (r: tungstenite::protocol::WebSocketConfig)
    ensures
        r.max_frame_size == max_frame_size,
        r.max_message_size == config.max_message_size,
        r.read_buffer_size == config.read_buffer_size,
        r.write_buffer_size == config.write_buffer_size,
        r.max_write_buffer_size == config.max_write_buffer_size,
        r.accept_unmasked_frames == config.accept_unmasked_frames,
;

/// The settings that a link is accepted with: the defaults, with a message and a frame both capped
/// at what the mesh sends.
pub fn bearer_ws_config() -> (r: tungstenite::protocol::WebSocketConfig)
    ensures
        r.max_message_size == Some(MAX_FRAME_BYTES),
        r.max_frame_size == Some(MAX_FRAME_BYTES),
        r.max_message_size == Some(1_048_576usize),
        r.max_frame_size == Some(1_048_576usize),
        r.read_buffer_size == 131_072,
        r.write_buffer_size == 131_072,
        r.max_write_buffer_size == usize::MAX,
        r.accept_unmasked_frames == false,
{
    tungstenite::protocol::WebSocketConfig::default().max_message_size(
        Some(MAX_FRAME_BYTES),
    ).max_frame_size(Some(MAX_FRAME_BYTES))
}

/// The pause before a relay is dialed again, at first, in seconds.
pub const RECONNECT_BASE_SECS: u64 = 5;

/// The longest pause before a relay is dialed again, in seconds.
pub const RECONNECT_MAX_SECS: u64 = 60;

/// The pause after a number of failures in a row, in seconds: twice as long each time, up to the
/// longest.
pub open spec fn backoff(failures: nat) -> nat {
    if failures == 0 {
        RECONNECT_BASE_SECS as nat
    } else {
        let secs = RECONNECT_BASE_SECS as nat * pow2((failures - 1) as nat);
        if secs <= RECONNECT_MAX_SECS {
            secs
        } else {
            RECONNECT_MAX_SECS as nat
        }
    }
}

/// The pause after `failures` failures in a row, in seconds.
pub fn reconnect_backoff(failures: u32) -> (r: u64)
    ensures
        r == backoff(failures as nat),
{
    let mut secs: u64 = RECONNECT_BASE_SECS;
    let mut n: u32 = 1;
    proof {
        vstd::arithmetic::power2::lemma2_to64();
    }
    while n < failures && secs < RECONNECT_MAX_SECS
        invariant
            1 <= n,
            n <= failures || n == 1,
            secs == RECONNECT_BASE_SECS as nat * pow2((n - 1) as nat),
            secs < 2 * RECONNECT_MAX_SECS,
        decreases failures - n,
    {
        proof {
            lemma_pow2_unfold(n as nat);
        }
        secs = secs * 2;
        n = n + 1;
    }
    proof {
        if n < failures {
            lemma_pow2_strictly_increases((n - 1) as nat, (failures - 1) as nat);
        }
    }
    if secs < RECONNECT_MAX_SECS {
        secs
    } else {
        RECONNECT_MAX_SECS
    }
}

/// A pause is never shorter than the first nor longer than the longest, grows with the failures,
/// and doubles until it is the longest.
pub proof fn law_backoff_grows_then_caps(failures: nat)
    ensures
        backoff(0) == 5,
        backoff(1) == 5,
        5 <= backoff(failures) <= 60,
        backoff(failures) <= backoff(failures + 1),
        failures > 0 ==> backoff(failures + 1) == if 2 * backoff(failures) <= 60 {
            2 * backoff(failures)
        } else {
            60
        },
        failures >= 5 ==> backoff(failures) == 60,
{
    vstd::arithmetic::power2::lemma2_to64();
    if failures > 0 {
        lemma_pow2_unfold(failures);
        vstd::arithmetic::power2::lemma_pow2_pos((failures - 1) as nat);
    }
    if failures > 5 {
        lemma_pow2_strictly_increases(4, (failures - 1) as nat);
    }
}

} // verus!

//! Which messages a websocket subscriber is sent: the topic it subscribed to,
//! read off the request path, and the filter on what arrives.
use bytes::Bytes;
use vstd::prelude::*;
use vstd::string::StringSliceAdditionalSpecFns;
use vstd::utf8::{encode_scalar, encode_utf8, encode_utf8_decode_utf8, encode_utf8_first_scalar, encode_utf8_valid_utf8, is_char_boundary};

verus! {

/// The topic of a websocket subscription: the request path without its first
/// character, the leading `/`. The path is split after its first byte, which
/// panics unless the first character is a single byte, so the first character
/// is required to be ASCII.
pub fn subscription_topic(uri: &str) -> (r: String)
    requires
        uri@.len() > 0,
        (uri@[0] as u32) < 128,
    ensures
        r@ == uri@.drop_first(),
{
    proof {
        let chars = uri@;
        let bytes = encode_utf8(chars);
        encode_utf8_first_scalar(chars);
        encode_utf8_valid_utf8(chars);
        assert(bytes == uri.spec_bytes());
        assert(bytes == encode_scalar(chars[0] as u32) + encode_utf8(chars.drop_first()));
        assert(encode_scalar(chars[0] as u32).len() == 1);
        reveal_with_fuel(is_char_boundary, 2);
        assert(is_char_boundary(bytes, 1));
    }
    let (_, rest) = uri.split_at(1);
    proof {
        let chars = uri@;
        let tail = chars.drop_first();
        assert(encode_utf8(chars) == encode_scalar(chars[0] as u32) + encode_utf8(tail));
        assert(encode_scalar(chars[0] as u32).len() == 1);
        assert(rest.spec_bytes() =~= encode_utf8(tail));
        encode_utf8_decode_utf8(rest@);
        encode_utf8_decode_utf8(tail);
    }
    rest.to_owned()
}

/// What one wait on a relay channel produced.
#[derive(Debug)]
pub enum RecvOutcome {
    /// A message on some topic.
    Message(String, Bytes),
    /// The subscriber fell behind and messages were dropped.
    Lagged,
    /// The channel is closed: nothing more will arrive.
    Closed,
}

/// Why a subscriber stops receiving.
#[derive(Debug, Clone, Copy, PartialEq, Eq, Structural)]
pub enum RecvFailure {
    Closed,
}

/// Where a websocket subscriber's messages come from: raw MQTT and log
/// messages, or camera images, filtered by the subscribed topic.
#[derive(Debug)]
pub enum MessageReceiver {
    Raw(String),
    Image(String),
}

impl MessageReceiver {
    /// The topic whose messages are passed on.
    pub open spec fn spec_topic(&self) -> Seq<char> {
        match self {
            MessageReceiver::Raw(t) => t@,
            MessageReceiver::Image(t) => t@,
        }
    }

    /// A subscriber to the camera topic receives images; any other receives
    /// raw messages of its topic.
    pub fn for_topic(sub_topic: String, camera: &String) -> (r: MessageReceiver)
        ensures
            sub_topic@ == camera@ ==> r is Image,
            sub_topic@ != camera@ ==> r is Raw,
            r.spec_topic() == sub_topic@,
    {
        if sub_topic == *camera {
            MessageReceiver::Image(camera.clone())
        } else {
            MessageReceiver::Raw(sub_topic)
        }
    }

    /// The topic whose messages are passed on.
    pub fn topic(&self) -> (r: &String)
        ensures
            r@ == self.spec_topic(),
    {
        match self {
            MessageReceiver::Raw(t) => t,
            MessageReceiver::Image(t) => t,
        }
    }

    /// What to do with one outcome of waiting: a message on the subscribed
    /// topic is passed on; one on any other topic, or a lag, is skipped (the
    /// wait goes on); a closed channel ends the subscription with an error.
    pub fn accept(&self, outcome: RecvOutcome) -> (r: Option<Result<Bytes, RecvFailure>>)
        ensures
            match outcome {
                RecvOutcome::Message(t, p) => if t@ == self.spec_topic() {
                    r == Some(Ok::<Bytes, RecvFailure>(p))
                } else {
                    r is None
                },
                RecvOutcome::Lagged => r is None,
                RecvOutcome::Closed => r == Some(Err::<Bytes, RecvFailure>(RecvFailure::Closed)),
            },
    {
        match outcome {
            RecvOutcome::Message(t, p) => {
                if t == *self.topic() {
                    Some(Ok(p))
                } else {
                    None
                }
            },
            RecvOutcome::Lagged => None,
            RecvOutcome::Closed => Some(Err(RecvFailure::Closed)),
        }
    }
}

} // verus!

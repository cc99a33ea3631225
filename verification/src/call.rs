//! Voice and video calls: signalling, and live media frames.
//!
//! Call messages travel in envelopes of their own, without chunks: a live frame is delivered at
//! once or not at all. There is no jitter buffer, no error correction and no retransmission.

use vstd::prelude::*;

use crate::bytes;
use crate::identity::NodeId;
use crate::primitives;

verus! {

/// What a frame carries.
#[derive(Clone, Copy, Debug, PartialEq, Eq, Structural)]
pub enum MediaKind {
    Audio,
    Video,
}

impl MediaKind {
    /// The number of this kind on the wire.
    pub open spec fn number(self) -> u32 {
        match self {
            MediaKind::Audio => 0,
            MediaKind::Video => 1,
        }
    }

    /// The kind with a given number on the wire.
    pub open spec fn of_number(number: u32) -> Option<MediaKind> {
        match number {
            0 => Some(MediaKind::Audio),
            1 => Some(MediaKind::Video),
            _ => None,
        }
    }

    /// The number of this kind on the wire.
    pub fn to_number(self) -> (number: u32)
        ensures
            number == self.number(),
    {
        match self {
            MediaKind::Audio => 0,
            MediaKind::Video => 1,
        }
    }

    /// The kind with a given number on the wire; an unknown number is refused.
    pub fn from_number(number: u32) -> (kind: Option<MediaKind>)
        ensures
            kind == Self::of_number(number),
    {
        match number {
            0 => Some(MediaKind::Audio),
            1 => Some(MediaKind::Video),
            _ => None,
        }
    }
}

/// Setting up, answering or tearing down a call.
#[derive(Clone, Copy, Debug)]
pub enum CallSignal {
    /// "I am calling you."
    Invite { call_id: [u8; 16], video: bool },
    /// "I am picking up."
    Accept { call_id: [u8; 16] },
    /// "I decline."
    Reject { call_id: [u8; 16] },
    /// "I hang up", from either side and at any time.
    End { call_id: [u8; 16] },
}

impl CallSignal {
    /// The call a signal is about.
    pub open spec fn call(self) -> [u8; 16] {
        match self {
            CallSignal::Invite { call_id, video } => call_id,
            CallSignal::Accept { call_id } => call_id,
            CallSignal::Reject { call_id } => call_id,
            CallSignal::End { call_id } => call_id,
        }
    }

    /// The call this signal is about.
    pub fn call_id(&self) -> (id: [u8; 16])
        ensures
            id == self.call(),
    {
        match self {
            CallSignal::Invite { call_id, .. } => *call_id,
            CallSignal::Accept { call_id } => *call_id,
            CallSignal::Reject { call_id } => *call_id,
            CallSignal::End { call_id } => *call_id,
        }
    }
}

/// One frame of live audio or video.
#[derive(Debug)]
pub struct CallFrame {
    pub call_id: [u8; 16],
    pub media: MediaKind,
    /// Counts up per call and medium, so that a receiver can notice losses.
    pub sequence: u32,
    pub data: Vec<u8>,
}

/// What a frame says.
pub struct CallFrameData {
    pub call_id: [u8; 16],
    pub media: MediaKind,
    pub sequence: u32,
    pub data: Seq<u8>,
}

impl View for CallFrame {
    type V = CallFrameData;

    open spec fn view(&self) -> CallFrameData {
        CallFrameData {
            call_id: self.call_id,
            media: self.media,
            sequence: self.sequence,
            data: self.data@,
        }
    }
}

impl Clone for CallFrame {
    fn clone(&self) -> (copy: Self)
        ensures
            copy@ == self@,
    {
        CallFrame {
            call_id: self.call_id,
            media: self.media,
            sequence: self.sequence,
            data: bytes::to_vec(self.data.as_slice()),
        }
    }
}

/// A call message: a signal or a frame.
#[derive(Debug)]
pub enum CallMessage {
    Signal(CallSignal),
    Frame(CallFrame),
}

/// What a call message says.
pub enum CallMessageData {
    Signal(CallSignal),
    Frame(CallFrameData),
}

impl View for CallMessage {
    type V = CallMessageData;

    open spec fn view(&self) -> CallMessageData {
        match self {
            CallMessage::Signal(signal) => CallMessageData::Signal(*signal),
            CallMessage::Frame(frame) => CallMessageData::Frame(frame@),
        }
    }
}

impl Clone for CallMessage {
    fn clone(&self) -> (copy: Self)
        ensures
            copy@ == self@,
    {
        match self {
            CallMessage::Signal(signal) => CallMessage::Signal(*signal),
            CallMessage::Frame(frame) => CallMessage::Frame(frame.clone()),
        }
    }
}

/// A call message together with the node it is for.
#[derive(Debug)]
pub struct AddressedCall {
    pub target: NodeId,
    pub message: CallMessage,
}

/// A fresh random call id. Any id may come out.
pub fn random_call_id() -> (id: [u8; 16]) {
    primitives::random_bytes()
}

} // verus!

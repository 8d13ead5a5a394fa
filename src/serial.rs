//! The decisions of the command loop: gathering received bytes into a frame,
//! and what to do with a complete frame.

use vstd::prelude::*;
use crate::command::{decode_wire, packed, Command, NEWLINE};

verus! {

/// The length of a frame.
pub const FRAME_LEN: usize = 17;

/// The privileged literal `RESET_TO_BOOTSEL` followed by a newline.
pub open spec fn reset_literal() -> Seq<u8> {
    seq![
        0x52u8, 0x45, 0x53, 0x45, 0x54, 0x5F, 0x54, 0x4F, 0x5F, 0x42, 0x4F, 0x4F, 0x54, 0x53, 0x45,
        0x4C, 0x0A,
    ]
}

/// What the command loop does with a complete frame.
#[derive(Debug, Clone, Copy, PartialEq, Eq, Structural)]
pub enum FrameAction {
    /// Reset the serial device and reboot into the reprogramming mode.
    ResetToBootsel,
    /// Send this packed word to the other core, then echo the frame back.
    Forward(u32),
    /// Drop the frame silently.
    Discard,
}

/// The action for a frame: the reset literal resets when the build allows
/// it; otherwise a frame that decodes is forwarded packed, and any other is
/// discarded.
pub open spec fn frame_action(frame: Seq<u8>, reset_enabled: bool) -> FrameAction {
    if reset_enabled && frame == reset_literal() {
        FrameAction::ResetToBootsel
    } else {
        match decode_wire(frame) {
            Some(c) => FrameAction::Forward(packed(c)),
            None => FrameAction::Discard,
        }
    }
}

/// Whether `frame` is the reset literal, byte for byte.
pub fn is_reset_request(frame: &[u8]) -> (r: bool)
    ensures
        r == (frame@ == reset_literal()),
{
    let literal: [u8; 17] = [
        0x52, 0x45, 0x53, 0x45, 0x54, 0x5F, 0x54, 0x4F, 0x5F, 0x42, 0x4F, 0x4F, 0x54, 0x53, 0x45,
        0x4C, 0x0A,
    ];
    assert(literal@ =~= reset_literal());
    if frame.len() != FRAME_LEN {
        return false;
    }
    let mut i: usize = 0;
    while i < FRAME_LEN
        invariant
            i <= FRAME_LEN,
            frame@.len() == FRAME_LEN,
            literal@ == reset_literal(),
            forall|k: int| 0 <= k < i ==> frame@[k] == literal@[k],
        decreases FRAME_LEN - i,
    {
        if frame[i] != literal[i] {
            return false;
        }
        i += 1;
    }
    assert(frame@ =~= reset_literal());
    true
}

/// Decides what to do with a complete frame.
pub fn dispatch(frame: &[u8], reset_enabled: bool) -> (r: FrameAction)
    ensures
        r == frame_action(frame@, reset_enabled),
{
    if reset_enabled && is_reset_request(frame) {
        return FrameAction::ResetToBootsel;
    }
    match Command::from_serial(frame) {
        Some(c) => FrameAction::Forward(c.to_u32()),
        None => FrameAction::Discard,
    }
}

/// The last `FRAME_LEN` bytes received, oldest first; it starts as zeros.
pub struct FrameWindow {
    bytes: Vec<u8>,
}

impl View for FrameWindow {
    type V = Seq<u8>;

    closed spec fn view(&self) -> Seq<u8> {
        self.bytes@
    }
}

impl FrameWindow {
    /// An empty window: `FRAME_LEN` zero bytes.
    pub fn new() -> (r: FrameWindow)
        ensures
            r@ == Seq::new(FRAME_LEN as nat, |i: int| 0u8),
    {
        let mut bytes: Vec<u8> = Vec::new();
        let mut i: usize = 0;
        while i < FRAME_LEN
            invariant
                i <= FRAME_LEN,
                bytes@ == Seq::new(i as nat, |k: int| 0u8),
            decreases FRAME_LEN - i,
        {
            bytes.push(0);
            i += 1;
            assert(bytes@ =~= Seq::new(i as nat, |k: int| 0u8));
        }
        FrameWindow { bytes }
    }

    /// Appends a received byte; the oldest byte leaves.
    pub fn push(&mut self, byte: u8)
        requires
            old(self)@.len() == FRAME_LEN,
        ensures
            final(self)@ == old(self)@.skip(1).push(byte),
            final(self)@.len() == FRAME_LEN,
    {
        self.bytes.remove(0);
        self.bytes.push(byte);
        assert(self.bytes@ =~= old(self)@.skip(1).push(byte));
    }

    /// Whether the window holds a frame: its last byte is a newline.
    pub fn is_complete(&self) -> (r: bool)
        requires
            self@.len() == FRAME_LEN,
        ensures
            r == (self@.last() == NEWLINE),
    {
        self.bytes[FRAME_LEN - 1] == NEWLINE
    }

    /// The bytes of the window, oldest first.
    pub fn as_slice(&self) -> (r: &[u8])
        ensures
            r@ == self@,
    {
        self.bytes.as_slice()
    }
}

} // verus!

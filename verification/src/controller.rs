//! One controller's analog and digital inputs, and their 12-byte wire form.
//!
//! Layout, all little-endian: left stick X, left stick Y, right stick X,
//! right stick Y (two bytes each, signed), left trigger, right trigger (one
//! byte each), button mask (two bytes).

use crate::bytes::{i16_le, i16_of, pack_i16, pack_u16, u16_le, u16_of, unpack_i16, unpack_u16};
use crate::bytes::{lemma_i16_round_trip, lemma_u16_round_trip};
use vstd::prelude::*;

verus! {

/// Position of an analog stick. Each axis is the normalised value in
/// [-1, 1) scaled by 32768.
#[derive(Copy, Clone, Debug, PartialEq, Eq, Structural)]
pub struct StickState {
    pub x: i16,
    pub y: i16,
}

impl Default for StickState {
    /// A centred stick.
    fn default() -> (stick: Self)
        ensures
            stick == (StickState { x: 0, y: 0 }),
    {
        StickState { x: 0, y: 0 }
    }
}

impl StickState {
    /// The four bytes that stand for this stick: X, then Y.
    pub open spec fn wire(self) -> Seq<u8> {
        i16_le(self.x) + i16_le(self.y)
    }

    /// The stick that the first four bytes of `bytes` stand for.
    pub open spec fn of_wire(bytes: Seq<u8>) -> StickState
        recommends
            bytes.len() >= 4,
    {
        StickState { x: i16_of(bytes[0], bytes[1]), y: i16_of(bytes[2], bytes[3]) }
    }

    /// Reads a stick from its wire form. Every bit pattern is a stick.
    pub fn from_bytes(bytes: &[u8; 4]) -> (stick: Self)
        ensures
            stick == Self::of_wire(bytes@),
    {
        StickState { x: unpack_i16(bytes[0], bytes[1]), y: unpack_i16(bytes[2], bytes[3]) }
    }

    /// Writes the stick in its wire form.
    pub fn to_bytes(&self) -> (bytes: [u8; 4])
        ensures
            bytes@ == self.wire(),
    {
        let x = pack_i16(self.x);
        let y = pack_i16(self.y);
        let bytes = [x[0], x[1], y[0], y[1]];
        assert(bytes@ =~= self.wire());
        bytes
    }

    /// Reading what was written gives the stick back.
    pub proof fn lemma_wire_round_trip(self)
        ensures
            self.wire().len() == 4,
            Self::of_wire(self.wire()) == self,
    {
        lemma_i16_round_trip(self.x, 0, 0);
        lemma_i16_round_trip(self.y, 0, 0);
    }

    /// Writing what was read gives the bytes back.
    pub proof fn lemma_bytes_round_trip(bytes: Seq<u8>)
        requires
            bytes.len() == 4,
        ensures
            Self::of_wire(bytes).wire() == bytes,
    {
        lemma_i16_round_trip(0, bytes[0], bytes[1]);
        lemma_i16_round_trip(0, bytes[2], bytes[3]);
        assert(Self::of_wire(bytes).wire() =~= bytes);
    }
}

/// The buttons of a controller. Their order is the order of their bits in
/// the button mask.
#[derive(Clone, Copy, Debug, PartialEq, Eq, Structural)]
pub enum Button {
    Cross,
    Circle,
    Square,
    Triangle,
    Up,
    Down,
    Left,
    Right,
    LeftBumper,
    RightBumper,
    L3,
    R3,
    Select,
    Start,
    Logo,
}

impl Button {
    /// Position of the button's bit in the mask, from the least significant.
    pub open spec fn position(self) -> u16 {
        match self {
            Button::Cross => 0,
            Button::Circle => 1,
            Button::Square => 2,
            Button::Triangle => 3,
            Button::Up => 4,
            Button::Down => 5,
            Button::Left => 6,
            Button::Right => 7,
            Button::LeftBumper => 8,
            Button::RightBumper => 9,
            Button::L3 => 10,
            Button::R3 => 11,
            Button::Select => 12,
            Button::Start => 13,
            Button::Logo => 14,
        }
    }

    /// The mask with only this button's bit set.
    pub open spec fn bit(self) -> u16 {
        1u16 << self.position()
    }

    fn mask(&self) -> (mask: u16)
        ensures
            mask == self.bit(),
    {
        let position: u16 = match self {
            Button::Cross => 0,
            Button::Circle => 1,
            Button::Square => 2,
            Button::Triangle => 3,
            Button::Up => 4,
            Button::Down => 5,
            Button::Left => 6,
            Button::Right => 7,
            Button::LeftBumper => 8,
            Button::RightBumper => 9,
            Button::L3 => 10,
            Button::R3 => 11,
            Button::Select => 12,
            Button::Start => 13,
            Button::Logo => 14,
        };
        1u16 << position
    }
}

/// Setting bit `k` of a mask sets that bit and keeps every other bit.
proof fn lemma_set_bit(bits: u16, k: u16, j: u16)
    requires
        k < 16,
        j < 16,
    ensures
        ((bits | (1u16 << k)) & (1u16 << j) != 0) == (j == k || bits & (1u16 << j) != 0),
{
    assert(((bits | (1u16 << k)) & (1u16 << j) != 0) == (j == k || bits & (1u16 << j) != 0))
        by (bit_vector)
        requires
            k < 16,
            j < 16,
    ;
}

/// Clearing bit `k` of a mask clears that bit and keeps every other bit.
proof fn lemma_clear_bit(bits: u16, k: u16, j: u16)
    requires
        k < 16,
        j < 16,
    ensures
        ((bits & !(1u16 << k)) & (1u16 << j) != 0) == (j != k && bits & (1u16 << j) != 0),
{
    assert(((bits & !(1u16 << k)) & (1u16 << j) != 0) == (j != k && bits & (1u16 << j) != 0))
        by (bit_vector)
        requires
            k < 16,
            j < 16,
    ;
}

/// Flipping bit `k` of a mask flips that bit and keeps every other bit.
proof fn lemma_toggle_bit(bits: u16, k: u16, j: u16)
    requires
        k < 16,
        j < 16,
    ensures
        ((bits ^ (1u16 << k)) & (1u16 << j) != 0) == ((j == k) != (bits & (1u16 << j) != 0)),
{
    assert(((bits ^ (1u16 << k)) & (1u16 << j) != 0) == ((j == k) != (bits & (1u16 << j) != 0)))
        by (bit_vector)
        requires
            k < 16,
            j < 16,
    ;
}

/// State of one controller. Each trigger is the normalised value in [0, 1)
/// scaled by 256. `buttons` has one bit per [`Button`].
#[derive(Copy, Clone, Debug, PartialEq, Eq, Structural)]
pub struct ControllerState {
    pub left_stick: StickState,
    pub right_stick: StickState,
    pub left_trigger: u8,
    pub right_trigger: u8,
    pub buttons: u16,
}

impl Default for ControllerState {
    /// Sticks centred, triggers and buttons released.
    fn default() -> (state: Self)
        ensures
            state == ControllerState::released(),
            forall|button: Button| !state.pressed(button),
    {
        let state = ControllerState {
            left_stick: StickState { x: 0, y: 0 },
            right_stick: StickState { x: 0, y: 0 },
            left_trigger: 0,
            right_trigger: 0,
            buttons: 0,
        };
        proof {
            ControllerState::lemma_released_holds_nothing();
            assert(state == ControllerState::released());
        }
        state
    }
}

impl ControllerState {
    /// The state with sticks centred and triggers and buttons released.
    pub open spec fn released() -> ControllerState {
        ControllerState {
            left_stick: StickState { x: 0, y: 0 },
            right_stick: StickState { x: 0, y: 0 },
            left_trigger: 0,
            right_trigger: 0,
            buttons: 0,
        }
    }

    /// Whether `button` is held down in this state.
    pub open spec fn pressed(self, button: Button) -> bool {
        self.buttons & button.bit() != 0
    }

    /// This state with the button mask replaced by `buttons`.
    pub open spec fn with_buttons(self, buttons: u16) -> ControllerState {
        ControllerState { buttons, ..self }
    }

    /// The twelve bytes that stand for this state.
    pub open spec fn wire(self) -> Seq<u8> {
        self.left_stick.wire() + self.right_stick.wire() + seq![
            self.left_trigger,
            self.right_trigger,
        ] + u16_le(self.buttons)
    }

    /// The state that the first twelve bytes of `bytes` stand for.
    pub open spec fn of_wire(bytes: Seq<u8>) -> ControllerState
        recommends
            bytes.len() >= 12,
    {
        ControllerState {
            left_stick: StickState::of_wire(bytes.subrange(0, 4)),
            right_stick: StickState::of_wire(bytes.subrange(4, 8)),
            left_trigger: bytes[8],
            right_trigger: bytes[9],
            buttons: u16_of(bytes[10], bytes[11]),
        }
    }

    /// No button is held down in the released state.
    pub proof fn lemma_released_holds_nothing()
        ensures
            forall|button: Button| !Self::released().pressed(button),
    {
        assert forall|button: Button| !Self::released().pressed(button) by {
            let k = button.position();
            assert(0u16 & (1u16 << k) == 0) by (bit_vector);
        }
    }

    /// Tells whether `button` is held down.
    pub fn get(&self, button: Button) -> (held: bool)
        ensures
            held == self.pressed(button),
    {
        self.buttons & button.mask() != 0
    }

    /// Marks `button` as held down. Nothing else changes.
    pub fn set(&mut self, button: Button)
        ensures
            *final(self) == old(self).with_buttons(old(self).buttons | button.bit()),
            forall|other: Button|
                final(self).pressed(other) == (other == button || old(self).pressed(other)),
    {
        self.buttons |= button.mask();
        assert forall|other: Button|
            self.pressed(other) == (other == button || old(self).pressed(other)) by {
            lemma_set_bit(old(self).buttons, button.position(), other.position());
        }
    }

    /// Marks `button` as released. Nothing else changes.
    pub fn clear(&mut self, button: Button)
        ensures
            *final(self) == old(self).with_buttons(old(self).buttons & !button.bit()),
            forall|other: Button|
                final(self).pressed(other) == (other != button && old(self).pressed(other)),
    {
        self.buttons &= !button.mask();
        assert forall|other: Button|
            self.pressed(other) == (other != button && old(self).pressed(other)) by {
            lemma_clear_bit(old(self).buttons, button.position(), other.position());
        }
    }

    /// Flips `button` between held down and released. Nothing else changes.
    pub fn toggle(&mut self, button: Button)
        ensures
            *final(self) == old(self).with_buttons(old(self).buttons ^ button.bit()),
            forall|other: Button|
                final(self).pressed(other) == ((other == button) != old(self).pressed(other)),
    {
        self.buttons ^= button.mask();
        assert forall|other: Button|
            self.pressed(other) == ((other == button) != old(self).pressed(other)) by {
            lemma_toggle_bit(old(self).buttons, button.position(), other.position());
        }
    }

    /// The state with the given analog inputs in which exactly the buttons
    /// of `held` are held down. The bit of the mask that stands for no button
    /// is clear.
    pub fn from_inputs(
        left_stick: StickState,
        right_stick: StickState,
        left_trigger: u8,
        right_trigger: u8,
        held: &[Button],
    ) -> (state: Self)
        ensures
            state.left_stick == left_stick,
            state.right_stick == right_stick,
            state.left_trigger == left_trigger,
            state.right_trigger == right_trigger,
            forall|button: Button| state.pressed(button) <==> held@.contains(button),
            state.buttons & 0x8000 == 0,
    {
        let mut state = ControllerState {
            left_stick,
            right_stick,
            left_trigger,
            right_trigger,
            buttons: 0,
        };
        proof {
            assert forall|button: Button| !state.pressed(button) by {
                let k = button.position();
                assert(0u16 & (1u16 << k) == 0) by (bit_vector);
            }
            assert(0u16 & 0x8000 == 0) by (bit_vector);
        }
        let mut i: usize = 0;
        while i < held.len()
            invariant
                i <= held@.len(),
                state.left_stick == left_stick,
                state.right_stick == right_stick,
                state.left_trigger == left_trigger,
                state.right_trigger == right_trigger,
                forall|button: Button|
                    state.pressed(button) <==> held@.take(i as int).contains(button),
                state.buttons & 0x8000 == 0,
            decreases held@.len() - i,
        {
            let ghost before = state;
            state.set(held[i]);
            proof {
                let seen = held@.take(i as int);
                let more = held@.take(i + 1);
                assert(more =~= seen.push(held@[i as int]));
                assert forall|button: Button|
                    state.pressed(button) <==> more.contains(button) by {
                    if seen.contains(button) {
                        let j = choose|j: int| 0 <= j < seen.len() && seen[j] == button;
                        assert(more[j] == button);
                    }
                    if button == held@[i as int] {
                        assert(more[i as int] == button);
                    }
                }
                let bits = before.buttons;
                let k = held@[i as int].position();
                assert(bits & 0x8000 == 0 && k < 15 ==> (bits | (1u16 << k)) & 0x8000 == 0)
                    by (bit_vector);
            }
            i += 1;
        }
        assert(held@.take(i as int) =~= held@);
        state
    }

    /// Reads a state from its wire form. Every bit pattern is a state: the
    /// bytes are not checked.
    pub fn from_le_bytes(bytes: &[u8; 12]) -> (state: Self)
        ensures
            state == Self::of_wire(bytes@),
    {
        let left_stick = StickState::from_bytes(&[bytes[0], bytes[1], bytes[2], bytes[3]]);
        let right_stick = StickState::from_bytes(&[bytes[4], bytes[5], bytes[6], bytes[7]]);
        let buttons = unpack_u16(bytes[10], bytes[11]);
        ControllerState {
            left_stick,
            right_stick,
            left_trigger: bytes[8],
            right_trigger: bytes[9],
            buttons,
        }
    }

    /// Writes the state in its wire form.
    pub fn to_le_bytes(&self) -> (bytes: [u8; 12])
        ensures
            bytes@ == self.wire(),
    {
        let left_stick = self.left_stick.to_bytes();
        let right_stick = self.right_stick.to_bytes();
        let buttons = pack_u16(self.buttons);
        let bytes = [
            left_stick[0],
            left_stick[1],
            left_stick[2],
            left_stick[3],
            right_stick[0],
            right_stick[1],
            right_stick[2],
            right_stick[3],
            self.left_trigger,
            self.right_trigger,
            buttons[0],
            buttons[1],
        ];
        assert(bytes@ =~= self.wire());
        bytes
    }

    /// Reading what was written gives the state back, exactly.
    pub proof fn lemma_wire_round_trip(self)
        ensures
            self.wire().len() == 12,
            Self::of_wire(self.wire()) == self,
    {
        let w = self.wire();
        self.left_stick.lemma_wire_round_trip();
        self.right_stick.lemma_wire_round_trip();
        lemma_u16_round_trip(self.buttons, 0, 0);
        assert(w.subrange(0, 4) =~= self.left_stick.wire());
        assert(w.subrange(4, 8) =~= self.right_stick.wire());
    }

    /// Writing what was read gives the twelve bytes back, exactly.
    pub proof fn lemma_bytes_round_trip(bytes: Seq<u8>)
        requires
            bytes.len() == 12,
        ensures
            Self::of_wire(bytes).wire() == bytes,
    {
        StickState::lemma_bytes_round_trip(bytes.subrange(0, 4));
        StickState::lemma_bytes_round_trip(bytes.subrange(4, 8));
        lemma_u16_round_trip(0, bytes[10], bytes[11]);
        assert(Self::of_wire(bytes).wire() =~= bytes);
    }
}

} // verus!
